//! Upgrade detection: per-tool "what is the latest version" lookups
//! dispatched by the manifest's upgrade spec, behind a TTL cache so
//! repeated runs do not hammer rate-limited sources.
//!
//! The caller performs the lookups (network and subprocesses), keeps the
//! clock and the cache file; which check each tool needs, what an answer
//! means, what goes into the cache and the order results are reported in
//! are decided here.

use vstd::prelude::*;

use crate::harness::frontmatter::{first_index, lemma_first_index};
use crate::manifest::{
    is_unsupported_on, unpinnable_spec, effective_install, upgrade_for, Resolved, Tool, UpgradeSpec, UpgradeView,
};
use crate::json::{item_views, json_parse, json_view, lemma_item_views, member, member_of, parse_json, str_of, text_of, JsonValue, JsonView};
use crate::platform::Platform;
use crate::text::{
    all_digits, chars_of, find_char_from, is_digit_exec, seq_eq, slice_vec, string_of,
};

verus! {

/// How long a looked-up latest version stays fresh, in seconds.
pub const TTL_SECS: u64 = 86400;

/// How many lookups may run at once.
pub const MAX_CONCURRENT_LOOKUPS: usize = 4;

#[derive(Debug)]
pub struct UpgradeResult {
    pub tool: String,
    pub current: Option<String>,
    pub latest: Option<String>,
    pub upgrade_available: bool,
    /// True when the install method cannot be version-pinned or verified
    /// (curl-piped installers), so "up to date" is a best effort.
    pub unpinnable: bool,
}

#[derive(Debug, Clone, Copy, PartialEq, Eq, Structural)]
pub enum UpgradeCheckState {
    Cached,
    Checked,
    Unavailable,
    NotApplicable,
    Unsupported,
}

#[derive(Debug)]
pub struct UpgradeCheck {
    pub tool: String,
    pub result: Option<UpgradeResult>,
    pub state: UpgradeCheckState,
}

/// What the cache remembers of one lookup.
#[derive(Debug)]
pub struct CacheEntry {
    pub latest: Option<String>,
    pub checked_at: u64,
}

pub open spec fn opt_view(o: Option<String>) -> Option<Seq<char>> {
    match o {
        Some(s) => Some(s@),
        None => None,
    }
}

// --- comparing versions -----------------------------------------------------

fn first_char(s: &[char], c: char) -> (r: Option<usize>)
    ensures
        match r {
            Some(i) => first_index(s@, c) == Some(i as int) && i < s@.len(),
            None => first_index(s@, c) is None,
        },
{
    match find_char_from(s, c, 0) {
        Some(i) => {
            proof {
                lemma_first_index(s@, c, i as int);
            }
            Some(i)
        },
        None => {
            assert(!(exists|i: int| 0 <= i < s@.len() && s@[i] == c));
            None
        },
    }
}

/// The index of the last `c` in `s`, if any.
pub open spec fn last_index(s: Seq<char>, c: char) -> Option<int>
    decreases s.len(),
{
    if s.len() == 0 {
        None
    } else if s.last() == c {
        Some(s.len() - 1)
    } else {
        last_index(s.drop_last(), c)
    }
}

proof fn lemma_last_index(s: Seq<char>, c: char)
    ensures
        match last_index(s, c) {
            Some(i) => 0 <= i < s.len() && s[i] == c,
            None => true,
        },
    decreases s.len(),
{
    if s.len() > 0 && s.last() != c {
        lemma_last_index(s.drop_last(), c);
    }
}

fn last_char(s: &[char], c: char) -> (r: Option<usize>)
    ensures
        match r {
            Some(i) => last_index(s@, c) == Some(i as int) && i < s@.len(),
            None => last_index(s@, c) is None,
        },
{
    proof {
        lemma_last_index(s@, c);
    }
    let mut b = s.len();
    assert(s@.take(b as int) =~= s@);
    while b > 0 && s[b - 1] != c
        invariant
            b <= s@.len(),
            last_index(s@, c) == last_index(s@.take(b as int), c),
        decreases b,
    {
        assert(s@.take(b as int).drop_last() =~= s@.take(b - 1));
        b = b - 1;
    }
    if b == 0 {
        None
    } else {
        Some(b - 1)
    }
}

/// An apt candidate's upstream version: without the `epoch:` before the
/// first `:` and the `-revision` from the first `-` on
/// (`4:15.2.0-5ubuntu1` is `15.2.0`).
pub open spec fn upstream_spec(candidate: Seq<char>) -> Seq<char> {
    let w = match first_index(candidate, ':') {
        Some(i) => candidate.skip(i + 1),
        None => candidate,
    };
    match first_index(w, '-') {
        Some(j) => w.take(j),
        None => w,
    }
}

/// A Homebrew version without a trailing `_<digits>` revision marker
/// (`14.1.0_1` is `14.1.0`); anything else is left as it is.
pub open spec fn brew_upstream_spec(candidate: Seq<char>) -> Seq<char> {
    match last_index(candidate, '_') {
        Some(i) => {
            let revision = candidate.skip(i + 1);
            if revision.len() > 0 && all_digits(revision) { candidate.take(i) } else { candidate }
        },
        None => candidate,
    }
}

/// apt candidates look like `4:15.2.0-5ubuntu1`: only the middle part is
/// comparable with what `--version` reports.
pub fn upstream_of(candidate: &str) -> (r: String)
    ensures
        r@ == upstream_spec(candidate@),
{
    let c = chars_of(candidate);
    let n = c.len();
    let ghost cv = c@;
    let w = match first_char(&c, ':') {
        Some(i) => {
            let x = slice_vec(&c, i + 1, n);
            assert(x@ =~= cv.skip(i + 1));
            x
        },
        None => c,
    };
    let ghost wv = w@;
    assert(wv == match first_index(candidate@, ':') {
        Some(i) => candidate@.skip(i + 1),
        None => candidate@,
    });
    let u = match first_char(&w, '-') {
        Some(j) => {
            let x = slice_vec(&w, 0, j);
            assert(x@ =~= wv.take(j as int));
            x
        },
        None => w,
    };
    assert(u@ =~= upstream_spec(candidate@));
    string_of(&u)
}

/// Homebrew's trailing `_<digits>` rebuild revision removed, and only that.
pub fn brew_upstream_of(candidate: &str) -> (r: String)
    ensures
        r@ == brew_upstream_spec(candidate@),
{
    let c = chars_of(candidate);
    let n = c.len();
    match last_char(&c, '_') {
        Some(i) => {
            let revision = slice_vec(&c, i + 1, n);
            let mut k: usize = 0;
            while k < revision.len() && is_digit_exec(revision[k])
                invariant
                    k <= revision@.len(),
                    forall|j: int| 0 <= j < k ==> crate::text::is_digit(#[trigger] revision@[j]),
                decreases revision.len() - k,
            {
                k = k + 1;
            }
            assert(revision@ =~= c@.skip(i + 1));
            if revision.len() > 0 && k == revision.len() {
                let base = slice_vec(&c, 0, i);
                assert(all_digits(revision@));
                assert(base@ =~= c@.take(i as int));
                string_of(&base)
            } else {
                assert(!all_digits(revision@) || revision@.len() == 0);
                string_of(&c)
            }
        },
        None => string_of(&c),
    }
}

/// An apt candidate's epoch and distro revision never make it read as
/// newer than the same upstream version: `<epoch>:<v>-<revision>` compares
/// equal to `<v>` whenever the epoch has no `:` and `v` has neither `:` nor
/// `-`.
pub proof fn lemma_apt_decoration_is_not_an_upgrade(epoch: Seq<char>, v: Seq<char>, revision: Seq<char>)
    requires
        forall|i: int| 0 <= i < epoch.len() ==> epoch[i] != ':',
        forall|i: int| 0 <= i < v.len() ==> v[i] != ':' && v[i] != '-',
    ensures
        upstream_spec(epoch + seq![':'] + v + seq!['-'] + revision) == v,
        !upgrade_available_spec(UpgradeView::Apt(Seq::empty()), Some(v), Some(epoch + seq![':'] + v + seq!['-'] + revision)),
{
    let c = epoch + seq![':'] + v + seq!['-'] + revision;
    assert(c[epoch.len() as int] == ':');
    assert forall|j: int| 0 <= j < epoch.len() implies c[j] != ':' by {
        assert(c[j] == epoch[j]);
    }
    lemma_first_index(c, ':', epoch.len() as int);
    let w = c.skip(epoch.len() as int + 1);
    assert(w =~= v + seq!['-'] + revision);
    assert(w[v.len() as int] == '-');
    assert forall|j: int| 0 <= j < v.len() implies w[j] != '-' by {
        assert(w[j] == v[j]);
    }
    lemma_first_index(w, '-', v.len() as int);
    assert(w.take(v.len() as int) =~= v);
}

/// A Homebrew rebuild revision never makes a formula read as newer than
/// the upstream version it rebuilds: `<v>_<digits>` compares equal to `<v>`.
pub proof fn lemma_brew_revision_is_not_an_upgrade(v: Seq<char>, revision: Seq<char>)
    requires
        revision.len() > 0,
        all_digits(revision),
    ensures
        brew_upstream_spec(v + seq!['_'] + revision) == v,
        !upgrade_available_spec(UpgradeView::Brew(Seq::empty()), Some(v), Some(v + seq!['_'] + revision)),
{
    let c = v + seq!['_'] + revision;
    lemma_last_index_suffix(c, v.len() as int, '_');
    assert(c.skip(v.len() as int + 1) =~= revision);
    assert(c.take(v.len() as int) =~= v);
}

/// When `s[i]` is `c` and nothing after it is, `c` is last at `i`.
proof fn lemma_last_index_suffix(s: Seq<char>, i: int, c: char)
    requires
        0 <= i < s.len(),
        s[i] == c,
        forall|j: int| i < j < s.len() ==> s[j] != c,
    ensures
        last_index(s, c) == Some(i),
    decreases s.len(),
{
    if s.len() - 1 != i {
        assert forall|j: int| i < j < s.len() - 1 implies s.drop_last()[j] != c by {}
        lemma_last_index_suffix(s.drop_last(), i, c);
    }
}

/// Whether `latest` is an upgrade over `current`: only apt and brew carry
/// packaging decoration, so only they are compared on their upstream part.
pub open spec fn upgrade_available_spec(spec: UpgradeView, current: Option<Seq<char>>, latest: Option<Seq<char>>) -> bool {
    match (current, latest) {
        (Some(c), Some(l)) => match spec {
            UpgradeView::Apt(_) => upstream_spec(l) != c,
            UpgradeView::Brew(_) => brew_upstream_spec(l) != c,
            _ => l != c,
        },
        _ => false,
    }
}

/// Versions compare as they are wherever nothing decorates them. With either
/// version unknown no upgrade is reported. With both known, every check but
/// apt and brew reports an upgrade exactly when the latest version differs
/// from the installed one, and so does apt for a candidate with no `:` and
/// no `-`, and brew for one with no `_`.
pub proof fn lemma_plain_versions_compare_as_they_are(
    spec: UpgradeView,
    current: Option<Seq<char>>,
    latest: Option<Seq<char>>,
)
    ensures
        current is None || latest is None ==> !upgrade_available_spec(spec, current, latest),
        current is Some && latest is Some && !(spec is Apt) && !(spec is Brew) ==> (upgrade_available_spec(
            spec,
            current,
            latest,
        ) <==> latest->0 != current->0),
        current is Some && latest is Some && spec is Apt && !latest->0.contains(':') && !latest->0.contains(
            '-',
        ) ==> (upgrade_available_spec(spec, current, latest) <==> latest->0 != current->0),
        current is Some && latest is Some && spec is Brew && !latest->0.contains('_') ==> (
        upgrade_available_spec(spec, current, latest) <==> latest->0 != current->0),
{
    if let Some(l) = latest {
        lemma_last_index(l, '_');
        if !l.contains('_') {
            if let Some(i) = last_index(l, '_') {
                assert(l[i] == '_');
                assert(l.contains('_'));
            }
        }
    }
}

/// The result for `tool`: whether `latest` is an upgrade over `current`.
pub fn compare(
    tool: &Tool,
    spec: &UpgradeSpec,
    current: Option<String>,
    latest: Option<String>,
    unpinnable: bool,
) -> (r: UpgradeResult)
    ensures
        r.tool@ == tool.name@,
        opt_view(r.current) == opt_view(current),
        opt_view(r.latest) == opt_view(latest),
        r.upgrade_available == upgrade_available_spec(spec@, opt_view(current), opt_view(latest)),
        r.unpinnable == unpinnable,
{
    let upgrade_available = match (&current, &latest) {
        (Some(c), Some(l)) => {
            let cc = chars_of(c.as_str());
            match spec {
                UpgradeSpec::Apt { .. } => !seq_eq(&chars_of(upstream_of(l.as_str()).as_str()), &cc),
                UpgradeSpec::Brew { .. } => !seq_eq(&chars_of(brew_upstream_of(l.as_str()).as_str()), &cc),
                _ => !seq_eq(&chars_of(l.as_str()), &cc),
            }
        },
        _ => false,
    };
    UpgradeResult { tool: tool.name.clone(), current, latest, upgrade_available, unpinnable }
}

// --- one tool's check -------------------------------------------------------------

/// What checking one tool takes: nothing more, or one lookup.
pub enum CheckStep {
    /// Decided without a lookup.
    Done(UpgradeCheck),
    /// Look up the latest version with this spec, then `finish_check`.
    Lookup { spec: UpgradeSpec, unpinnable: bool },
}

/// A cached answer younger than the TTL, unless the check is forced.
pub open spec fn fresh_spec(cached: Option<(Option<Seq<char>>, u64)>, force: bool, now: u64) -> bool {
    match cached {
        Some((_, at)) => !force && (if now >= at { now - at } else { 0 }) < TTL_SECS,
        None => false,
    }
}

/// A cached answer stands for a day: it is used exactly when the check is
/// not forced and it was recorded less than 24 hours before `now` (a clock
/// that went backwards counts as no time passed); a forced check, or no
/// answer at all, always means a lookup.
pub proof fn lemma_cached_answer_lasts_a_day(latest: Option<Seq<char>>, at: u64, force: bool, now: u64)
    ensures
        !fresh_spec(None, force, now),
        force ==> !fresh_spec(Some((latest, at)), force, now),
        !force && at <= now ==> (fresh_spec(Some((latest, at)), force, now) <==> now - at < 24 * 60 * 60),
        !force && now < at ==> fresh_spec(Some((latest, at)), force, now),
{
}

pub open spec fn cache_view(e: Option<CacheEntry>) -> Option<(Option<Seq<char>>, u64)> {
    match e {
        Some(x) => Some((opt_view(x.latest), x.checked_at)),
        None => None,
    }
}

/// A result for `tool` saying what `compare` says of `current` and `latest`.
pub open spec fn result_is(res: Option<UpgradeResult>, tool: Seq<char>, spec: UpgradeView, current: Option<Seq<char>>, latest: Option<Seq<char>>, unpinnable: bool) -> bool {
    match res {
        Some(x) => x.tool@ == tool && opt_view(x.current) == current && opt_view(x.latest) == latest
            && x.upgrade_available == upgrade_available_spec(spec, current, latest) && x.unpinnable == unpinnable,
        None => false,
    }
}

/// What `plan_check` decides: unsupported on the platform, nothing to
/// check, a fresh cached answer, or else a lookup with the tool's upgrade
/// spec.
pub open spec fn plan_ok(
    r: CheckStep,
    tool: Tool,
    current: Option<Seq<char>>,
    cached: Option<(Option<Seq<char>>, u64)>,
    force: bool,
    platform: Platform,
    now: u64,
) -> bool {
    let unsupported = is_unsupported_on(tool, platform);
    let spec = upgrade_for(tool, platform);
    let unpinnable = unpinnable_spec(effective_install(tool, platform));
    let fresh = fresh_spec(cached, force, now);
    let cached_latest = match cached {
        Some(e) => e.0,
        None => None,
    };
    match r {
        CheckStep::Done(c) => c.tool@ == tool.name@ && if unsupported {
            c.result is None && c.state == UpgradeCheckState::Unsupported
        } else if spec is NoCheck {
            c.state == UpgradeCheckState::NotApplicable && result_is(c.result, tool.name@, spec, current, None, unpinnable)
        } else {
            fresh && c.state == UpgradeCheckState::Cached && result_is(c.result, tool.name@, spec, current, cached_latest, unpinnable)
        },
        CheckStep::Lookup { spec: s, unpinnable: u } => !unsupported && !(spec is NoCheck) && !fresh && s@ == spec && u == unpinnable,
    }
}

/// What deciding a check may come to: a tool the platform cannot install
/// is never looked up and is reported unsupported; a tool with nothing to
/// check is never looked up either; and a forced check of any other tool
/// always looks its latest version up, never answering from the cache.
pub proof fn lemma_forced_checks_look_up(
    r: CheckStep,
    tool: Tool,
    current: Option<Seq<char>>,
    cached: Option<(Option<Seq<char>>, u64)>,
    force: bool,
    platform: Platform,
    now: u64,
)
    requires
        plan_ok(r, tool, current, cached, force, platform, now),
    ensures
        is_unsupported_on(tool, platform) ==> (r matches CheckStep::Done(c) && c.state == UpgradeCheckState::Unsupported),
        upgrade_for(tool, platform) is NoCheck ==> r is Done,
        force && !is_unsupported_on(tool, platform) && !(upgrade_for(tool, platform) is NoCheck) ==> r is Lookup,
{
}

/// Decides one tool's check from its cached answer and the time `now`:
/// unsupported on `platform`, nothing to check, a fresh cached answer, or a
/// lookup to perform.
pub fn plan_check(
    tool: &Tool,
    current: Option<String>,
    cached: Option<CacheEntry>,
    force: bool,
    platform: Platform,
    now: u64,
) -> (r: CheckStep)
    ensures
        plan_ok(r, *tool, opt_view(current), cache_view(cached), force, platform, now),
{
    let unpinnable = match tool.resolve(platform) {
        Resolved::Supported(effective) => effective.is_unpinnable(),
        Resolved::Unsupported(_) => {
            return CheckStep::Done(UpgradeCheck { tool: tool.name.clone(), result: None, state: UpgradeCheckState::Unsupported });
        },
    };
    let spec = match tool.upgrade_spec_for(platform) {
        Some(s) => s,
        None => {
            return CheckStep::Done(UpgradeCheck { tool: tool.name.clone(), result: None, state: UpgradeCheckState::Unsupported });
        },
    };
    if let UpgradeSpec::NoCheck {} = spec {
        let result = compare(tool, &spec, current, None, unpinnable);
        return CheckStep::Done(UpgradeCheck { tool: tool.name.clone(), result: Some(result), state: UpgradeCheckState::NotApplicable });
    }
    let fresh = match &cached {
        Some(entry) => !force && now.saturating_sub(entry.checked_at) < TTL_SECS,
        None => false,
    };
    if fresh {
        let latest = match cached {
            Some(entry) => entry.latest,
            None => None,
        };
        let result = compare(tool, &spec, current, latest, unpinnable);
        return CheckStep::Done(UpgradeCheck { tool: tool.name.clone(), result: Some(result), state: UpgradeCheckState::Cached });
    }
    CheckStep::Lookup { spec, unpinnable }
}

/// A lookup's answer, `latest` (none when the source could not say), made
/// into the tool's check and, when there was an answer, the cache entry
/// stamped `now`.
pub fn finish_check(
    tool: &Tool,
    spec: &UpgradeSpec,
    current: Option<String>,
    latest: Option<String>,
    unpinnable: bool,
    now: u64,
) -> (r: (UpgradeCheck, Option<CacheEntry>))
    ensures
        r.0.tool@ == tool.name@,
        r.0.state == (if latest is Some { UpgradeCheckState::Checked } else { UpgradeCheckState::Unavailable }),
        result_is(r.0.result, tool.name@, spec@, opt_view(current), opt_view(latest), unpinnable),
        cache_view(r.1) == match latest {
            Some(l) => Some((Some(l@), now)),
            None => None::<(Option<Seq<char>>, u64)>,
        },
{
    let state = if latest.is_some() { UpgradeCheckState::Checked } else { UpgradeCheckState::Unavailable };
    let entry = match &latest {
        Some(l) => Some(CacheEntry { latest: Some(l.clone()), checked_at: now }),
        None => None,
    };
    let result = compare(tool, spec, current, latest, unpinnable);
    (UpgradeCheck { tool: tool.name.clone(), result: Some(result), state }, entry)
}

// --- the cache ----------------------------------------------------------------

/// A cache entry as plain values: the latest version and when it was
/// looked up.
pub type EntryView = (Option<Seq<char>>, u64);

pub open spec fn entries_view(c: Seq<(String, CacheEntry)>) -> Seq<(Seq<char>, EntryView)> {
    c.map_values(|e: (String, CacheEntry)| (e.0@, (opt_view(e.1.latest), e.1.checked_at)))
}

/// Where tool `name`'s entry is, if it has one.
pub open spec fn entry_index(c: Seq<(Seq<char>, EntryView)>, name: Seq<char>) -> Option<int>
    decreases c.len(),
{
    if c.len() == 0 {
        None
    } else if c.last().0 == name {
        Some(c.len() - 1)
    } else {
        entry_index(c.drop_last(), name)
    }
}

proof fn lemma_entry_index(c: Seq<(Seq<char>, EntryView)>, name: Seq<char>)
    ensures
        match entry_index(c, name) {
            Some(i) => 0 <= i < c.len() && c[i].0 == name,
            None => forall|j: int| 0 <= j < c.len() ==> (#[trigger] c[j]).0 != name,
        },
    decreases c.len(),
{
    if c.len() > 0 && c.last().0 != name {
        lemma_entry_index(c.drop_last(), name);
        assert forall|j: int| 0 <= j < c.len() - 1 implies c.drop_last()[j] == c[j] by {}
    }
}

/// Every tool's last lookup, one entry per tool.
#[derive(Debug)]
pub struct Cache {
    pub entries: Vec<(String, CacheEntry)>,
}

impl Cache {
    /// What the cache says of each tool.
    pub open spec fn lookup(&self, name: Seq<char>) -> Option<EntryView> {
        let c = entries_view(self.entries@);
        match entry_index(c, name) {
            Some(i) => Some(c[i].1),
            None => None,
        }
    }

    pub fn new() -> (r: Cache)
        ensures
            forall|name: Seq<char>| r.lookup(name) is None,
    {
        Cache { entries: Vec::new() }
    }

    fn index_of(&self, name: &str) -> (r: Option<usize>)
        ensures
            match r {
                Some(i) => entry_index(entries_view(self.entries@), name@) == Some(i as int) && i < self.entries@.len(),
                None => entry_index(entries_view(self.entries@), name@) is None,
            },
    {
        let ghost cv = entries_view(self.entries@);
        let nc = chars_of(name);
        let mut b = self.entries.len();
        assert(cv.take(b as int) =~= cv);
        while b > 0 && !seq_eq(&chars_of(self.entries[b - 1].0.as_str()), &nc)
            invariant
                b <= self.entries@.len(),
                cv == entries_view(self.entries@),
                nc@ == name@,
                entry_index(cv, name@) == entry_index(cv.take(b as int), name@),
            decreases b,
        {
            assert(cv.take(b as int).drop_last() =~= cv.take(b - 1));
            b = b - 1;
        }
        if b > 0 {
            assert(cv.take(b as int).last() == cv[b - 1]);
            Some(b - 1)
        } else {
            assert(cv.take(0) =~= Seq::<(Seq<char>, EntryView)>::empty());
            None
        }
    }

    /// Tool `name`'s entry, when the cache has one.
    pub fn get(&self, name: &str) -> (r: Option<&CacheEntry>)
        ensures
            match r {
                Some(e) => self.lookup(name@) == Some((opt_view(e.latest), e.checked_at)),
                None => self.lookup(name@) is None,
            },
    {
        match self.index_of(name) {
            Some(i) => Some(&self.entries[i].1),
            None => None,
        }
    }

    /// Records `entry` as tool `name`'s, replacing what was there.
    pub fn insert(&mut self, name: String, entry: CacheEntry)
        ensures
            final(self).lookup(name@) == Some((opt_view(entry.latest), entry.checked_at)),
            forall|other: Seq<char>| other != name@ ==> final(self).lookup(other) == old(self).lookup(other),
    {
        let ghost cv = entries_view(self.entries@);
        let ghost ev: EntryView = (opt_view(entry.latest), entry.checked_at);
        let ghost nv = name@;
        proof {
            lemma_entry_index(cv, nv);
        }
        match self.index_of(name.as_str()) {
            Some(i) => {
                self.entries.set(i, (name, entry));
                proof {
                    let nc = entries_view(self.entries@);
                    assert(nc =~= cv.update(i as int, (nv, ev)));
                    lemma_entry_update(cv, i as int, nv, ev, nv);
                    assert forall|other: Seq<char>| other != nv implies entry_index(nc, other) == entry_index(cv, other) && match entry_index(cv, other) {
                        Some(j) => nc[j] == cv[j],
                        None => true,
                    } by {
                        lemma_entry_update(cv, i as int, nv, ev, other);
                        lemma_entry_index(cv, other);
                    }
                    assert forall|other: Seq<char>| other != nv implies self.lookup(other) == old(self).lookup(other) by {
                        lemma_entry_update(cv, i as int, nv, ev, other);
                        lemma_entry_index(cv, other);
                    }
                }
            },
            None => {
                self.entries.push((name, entry));
                proof {
                    let nc = entries_view(self.entries@);
                    assert(nc =~= cv.push((nv, ev)));
                    assert(nc.drop_last() =~= cv);
                    assert forall|other: Seq<char>| other != nv implies entry_index(nc, other) == entry_index(cv, other) && match entry_index(cv, other) {
                        Some(j) => nc[j] == cv[j],
                        None => true,
                    } by {
                        lemma_entry_index(cv, other);
                    }
                    assert forall|other: Seq<char>| other != nv implies self.lookup(other) == old(self).lookup(other) by {
                        lemma_entry_index(cv, other);
                    }
                }
            },
        }
    }
}

/// Replacing the value at the index a key is found at leaves the lookup
/// of every other key alone.
proof fn lemma_entry_update(c: Seq<(Seq<char>, EntryView)>, i: int, name: Seq<char>, v: EntryView, other: Seq<char>)
    requires
        entry_index(c, name) == Some(i),
    ensures
        entry_index(c.update(i, (name, v)), name) == Some(i),
        other != name ==> entry_index(c.update(i, (name, v)), other) == entry_index(c, other),
    decreases c.len(),
{
    lemma_entry_index(c, name);
    let u = c.update(i, (name, v));
    if i == c.len() - 1 {
        assert(u.drop_last() =~= c.drop_last());
    } else {
        assert(u.drop_last() =~= c.drop_last().update(i, (name, v)));
        lemma_entry_update(c.drop_last(), i, name, v, other);
    }
}

// --- results in manifest order ------------------------------------------------

pub type ResultView = (Seq<char>, Option<Seq<char>>, Option<Seq<char>>, bool, bool);

pub type CheckView = (Seq<char>, UpgradeCheckState, Option<ResultView>);

pub open spec fn check_view(c: UpgradeCheck) -> CheckView {
    (c.tool@, c.state, match c.result {
        Some(r) => Some((r.tool@, opt_view(r.current), opt_view(r.latest), r.upgrade_available, r.unpinnable)),
        None => None,
    })
}

/// The last completed check for tool `name`.
pub open spec fn last_check(cs: Seq<CheckView>, name: Seq<char>) -> Option<CheckView>
    decreases cs.len(),
{
    if cs.len() == 0 {
        None
    } else if cs.last().0 == name {
        Some(cs.last())
    } else {
        last_check(cs.drop_last(), name)
    }
}

/// The checks of the first `n` names of `order`, each the last one that
/// completed for that tool; a tool with none is left out.
pub open spec fn ordered_upto(order: Seq<Seq<char>>, cs: Seq<CheckView>, n: int) -> Seq<CheckView>
    decreases n,
{
    if n <= 0 {
        Seq::empty()
    } else {
        ordered_upto(order, cs, n - 1) + match last_check(cs, order[n - 1]) {
            Some(c) => seq![c],
            None => Seq::empty(),
        }
    }
}

fn duplicate_result(r: &UpgradeResult) -> (d: UpgradeResult)
    ensures
        d.tool@ == r.tool@ && opt_view(d.current) == opt_view(r.current) && opt_view(d.latest) == opt_view(r.latest)
            && d.upgrade_available == r.upgrade_available && d.unpinnable == r.unpinnable,
{
    UpgradeResult {
        tool: r.tool.clone(),
        current: match &r.current { Some(c) => Some(c.clone()), None => None },
        latest: match &r.latest { Some(l) => Some(l.clone()), None => None },
        upgrade_available: r.upgrade_available,
        unpinnable: r.unpinnable,
    }
}

fn duplicate_check(c: &UpgradeCheck) -> (d: UpgradeCheck)
    ensures
        check_view(d) == check_view(*c),
{
    UpgradeCheck {
        tool: c.tool.clone(),
        result: match &c.result { Some(r) => Some(duplicate_result(r)), None => None },
        state: c.state,
    }
}

/// The completed checks, which arrive in whatever order the lookups
/// finished, put back in manifest order: for each tool of `order`, the last
/// check that completed for it.
pub fn in_manifest_order(order: &Vec<String>, completed: &Vec<UpgradeCheck>) -> (r: Vec<UpgradeCheck>)
    ensures
        r@.map_values(|c: UpgradeCheck| check_view(c)) == ordered_upto(
            order@.map_values(|s: String| s@),
            completed@.map_values(|c: UpgradeCheck| check_view(c)),
            order@.len() as int,
        ),
{
    let ghost ov = order@.map_values(|s: String| s@);
    let ghost cv = completed@.map_values(|c: UpgradeCheck| check_view(c));
    let mut out: Vec<UpgradeCheck> = Vec::new();
    let mut k: usize = 0;
    while k < order.len()
        invariant
            k <= order@.len(),
            ov == order@.map_values(|s: String| s@),
            cv == completed@.map_values(|c: UpgradeCheck| check_view(c)),
            out@.map_values(|c: UpgradeCheck| check_view(c)) == ordered_upto(ov, cv, k as int),
        decreases order.len() - k,
    {
        let name = chars_of(order[k].as_str());
        let mut b = completed.len();
        assert(cv.take(b as int) =~= cv);
        while b > 0 && !seq_eq(&chars_of(completed[b - 1].tool.as_str()), &name)
            invariant
                b <= completed@.len(),
                cv == completed@.map_values(|c: UpgradeCheck| check_view(c)),
                name@ == ov[k as int],
                k < ov.len(),
                last_check(cv, ov[k as int]) == last_check(cv.take(b as int), ov[k as int]),
            decreases b,
        {
            assert(cv.take(b as int).drop_last() =~= cv.take(b - 1));
            assert(cv[b - 1] == check_view(completed@[b - 1]));
            b = b - 1;
        }
        let ghost before = out@.map_values(|c: UpgradeCheck| check_view(c));
        if b > 0 {
            assert(cv[b - 1] == check_view(completed@[b - 1]));
            assert(cv.take(b as int).last() == cv[b - 1]);
            out.push(duplicate_check(&completed[b - 1]));
            assert(out@.map_values(|c: UpgradeCheck| check_view(c)) =~= before.push(cv[b - 1]));
        } else {
            assert(cv.take(0) =~= Seq::<CheckView>::empty());
        }
        assert(out@.map_values(|c: UpgradeCheck| check_view(c)) =~= ordered_upto(ov, cv, k + 1));
        k = k + 1;
    }
    out
}

// --- reading what the lookups answer -------------------------------------------

/// One entry of Node's release index, as plain values: `lts` is `None`
/// when the entry has no `lts` field, `Some(false)` when it is `false`,
/// `Some(true)` for any other value (a release line's name).
#[derive(Debug)]
pub struct DistRelease {
    pub lts: Option<bool>,
    pub version: Option<String>,
}

/// The first long-term-support release in `index`, newest first as Node
/// lists them.
pub open spec fn first_lts(index: Seq<DistRelease>) -> Option<int>
    decreases index.len(),
{
    if index.len() == 0 {
        None
    } else if index[0].lts == Some(true) {
        Some(0)
    } else {
        match first_lts(index.drop_first()) {
            Some(i) => Some(i + 1),
            None => None,
        }
    }
}

proof fn lemma_first_lts_bounds(index: Seq<DistRelease>)
    ensures
        first_lts(index) matches Some(i) ==> 0 <= i < index.len(),
    decreases index.len(),
{
    if index.len() > 0 {
        lemma_first_lts_bounds(index.drop_first());
    }
}

/// The version nvm would install as the latest LTS: the first LTS entry's
/// version without its `v`.
pub open spec fn nvm_latest_spec(index: Seq<DistRelease>) -> Option<Seq<char>> {
    match first_lts(index) {
        Some(i) => match index[i].version {
            Some(v) => Some(crate::registry::strip_v_spec(v@)),
            None => None,
        },
        None => None,
    }
}

pub fn nvm_latest_lts(index: &[DistRelease]) -> (r: Option<String>)
    ensures
        opt_view(r) == nvm_latest_spec(index@),
{
    let mut i: usize = 0;
    assert(index@.skip(0) =~= index@);
    while i < index.len()
        invariant
            i <= index@.len(),
            first_lts(index@) == match first_lts(index@.skip(i as int)) {
                Some(j) => Some(j + i),
                None => None,
            },
        decreases index.len() - i,
    {
        assert(index@.skip(i as int)[0] == index@[i as int]);
        assert(index@.skip(i as int).drop_first() =~= index@.skip(i + 1));
        if index[i].lts == Some(true) {
            proof {
                lemma_first_lts_bounds(index@);
            }
            return match &index[i].version {
                Some(v) => Some(crate::registry::strip_v(v.as_str())),
                None => None,
            };
        }
        i = i + 1;
    }
    None
}

/// The latest release's tag without its `v`.
pub fn github_latest(tag_name: Option<&str>) -> (r: Option<String>)
    ensures
        match tag_name {
            Some(t) => r is Some && r->0@ == crate::registry::strip_v_spec(t@),
            None => r is None,
        },
{
    match tag_name {
        Some(t) => Some(crate::registry::strip_v(t)),
        None => None,
    }
}

/// The stable version of the first formula `brew info --json=v2` lists;
/// `stables[i]` is the `versions.stable` of the `i`th.
pub fn brew_latest(stables: &[Option<String>]) -> (r: Option<String>)
    ensures
        match (if stables@.len() > 0 { opt_view(stables@[0]) } else { None }) {
            Some(v) => r is Some && r->0@ == v,
            None => r is None,
        },
{
    if stables.len() == 0 {
        return None;
    }
    match &stables[0] {
        Some(v) => Some(v.as_str().to_owned()),
        None => None,
    }
}

/// The stable version of the first formula in `brew info --json=v2`'s
/// output (`formulae[0].versions.stable`), or none.
pub open spec fn brew_output_spec(stdout: Seq<char>) -> Option<Seq<char>> {
    match json_parse(stdout) {
        Some(v) => match member(v, "formulae"@) {
            Some(JsonView::Array(items)) => if items.len() > 0 {
                match member(items[0], "versions"@) {
                    Some(versions) => str_of(member(versions, "stable"@)),
                    None => None,
                }
            } else {
                None
            },
            _ => None,
        },
        None => None,
    }
}

pub fn brew_latest_from_output(stdout: &str) -> (r: Option<String>)
    ensures
        opt_view(r) == brew_output_spec(stdout@),
{
    let v = match parse_json(stdout) {
        Some(v) => v,
        None => {
            return None;
        },
    };
    let stables: Vec<Option<String>> = match member_of(&v, "formulae") {
        Some(JsonValue::Array(items)) => {
            proof {
                lemma_item_views(items@, items@.len() as int);
                assert(json_view(JsonValue::Array(*items)) == JsonView::Array(item_views(items@, items@.len() as int)));
            }
            if items.len() > 0 {
                let stable = match member_of(&items[0], "versions") {
                    Some(versions) => text_of(member_of(versions, "stable")),
                    None => None,
                };
                vec![stable]
            } else {
                Vec::new()
            }
        },
        _ => Vec::new(),
    };
    brew_latest(&stables)
}

} // verus!
