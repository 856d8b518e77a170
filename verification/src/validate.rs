//! The manifest's structural checks: what the type system cannot express,
//! run on every load so a hand-edited manifest fails fast and specifically.
//!
//! The checks run in a fixed order and the first failure is reported:
//! schema version, tool names, dependencies, platform overrides, config
//! packages, profiles, and finally dependency cycles.

use vstd::prelude::*;

use crate::graph::{acyclic, cycle_indices, topo_order};
use crate::manifest::{ConfigPackage, Manifest, PlatformOverride, Profile, Tool, SCHEMA_VERSION};
use crate::platform::{platform_key, Platform};
use crate::harness::frontmatter::{join, join_strings};
use crate::text::{chars_of, decimal, push_decimal, push_str, string_of, trim, trim_vec};

verus! {

/// Why a manifest is invalid.
#[derive(Debug, Clone)]
pub enum ManifestError {
    SchemaVersion { found: u32 },
    EmptyName,
    DuplicateTool { name: String },
    UnknownDependency { tool: String, dep: String },
    SelfDependency { tool: String },
    UnknownPlatform { tool: String, key: String },
    UnsupportedWithSubstitute { tool: String, key: String },
    DuplicateConfig { name: String },
    ConfigUnknownTool { config: String, tool: String },
    ProfileUnknownTag { profile: String, tag: String },
    /// The `requires` edges have a cycle; the names are of the tools it
    /// leaves unordered.
    Cycle { tools: Vec<String> },
}

/// A [`ManifestError`] with its names as character sequences.
pub enum ErrorView {
    SchemaVersion(u32),
    EmptyName,
    DuplicateTool(Seq<char>),
    UnknownDependency(Seq<char>, Seq<char>),
    SelfDependency(Seq<char>),
    UnknownPlatform(Seq<char>, Seq<char>),
    UnsupportedWithSubstitute(Seq<char>, Seq<char>),
    DuplicateConfig(Seq<char>),
    ConfigUnknownTool(Seq<char>, Seq<char>),
    ProfileUnknownTag(Seq<char>, Seq<char>),
    Cycle(Seq<Seq<char>>),
}

impl View for ManifestError {
    type V = ErrorView;

    open spec fn view(&self) -> ErrorView {
        match self {
            ManifestError::SchemaVersion { found } => ErrorView::SchemaVersion(*found),
            ManifestError::EmptyName => ErrorView::EmptyName,
            ManifestError::DuplicateTool { name } => ErrorView::DuplicateTool(name@),
            ManifestError::UnknownDependency { tool, dep } => ErrorView::UnknownDependency(tool@, dep@),
            ManifestError::SelfDependency { tool } => ErrorView::SelfDependency(tool@),
            ManifestError::UnknownPlatform { tool, key } => ErrorView::UnknownPlatform(tool@, key@),
            ManifestError::UnsupportedWithSubstitute { tool, key } => ErrorView::UnsupportedWithSubstitute(tool@, key@),
            ManifestError::DuplicateConfig { name } => ErrorView::DuplicateConfig(name@),
            ManifestError::ConfigUnknownTool { config, tool } => ErrorView::ConfigUnknownTool(config@, tool@),
            ManifestError::ProfileUnknownTag { profile, tag } => ErrorView::ProfileUnknownTag(profile@, tag@),
            ManifestError::Cycle { tools } => ErrorView::Cycle(tools@.map_values(|s: String| s@)),
        }
    }
}

// --- each check, stated --------------------------------------------------

pub open spec fn some_tool_named(tools: Seq<Tool>, name: Seq<char>) -> bool {
    exists|j: int| 0 <= j < tools.len() && #[trigger] tools[j].name@ == name
}

pub open spec fn named_before(tools: Seq<Tool>, i: int, name: Seq<char>) -> bool {
    exists|j: int| 0 <= j < i && #[trigger] tools[j].name@ == name
}

/// The first tool, from `i` on, with an empty or repeated name.
pub open spec fn name_problem(tools: Seq<Tool>, i: int) -> Option<ErrorView>
    decreases tools.len() - i,
{
    if i < 0 || i >= tools.len() {
        None
    } else if trim(tools[i].name@).len() == 0 {
        Some(ErrorView::EmptyName)
    } else if named_before(tools, i, tools[i].name@) {
        Some(ErrorView::DuplicateTool(tools[i].name@))
    } else {
        name_problem(tools, i + 1)
    }
}

/// The first bad entry, from `k` on, of tool `i`'s `requires`.
pub open spec fn dep_problem_of(tools: Seq<Tool>, i: int, k: int) -> Option<ErrorView>
    decreases tools[i].requires@.len() - k,
{
    let reqs = tools[i].requires@;
    if k < 0 || k >= reqs.len() {
        None
    } else if !some_tool_named(tools, reqs[k]@) {
        Some(ErrorView::UnknownDependency(tools[i].name@, reqs[k]@))
    } else if reqs[k]@ == tools[i].name@ {
        Some(ErrorView::SelfDependency(tools[i].name@))
    } else {
        dep_problem_of(tools, i, k + 1)
    }
}

/// The first bad dependency of any tool from `i` on.
pub open spec fn dep_problem(tools: Seq<Tool>, i: int) -> Option<ErrorView>
    decreases tools.len() - i,
{
    if i < 0 || i >= tools.len() {
        None
    } else {
        match dep_problem_of(tools, i, 0) {
            Some(e) => Some(e),
            None => dep_problem(tools, i + 1),
        }
    }
}

pub open spec fn substitutes(o: PlatformOverride) -> bool {
    o.detect is Some || o.install is Some || o.upgrade is Some || o.requires is Some
        || o.post_install is Some
}

/// The override problem of one tool is found at or before any override that
/// is one.
proof fn lemma_override_problem_of_found(tool: Tool, j: int, k: int)
    requires
        0 <= j <= k < tool.platform_overrides@.len(),
        !known_platform_key(tool.platform_overrides@[k].0@) || (tool.platform_overrides@[k].1.unsupported is Some
            && substitutes(tool.platform_overrides@[k].1)),
    ensures
        override_problem_of(tool, j) is Some,
    decreases k - j,
{
    if j < k {
        lemma_override_problem_of_found(tool, j + 1, k);
    }
}

/// Some tool's override problem is found at or before that tool.
proof fn lemma_override_problem_found(tools: Seq<Tool>, j: int, i: int)
    requires
        0 <= j <= i < tools.len(),
        override_problem_of(tools[i], 0) is Some,
    ensures
        override_problem(tools, j) is Some,
    decreases i - j,
{
    if j < i {
        lemma_override_problem_found(tools, j + 1, i);
    }
}

/// A platform override that declares the platform unsupported and also
/// substitutes anything for it (a detect, an install, an upgrade check,
/// requires or post-install steps) makes the whole manifest invalid.
pub proof fn lemma_unsupported_override_substituting_is_rejected(m: Manifest, i: int, k: int)
    requires
        0 <= i < m.tools@.len(),
        0 <= k < m.tools@[i].platform_overrides@.len(),
        m.tools@[i].platform_overrides@[k].1.unsupported is Some,
        ({
            let o = m.tools@[i].platform_overrides@[k].1;
            o.detect is Some || o.install is Some || o.upgrade is Some || o.requires is Some || o.post_install is Some
        }),
    ensures
        validate_spec(m) is Some,
{
    lemma_override_problem_of_found(m.tools@[i], 0, k);
    lemma_override_problem_found(m.tools@, 0, i);
}

/// A platform override keyed by anything but `linux` or `macos` makes the
/// whole manifest invalid.
pub proof fn lemma_unknown_platform_override_is_rejected(m: Manifest, i: int, k: int)
    requires
        0 <= i < m.tools@.len(),
        0 <= k < m.tools@[i].platform_overrides@.len(),
        m.tools@[i].platform_overrides@[k].0@ != platform_key(Platform::Linux),
        m.tools@[i].platform_overrides@[k].0@ != platform_key(Platform::MacOS),
    ensures
        validate_spec(m) is Some,
{
    lemma_override_problem_of_found(m.tools@[i], 0, k);
    lemma_override_problem_found(m.tools@, 0, i);
}

pub open spec fn known_platform_key(key: Seq<char>) -> bool {
    key == platform_key(Platform::Linux) || key == platform_key(Platform::MacOS)
}

/// The first bad override, from `k` on, of one tool.
pub open spec fn override_problem_of(tool: Tool, k: int) -> Option<ErrorView>
    decreases tool.platform_overrides@.len() - k,
{
    let overs = tool.platform_overrides@;
    if k < 0 || k >= overs.len() {
        None
    } else if !known_platform_key(overs[k].0@) {
        Some(ErrorView::UnknownPlatform(tool.name@, overs[k].0@))
    } else if overs[k].1.unsupported is Some && substitutes(overs[k].1) {
        Some(ErrorView::UnsupportedWithSubstitute(tool.name@, overs[k].0@))
    } else {
        override_problem_of(tool, k + 1)
    }
}

pub open spec fn override_problem(tools: Seq<Tool>, i: int) -> Option<ErrorView>
    decreases tools.len() - i,
{
    if i < 0 || i >= tools.len() {
        None
    } else {
        match override_problem_of(tools[i], 0) {
            Some(e) => Some(e),
            None => override_problem(tools, i + 1),
        }
    }
}

/// The first config package, from `c` on, that repeats a name or requires
/// an unknown tool.
pub open spec fn config_problem(tools: Seq<Tool>, configs: Seq<ConfigPackage>, c: int) -> Option<
    ErrorView,
>
    decreases configs.len() - c,
{
    if c < 0 || c >= configs.len() {
        None
    } else if exists|d: int| 0 <= d < c && #[trigger] configs[d].name@ == configs[c].name@ {
        Some(ErrorView::DuplicateConfig(configs[c].name@))
    } else if configs[c].requires_tool is Some && !some_tool_named(
        tools,
        configs[c].requires_tool->0@,
    ) {
        Some(ErrorView::ConfigUnknownTool(configs[c].name@, configs[c].requires_tool->0@))
    } else {
        config_problem(tools, configs, c + 1)
    }
}

/// Some tool carries `tag`.
pub open spec fn tag_known(tools: Seq<Tool>, tag: Seq<char>) -> bool {
    exists|j: int, t: int|
        0 <= j < tools.len() && 0 <= t < tools[j].tags@.len() && #[trigger] tools[j].tags@[t]@ == tag
}

pub open spec fn profile_problem_of(tools: Seq<Tool>, name: Seq<char>, profile: Profile, t: int) -> Option<
    ErrorView,
>
    decreases profile.tags@.len() - t,
{
    if t < 0 || t >= profile.tags@.len() {
        None
    } else if !tag_known(tools, profile.tags@[t]@) {
        Some(ErrorView::ProfileUnknownTag(name, profile.tags@[t]@))
    } else {
        profile_problem_of(tools, name, profile, t + 1)
    }
}

pub open spec fn profile_problem(tools: Seq<Tool>, profiles: Seq<(String, Profile)>, p: int) -> Option<
    ErrorView,
>
    decreases profiles.len() - p,
{
    if p < 0 || p >= profiles.len() {
        None
    } else {
        match profile_problem_of(tools, profiles[p].0@, profiles[p].1, 0) {
            Some(e) => Some(e),
            None => profile_problem(tools, profiles, p + 1),
        }
    }
}

/// The names of the tools a cycle leaves unordered, in manifest order.
pub open spec fn cycle_names(tools: Seq<Tool>) -> Seq<Seq<char>> {
    cycle_indices(tools, tools.len() as int).map_values(|i: usize| tools[i as int].name@)
}

/// The outcome of validation: the first failing check, in order.
pub open spec fn validate_spec(m: Manifest) -> Option<ErrorView> {
    if m.meta.schema_version != SCHEMA_VERSION {
        Some(ErrorView::SchemaVersion(m.meta.schema_version))
    } else if name_problem(m.tools@, 0) is Some {
        name_problem(m.tools@, 0)
    } else if dep_problem(m.tools@, 0) is Some {
        dep_problem(m.tools@, 0)
    } else if override_problem(m.tools@, 0) is Some {
        override_problem(m.tools@, 0)
    } else if config_problem(m.tools@, m.configs@, 0) is Some {
        config_problem(m.tools@, m.configs@, 0)
    } else if profile_problem(m.tools@, m.profile@, 0) is Some {
        profile_problem(m.tools@, m.profile@, 0)
    } else if !acyclic(m.tools@) {
        Some(ErrorView::Cycle(cycle_names(m.tools@)))
    } else {
        None
    }
}


// --- what a valid manifest guarantees ----------------------------------------

/// Tool `i` has a name with more than blanks in it, and no tool before it
/// has the same one.
pub open spec fn name_ok(tools: Seq<Tool>, i: int) -> bool {
    &&& trim(tools[i].name@).len() > 0
    &&& forall|j: int| 0 <= j < i ==> #[trigger] tools[j].name@ != tools[i].name@
}

/// Entry `k` of tool `i`'s `requires` names some tool, and not tool `i`.
pub open spec fn dep_ok(tools: Seq<Tool>, i: int, k: int) -> bool {
    &&& exists|j: int| 0 <= j < tools.len() && #[trigger] tools[j].name@ == tools[i].requires@[k]@
    &&& tools[i].requires@[k]@ != tools[i].name@
}

pub open spec fn deps_ok(tools: Seq<Tool>, i: int) -> bool {
    forall|k: int| 0 <= k < tools[i].requires@.len() ==> #[trigger] dep_ok(tools, i, k)
}

/// An override is keyed by `linux` or `macos`, and does not both declare
/// its platform unsupported and substitute anything for it.
pub open spec fn override_ok(over: (String, PlatformOverride)) -> bool {
    let o = over.1;
    &&& over.0@ == platform_key(Platform::Linux) || over.0@ == platform_key(Platform::MacOS)
    &&& o.unsupported is None || (o.detect is None && o.install is None && o.upgrade is None && o.requires is None
        && o.post_install is None)
}

pub open spec fn overrides_ok(tool: Tool) -> bool {
    forall|k: int| 0 <= k < tool.platform_overrides@.len() ==> #[trigger] override_ok(tool.platform_overrides@[k])
}

/// Config package `c` has a name no earlier package has, and a tool it
/// requires is one of the manifest's.
pub open spec fn config_ok(tools: Seq<Tool>, configs: Seq<ConfigPackage>, c: int) -> bool {
    &&& forall|d: int| 0 <= d < c ==> #[trigger] configs[d].name@ != configs[c].name@
    &&& configs[c].requires_tool is Some ==> exists|j: int|
        0 <= j < tools.len() && #[trigger] tools[j].name@ == configs[c].requires_tool->0@
}

/// Every tag a profile selects is carried by some tool.
pub open spec fn profile_ok(tools: Seq<Tool>, profile: Profile) -> bool {
    forall|t: int| 0 <= t < profile.tags@.len() ==> #[trigger] tag_known(tools, profile.tags@[t]@)
}

/// Everything a valid manifest guarantees: the schema version this build
/// speaks, named and distinct tools whose `requires` name other tools,
/// overrides for known platforms that do not both drop and replace a tool,
/// distinct config packages needing only known tools, profiles selecting
/// only tags in use, and an install order for all the tools.
pub open spec fn manifest_sound(m: Manifest) -> bool {
    let tools = m.tools@;
    &&& m.meta.schema_version == SCHEMA_VERSION
    &&& forall|i: int| 0 <= i < tools.len() ==> #[trigger] name_ok(tools, i)
    &&& forall|i: int| 0 <= i < tools.len() ==> #[trigger] deps_ok(tools, i)
    &&& forall|i: int| 0 <= i < tools.len() ==> #[trigger] overrides_ok(tools[i])
    &&& forall|c: int| 0 <= c < m.configs@.len() ==> #[trigger] config_ok(tools, m.configs@, c)
    &&& forall|p: int| 0 <= p < m.profile@.len() ==> #[trigger] profile_ok(tools, m.profile@[p].1)
    &&& acyclic(tools)
}

/// A manifest passes validation exactly when it is sound: every check
/// rejects what it is for, and nothing else.
pub proof fn lemma_valid_exactly_when_sound(m: Manifest)
    ensures
        validate_spec(m) is None <==> manifest_sound(m),
{
    let tools = m.tools@;
    lemma_name_problem(tools, 0);
    lemma_dep_problem(tools, 0);
    lemma_override_problem(tools, 0);
    lemma_config_problem(tools, m.configs@, 0);
    lemma_profile_problem(tools, m.profile@, 0);
}

proof fn lemma_name_problem(tools: Seq<Tool>, x: int)
    requires
        0 <= x <= tools.len(),
    ensures
        name_problem(tools, x) is None <==> forall|i: int| x <= i < tools.len() ==> #[trigger] name_ok(tools, i),
    decreases tools.len() - x,
{
    if x < tools.len() {
        lemma_name_problem(tools, x + 1);
        assert(named_before(tools, x, tools[x].name@) <==> !(forall|j: int|
            0 <= j < x ==> #[trigger] tools[j].name@ != tools[x].name@));
        if forall|i: int| x <= i < tools.len() ==> #[trigger] name_ok(tools, i) {
            assert(name_ok(tools, x));
            assert forall|i: int| x + 1 <= i < tools.len() implies #[trigger] name_ok(tools, i) by {}
        }
        if name_problem(tools, x) is None {
            assert forall|i: int| x <= i < tools.len() implies #[trigger] name_ok(tools, i) by {
                if i > x {
                    assert(x + 1 <= i);
                }
            }
        }
    }
}

proof fn lemma_dep_problem_of(tools: Seq<Tool>, i: int, k: int)
    requires
        0 <= i < tools.len(),
        0 <= k <= tools[i].requires@.len(),
    ensures
        dep_problem_of(tools, i, k) is None <==> forall|x: int|
            k <= x < tools[i].requires@.len() ==> #[trigger] dep_ok(tools, i, x),
    decreases tools[i].requires@.len() - k,
{
    if k < tools[i].requires@.len() {
        lemma_dep_problem_of(tools, i, k + 1);
        assert(dep_ok(tools, i, k) <==> some_tool_named(tools, tools[i].requires@[k]@) && tools[i].requires@[k]@
            != tools[i].name@);
        if forall|x: int| k <= x < tools[i].requires@.len() ==> #[trigger] dep_ok(tools, i, x) {
            assert(dep_ok(tools, i, k));
            assert forall|x: int| k + 1 <= x < tools[i].requires@.len() implies #[trigger] dep_ok(tools, i, x) by {}
        }
    }
}

proof fn lemma_dep_problem(tools: Seq<Tool>, x: int)
    requires
        0 <= x <= tools.len(),
    ensures
        dep_problem(tools, x) is None <==> forall|i: int| x <= i < tools.len() ==> #[trigger] deps_ok(tools, i),
    decreases tools.len() - x,
{
    if x < tools.len() {
        lemma_dep_problem(tools, x + 1);
        lemma_dep_problem_of(tools, x, 0);
        if forall|i: int| x <= i < tools.len() ==> #[trigger] deps_ok(tools, i) {
            assert(deps_ok(tools, x));
            assert forall|i: int| x + 1 <= i < tools.len() implies #[trigger] deps_ok(tools, i) by {}
        }
        if dep_problem(tools, x) is None {
            assert forall|i: int| x <= i < tools.len() implies #[trigger] deps_ok(tools, i) by {
                if i > x {
                    assert(x + 1 <= i);
                }
            }
        }
    }
}

proof fn lemma_override_problem_of(tool: Tool, k: int)
    requires
        0 <= k <= tool.platform_overrides@.len(),
    ensures
        override_problem_of(tool, k) is None <==> forall|x: int|
            k <= x < tool.platform_overrides@.len() ==> #[trigger] override_ok(tool.platform_overrides@[x]),
    decreases tool.platform_overrides@.len() - k,
{
    if k < tool.platform_overrides@.len() {
        lemma_override_problem_of(tool, k + 1);
        if forall|x: int| k <= x < tool.platform_overrides@.len() ==> #[trigger] override_ok(
            tool.platform_overrides@[x],
        ) {
            assert(override_ok(tool.platform_overrides@[k]));
            assert forall|x: int| k + 1 <= x < tool.platform_overrides@.len() implies #[trigger] override_ok(
                tool.platform_overrides@[x],
            ) by {}
        }
        if override_problem_of(tool, k) is None {
            assert forall|x: int| k <= x < tool.platform_overrides@.len() implies #[trigger] override_ok(
                tool.platform_overrides@[x],
            ) by {
                if x > k {
                    assert(k + 1 <= x);
                }
            }
        }
    }
}

proof fn lemma_override_problem(tools: Seq<Tool>, x: int)
    requires
        0 <= x <= tools.len(),
    ensures
        override_problem(tools, x) is None <==> forall|i: int| x <= i < tools.len() ==> #[trigger] overrides_ok(tools[i]),
    decreases tools.len() - x,
{
    if x < tools.len() {
        lemma_override_problem(tools, x + 1);
        lemma_override_problem_of(tools[x], 0);
        if forall|i: int| x <= i < tools.len() ==> #[trigger] overrides_ok(tools[i]) {
            assert(overrides_ok(tools[x]));
            assert forall|i: int| x + 1 <= i < tools.len() implies #[trigger] overrides_ok(tools[i]) by {}
        }
        if override_problem(tools, x) is None {
            assert forall|i: int| x <= i < tools.len() implies #[trigger] overrides_ok(tools[i]) by {
                if i > x {
                    assert(x + 1 <= i);
                }
            }
        }
    }
}

proof fn lemma_config_problem(tools: Seq<Tool>, configs: Seq<ConfigPackage>, c: int)
    requires
        0 <= c <= configs.len(),
    ensures
        config_problem(tools, configs, c) is None <==> forall|x: int|
            c <= x < configs.len() ==> #[trigger] config_ok(tools, configs, x),
    decreases configs.len() - c,
{
    if c < configs.len() {
        lemma_config_problem(tools, configs, c + 1);
        if forall|x: int| c <= x < configs.len() ==> #[trigger] config_ok(tools, configs, x) {
            assert(config_ok(tools, configs, c));
            assert forall|x: int| c + 1 <= x < configs.len() implies #[trigger] config_ok(tools, configs, x) by {}
        }
        if config_problem(tools, configs, c) is None {
            assert forall|x: int| c <= x < configs.len() implies #[trigger] config_ok(tools, configs, x) by {
                if x > c {
                    assert(c + 1 <= x);
                }
            }
        }
    }
}

proof fn lemma_profile_problem_of(tools: Seq<Tool>, name: Seq<char>, profile: Profile, t: int)
    requires
        0 <= t <= profile.tags@.len(),
    ensures
        profile_problem_of(tools, name, profile, t) is None <==> forall|x: int|
            t <= x < profile.tags@.len() ==> #[trigger] tag_known(tools, profile.tags@[x]@),
    decreases profile.tags@.len() - t,
{
    if t < profile.tags@.len() {
        lemma_profile_problem_of(tools, name, profile, t + 1);
        if forall|x: int| t <= x < profile.tags@.len() ==> #[trigger] tag_known(tools, profile.tags@[x]@) {
            assert(tag_known(tools, profile.tags@[t]@));
            assert forall|x: int| t + 1 <= x < profile.tags@.len() implies #[trigger] tag_known(
                tools,
                profile.tags@[x]@,
            ) by {}
        }
        if profile_problem_of(tools, name, profile, t) is None {
            assert forall|x: int| t <= x < profile.tags@.len() implies #[trigger] tag_known(
                tools,
                profile.tags@[x]@,
            ) by {
                if x > t {
                    assert(t + 1 <= x);
                }
            }
        }
    }
}

proof fn lemma_profile_problem(tools: Seq<Tool>, profiles: Seq<(String, Profile)>, p: int)
    requires
        0 <= p <= profiles.len(),
    ensures
        profile_problem(tools, profiles, p) is None <==> forall|x: int|
            p <= x < profiles.len() ==> #[trigger] profile_ok(tools, profiles[x].1),
    decreases profiles.len() - p,
{
    if p < profiles.len() {
        lemma_profile_problem(tools, profiles, p + 1);
        lemma_profile_problem_of(tools, profiles[p].0@, profiles[p].1, 0);
        if forall|x: int| p <= x < profiles.len() ==> #[trigger] profile_ok(tools, profiles[x].1) {
            assert(profile_ok(tools, profiles[p].1));
            assert forall|x: int| p + 1 <= x < profiles.len() implies #[trigger] profile_ok(tools, profiles[x].1) by {}
        }
        if profile_problem(tools, profiles, p) is None {
            assert forall|x: int| p <= x < profiles.len() implies #[trigger] profile_ok(tools, profiles[x].1) by {
                if x > p {
                    assert(p + 1 <= x);
                }
            }
        }
    }
}

/// `'name'`: a name in single quotes, as the messages quote them.
pub open spec fn quoted(name: Seq<char>) -> Seq<char> {
    seq!['\''] + name + seq!['\'']
}

/// The sentence each error is reported with.
pub open spec fn error_message(e: ManifestError) -> Seq<char> {
    match e {
        ManifestError::SchemaVersion { found } => "manifest schema_version "@ + decimal(found as nat)
            + " is not supported (this pinst speaks "@ + decimal(SCHEMA_VERSION as nat) + ")"@,
        ManifestError::EmptyName => "a tool entry has an empty name"@,
        ManifestError::DuplicateTool { name } => "duplicate tool "@ + quoted(name@),
        ManifestError::UnknownDependency { tool, dep } => "tool "@ + quoted(tool@)
            + " requires unknown tool "@ + quoted(dep@),
        ManifestError::SelfDependency { tool } => "tool "@ + quoted(tool@) + " requires itself"@,
        ManifestError::UnknownPlatform { tool, key } => "tool "@ + quoted(tool@)
            + " has a platform override for unrecognized platform "@ + quoted(key@)
            + " (known: linux, macos)"@,
        ManifestError::UnsupportedWithSubstitute { tool, key } => "tool "@ + quoted(tool@)
            + " platform override for "@ + quoted(key@)
            + " sets both 'unsupported' and a substituting field — a tool this platform cannot install has nothing else to override"@,
        ManifestError::DuplicateConfig { name } => "duplicate config package "@ + quoted(name@),
        ManifestError::ConfigUnknownTool { config, tool } => "config "@ + quoted(config@)
            + " requires unknown tool "@ + quoted(tool@),
        ManifestError::ProfileUnknownTag { profile, tag } => "profile "@ + quoted(profile@)
            + " selects tag "@ + quoted(tag@) + " that no tool carries"@,
        ManifestError::Cycle { tools } => "dependency cycle among tools: "@ + join(
            tools@.map_values(|s: String| s@),
            ", "@,
        ),
    }
}

fn push_quoted(out: &mut Vec<char>, name: &str)
    ensures
        final(out)@ == old(out)@ + quoted(name@),
{
    out.push('\'');
    push_str(out, name);
    out.push('\'');
}

impl ManifestError {
    /// The sentence this error is reported with.
    pub fn message(&self) -> (r: String)
        ensures
            r@ == error_message(*self),
    {
        let mut out: Vec<char> = Vec::new();
        match self {
            ManifestError::SchemaVersion { found } => {
                push_str(&mut out, "manifest schema_version ");
                push_decimal(&mut out, *found as u64);
                push_str(&mut out, " is not supported (this pinst speaks ");
                push_decimal(&mut out, SCHEMA_VERSION as u64);
                push_str(&mut out, ")");
            },
            ManifestError::EmptyName => {
                push_str(&mut out, "a tool entry has an empty name");
            },
            ManifestError::DuplicateTool { name } => {
                push_str(&mut out, "duplicate tool ");
                push_quoted(&mut out, name.as_str());
            },
            ManifestError::UnknownDependency { tool, dep } => {
                push_str(&mut out, "tool ");
                push_quoted(&mut out, tool.as_str());
                push_str(&mut out, " requires unknown tool ");
                push_quoted(&mut out, dep.as_str());
            },
            ManifestError::SelfDependency { tool } => {
                push_str(&mut out, "tool ");
                push_quoted(&mut out, tool.as_str());
                push_str(&mut out, " requires itself");
            },
            ManifestError::UnknownPlatform { tool, key } => {
                push_str(&mut out, "tool ");
                push_quoted(&mut out, tool.as_str());
                push_str(&mut out, " has a platform override for unrecognized platform ");
                push_quoted(&mut out, key.as_str());
                push_str(&mut out, " (known: linux, macos)");
            },
            ManifestError::UnsupportedWithSubstitute { tool, key } => {
                push_str(&mut out, "tool ");
                push_quoted(&mut out, tool.as_str());
                push_str(&mut out, " platform override for ");
                push_quoted(&mut out, key.as_str());
                push_str(
                    &mut out,
                    " sets both 'unsupported' and a substituting field — a tool this platform cannot install has nothing else to override",
                );
            },
            ManifestError::DuplicateConfig { name } => {
                push_str(&mut out, "duplicate config package ");
                push_quoted(&mut out, name.as_str());
            },
            ManifestError::ConfigUnknownTool { config, tool } => {
                push_str(&mut out, "config ");
                push_quoted(&mut out, config.as_str());
                push_str(&mut out, " requires unknown tool ");
                push_quoted(&mut out, tool.as_str());
            },
            ManifestError::ProfileUnknownTag { profile, tag } => {
                push_str(&mut out, "profile ");
                push_quoted(&mut out, profile.as_str());
                push_str(&mut out, " selects tag ");
                push_quoted(&mut out, tag.as_str());
                push_str(&mut out, " that no tool carries");
            },
            ManifestError::Cycle { tools } => {
                push_str(&mut out, "dependency cycle among tools: ");
                let joined = join_strings(tools.as_slice(), ", ");
                push_str(&mut out, joined.as_str());
            },
        }
        assert(out@ =~= error_message(*self));
        string_of(&out)
    }
}

// --- the checks, executed ----------------------------------------------

fn tool_named(tools: &Vec<Tool>, name: &String, below: usize) -> (r: bool)
    requires
        below <= tools@.len(),
    ensures
        r == named_before(tools@, below as int, name@),
{
    let mut j: usize = 0;
    while j < below
        invariant
            below <= tools@.len(),
            j <= below,
            forall|jj: int| 0 <= jj < j ==> tools@[jj].name@ != name@,
        decreases below - j,
    {
        if tools[j].name == *name {
            return true;
        }
        j = j + 1;
    }
    false
}

fn check_names(tools: &Vec<Tool>) -> (r: Option<ManifestError>)
    ensures
        match name_problem(tools@, 0) {
            Some(e) => r is Some && r->0@ == e,
            None => r is None,
        },
{
    let mut i: usize = 0;
    while i < tools.len()
        invariant
            i <= tools@.len(),
            name_problem(tools@, 0) == name_problem(tools@, i as int),
        decreases tools.len() - i,
    {
        let c = chars_of(tools[i].name.as_str());
        let t = trim_vec(&c);
        if t.len() == 0 {
            return Some(ManifestError::EmptyName);
        }
        if tool_named(tools, &tools[i].name, i) {
            return Some(ManifestError::DuplicateTool { name: tools[i].name.clone() });
        }
        i = i + 1;
    }
    None
}

fn check_deps(tools: &Vec<Tool>) -> (r: Option<ManifestError>)
    ensures
        match dep_problem(tools@, 0) {
            Some(e) => r is Some && r->0@ == e,
            None => r is None,
        },
{
    let n = tools.len();
    let mut i: usize = 0;
    while i < n
        invariant
            n == tools@.len(),
            i <= n,
            dep_problem(tools@, 0) == dep_problem(tools@, i as int),
        decreases n - i,
    {
        let reqs = &tools[i].requires;
        let mut k: usize = 0;
        while k < reqs.len()
            invariant
                n == tools@.len(),
                i < n,
                reqs == tools@[i as int].requires,
                k <= reqs@.len(),
                dep_problem(tools@, 0) == dep_problem(tools@, i as int),
                dep_problem_of(tools@, i as int, 0) == dep_problem_of(tools@, i as int, k as int),
            decreases reqs.len() - k,
        {
            if !tool_named(tools, &reqs[k], n) {
                return Some(ManifestError::UnknownDependency {
                    tool: tools[i].name.clone(),
                    dep: reqs[k].clone(),
                });
            }
            if reqs[k] == tools[i].name {
                return Some(ManifestError::SelfDependency { tool: tools[i].name.clone() });
            }
            k = k + 1;
        }
        i = i + 1;
    }
    None
}

fn check_overrides(tools: &Vec<Tool>) -> (r: Option<ManifestError>)
    ensures
        match override_problem(tools@, 0) {
            Some(e) => r is Some && r->0@ == e,
            None => r is None,
        },
{
    let n = tools.len();
    let mut i: usize = 0;
    while i < n
        invariant
            n == tools@.len(),
            i <= n,
            override_problem(tools@, 0) == override_problem(tools@, i as int),
        decreases n - i,
    {
        let tool = &tools[i];
        let overs = &tool.platform_overrides;
        let mut k: usize = 0;
        while k < overs.len()
            invariant
                n == tools@.len(),
                i < n,
                *tool == tools@[i as int],
                overs == tool.platform_overrides,
                k <= overs@.len(),
                override_problem(tools@, 0) == override_problem(tools@, i as int),
                override_problem_of(*tool, 0) == override_problem_of(*tool, k as int),
            decreases overs.len() - k,
        {
            let key = &overs[k].0;
            let over = &overs[k].1;
            if Platform::from_key(key.as_str()).is_none() {
                return Some(ManifestError::UnknownPlatform { tool: tool.name.clone(), key: key.clone() });
            }
            let subst = over.detect.is_some() || over.install.is_some() || over.upgrade.is_some()
                || over.requires.is_some() || over.post_install.is_some();
            if over.unsupported.is_some() && subst {
                return Some(ManifestError::UnsupportedWithSubstitute {
                    tool: tool.name.clone(),
                    key: key.clone(),
                });
            }
            k = k + 1;
        }
        i = i + 1;
    }
    None
}

fn check_configs(tools: &Vec<Tool>, configs: &Vec<ConfigPackage>) -> (r: Option<ManifestError>)
    ensures
        match config_problem(tools@, configs@, 0) {
            Some(e) => r is Some && r->0@ == e,
            None => r is None,
        },
{
    let mut c: usize = 0;
    while c < configs.len()
        invariant
            c <= configs@.len(),
            config_problem(tools@, configs@, 0) == config_problem(tools@, configs@, c as int),
        decreases configs.len() - c,
    {
        let mut d: usize = 0;
        while d < c
            invariant
                c < configs@.len(),
                d <= c,
                config_problem(tools@, configs@, 0) == config_problem(tools@, configs@, c as int),
                forall|dd: int| 0 <= dd < d ==> configs@[dd].name@ != configs@[c as int].name@,
            decreases c - d,
        {
            if configs[d].name == configs[c].name {
                assert(configs@[d as int].name@ == configs@[c as int].name@);
                return Some(ManifestError::DuplicateConfig { name: configs[c].name.clone() });
            }
            d = d + 1;
        }
        if let Some(t) = &configs[c].requires_tool {
            if !tool_named(tools, t, tools.len()) {
                return Some(ManifestError::ConfigUnknownTool {
                    config: configs[c].name.clone(),
                    tool: t.clone(),
                });
            }
        }
        c = c + 1;
    }
    None
}

fn tag_known_exec(tools: &Vec<Tool>, tag: &String) -> (r: bool)
    ensures
        r == tag_known(tools@, tag@),
{
    let mut j: usize = 0;
    while j < tools.len()
        invariant
            j <= tools@.len(),
            forall|jj: int, t: int|
                0 <= jj < j && 0 <= t < tools@[jj].tags@.len() ==> #[trigger] tools@[jj].tags@[t]@
                    != tag@,
        decreases tools.len() - j,
    {
        let tags = &tools[j].tags;
        let mut t: usize = 0;
        while t < tags.len()
            invariant
                j < tools@.len(),
                tags == tools@[j as int].tags,
                t <= tags@.len(),
                forall|jj: int, tt: int|
                    0 <= jj < j && 0 <= tt < tools@[jj].tags@.len() ==> #[trigger] tools@[jj].tags@[tt]@
                        != tag@,
                forall|tt: int| 0 <= tt < t ==> tags@[tt]@ != tag@,
            decreases tags.len() - t,
        {
            if tags[t] == *tag {
                assert(tools@[j as int].tags@[t as int]@ == tag@);
                return true;
            }
            t = t + 1;
        }
        j = j + 1;
    }
    false
}

fn check_profiles(tools: &Vec<Tool>, profiles: &Vec<(String, Profile)>) -> (r: Option<ManifestError>)
    ensures
        match profile_problem(tools@, profiles@, 0) {
            Some(e) => r is Some && r->0@ == e,
            None => r is None,
        },
{
    let mut p: usize = 0;
    while p < profiles.len()
        invariant
            p <= profiles@.len(),
            profile_problem(tools@, profiles@, 0) == profile_problem(tools@, profiles@, p as int),
        decreases profiles.len() - p,
    {
        let name = &profiles[p].0;
        let profile = &profiles[p].1;
        let mut t: usize = 0;
        while t < profile.tags.len()
            invariant
                p < profiles@.len(),
                *name == profiles@[p as int].0,
                *profile == profiles@[p as int].1,
                t <= profile.tags@.len(),
                profile_problem(tools@, profiles@, 0) == profile_problem(tools@, profiles@, p as int),
                profile_problem_of(tools@, name@, *profile, 0) == profile_problem_of(
                    tools@,
                    name@,
                    *profile,
                    t as int,
                ),
            decreases profile.tags.len() - t,
        {
            if !tag_known_exec(tools, &profile.tags[t]) {
                return Some(ManifestError::ProfileUnknownTag {
                    profile: name.clone(),
                    tag: profile.tags[t].clone(),
                });
            }
            t = t + 1;
        }
        p = p + 1;
    }
    None
}

impl Manifest {
    /// Structural checks the type system cannot express; the first failing
    /// check, in order, is the error.
    pub fn validate(&self) -> (r: Result<(), ManifestError>)
        ensures
            match validate_spec(*self) {
                Some(e) => r is Err && r->Err_0@ == e,
                None => r is Ok,
            },
    {
        if self.meta.schema_version != SCHEMA_VERSION {
            return Err(ManifestError::SchemaVersion { found: self.meta.schema_version });
        }
        if let Some(e) = check_names(&self.tools) {
            return Err(e);
        }
        if let Some(e) = check_deps(&self.tools) {
            return Err(e);
        }
        if let Some(e) = check_overrides(&self.tools) {
            return Err(e);
        }
        if let Some(e) = check_configs(&self.tools, &self.configs) {
            return Err(e);
        }
        if let Some(e) = check_profiles(&self.tools, &self.profile) {
            return Err(e);
        }
        match topo_order(self.tools.as_slice()) {
            Ok(_) => Ok(()),
            Err(cycle) => {
                let mut names: Vec<String> = Vec::new();
                let mut k: usize = 0;
                while k < cycle.stuck.len()
                    invariant
                        k <= cycle.stuck@.len(),
                        forall|p: int| 0 <= p < cycle.stuck@.len() ==> (#[trigger] cycle.stuck@[p] as int) < self.tools@.len(),
                        names@.map_values(|s: String| s@) == cycle.stuck@.take(k as int).map_values(
                            |i: usize| self.tools@[i as int].name@,
                        ),
                    decreases cycle.stuck.len() - k,
                {
                    let ghost before = names@.map_values(|s: String| s@);
                    names.push(self.tools[cycle.stuck[k]].name.as_str().to_owned());
                    assert(names@.map_values(|s: String| s@) =~= before.push(self.tools@[cycle.stuck@[k as int] as int].name@));
                    assert(cycle.stuck@.take(k + 1) =~= cycle.stuck@.take(k as int).push(cycle.stuck@[k as int]));
                    k = k + 1;
                }
                assert(cycle.stuck@.take(cycle.stuck@.len() as int) =~= cycle.stuck@);
                Err(ManifestError::Cycle { tools: names })
            },
        }
    }
}

} // verus!
