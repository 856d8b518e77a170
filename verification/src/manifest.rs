//! The manifest: pinst's single source of truth for tools and configs, and
//! the per-platform resolution of each tool.
//!
//! The authored file is TOML; reading it is the caller's job, and the parsed
//! value arrives here as these plain types. Maps of the authored file
//! (`[tool.platform.<key>]`, `[profile.<name>]`) are held as `(key, value)`
//! lists in key order.

use vstd::prelude::*;

use crate::platform::{admits_spec, platform_key, Platform};
use crate::text::{chars_of, push_str, seq_eq, string_of};

verus! {

pub const SCHEMA_VERSION: u32 = 1;

#[derive(Debug, Clone)]
pub struct Manifest {
    pub meta: Meta,
    pub tools: Vec<Tool>,
    pub configs: Vec<ConfigPackage>,
    pub profile: Vec<(String, Profile)>,
}

#[derive(Debug, Clone)]
pub struct Meta {
    pub schema_version: u32,
}

#[derive(Debug, Clone)]
pub struct Tool {
    pub name: String,
    pub summary: String,
    pub tags: Vec<String>,
    /// Tools that must be installed before this one.
    pub requires: Vec<String>,
    pub detect: Detect,
    pub help_cmd: Option<String>,
    pub install: Install,
    /// Overrides the upgrade check derived from `install`.
    pub upgrade: Option<UpgradeSpec>,
    pub post_install: Vec<PostStep>,
    /// Per-platform overrides, keyed by [`Platform::key`].
    pub platform_overrides: Vec<(String, PlatformOverride)>,
}

/// One platform's differences from a tool's base definition.
#[derive(Debug, Clone)]
pub struct PlatformOverride {
    pub detect: Option<Detect>,
    pub install: Option<Install>,
    pub upgrade: Option<UpgradeSpec>,
    pub requires: Option<Vec<String>>,
    pub post_install: Option<Vec<PostStep>>,
    /// This platform has no automated path for the tool at all.
    pub unsupported: Option<String>,
}

/// The fields of a [`Tool`] as they apply on one platform, borrowed from the
/// base definition or its override.
#[derive(Debug, Clone, Copy)]
pub struct EffectiveTool<'a> {
    pub detect: &'a Detect,
    pub install: &'a Install,
    pub requires: &'a [String],
    pub post_install: &'a [PostStep],
}

/// A tool resolved against a platform.
#[derive(Debug, Clone)]
pub enum Resolved<'a> {
    Supported(EffectiveTool<'a>),
    /// The tool cannot be installed on this platform; the note says why.
    Unsupported(String),
}

#[derive(Debug, Clone)]
pub struct Detect {
    /// Run with `sh -c`; exit status 0 means installed.
    pub command: String,
    pub bin: Option<String>,
    pub version_cmd: Option<String>,
    pub version_regex: Option<String>,
}

#[derive(Debug, Clone)]
pub struct PostStep {
    pub description: String,
    pub command: String,
    pub skip_if: Option<String>,
    pub confirm: bool,
}

#[derive(Debug, Clone)]
pub enum Install {
    Apt { packages: Vec<String> },
    Cargo { crate_name: String },
    CurlScript { url: String, shell: String, args: Vec<String>, github_repo: Option<String> },
    Shell { command: String },
    GithubRelease { repo: String, asset: String, dest: String, confirm: bool },
    Nvm { version: String },
    GitClone { url: String, dest: String, depth: Option<u32> },
    Brew { formulae: Vec<String>, cask: bool },
    Manual { note: String },
}

#[derive(Debug, Clone)]
pub enum UpgradeSpec {
    Apt { package: String },
    Cargo { crate_name: String },
    GithubRelease { repo: String },
    Nvm {},
    Brew { formula: String },
    /// Explicitly opt out of upgrade checking (`method = "none"`).
    NoCheck {},
}

/// An upgrade check with its names as character sequences.
pub enum UpgradeView {
    Apt(Seq<char>),
    Cargo(Seq<char>),
    GithubRelease(Seq<char>),
    Nvm,
    Brew(Seq<char>),
    NoCheck,
}

impl View for UpgradeSpec {
    type V = UpgradeView;

    open spec fn view(&self) -> UpgradeView {
        match self {
            UpgradeSpec::Apt { package } => UpgradeView::Apt(package@),
            UpgradeSpec::Cargo { crate_name } => UpgradeView::Cargo(crate_name@),
            UpgradeSpec::GithubRelease { repo } => UpgradeView::GithubRelease(repo@),
            UpgradeSpec::Nvm {  } => UpgradeView::Nvm,
            UpgradeSpec::Brew { formula } => UpgradeView::Brew(formula@),
            UpgradeSpec::NoCheck {  } => UpgradeView::NoCheck,
        }
    }
}

impl UpgradeSpec {
    /// An identical copy.
    pub fn duplicate(&self) -> (r: UpgradeSpec)
        ensures
            r@ == self@,
    {
        match self {
            UpgradeSpec::Apt { package } => UpgradeSpec::Apt { package: package.clone() },
            UpgradeSpec::Cargo { crate_name } => UpgradeSpec::Cargo { crate_name: crate_name.clone() },
            UpgradeSpec::GithubRelease { repo } => UpgradeSpec::GithubRelease { repo: repo.clone() },
            UpgradeSpec::Nvm {  } => UpgradeSpec::Nvm {  },
            UpgradeSpec::Brew { formula } => UpgradeSpec::Brew { formula: formula.clone() },
            UpgradeSpec::NoCheck {  } => UpgradeSpec::NoCheck {  },
        }
    }
}

#[derive(Debug, Clone)]
pub struct ConfigPackage {
    pub name: String,
    /// Subdirectory of `configs/` whose tree mirrors `$HOME`.
    pub source: String,
    pub summary: String,
    /// Paths within the package that get `${VAR}` substitution applied.
    pub templates: Vec<String>,
    pub requires_tool: Option<String>,
}

#[derive(Debug, Clone)]
pub struct Profile {
    pub summary: String,
    pub tags: Vec<String>,
}

/// Where the manifest came from.
#[derive(Debug, Clone)]
pub enum ManifestSource {
    Embedded,
    Path(String),
}

/// `$HOME/.config/pinst/manifest.toml`.
pub open spec fn home_manifest(home: Seq<char>) -> Seq<char> {
    crate::path::join(home, ".config/pinst/manifest.toml"@)
}

/// Which manifest is in effect: an explicit path (a usage error when it is
/// not a file), else `$PINST_MANIFEST` when it names a file, else
/// `$HOME/.config/pinst/manifest.toml`, else `./manifest.toml`, else the
/// embedded copy. Each path comes with whether the caller found it a file.
pub open spec fn manifest_source_spec(
    explicit: Option<(Seq<char>, bool)>,
    env: Option<(Seq<char>, bool)>,
    home: Option<Seq<char>>,
    home_is_file: bool,
    cwd_is_file: bool,
) -> Result<Option<Seq<char>>, Seq<char>> {
    match explicit {
        Some((p, is_file)) => if is_file { Ok(Some(p)) } else { Err("manifest not found: "@ + p) },
        None => match env {
            Some((p, true)) => Ok(Some(p)),
            _ => match home {
                Some(h) if home_is_file => Ok(Some(home_manifest(h))),
                _ => if cwd_is_file { Ok(Some("manifest.toml"@)) } else { Ok(None) },
            },
        },
    }
}

pub open spec fn source_view(s: ManifestSource) -> Option<Seq<char>> {
    match s {
        ManifestSource::Embedded => None,
        ManifestSource::Path(p) => Some(p@),
    }
}

pub fn manifest_source(
    explicit: Option<(&str, bool)>,
    env: Option<(&str, bool)>,
    home: Option<&str>,
    home_is_file: bool,
    cwd_is_file: bool,
) -> (r: Result<ManifestSource, crate::UsageError>)
    ensures
        match manifest_source_spec(
            match explicit { Some((p, f)) => Some((p@, f)), None => None },
            match env { Some((p, f)) => Some((p@, f)), None => None },
            match home { Some(h) => Some(h@), None => None },
            home_is_file,
            cwd_is_file,
        ) {
            Ok(s) => r matches Ok(m) && source_view(m) == s,
            Err(e) => r matches Err(u) && u.0@ == e,
        },
{
    match explicit {
        Some((p, is_file)) => {
            if is_file {
                return Ok(ManifestSource::Path(p.to_owned()));
            }
            let mut m: Vec<char> = Vec::new();
            push_str(&mut m, "manifest not found: ");
            push_str(&mut m, p);
            return Err(crate::UsageError(string_of(&m)));
        },
        None => {},
    }
    match env {
        Some((p, true)) => {
            return Ok(ManifestSource::Path(p.to_owned()));
        },
        _ => {},
    }
    match home {
        Some(h) => {
            if home_is_file {
                return Ok(ManifestSource::Path(crate::path::join_path(h, ".config/pinst/manifest.toml")));
            }
        },
        None => {},
    }
    if cwd_is_file {
        proof {
            reveal_strlit("manifest.toml");
        }
        return Ok(ManifestSource::Path("manifest.toml".to_owned()));
    }
    Ok(ManifestSource::Embedded)
}

pub open spec fn describe_source(s: ManifestSource) -> Seq<char> {
    match s {
        ManifestSource::Embedded => "<embedded>"@,
        ManifestSource::Path(p) => p@,
    }
}

impl ManifestSource {
    /// How the source is named in messages: its path, or `<embedded>`.
    pub fn describe(&self) -> (r: String)
        ensures
            r@ == describe_source(*self),
    {
        match self {
            ManifestSource::Embedded => "<embedded>".to_owned(),
            ManifestSource::Path(p) => p.as_str().to_owned(),
        }
    }
}

/// The usage error a manifest that does not parse is reported with.
pub fn parse_failure(source: &ManifestSource, error: &str) -> (r: crate::UsageError)
    ensures
        r.0@ == "parsing manifest from "@ + describe_source(*source) + ": "@ + error@,
{
    let mut m: Vec<char> = Vec::new();
    push_str(&mut m, "parsing manifest from ");
    push_str(&mut m, source.describe().as_str());
    push_str(&mut m, ": ");
    push_str(&mut m, error);
    crate::UsageError(string_of(&m))
}

/// The usage error a manifest that does not validate is reported with.
pub fn invalid_manifest(source: &ManifestSource, error: &str) -> (r: crate::UsageError)
    ensures
        r.0@ == "invalid manifest "@ + describe_source(*source) + ": "@ + error@,
{
    let mut m: Vec<char> = Vec::new();
    push_str(&mut m, "invalid manifest ");
    push_str(&mut m, source.describe().as_str());
    push_str(&mut m, ": ");
    push_str(&mut m, error);
    crate::UsageError(string_of(&m))
}

/// A loaded manifest and where it came from.
pub struct LoadedManifest {
    pub manifest: Manifest,
    pub source: ManifestSource,
}

/// The default `shell` of a `curl_script` install.
pub fn default_shell() -> (r: String)
    ensures
        r@ == "sh"@,
{
    crate::text::lit("sh")
}

/// The default `version` of an `nvm` install.
pub fn default_nvm_version() -> (r: String)
    ensures
        r@ == "--lts"@,
{
    crate::text::lit("--lts")
}

// --- the install method ------------------------------------------------

pub open spec fn method_name_spec(install: Install) -> Seq<char> {
    match install {
        Install::Apt { .. } => "apt"@,
        Install::Cargo { .. } => "cargo"@,
        Install::CurlScript { .. } => "curl_script"@,
        Install::Shell { .. } => "shell"@,
        Install::GithubRelease { .. } => "github_release"@,
        Install::Nvm { .. } => "nvm"@,
        Install::GitClone { .. } => "git_clone"@,
        Install::Brew { .. } => "brew"@,
        Install::Manual { .. } => "manual"@,
    }
}

/// A piped installer or a verbatim shell command offers no verifiable
/// version pinning.
pub open spec fn unpinnable_spec(install: Install) -> bool {
    install is CurlScript || install is Shell
}

/// The first item of `items`, else `name`.
pub open spec fn first_or(items: Seq<String>, name: Seq<char>) -> Seq<char> {
    if items.len() > 0 {
        items[0]@
    } else {
        name
    }
}

/// The upgrade check an install method implies.
pub open spec fn derived_upgrade(name: Seq<char>, install: Install) -> UpgradeView {
    match install {
        Install::Apt { packages } => UpgradeView::Apt(first_or(packages@, name)),
        Install::Cargo { crate_name } => UpgradeView::Cargo(crate_name@),
        Install::CurlScript { github_repo, .. } => match github_repo {
            Some(repo) => UpgradeView::GithubRelease(repo@),
            None => UpgradeView::NoCheck,
        },
        Install::GithubRelease { repo, .. } => UpgradeView::GithubRelease(repo@),
        Install::Nvm { .. } => UpgradeView::Nvm,
        Install::Brew { formulae, .. } => UpgradeView::Brew(first_or(formulae@, name)),
        _ => UpgradeView::NoCheck,
    }
}

pub fn install_method_name(install: &Install) -> (r: &'static str)
    ensures
        r@ == method_name_spec(*install),
{
    match install {
        Install::Apt { .. } => "apt",
        Install::Cargo { .. } => "cargo",
        Install::CurlScript { .. } => "curl_script",
        Install::Shell { .. } => "shell",
        Install::GithubRelease { .. } => "github_release",
        Install::Nvm { .. } => "nvm",
        Install::GitClone { .. } => "git_clone",
        Install::Brew { .. } => "brew",
        Install::Manual { .. } => "manual",
    }
}

pub fn install_is_unpinnable(install: &Install) -> (r: bool)
    ensures
        r == unpinnable_spec(*install),
{
    match install {
        Install::CurlScript { .. } | Install::Shell { .. } => true,
        _ => false,
    }
}

fn first_or_name(items: &Vec<String>, name: &str) -> (r: String)
    ensures
        r@ == first_or(items@, name@),
{
    if items.len() > 0 {
        items[0].clone()
    } else {
        crate::text::lit(name)
    }
}

/// The upgrade check derived from an install method and a tool name.
pub fn derive_upgrade_spec(name: &str, install: &Install) -> (r: UpgradeSpec)
    ensures
        r@ == derived_upgrade(name@, *install),
{
    match install {
        Install::Apt { packages } => UpgradeSpec::Apt { package: first_or_name(packages, name) },
        Install::Cargo { crate_name } => UpgradeSpec::Cargo { crate_name: crate_name.clone() },
        Install::CurlScript { github_repo, .. } => match github_repo {
            Some(repo) => UpgradeSpec::GithubRelease { repo: repo.clone() },
            None => UpgradeSpec::NoCheck {  },
        },
        Install::GithubRelease { repo, .. } => UpgradeSpec::GithubRelease { repo: repo.clone() },
        Install::Nvm { .. } => UpgradeSpec::Nvm {  },
        Install::Brew { formulae, .. } => UpgradeSpec::Brew { formula: first_or_name(formulae, name) },
        Install::Shell { .. } | Install::GitClone { .. } | Install::Manual { .. } => UpgradeSpec::NoCheck {  },
    }
}

impl<'a> EffectiveTool<'a> {
    /// True when this platform's effective install method offers no
    /// verifiable version pinning.
    pub fn is_unpinnable(&self) -> (r: bool)
        ensures
            r == unpinnable_spec(*self.install),
    {
        install_is_unpinnable(self.install)
    }

    pub fn method_name(&self) -> (r: &'static str)
        ensures
            r@ == method_name_spec(*self.install),
    {
        install_method_name(self.install)
    }
}

// --- resolution ----------------------------------------------------------

/// The first override entry whose key is `key`.
pub open spec fn find_override(overs: Seq<(String, PlatformOverride)>, key: Seq<char>) -> Option<
    PlatformOverride,
>
    decreases overs.len(),
{
    if overs.len() == 0 {
        None
    } else if overs[0].0@ == key {
        Some(overs[0].1)
    } else {
        find_override(overs.drop_first(), key)
    }
}

pub open spec fn tool_override(tool: Tool, p: Platform) -> Option<PlatformOverride> {
    find_override(tool.platform_overrides@, platform_key(p))
}

/// Whether `tool` cannot be installed on `p`.
pub open spec fn is_unsupported_on(tool: Tool, p: Platform) -> bool {
    match tool_override(tool, p) {
        Some(over) => over.unsupported is Some,
        None => !admits_spec(p, tool.install),
    }
}

/// The note reported for a tool with no override on a platform its method
/// does not admit.
pub open spec fn generated_note(tool: Tool, p: Platform) -> Seq<char> {
    tool.name@ + " installs with "@ + method_name_spec(tool.install) + ", which "@ + platform_key(p)
        + " does not have"@
}

/// Why `tool` is unsupported on `p`.
pub open spec fn unsupported_note(tool: Tool, p: Platform) -> Seq<char> {
    match tool_override(tool, p) {
        Some(over) => over.unsupported->0@,
        None => generated_note(tool, p),
    }
}

pub open spec fn effective_detect(tool: Tool, p: Platform) -> Detect {
    match tool_override(tool, p) {
        Some(over) if over.detect is Some => over.detect->0,
        _ => tool.detect,
    }
}

pub open spec fn effective_install(tool: Tool, p: Platform) -> Install {
    match tool_override(tool, p) {
        Some(over) if over.install is Some => over.install->0,
        _ => tool.install,
    }
}

pub open spec fn effective_requires(tool: Tool, p: Platform) -> Seq<String> {
    match tool_override(tool, p) {
        Some(over) if over.requires is Some => over.requires->0@,
        _ => tool.requires@,
    }
}

pub open spec fn effective_post_install(tool: Tool, p: Platform) -> Seq<PostStep> {
    match tool_override(tool, p) {
        Some(over) if over.post_install is Some => over.post_install->0@,
        _ => tool.post_install@,
    }
}

/// The upgrade check of a supported tool on `p`: the override's explicit
/// one, else the tool's explicit one when the install was not overridden,
/// else the one the effective install implies.
pub open spec fn upgrade_for(tool: Tool, p: Platform) -> UpgradeView {
    match tool_override(tool, p) {
        Some(over) if over.upgrade is Some => over.upgrade->0@,
        _ => {
            let install_overridden = match tool_override(tool, p) {
                Some(over) => over.install is Some,
                None => false,
            };
            if !install_overridden && tool.upgrade is Some {
                tool.upgrade->0@
            } else {
                derived_upgrade(tool.name@, effective_install(tool, p))
            }
        },
    }
}

/// Resolving on `p` takes the tool as it stands unless the first override
/// entry keyed for `p` says otherwise, field by field: each field the
/// override sets replaces the tool's own and each it leaves unset is kept.
/// With an override the tool is unsupported exactly when the override says
/// so, and its note is the reason given; without one, exactly when `p` has
/// no such install method.
pub proof fn lemma_override_replaces_only_what_it_sets(tool: Tool, p: Platform)
    ensures
        tool_override(tool, p) is None ==> {
            &&& effective_detect(tool, p) == tool.detect
            &&& effective_install(tool, p) == tool.install
            &&& effective_requires(tool, p) == tool.requires@
            &&& effective_post_install(tool, p) == tool.post_install@
            &&& is_unsupported_on(tool, p) <==> !admits_spec(p, tool.install)
        },
        tool_override(tool, p) matches Some(o) ==> {
            &&& is_unsupported_on(tool, p) <==> o.unsupported is Some
            &&& o.unsupported is Some ==> unsupported_note(tool, p) == o.unsupported->0@
            &&& effective_detect(tool, p) == (if o.detect is Some { o.detect->0 } else { tool.detect })
            &&& effective_install(tool, p) == (if o.install is Some { o.install->0 } else { tool.install })
            &&& effective_requires(tool, p) == (if o.requires is Some { o.requires->0@ } else { tool.requires@ })
            &&& effective_post_install(tool, p) == (if o.post_install is Some {
                o.post_install->0@
            } else {
                tool.post_install@
            })
        },
{
}

/// Override entries keyed for other platforms never matter, and the first
/// entry for a platform is the one that counts: adding an entry after the
/// others changes what a platform gets only when no earlier entry was
/// keyed for it.
pub proof fn lemma_first_matching_override_counts(
    overs: Seq<(String, PlatformOverride)>,
    extra: (String, PlatformOverride),
    key: Seq<char>,
)
    ensures
        extra.0@ != key ==> find_override(overs.push(extra), key) == find_override(overs, key),
        find_override(overs, key) is Some ==> find_override(overs.push(extra), key) == find_override(overs, key),
        find_override(overs, key) is None && extra.0@ == key ==> find_override(overs.push(extra), key) == Some(
            extra.1,
        ),
    decreases overs.len(),
{
    if overs.len() > 0 {
        lemma_first_matching_override_counts(overs.drop_first(), extra, key);
        assert(overs.push(extra).drop_first() =~= overs.drop_first().push(extra));
    } else {
        assert(overs.push(extra).drop_first() =~= overs);
    }
}

/// The upgrade check an install implies asks about what that install puts
/// on the machine: a cargo install's crate and a GitHub release's (or a
/// curl script's) repository, whatever the tool is called; an apt or brew
/// install's first package, the tool's name standing in only when it lists
/// none; nvm's own check for nvm; and no check for what has no version to
/// ask about.
pub proof fn lemma_derived_upgrade_asks_about_the_install(name: Seq<char>, other: Seq<char>, install: Install)
    ensures
        install is Cargo ==> derived_upgrade(name, install) == UpgradeView::Cargo(install->crate_name@),
        install is GithubRelease ==> derived_upgrade(name, install) == UpgradeView::GithubRelease(
            install->repo@,
        ),
        install is CurlScript && install->github_repo is Some ==> derived_upgrade(name, install)
            == UpgradeView::GithubRelease(install->github_repo->0@),
        install is Apt && install->packages@.len() > 0 ==> derived_upgrade(name, install) == UpgradeView::Apt(
            install->packages@[0]@,
        ),
        install is Apt && install->packages@.len() == 0 ==> derived_upgrade(name, install) == UpgradeView::Apt(
            name,
        ),
        install is Brew && install->formulae@.len() > 0 ==> derived_upgrade(name, install) == UpgradeView::Brew(
            install->formulae@[0]@,
        ),
        install is Brew && install->formulae@.len() == 0 ==> derived_upgrade(name, install)
            == UpgradeView::Brew(name),
        install is Nvm ==> derived_upgrade(name, install) == UpgradeView::Nvm,
        install is Shell || install is GitClone || install is Manual || (install is CurlScript
            && install->github_repo is None) ==> derived_upgrade(name, install) == UpgradeView::NoCheck,
        !(install is Apt && install->packages@.len() == 0) && !(install is Brew && install->formulae@.len()
            == 0) ==> derived_upgrade(name, install) == derived_upgrade(other, install),
{
}

/// Which upgrade check a supported tool gets on `p`: one the platform's
/// override states wins; else the tool's own, but only while the platform
/// keeps the base install, since it was written for that install; else the
/// one the effective install implies (a cargo-installed tool is checked by
/// the crate it installs).
pub proof fn lemma_upgrade_check_precedence(tool: Tool, p: Platform)
    ensures
        tool_override(tool, p) is Some && tool_override(tool, p)->0.upgrade is Some ==> upgrade_for(tool, p)
            == tool_override(tool, p)->0.upgrade->0@,
        (tool_override(tool, p) is None || (tool_override(tool, p)->0.upgrade is None && tool_override(
            tool,
            p,
        )->0.install is None)) && tool.upgrade is Some ==> upgrade_for(tool, p) == tool.upgrade->0@,
        (tool_override(tool, p) is None || tool_override(tool, p)->0.upgrade is None) && (tool.upgrade is None
            || (tool_override(tool, p) is Some && tool_override(tool, p)->0.install is Some)) ==> upgrade_for(
            tool,
            p,
        ) == derived_upgrade(tool.name@, effective_install(tool, p)),
        (tool_override(tool, p) is None || tool_override(tool, p)->0.upgrade is None) && tool.upgrade is None
            && effective_install(tool, p) is Cargo ==> upgrade_for(tool, p) == UpgradeView::Cargo(
            effective_install(tool, p)->crate_name@,
        ),
{
}

fn find_override_exec<'a>(overs: &'a Vec<(String, PlatformOverride)>, key: &str) -> (r: Option<
    &'a PlatformOverride,
>)
    ensures
        match find_override(overs@, key@) {
            Some(o) => r is Some && *r->0 == o,
            None => r is None,
        },
{
    let k = chars_of(key);
    let mut i: usize = 0;
    assert(overs@.skip(0) == overs@);
    while i < overs.len()
        invariant
            i <= overs@.len(),
            k@ == key@,
            find_override(overs@, key@) == find_override(overs@.skip(i as int), key@),
        decreases overs.len() - i,
    {
        let name = chars_of(overs[i].0.as_str());
        proof {
            assert(overs@.skip(i as int)[0] == overs@[i as int]);
            assert(overs@.skip(i as int).drop_first() == overs@.skip(i + 1));
        }
        if seq_eq(&name, &k) {
            return Some(&overs[i].1);
        }
        i = i + 1;
    }
    None
}

impl Tool {
    /// The install method's name in effect on `platform`: the platform
    /// override's install when it sets one, else the base install.
    pub fn method_name(&self, platform: Platform) -> (r: &'static str)
        ensures
            r@ == method_name_spec(effective_install(*self, platform)),
    {
        match find_override_exec(&self.platform_overrides, platform.key()) {
            Some(over) => match &over.install {
                Some(i) => install_method_name(i),
                None => install_method_name(&self.install),
            },
            None => install_method_name(&self.install),
        }
    }

    /// Resolves this tool against `platform`: the effective view (base
    /// fields with the platform override's fields substituted), or why the
    /// platform cannot install it at all.
    pub fn resolve(&self, platform: Platform) -> (r: Resolved<'_>)
        ensures
            is_unsupported_on(*self, platform) ==> (r matches Resolved::Unsupported(note) && note@
                == unsupported_note(*self, platform)),
            !is_unsupported_on(*self, platform) ==> (r matches Resolved::Supported(e) && *e.detect
                == effective_detect(*self, platform) && *e.install == effective_install(
                *self,
                platform,
            ) && e.requires@ == effective_requires(*self, platform) && e.post_install@
                == effective_post_install(*self, platform)),
    {
        match find_override_exec(&self.platform_overrides, platform.key()) {
            Some(over) => {
                if let Some(note) = &over.unsupported {
                    return Resolved::Unsupported(note.clone());
                }
                let detect = match &over.detect {
                    Some(d) => d,
                    None => &self.detect,
                };
                let install = match &over.install {
                    Some(i) => i,
                    None => &self.install,
                };
                let deps = match &over.requires {
                    Some(r) => r.as_slice(),
                    None => self.requires.as_slice(),
                };
                let post_install = match &over.post_install {
                    Some(p) => p.as_slice(),
                    None => self.post_install.as_slice(),
                };
                Resolved::Supported(EffectiveTool { detect, install, requires: deps, post_install })
            },
            None => {
                if platform.admits(&self.install) {
                    Resolved::Supported(
                        EffectiveTool {
                            detect: &self.detect,
                            install: &self.install,
                            requires: self.requires.as_slice(),
                            post_install: self.post_install.as_slice(),
                        },
                    )
                } else {
                    let mut note: Vec<char> = chars_of(self.name.as_str());
                    push_str(&mut note, " installs with ");
                    push_str(&mut note, install_method_name(&self.install));
                    push_str(&mut note, ", which ");
                    push_str(&mut note, platform.key());
                    push_str(&mut note, " does not have");
                    Resolved::Unsupported(string_of(&note))
                }
            },
        }
    }

    /// The upgrade check for `platform`; `None` when the tool is unsupported
    /// there.
    pub fn upgrade_spec_for(&self, platform: Platform) -> (r: Option<UpgradeSpec>)
        ensures
            is_unsupported_on(*self, platform) ==> r is None,
            !is_unsupported_on(*self, platform) ==> (r is Some && r->0@ == upgrade_for(
                *self,
                platform,
            )),
    {
        let install = match self.resolve(platform) {
            Resolved::Supported(effective) => effective.install,
            Resolved::Unsupported(_) => {
                return None;
            },
        };
        let over = find_override_exec(&self.platform_overrides, platform.key());
        if let Some(o) = over {
            if let Some(explicit) = &o.upgrade {
                return Some(explicit.duplicate());
            }
        }
        let install_overridden = match over {
            Some(o) => o.install.is_some(),
            None => false,
        };
        if !install_overridden {
            if let Some(explicit) = &self.upgrade {
                return Some(explicit.duplicate());
            }
        }
        Some(derive_upgrade_spec(self.name.as_str(), install))
    }
}

/// The first tool named `name`.
pub open spec fn find_tool(tools: Seq<Tool>, name: Seq<char>) -> Option<Tool>
    decreases tools.len(),
{
    if tools.len() == 0 {
        None
    } else if tools[0].name@ == name {
        Some(tools[0])
    } else {
        find_tool(tools.drop_first(), name)
    }
}

impl Manifest {
    pub fn tool(&self, name: &str) -> (r: Option<&Tool>)
        ensures
            match find_tool(self.tools@, name@) {
                Some(t) => r is Some && *r->0 == t,
                None => r is None,
            },
    {
        let k = chars_of(name);
        let mut i: usize = 0;
        assert(self.tools@.skip(0) == self.tools@);
        while i < self.tools.len()
            invariant
                i <= self.tools@.len(),
                k@ == name@,
                find_tool(self.tools@, name@) == find_tool(self.tools@.skip(i as int), name@),
            decreases self.tools.len() - i,
        {
            let n = chars_of(self.tools[i].name.as_str());
            proof {
                assert(self.tools@.skip(i as int)[0] == self.tools@[i as int]);
                assert(self.tools@.skip(i as int).drop_first() == self.tools@.skip(i + 1));
            }
            if seq_eq(&n, &k) {
                return Some(&self.tools[i]);
            }
            i = i + 1;
        }
        None
    }
}

} // verus!
