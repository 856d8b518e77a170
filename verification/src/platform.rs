//! The platform pinst is planning for: a value passed through manifest
//! resolution, planning and probing rather than read ambiently, so one
//! machine can render and inspect another platform's answer.

use vstd::prelude::*;

use crate::manifest::Install;

verus! {

#[derive(Debug, Clone, Copy, PartialEq, Eq, PartialOrd, Ord, Hash, Structural)]
pub enum Platform {
    Linux,
    MacOS,
}

/// The manifest key a platform's overrides live under.
pub open spec fn platform_key(p: Platform) -> Seq<char> {
    match p {
        Platform::Linux => seq!['l', 'i', 'n', 'u', 'x'],
        Platform::MacOS => seq!['m', 'a', 'c', 'o', 's'],
    }
}

/// Whether an install method, not overridden for the platform, can still be
/// attempted as written: Linux has no `brew`, macOS has no `apt`.
pub open spec fn admits_spec(p: Platform, install: Install) -> bool {
    !((p == Platform::MacOS && install is Apt) || (p == Platform::Linux && install is Brew))
}

impl Platform {
    /// The manifest key this platform's `[tool.platform.<key>]` overrides
    /// live under.
    pub fn key(self) -> (r: &'static str)
        ensures
            r@ == platform_key(self),
    {
        match self {
            Platform::Linux => {
                let r = "linux";
                proof {
                    reveal_strlit("linux");
                }
                r
            },
            Platform::MacOS => {
                let r = "macos";
                proof {
                    reveal_strlit("macos");
                }
                r
            },
        }
    }

    /// Whether an install method not overridden for this platform can still
    /// be attempted as written.
    pub fn admits(self, install: &Install) -> (r: bool)
        ensures
            r == admits_spec(self, *install),
    {
        match (self, install) {
            (Platform::MacOS, Install::Apt { .. }) => false,
            (Platform::Linux, Install::Brew { .. }) => false,
            _ => true,
        }
    }

    /// The platform to plan for: an explicit `--platform` wins, then the
    /// value of `PINST_PLATFORM` (`env`), then `host`, the platform this
    /// binary was built for. An unrecognised `PINST_PLATFORM` is a usage
    /// error, not a silent fall-through to the host.
    pub fn resolve(explicit: Option<Platform>, env: Option<&str>, host: Platform) -> (r: Result<Platform, crate::UsageError>)
        ensures
            match explicit {
                Some(p) => r == Ok::<Platform, crate::UsageError>(p),
                None => match env {
                    None => r == Ok::<Platform, crate::UsageError>(host),
                    Some(v) => if v@ == platform_key(Platform::Linux) {
                        r == Ok::<Platform, crate::UsageError>(Platform::Linux)
                    } else if v@ == platform_key(Platform::MacOS) {
                        r == Ok::<Platform, crate::UsageError>(Platform::MacOS)
                    } else {
                        r matches Err(u) && u.0@ == "unrecognized PINST_PLATFORM '"@ + v@ + "'"@
                    },
                },
            },
    {
        if let Some(p) = explicit {
            return Ok(p);
        }
        match env {
            None => Ok(host),
            Some(v) => match Platform::from_key(v) {
                Some(p) => Ok(p),
                None => {
                    let mut m: Vec<char> = Vec::new();
                    crate::text::push_str(&mut m, "unrecognized PINST_PLATFORM '");
                    crate::text::push_str(&mut m, v);
                    crate::text::push_str(&mut m, "'");
                    Err(crate::UsageError(crate::text::string_of(&m)))
                },
            },
        }
    }

    /// The platform a manifest key names, if any.
    pub fn from_key(s: &str) -> (r: Option<Platform>)
        ensures
            match r {
                Some(p) => platform_key(p) == s@,
                None => s@ != platform_key(Platform::Linux) && s@ != platform_key(Platform::MacOS),
            },
    {
        let c = crate::text::chars_of(s);
        if c.len() == 5 && c[0] == 'l' && c[1] == 'i' && c[2] == 'n' && c[3] == 'u' && c[4] == 'x' {
            assert(c@ =~= platform_key(Platform::Linux));
            Some(Platform::Linux)
        } else if c.len() == 5 && c[0] == 'm' && c[1] == 'a' && c[2] == 'c' && c[3] == 'o' && c[4]
            == 's' {
            assert(c@ =~= platform_key(Platform::MacOS));
            Some(Platform::MacOS)
        } else {
            None
        }
    }
}

impl std::str::FromStr for Platform {
    type Err = ();

    fn from_str(s: &str) -> (r: Result<Self, Self::Err>)
        ensures
            match r {
                Ok(p) => platform_key(p) == s@,
                Err(_) => s@ != platform_key(Platform::Linux) && s@ != platform_key(Platform::MacOS),
            },
    {
        match Platform::from_key(s) {
            Some(p) => Ok(p),
            None => Err(()),
        }
    }
}

} // verus!
