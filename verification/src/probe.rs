//! Detecting manifest tools: whether each is installed, its version and
//! where its binary is.
//!
//! The caller runs each tool's effective `detect.command` (exit 0 means
//! installed) and `detect.version_cmd`, and looks the binary up on `PATH`;
//! reading a version out of the output and assembling the result are done
//! here.

use vstd::prelude::*;

use crate::manifest::{effective_detect, is_unsupported_on, Resolved, Tool};
use crate::platform::Platform;

verus! {

/// The generic version pattern, used when a tool declares none.
pub const DEFAULT_PATTERN: &'static str = "(\\d+\\.\\d+(?:\\.\\d+)?)";

#[derive(Debug)]
pub struct ProbeResult {
    pub tool: String,
    pub installed: bool,
    pub version: Option<String>,
    /// Where the tool's binary resolved on PATH, when it declares one.
    pub path: Option<String>,
}

/// What the regular expression `pattern` captures in its first group on
/// the first match in `text`; none when the pattern does not compile,
/// does not match, or its first group took no part in the match.
pub uninterp spec fn regex_first_group(pattern: Seq<char>, text: Seq<char>) -> Option<Seq<char>>;

pub open spec fn opt_view(o: Option<String>) -> Option<Seq<char>> {
    match o {
        Some(s) => Some(s@),
        None => None,
    }
}

/// `regex::Regex::new(pattern)`, then `captures(text)` and its group 1.
/// Claimed: the text of that group, and nothing when the pattern does not
/// compile or nothing matches — the same answer for the same pattern and
/// text every time.
#[verifier::external_body]
fn first_group(pattern: &str, text: &str) -> (r: Option<String>)
    ensures
        opt_view(r) == regex_first_group(pattern@, text@),
{
    let re = regex::Regex::new(pattern).ok()?;
    re.captures(text)?.get(1).map(|m| m.as_str().to_string())
}

/// The version in raw `--version`-style output: the first capture group of
/// `pattern`, or of the generic pattern when the tool declares none.
/// Unparseable output yields nothing rather than a wrong guess.
pub fn extract(output: &str, pattern: Option<&str>) -> (r: Option<String>)
    ensures
        opt_view(r) == regex_first_group(
            match pattern {
                Some(p) => p@,
                None => DEFAULT_PATTERN@,
            },
            output@,
        ),
{
    let pattern = match pattern {
        Some(p) => p,
        None => DEFAULT_PATTERN,
    };
    first_group(pattern, output)
}

/// One tool's probe, from what the caller observed: whether its detect
/// command succeeded, what its version command printed (when it was run)
/// and where its binary resolved. A tool the platform cannot install has
/// nothing to detect.
pub fn finish_probe(
    tool: &Tool,
    platform: Platform,
    installed: bool,
    version_output: Option<&str>,
    path: Option<String>,
) -> (r: ProbeResult)
    ensures
        r.tool@ == tool.name@,
        is_unsupported_on(*tool, platform) ==> !r.installed && r.version is None && r.path is None,
        !is_unsupported_on(*tool, platform) ==> {
            let d = effective_detect(*tool, platform);
            &&& r.installed == installed
            &&& opt_view(r.path) == opt_view(path)
            &&& opt_view(r.version) == if installed && d.version_cmd is Some && version_output is Some {
                regex_first_group(
                    match d.version_regex {
                        Some(p) => p@,
                        None => DEFAULT_PATTERN@,
                    },
                    version_output->0@,
                )
            } else {
                None
            }
        },
{
    match tool.resolve(platform) {
        Resolved::Unsupported(_) => ProbeResult { tool: tool.name.clone(), installed: false, version: None, path: None },
        Resolved::Supported(effective) => {
            let version = if installed && effective.detect.version_cmd.is_some() {
                match version_output {
                    Some(out) => {
                        let pattern: Option<&str> = match &effective.detect.version_regex {
                            Some(p) => Some(p.as_str()),
                            None => None,
                        };
                        extract(out, pattern)
                    },
                    None => None,
                }
            } else {
                None
            };
            ProbeResult { tool: tool.name.clone(), installed, version, path }
        },
    }
}

} // verus!
