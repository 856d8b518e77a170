//! pinst: the manifest, planning, templating and agent-harness logic behind
//! the `pinst` provisioning tool, with its behaviour stated as contracts.

pub mod text;
pub mod harness;
pub mod manifest;
pub mod platform;
pub mod graph;
pub mod validate;
pub mod plan;
pub mod path;
pub mod template;
pub mod upgrade;
pub mod probe;
pub mod registry;
pub mod health;
pub mod view;
pub mod source;
pub mod prompt;
pub mod doctor;
pub mod json;

use vstd::prelude::*;

verus! {

/// A failure caused by how pinst was asked — an unknown tool or profile, a
/// missing or invalid manifest — rather than by something going wrong
/// while doing the work; it maps to the usage-error exit code.
#[derive(Debug)]
pub struct UsageError(pub String);

impl UsageError {
    /// The message, as shown to the user.
    pub fn message(&self) -> (r: String)
        ensures
            r@ == self.0@,
    {
        self.0.clone()
    }
}

/// A usage error carrying `message`.
pub fn usage(message: &str) -> (r: UsageError)
    ensures
        r.0@ == message@,
{
    UsageError(message.to_owned())
}

/// `$HOME` (the caller's reading of it), or a clear failure when it is unset
/// or empty: every config path is relative to it, so guessing would write
/// someone's dotfiles into the wrong place.
pub fn home_dir(home: Option<&str>) -> (r: Result<String, String>)
    ensures
        match home {
            Some(h) if h@.len() > 0 => r is Ok && r->Ok_0@ == h@,
            _ => r is Err && r->Err_0@ == "HOME is not set; pinst cannot resolve config targets"@,
        },
{
    match home {
        Some(h) if crate::text::chars_of(h).len() > 0 => Ok(h.to_owned()),
        _ => Err("HOME is not set; pinst cannot resolve config targets".to_owned()),
    }
}

} // verus!
