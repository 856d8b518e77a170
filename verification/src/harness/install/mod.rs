//! Installing and uninstalling the harness: placing `.agents/` skills and
//! commands into a vendor's directories, and undoing exactly that.

pub mod check;
pub mod plan;
pub mod receipt;
pub mod record;
pub mod state;
