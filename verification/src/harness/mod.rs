//! The agent harness: the checks that keep a repo's `.ash/` plan corpus and
//! its `.agents/` skills honest, and the pieces that install those skills.

pub mod asset;
pub mod check;
pub mod corpus;
pub mod evals;
pub mod evidence;
pub mod frontmatter;
pub mod id;
pub mod install;
pub mod preview;
pub mod project;
pub mod renumber;
pub mod root;
pub mod skills;
pub mod transcripts;
pub mod vendor;
