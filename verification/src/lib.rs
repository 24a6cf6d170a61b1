//! Turn the remotes of a repository into a page to open in a browser.
//!
//! The crate holds the rules only: which URLs a remote listing names, which of
//! them is opened, how an SSH-style remote is rewritten to an HTTPS address,
//! and which program opens it. Running commands and talking to the user is left
//! to the caller.

pub mod extract;
pub mod format;
pub mod launch;
pub mod select;
pub mod text;
