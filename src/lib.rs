//! Management of pseudo-terminal sessions: a registry of live sessions keyed
//! by identifier, the decisions of each session's output reader, and the shell
//! command a session starts.

pub mod registry;
pub mod session;
pub mod terminal;
pub mod git;
