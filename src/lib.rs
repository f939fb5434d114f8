//! Tokenizer for the `Exec` command lines of desktop entries, with the
//! transforms that turn a parsed command into what is actually run, and the
//! small decisions built on it: which program an entry runs, whether it
//! launches a Steam game, and the order in which entry keys are written.

pub mod text;
pub mod shellparse;
pub mod laws;
pub mod steam;
pub mod exec_check;
pub mod entry_order;
