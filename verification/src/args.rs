//! The run configuration: constructed once from process arguments, read-only
//! thereafter, owned by the orchestrator.

use vstd::prelude::*;

verus! {

/// Pretty print the live chat of a channel, with optional raw logging.
///
/// Built once from the command line: the channel to join, an optional log
/// file with its append-vs-truncate flag, and whether to replay protocol
/// text from standard input instead of connecting live (the channel name is
/// still required then, but unused).
pub struct Args {
    pub channel_name: String,
    /// File to write the raw protocol log to.
    pub log_file: Option<String>,
    /// Append to the log file instead of overwriting it.
    pub append: bool,
    /// Do not connect live; read raw protocol text from standard input.
    pub from_stdin: bool,
}

impl Default for Args {
    fn default() -> (r: Self)
        ensures
            r.channel_name@ == Seq::<char>::empty(),
            r.log_file is None,
            !r.append,
            !r.from_stdin,
    {
        Args { channel_name: String::new(), log_file: None, append: false, from_stdin: false }
    }
}

} // verus!
