//! Log records kept for the in-app console, in a buffer of bounded length.
use vstd::prelude::*;

verus! {

/// Severity of a log record, most severe first, ordered as the `log` crate
/// orders its levels.
#[derive(Debug, Clone, Copy, PartialEq, Eq, Hash, Structural)]
pub enum Level {
    Error,
    Warn,
    Info,
    Debug,
    Trace,
}

/// The position of a level in the order: `Error` is 1, `Trace` is 5.
pub open spec fn level_rank(level: Level) -> nat {
    match level {
        Level::Error => 1,
        Level::Warn => 2,
        Level::Info => 3,
        Level::Debug => 4,
        Level::Trace => 5,
    }
}

/// One log record as the console shows it.
#[derive(Debug, Clone)]
pub struct LogEntry {
    pub level: Level,
    pub target: String,
    pub message: String,
    pub timestamp: String,
}

/// How many records the buffer keeps.
pub const MAX_LOG_ENTRIES: usize = 2048;

/// The last `n` elements of `s` (all of them when there are fewer).
pub open spec fn keep_last<T>(s: Seq<T>, n: nat) -> Seq<T> {
    if s.len() > n {
        s.subrange(s.len() - n, s.len() as int)
    } else {
        s
    }
}

/// Takes every record out of `buffer`, oldest first.
pub fn drain_log_entries(buffer: &mut Vec<LogEntry>) -> (r: Vec<LogEntry>)
    ensures
        r@ == old(buffer)@,
        final(buffer)@.len() == 0,
{
    let mut taken: Vec<LogEntry> = Vec::new();
    std::mem::swap(&mut taken, buffer);
    taken
}

/// Drops the oldest elements of `v` until at most `max` remain.
pub fn retain_newest<T>(v: &mut Vec<T>, max: usize)
    ensures
        final(v)@ == keep_last(old(v)@, max as nat),
{
    if v.len() > max {
        let excess = v.len() - max;
        let newest = v.split_off(excess);
        *v = newest;
    }
}

/// Adds `entry` to the buffer, which then keeps its newest
/// [`MAX_LOG_ENTRIES`] records.
pub fn push_log_entry(buffer: &mut Vec<LogEntry>, entry: LogEntry)
    ensures
        final(buffer)@ == keep_last(old(buffer)@.push(entry), MAX_LOG_ENTRIES as nat),
        final(buffer)@.len() <= MAX_LOG_ENTRIES,
        final(buffer)@.last() == entry,
{
    buffer.push(entry);
    retain_newest(buffer, MAX_LOG_ENTRIES);
}

} // verus!
