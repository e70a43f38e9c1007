//! State of the in-app log console: which records it holds and which it shows.
use vstd::prelude::*;
use crate::logging::{drain_log_entries, keep_last, level_rank, retain_newest, Level, LogEntry};
use crate::text::string_push;

verus! {

/// Which records the console shows.
#[derive(Debug, Clone, Copy, PartialEq, Eq, Structural)]
pub enum ConsoleFilter {
    All,
    Info,
    Warn,
    Error,
}

pub open spec fn filter_label(f: ConsoleFilter) -> Seq<char> {
    match f {
        ConsoleFilter::All => "All"@,
        ConsoleFilter::Info => "Info"@,
        ConsoleFilter::Warn => "Warn"@,
        ConsoleFilter::Error => "Error"@,
    }
}

/// `Info` shows info and more severe records, `Warn` warnings and errors,
/// `Error` errors only.
pub open spec fn filter_passes(f: ConsoleFilter, level: Level) -> bool {
    match f {
        ConsoleFilter::All => true,
        ConsoleFilter::Info => level_rank(level) <= 3,
        ConsoleFilter::Warn => level_rank(level) <= 2,
        ConsoleFilter::Error => level == Level::Error,
    }
}

fn rank(level: Level) -> (r: u8)
    ensures
        r == level_rank(level),
{
    match level {
        Level::Error => 1,
        Level::Warn => 2,
        Level::Info => 3,
        Level::Debug => 4,
        Level::Trace => 5,
    }
}

impl ConsoleFilter {
    /// The caption of the filter's button.
    pub fn label(self) -> (r: &'static str)
        ensures
            r@ == filter_label(self),
    {
        match self {
            ConsoleFilter::All => "All",
            ConsoleFilter::Info => "Info",
            ConsoleFilter::Warn => "Warn",
            ConsoleFilter::Error => "Error",
        }
    }

    /// Whether a record of `level` is shown under this filter.
    pub fn passes(self, level: Level) -> (r: bool)
        ensures
            r == filter_passes(self, level),
    {
        match self {
            ConsoleFilter::All => true,
            ConsoleFilter::Info => rank(level) <= 3,
            ConsoleFilter::Warn => rank(level) <= 2,
            ConsoleFilter::Error => rank(level) == 1,
        }
    }
}

/// How many records the console keeps.
pub const MAX_DISPLAY: usize = 2048;

/// The console: its records, oldest first, the active filter, and whether it
/// follows new records.
pub struct ConsoleState {
    pub entries: Vec<LogEntry>,
    pub filter: ConsoleFilter,
    pub auto_scroll: bool,
}

impl Default for ConsoleState {
    fn default() -> (r: Self)
        ensures
            r.entries@.len() == 0,
            r.filter == ConsoleFilter::All,
            r.auto_scroll,
    {
        ConsoleState { entries: Vec::new(), filter: ConsoleFilter::All, auto_scroll: true }
    }
}

pub open spec fn shown_by(f: ConsoleFilter) -> spec_fn(LogEntry) -> bool {
    |e: LogEntry| filter_passes(f, e.level)
}

/// The records of `entries` that `f` shows, oldest first.
pub open spec fn shown(entries: Seq<LogEntry>, f: ConsoleFilter) -> Seq<LogEntry> {
    entries.filter(shown_by(f))
}

proof fn lemma_all_shows_everything(entries: Seq<LogEntry>)
    ensures
        shown(entries, ConsoleFilter::All) == entries,
    decreases entries.len(),
{
    if entries.len() > 0 {
        let init = entries.drop_last();
        lemma_all_shows_everything(init);
        init.lemma_filter_push(entries.last(), shown_by(ConsoleFilter::All));
        assert(init.push(entries.last()) =~= entries);
    } else {
        reveal(Seq::filter);
    }
}

impl ConsoleState {
    /// Moves every record of the log buffer to the console, which then keeps
    /// its newest [`MAX_DISPLAY`] records.
    pub fn poll(&mut self, log_buffer: &mut Vec<LogEntry>)
        ensures
            final(self).entries@ == keep_last(old(self).entries@ + old(log_buffer)@, MAX_DISPLAY as nat),
            final(self).filter == old(self).filter,
            final(self).auto_scroll == old(self).auto_scroll,
            final(log_buffer)@.len() == 0,
    {
        let mut drained = drain_log_entries(log_buffer);
        self.entries.append(&mut drained);
        retain_newest(&mut self.entries, MAX_DISPLAY);
    }

    /// How many records filter `f` shows (the count on its button).
    pub fn count_for(&self, f: ConsoleFilter) -> (r: usize)
        ensures
            r == shown(self.entries@, f).len(),
    {
        match f {
            ConsoleFilter::All => {
                proof {
                    lemma_all_shows_everything(self.entries@);
                }
                self.entries.len()
            },
            _ => {
                let mut count: usize = 0;
                let mut i: usize = 0;
                while i < self.entries.len()
                    invariant
                        i <= self.entries@.len(),
                        count == shown(self.entries@.take(i as int), f).len(),
                        count <= i,
                    decreases self.entries@.len() - i,
                {
                    let e = &self.entries[i];
                    proof {
                        assert(self.entries@.take(i + 1) =~= self.entries@.take(i as int).push(*e));
                        self.entries@.take(i as int).lemma_filter_push(*e, shown_by(f));
                    }
                    if f.passes(e.level) {
                        count = count + 1;
                    }
                    i = i + 1;
                }
                assert(self.entries@.take(self.entries@.len() as int) =~= self.entries@);
                count
            },
        }
    }
}

/// The three-letter tag shown for a level.
pub open spec fn level_tag_text(level: Level) -> Seq<char> {
    match level {
        Level::Error => "ERR"@,
        Level::Warn => "WRN"@,
        Level::Info => "INF"@,
        Level::Debug => "DBG"@,
        Level::Trace => "TRC"@,
    }
}

pub fn level_tag(level: Level) -> (r: &'static str)
    ensures
        r@ == level_tag_text(level),
{
    match level {
        Level::Error => "ERR",
        Level::Warn => "WRN",
        Level::Info => "INF",
        Level::Debug => "DBG",
        Level::Trace => "TRC",
    }
}

/// `::` starts at position `i` of `s`.
pub open spec fn path_separator_at(s: Seq<char>, i: int) -> bool {
    0 <= i && i + 1 < s.len() && s[i] == ':' && s[i + 1] == ':'
}

/// The last part of a module path: what follows the last `::` (all of `s`
/// when there is none).
pub open spec fn short_target_text(s: Seq<char>) -> Seq<char> {
    if exists|i: int| #[trigger] path_separator_at(s, i) {
        let i = choose|i: int| #[trigger] path_separator_at(s, i) && forall|j: int| i < j ==> !path_separator_at(s, j);
        s.skip(i + 2)
    } else {
        s
    }
}

/// The last part of a record's target, as the console shows it.
pub fn short_target(target: &str) -> (r: String)
    ensures
        r@ == short_target_text(target@),
{
    let n = target.unicode_len();
    let mut i: usize = n;
    let mut found: Option<usize> = None;
    while i > 0 && found.is_none()
        invariant
            n == target@.len(),
            i <= n,
            found is None ==> forall|j: int| i <= j ==> !path_separator_at(target@, j),
            found matches Some(k) ==> k + 2 <= n && path_separator_at(target@, k as int) && forall|j: int|
                k < j ==> !path_separator_at(target@, j),
        decreases i,
    {
        let k = i - 1;
        if k + 1 < n && target.get_char(k) == ':' && target.get_char(k + 1) == ':' {
            assert(path_separator_at(target@, k as int));
            found = Some(k);
        }
        i = k;
    }
    let start: usize = match found {
        Some(k) => {
            proof {
                let c = choose|c: int| #[trigger] path_separator_at(target@, c) && forall|j: int| c < j ==> !path_separator_at(target@, j);
                if c < k {
                    assert(!path_separator_at(target@, k as int));
                }
                if c > k {
                    assert(!path_separator_at(target@, c));
                }
            }
            k + 2
        },
        None => {
            assert(forall|j: int| !path_separator_at(target@, j));
            0
        },
    };
    let mut out = String::new();
    let mut p: usize = start;
    while p < n
        invariant
            n == target@.len(),
            start <= p <= n,
            out@ == target@.subrange(start as int, p as int),
        decreases n - p,
    {
        string_push(&mut out, target.get_char(p));
        assert(target@.subrange(start as int, p + 1) =~= target@.subrange(start as int, p as int).push(target@[p as int]));
        p = p + 1;
    }
    assert(target@.subrange(start as int, n as int) =~= target@.skip(start as int));
    proof {
        if start == 0 {
            assert(target@.skip(0) =~= target@);
        }
    }
    out
}

} // verus!
