use dist_render::console::{level_tag, short_target, ConsoleFilter, ConsoleState, MAX_DISPLAY};
use dist_render::logging::{drain_log_entries, push_log_entry, Level, LogEntry, MAX_LOG_ENTRIES};

fn entry(level: Level, n: usize) -> LogEntry {
    LogEntry {
        level,
        target: "dist_render::test".to_string(),
        message: format!("message {}", n),
        timestamp: "12:00:00".to_string(),
    }
}

#[test]
fn filter_labels_and_levels() {
    assert_eq!(ConsoleFilter::All.label(), "All");
    assert_eq!(ConsoleFilter::Warn.label(), "Warn");
    assert!(ConsoleFilter::All.passes(Level::Trace));
    assert!(ConsoleFilter::Info.passes(Level::Info));
    assert!(ConsoleFilter::Info.passes(Level::Error));
    assert!(!ConsoleFilter::Info.passes(Level::Debug));
    assert!(ConsoleFilter::Warn.passes(Level::Warn));
    assert!(!ConsoleFilter::Warn.passes(Level::Info));
    assert!(ConsoleFilter::Error.passes(Level::Error));
    assert!(!ConsoleFilter::Error.passes(Level::Warn));
}

#[test]
fn log_buffer_keeps_newest() {
    let mut buffer = Vec::new();
    for n in 0..MAX_LOG_ENTRIES + 5 {
        push_log_entry(&mut buffer, entry(Level::Info, n));
    }
    assert_eq!(buffer.len(), MAX_LOG_ENTRIES);
    assert_eq!(buffer[0].message, "message 5");
    assert_eq!(buffer.last().unwrap().message, format!("message {}", MAX_LOG_ENTRIES + 4));
    let drained = drain_log_entries(&mut buffer);
    assert_eq!(drained.len(), MAX_LOG_ENTRIES);
    assert!(buffer.is_empty());
}

#[test]
fn console_poll_moves_and_trims() {
    let mut console = ConsoleState::default();
    assert!(console.auto_scroll);
    assert_eq!(console.filter, ConsoleFilter::All);
    let mut buffer: Vec<LogEntry> = (0..MAX_DISPLAY).map(|n| entry(Level::Debug, n)).collect();
    console.poll(&mut buffer);
    assert!(buffer.is_empty());
    buffer.push(entry(Level::Error, 9999));
    console.poll(&mut buffer);
    assert_eq!(console.entries.len(), MAX_DISPLAY);
    assert_eq!(console.entries[0].message, "message 1");
    assert_eq!(console.entries.last().unwrap().message, "message 9999");
}

#[test]
fn console_counts_per_filter() {
    let mut console = ConsoleState::default();
    let mut buffer = vec![
        entry(Level::Error, 0),
        entry(Level::Warn, 1),
        entry(Level::Info, 2),
        entry(Level::Debug, 3),
        entry(Level::Trace, 4),
        entry(Level::Warn, 5),
    ];
    console.poll(&mut buffer);
    assert_eq!(console.count_for(ConsoleFilter::All), 6);
    assert_eq!(console.count_for(ConsoleFilter::Info), 4);
    assert_eq!(console.count_for(ConsoleFilter::Warn), 3);
    assert_eq!(console.count_for(ConsoleFilter::Error), 1);
}

#[test]
fn console_shows_short_targets_and_tags() {
    assert_eq!(short_target("dist_render::runtime::scene"), "scene");
    assert_eq!(short_target("plain"), "plain");
    assert_eq!(short_target("a:::b"), "b");
    assert_eq!(short_target("ends::"), "");
    assert_eq!(short_target(""), "");
    assert_eq!(level_tag(Level::Error), "ERR");
    assert_eq!(level_tag(Level::Trace), "TRC");
}
