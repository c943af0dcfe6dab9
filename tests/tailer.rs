use journal_tail::format::{FormatError, LogRecord};
use journal_tail::tailer::{Phase, Seek, Tailer};

fn rec(pos: Option<&str>, msg: Option<&str>, sev: &str) -> LogRecord {
    LogRecord {
        timestamp_us: 1_600_000_000_000_000,
        priority: Some(sev.to_string()),
        hostname: Some("host".to_string()),
        identifier: Some("unit".to_string()),
        message: msg.map(|s| s.to_string()),
        cursor: pos.map(|s| s.to_string()),
    }
}

#[test]
fn fresh_start_seeks_to_tail() {
    let mut t = Tailer::new();
    assert_eq!(t.phase, Phase::Seeking);
    let s = t.start(None);
    assert!(matches!(s, Seek::Tail));
    assert_eq!(t.phase, Phase::Reading);
    assert_eq!(t.position, None);
}

#[test]
fn restart_seeks_to_saved_cursor() {
    let mut t = Tailer::new();
    let s = t.start(Some("tok-k".to_string()));
    match s {
        Seek::Cursor(c) => assert_eq!(c, "tok-k"),
        Seek::Tail => panic!("expected a cursor seek"),
    }
    assert_eq!(t.position, Some("tok-k".to_string()));
}

#[test]
fn missing_message_is_skipped_and_later_records_delivered() {
    let mut t = Tailer::new();
    t.start(None);
    let d = t.deliver(&rec(Some("a"), None, "6"), "L");
    assert_eq!(d.line, Err(FormatError::MissingField));
    assert_eq!(d.save, None);
    assert_eq!(t.position, None);
    t.finish(false);
    assert_eq!(t.phase, Phase::Reading);
    let d = t.deliver(&rec(Some("b"), Some("fine"), "6"), "L");
    assert!(d.line.unwrap().ends_with("fine"));
    assert_eq!(d.save, Some("b".to_string()));
    assert_eq!(t.position, Some("b".to_string()));
}

#[test]
fn record_without_token_is_delivered_without_save() {
    let mut t = Tailer::new();
    t.start(Some("old".to_string()));
    let d = t.deliver(&rec(None, Some("no token"), "4"), "L");
    assert!(d.line.is_ok());
    assert_eq!(d.save, None);
    assert_eq!(t.position, Some("old".to_string()));
}

#[test]
fn stop_flag_ends_the_loop_after_the_current_record() {
    let mut t = Tailer::new();
    t.start(None);
    t.deliver(&rec(Some("a"), Some("one"), "6"), "L");
    assert_eq!(t.phase, Phase::Delivering);
    t.finish(true);
    assert!(t.is_stopped());
    assert_eq!(t.phase, Phase::Stopped);
    assert_eq!(t.position, Some("a".to_string()));
}

#[test]
fn two_records_from_a_fresh_start() {
    let mut t = Tailer::new();
    assert!(matches!(t.start(None), Seek::Tail));
    let mut sink: Vec<String> = Vec::new();
    let mut saved: Option<String> = None;
    for r in [rec(Some("a"), Some("boot ok"), "6"), rec(Some("b"), Some("disk full"), "3")] {
        let d = t.deliver(&r, "L");
        if let Ok(line) = d.line {
            sink.push(line);
        }
        if let Some(tok) = d.save {
            saved = Some(tok);
        }
        t.finish(false);
    }
    assert_eq!(sink.len(), 2);
    assert!(sink[0].contains("boot ok"));
    assert!(sink[1].contains("[Critical]"));
    assert!(sink[1].contains("disk full"));
    assert_eq!(saved, Some("b".to_string()));
}
