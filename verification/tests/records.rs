use jsonscope::adapters::common::{Adapter, Direction, Line};
use jsonscope::adapters::hub::{Hub, ReadEvent};
use jsonscope::adapters::test::TestAdapter;
use jsonscope::mocks::Mocks;
use jsonscope::text::u64_to_string;

#[test]
fn new_json_formats_valid_payloads() {
    let line = Line::new_json(String::from("[1,\n2]"), Direction::Incoming);
    assert_eq!(line.text, "[1,2]");
    assert!(line.treat_as_json);
    assert!(!line.invalid_json);
    assert!(!line.outgoing());
}

#[test]
fn new_json_keeps_rejected_payloads_verbatim() {
    let line = Line::new_json(String::from("\\oops"), Direction::Incoming);
    assert_eq!(line.text, "\\oops");
    assert!(!line.treat_as_json);
    assert!(line.invalid_json);
    assert!(line.outgoing());
}

#[test]
fn new_log_is_a_plain_record() {
    let line = Line::new_log(String::from("listening"));
    assert_eq!(line.text, "listening");
    assert!(!line.treat_as_json);
    assert!(!line.invalid_json);
    assert!(line.outgoing());
    assert_eq!(line.format_date(), "");
}

#[test]
fn decimal_writing_is_exact() {
    assert_eq!(u64_to_string(0), "0");
    assert_eq!(u64_to_string(7), "7");
    assert_eq!(u64_to_string(40), "40");
    assert_eq!(u64_to_string(1234567890), "1234567890");
    assert_eq!(u64_to_string(u64::MAX), "18446744073709551615");
}

#[test]
fn test_adapter_reports_every_fifth_poll() {
    let mut adapter = TestAdapter::default();
    for _ in 0..4 {
        assert!(adapter.get_lines().is_none());
    }
    let lines = adapter.get_lines().unwrap();
    assert_eq!(lines.len(), 1);
    assert_eq!(lines[0].text, "5");
}

#[test]
fn adapter_defaults_are_inert() {
    struct Quiet;
    impl Adapter for Quiet {
    }
    let mut q = Quiet;
    assert!(q.status().is_ok());
    assert!(q.get_lines().is_none());
    q.send_message(&String::from("ignored"));
}

#[test]
fn mocks_keep_their_root() {
    let m = Mocks::from_root(String::from("mocks"));
    assert_eq!(m.root().as_str(), "mocks");
}

#[test]
fn drain_accounts_for_every_message_and_closure() {
    let mut hub = Hub::new();
    hub.register();
    hub.register();
    hub.register();
    assert_eq!(hub.peer_count(), 3);

    let events = vec![
        ReadEvent::Data(b"{\"a\": 1}{\"b\": 2}".to_vec()),
        ReadEvent::Closed,
        ReadEvent::Data(b"\"x\"".to_vec()),
    ];
    let (lines, kept) = hub.drain(&events);
    assert_eq!(lines.len(), 3);
    assert_eq!(kept, vec![true, false, true]);
    assert_eq!(hub.peer_count(), 2);
    for line in &lines {
        assert!(line.treat_as_json);
        assert!(!line.invalid_json);
        assert!(!line.outgoing());
    }
    assert_eq!(lines[0].text, "{\"a\":1}");
    assert_eq!(lines[1].text, "{\"b\":2}");
    assert_eq!(lines[2].text, "\"x\"");

    let again = vec![ReadEvent::Idle, ReadEvent::Data(b"1,".to_vec())];
    let (lines, kept) = hub.drain(&again);
    assert_eq!(lines.len(), 1);
    assert_eq!(lines[0].text, "1,");
    assert_eq!(kept, vec![true, true]);
    assert_eq!(hub.peer_count(), 2);
}

#[test]
fn drain_removes_a_tainted_peer_and_logs_broken_reads() {
    let mut hub = Hub::new();
    hub.register();
    hub.register();
    let events = vec![
        ReadEvent::Data(b"}".to_vec()),
        ReadEvent::Broken(String::from("connection reset")),
    ];
    let (lines, kept) = hub.drain(&events);
    assert_eq!(kept, vec![false, true]);
    assert_eq!(hub.peer_count(), 1);
    assert_eq!(lines.len(), 1);
    assert_eq!(lines[0].text, "connection reset");
    assert!(!lines[0].treat_as_json);
}

#[test]
fn drain_flags_invalid_messages_without_dropping_the_peer() {
    let mut hub = Hub::new();
    hub.register();
    let events = vec![ReadEvent::Data(b"\"a\"\\x".to_vec())];
    let (lines, kept) = hub.drain(&events);
    assert_eq!(kept, vec![true]);
    assert_eq!(lines.len(), 2);
    assert_eq!(lines[0].text, "\"a\"");
    assert!(lines[0].treat_as_json);
    assert_eq!(lines[1].text, "\\x");
    assert!(lines[1].invalid_json);
}

#[test]
fn keep_sent_prunes_failed_writes() {
    let mut hub = Hub::new();
    hub.register();
    hub.register();
    hub.register();
    hub.keep_sent(&vec![true, false, true]);
    assert_eq!(hub.peer_count(), 2);
}
