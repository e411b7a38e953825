use superhist::event::{Event, Payload};
use superhist::query::QueryEntry;
use superhist::store::SuperHist;

fn command(timestamp: u64, idx: u64, text: &str, workdir: &str) -> Event {
    Event {
        timestamp,
        idx,
        terminal: "/dev/pts/1".to_string(),
        payload: Payload::Command { text: text.to_string(), workdir: workdir.to_string() },
    }
}

fn exit_on(terminal: &str, timestamp: u64, idx: u64, code: u32) -> Event {
    Event { timestamp, idx, terminal: terminal.to_string(), payload: Payload::ExitCode(code) }
}

fn exit(timestamp: u64, idx: u64, code: u32) -> Event {
    exit_on("/dev/pts/1", timestamp, idx, code)
}

fn entry(nr: u64, timestamp: u64, exit_code: Option<u32>, text: &str) -> QueryEntry {
    QueryEntry { nr, timestamp, exit_code, text: text.to_string() }
}

fn hist() -> SuperHist {
    SuperHist::new("/tmp/root".to_string())
}

fn query(log: Vec<Event>, workdir: Option<&str>, nr: u64, fetch: Option<u64>) -> Vec<QueryEntry> {
    let h = hist();
    let scan = h.scan_order(log, vec![]);
    h.fc(&scan, &workdir.map(|w| w.to_string()), nr, fetch)
}

#[test]
fn end_to_end_one_line_for_repeated_text() {
    let log = vec![command(100, 1, "ls", "/home"), exit(101, 1, 0), command(200, 2, "ls", "/tmp")];
    assert_eq!(query(log, None, 1, None), vec![entry(1, 200, None, "ls")]);
}

#[test]
fn query_of_nothing_is_empty() {
    assert_eq!(query(vec![], None, 1, None), vec![]);
    assert_eq!(query(vec![], Some("/home"), 1, Some(1)), vec![]);
}

#[test]
fn newest_command_comes_first() {
    let log = vec![command(1, 1, "a", "/w"), command(2, 2, "b", "/w"), command(3, 3, "c", "/w")];
    assert_eq!(
        query(log, None, 1, None),
        vec![entry(1, 3, None, "c"), entry(2, 2, None, "b"), entry(3, 1, None, "a")]
    );
}

#[test]
fn repeated_text_shows_the_latest_exit_code() {
    let log = vec![
        command(10, 1, "make", "/w"),
        exit(11, 1, 2),
        command(20, 2, "make", "/w"),
        exit(21, 2, 0),
    ];
    assert_eq!(query(log, None, 1, None), vec![entry(1, 20, Some(0), "make")]);
}

#[test]
fn repeated_text_does_not_take_the_older_exit_code() {
    let log = vec![command(10, 1, "make", "/w"), exit(11, 1, 0), command(20, 2, "make", "/w"), exit(21, 2, 7)];
    assert_eq!(query(log, None, 5, None), vec![entry(5, 20, Some(7), "make")]);
}

#[test]
fn exit_code_belongs_to_terminal_and_index() {
    let log = vec![
        command(10, 1, "a", "/w"),
        exit_on("/dev/pts/9", 11, 1, 3),
        command(12, 2, "b", "/w"),
        exit(13, 2, 4),
        exit(14, 1, 0),
    ];
    assert_eq!(
        query(log, None, 1, None),
        vec![entry(1, 12, Some(4), "b"), entry(2, 10, Some(0), "a")]
    );
}

#[test]
fn of_two_exit_codes_for_one_slot_the_older_is_shown() {
    let log = vec![command(10, 1, "a", "/w"), exit(11, 1, 1), exit(12, 1, 2)];
    assert_eq!(query(log, None, 1, None), vec![entry(1, 10, Some(1), "a")]);
}

#[test]
fn exit_code_before_its_command_is_not_taken() {
    let log = vec![exit(5, 1, 9), command(10, 1, "a", "/w")];
    assert_eq!(query(log, None, 1, None), vec![entry(1, 10, None, "a")]);
}

#[test]
fn filter_keeps_commands_of_the_directory() {
    let log = vec![
        command(1, 1, "a", "/home"),
        command(2, 2, "b", "/tmp"),
        command(3, 3, "c", "/home"),
        command(4, 4, "a", "/tmp"),
    ];
    assert_eq!(
        query(log, Some("/home"), 1, None),
        vec![entry(1, 3, None, "c"), entry(2, 1, None, "a")]
    );
}

#[test]
fn filtered_out_command_does_not_hide_the_same_text() {
    let log = vec![command(1, 1, "ls", "/home"), command(2, 2, "ls", "/tmp")];
    assert_eq!(query(log, Some("/home"), 1, None), vec![entry(1, 1, None, "ls")]);
}

#[test]
fn filter_for_unknown_directory_lists_nothing() {
    let log = vec![command(1, 1, "ls", "/home")];
    assert_eq!(query(log, Some("/nowhere"), 1, None), vec![]);
}

#[test]
fn numbers_start_at_the_given_number() {
    let log = vec![command(1, 1, "a", "/w"), command(2, 2, "b", "/w")];
    assert_eq!(query(log, None, 40, None), vec![entry(40, 2, None, "b"), entry(41, 1, None, "a")]);
}

#[test]
fn fetch_returns_the_one_numbered_command() {
    let log = vec![
        command(1, 1, "a", "/w"),
        command(2, 2, "b", "/w"),
        command(3, 3, "a", "/w"),
        command(4, 4, "c", "/w"),
    ];
    assert_eq!(query(log.clone(), None, 1, Some(1)), vec![entry(1, 4, None, "c")]);
    assert_eq!(query(log.clone(), None, 1, Some(2)), vec![entry(2, 3, None, "a")]);
    assert_eq!(query(log.clone(), None, 1, Some(3)), vec![entry(3, 2, None, "b")]);
    assert_eq!(query(log.clone(), None, 1, Some(4)), vec![]);
    assert_eq!(query(log, None, 1, Some(0)), vec![]);
}

#[test]
fn fetch_numbers_are_those_of_the_full_list() {
    let log = vec![command(1, 1, "a", "/w"), command(2, 2, "b", "/w"), command(3, 3, "c", "/w")];
    let all = query(log.clone(), None, 10, None);
    for e in &all {
        assert_eq!(query(log.clone(), None, 10, Some(e.nr)), vec![entry(e.nr, e.timestamp, None, &e.text)]);
    }
}

#[test]
fn start_events_are_not_listed() {
    let start = Event { timestamp: 1, idx: 0, terminal: "t".to_string(), payload: Payload::Start };
    assert_eq!(query(vec![start, command(2, 1, "a", "/w")], None, 1, None), vec![entry(1, 2, None, "a")]);
}

#[test]
fn same_query_twice_gives_the_same() {
    let log = vec![command(10, 1, "make", "/w"), exit(11, 1, 2), command(20, 2, "ls", "/w")];
    assert_eq!(query(log.clone(), None, 1, None), query(log, None, 1, None));
}

#[test]
fn numbering_reaches_the_largest_number() {
    let log = vec![command(1, 1, "a", "/w")];
    assert_eq!(query(log, None, u64::MAX - 1, None), vec![entry(u64::MAX - 1, 1, None, "a")]);
}

#[test]
fn archives_are_scanned_after_the_current_segment() {
    let h = hist();
    let old = vec![command(2, 2, "b", "/w"), command(1, 1, "a", "/w")];
    let older = vec![command(0, 0, "z", "/w")];
    let current = vec![command(3, 3, "c", "/w"), command(4, 4, "d", "/w")];
    let scan = h.scan_order(current, vec![older, old]);
    let texts: Vec<String> = h.fc(&scan, &None, 1, None).into_iter().map(|e| e.text).collect();
    assert_eq!(texts, vec!["d", "c", "b", "a", "z"]);
}

#[test]
fn archiving_does_not_change_a_query() {
    let h = hist();
    let current = vec![
        command(10, 1, "make", "/w"),
        exit(11, 1, 2),
        command(20, 2, "ls", "/w"),
        command(30, 3, "make", "/w"),
    ];
    let older = vec![exit(6, 9, 0), command(5, 9, "vi", "/w")];
    let before = h.fc(&h.scan_order(current.clone(), vec![older.clone()]), &None, 1, None);
    let mut archived = current;
    archived.reverse();
    let after = h.fc(&h.scan_order(vec![], vec![older, archived]), &None, 1, None);
    assert_eq!(before, after);
    assert_eq!(before.len(), 3);
}

#[test]
fn long_history_lists_each_text_once() {
    let mut log = Vec::new();
    for n in 0..3000u64 {
        log.push(command(2 * n, n, &format!("cmd {}", n % 700), "/w"));
        log.push(exit(2 * n + 1, n, (n % 3) as u32));
    }
    let entries = query(log, None, 1, None);
    assert_eq!(entries.len(), 700);
    for (k, e) in entries.iter().enumerate() {
        let n = 2999 - k as u64;
        assert_eq!(*e, entry(1 + k as u64, 2 * n, Some((n % 3) as u32), &format!("cmd {}", n % 700)));
    }
}

#[test]
fn checked_query_says_when_numbers_run_out() {
    let h = hist();
    let log = vec![command(1, 1, "a", "/w"), command(2, 2, "b", "/w"), command(3, 3, "a", "/w")];
    let scan = h.scan_order(log, vec![]);
    assert_eq!(
        h.fc_checked(&scan, &None, u64::MAX - 2, None),
        Some(vec![entry(u64::MAX - 2, 3, None, "a"), entry(u64::MAX - 1, 2, None, "b")])
    );
    assert_eq!(h.fc_checked(&scan, &None, u64::MAX - 1, None), None);
    assert_eq!(h.fc_checked(&scan, &None, u64::MAX, Some(u64::MAX)), None);
    assert_eq!(h.fc_checked(&scan, &Some("/x".to_string()), u64::MAX, None), Some(vec![]));
    assert_eq!(h.fc_checked(&scan, &None, 7, Some(8)), Some(vec![entry(8, 2, None, "b")]));
}
