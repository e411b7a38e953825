use superhist::event::{Event, Payload};
use superhist::store::SuperHist;

fn s(x: &str) -> String {
    x.to_string()
}

fn start(timestamp: u64) -> Event {
    Event { timestamp, idx: 0, terminal: s("t"), payload: Payload::Start }
}

#[test]
fn files_stand_below_the_root() {
    let h = SuperHist::new(s("/var/hist"));
    assert_eq!(h.lock_path(), "/var/hist/lock");
    assert_eq!(h.main_db_file(), "/var/hist/db.json");
    assert_eq!(h.procedures_file(), "/var/hist/procedures.json");
    assert_eq!(h.procedures_tmp_file(), "/var/hist/procedures.json.tmp");
    assert_eq!(h.archive_dir(), "/var/hist/archive");
    assert_eq!(h.archiving_file(), "/var/hist/db.json.archiving");
}

#[test]
fn root_with_a_slash_at_its_end_gets_no_second() {
    let h = SuperHist::new(s("hist/"));
    assert_eq!(h.lock_path(), "hist/lock");
    assert_eq!(h.archive_dir(), "hist/archive");
}

#[test]
fn archive_file_is_named_by_time_and_host() {
    let h = SuperHist::new(s("/var/hist"));
    assert_eq!(
        h.archive_file("2024-01-31-23-59-58", "box"),
        "/var/hist/archive/2024-01-31-23-59-58-box.xz"
    );
}

#[test]
fn archive_holds_the_lines_last_first() {
    let h = SuperHist::new(s("/r"));
    assert_eq!(h.archive(vec![s("A"), s("B"), s("C")]), vec![s("C"), s("B"), s("A")]);
    assert_eq!(h.archive(vec![]), Vec::<String>::new());
    assert_eq!(h.archive(vec![s("only")]), vec![s("only")]);
}

#[test]
fn scan_order_is_newest_first() {
    let h = SuperHist::new(s("/r"));
    let scan = h.scan_order(
        vec![start(5), start(6)],
        vec![vec![start(2), start(1)], vec![start(4), start(3)]],
    );
    let times: Vec<u64> = scan.iter().map(|e| e.timestamp).collect();
    assert_eq!(times, vec![6, 5, 4, 3, 2, 1]);
}

#[test]
fn scan_order_of_an_archived_segment_is_unchanged() {
    let h = SuperHist::new(s("/r"));
    let before = h.scan_order(vec![start(3), start(4)], vec![vec![start(2), start(1)]]);
    let after = h.scan_order(vec![], vec![vec![start(2), start(1)], vec![start(4), start(3)]]);
    assert_eq!(before, after);
}
