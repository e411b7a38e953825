use superhist::error::Error;
use superhist::event::{Event, Payload};
use superhist::import::{event_from_groups, event_of_search, join_continued, parse_number};
use superhist::store::SuperHist;

fn s(x: &str) -> String {
    x.to_string()
}

fn imported(timestamp: u64, text: &str, workdir: &str) -> Event {
    Event {
        timestamp,
        idx: 0,
        terminal: s("/dev/pts/999"),
        payload: Payload::Command { text: s(text), workdir: s(workdir) },
    }
}

#[test]
fn parse_number_reads_digits() {
    assert_eq!(parse_number("0"), Some(0));
    assert_eq!(parse_number("0042"), Some(42));
    assert_eq!(parse_number("18446744073709551615"), Some(u64::MAX));
}

#[test]
fn parse_number_refuses_what_is_no_number_of_64_bits() {
    assert_eq!(parse_number(""), None);
    assert_eq!(parse_number("18446744073709551616"), None);
    assert_eq!(parse_number("99999999999999999999999"), None);
    assert_eq!(parse_number("12a"), None);
    assert_eq!(parse_number("+12"), None);
    assert_eq!(parse_number(" 12"), None);
    assert_eq!(parse_number("١٢"), None);
}

#[test]
fn continued_lines_are_put_together() {
    let lines = vec![s("a"), s("b \\"), s("c \\"), s("d"), s("e")];
    assert_eq!(join_continued(&lines), vec![s("a"), s("b \nc \nd"), s("e")]);
}

#[test]
fn continuation_at_the_end_of_the_file_is_left_out() {
    assert_eq!(join_continued(&vec![s("a"), s("b\\")]), vec![s("a")]);
    assert_eq!(join_continued(&vec![s("\\")]), Vec::<String>::new());
    assert_eq!(join_continued(&vec![]), Vec::<String>::new());
    assert_eq!(join_continued(&vec![s("")]), vec![s("")]);
}

#[test]
fn groups_of_a_line_give_a_command() {
    let groups = vec![Some(s(": 5 /w:0;ls")), Some(s("5")), Some(s("/w")), Some(s("ls")), None];
    assert_eq!(event_from_groups(&groups), Some(imported(5, "ls", "/w")));
}

#[test]
fn groups_that_describe_no_command_give_none() {
    assert_eq!(event_from_groups(&vec![]), None);
    assert_eq!(event_from_groups(&vec![Some(s("x")), Some(s("5")), Some(s("/w"))]), None);
    assert_eq!(event_from_groups(&vec![Some(s("x")), None, Some(s("/w")), Some(s("ls"))]), None);
    assert_eq!(
        event_from_groups(&vec![Some(s("x")), Some(s("five")), Some(s("/w")), Some(s("ls"))]),
        None
    );
}

#[test]
fn search_result_gives_command_nothing_or_failure() {
    let groups = vec![Some(s("x")), Some(s("5")), Some(s("/w")), Some(s("ls"))];
    assert_eq!(event_of_search(Some(Some(groups))), Ok(Some(imported(5, "ls", "/w"))));
    assert_eq!(event_of_search(Some(None)), Ok(None));
    assert_eq!(event_of_search(None), Err(Error::InvalidParams));
    assert_eq!(event_of_search(Some(Some(vec![]))), Err(Error::InvalidParams));
}

#[test]
fn import_reads_the_lines_of_a_history_file() {
    let h = SuperHist::new(s("/r"));
    let lines = vec![
        s(": 1600000000 /home/me:0;ls -l"),
        s("not a line of history"),
        s(": 1600000001 /tmp:0;for x in a b; do \\"),
        s("echo $x; \\"),
        s("done"),
        s(": 1600000002 /tmp:0;   "),
        s(": 1600000003 :0; cd /"),
    ];
    assert_eq!(
        h.import(&lines),
        Ok(vec![
            imported(1600000000, "ls -l", "/home/me"),
            imported(1600000001, "for x in a b; do \necho $x; \ndone", "/tmp"),
            imported(1600000003, "cd /", ""),
        ])
    );
}

#[test]
fn import_of_nothing_is_empty() {
    let h = SuperHist::new(s("/r"));
    assert_eq!(h.import(&vec![]), Ok(vec![]));
    assert_eq!(h.import(&vec![s("plain")]), Ok(vec![]));
}

#[test]
fn import_fails_on_a_time_beyond_64_bits() {
    let h = SuperHist::new(s("/r"));
    let lines = vec![s(": 1 /w:0;ls"), s(": 99999999999999999999 /w:0;ls")];
    assert_eq!(h.import(&lines), Err(Error::InvalidParams));
}
