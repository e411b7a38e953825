use superhist::query::QueryEntry;
use superhist::render::{render_entry, render_fetched, render_output, timestamps_to_date};

fn entry(nr: u64, exit_code: Option<u32>, text: &str) -> QueryEntry {
    QueryEntry { nr, timestamp: 200, exit_code, text: text.to_string() }
}

#[test]
fn line_of_a_command_with_unknown_end() {
    let line = render_entry(&entry(1, None, "ls"), "01.01.70", &None);
    assert_eq!(
        line,
        "\x1b[38;2;60;60;60m      1  \x1b[38;2;100;100;100m01.01.70 \x1b[38;2;170;170;170m   ls\n"
    );
}

#[test]
fn line_of_a_command_that_succeeded() {
    let line = render_entry(&entry(12, Some(0), "ls"), "24.12.23", &None);
    assert_eq!(
        line,
        "\x1b[38;2;60;60;60m     12  \x1b[38;2;100;100;100m24.12.23 \x1b[39m  \x1b[38;2;240;240;240m ls\n"
    );
}

#[test]
fn line_of_a_command_that_failed() {
    let line = render_entry(&entry(3, Some(1), "false"), "24.12.23", &None);
    assert_eq!(
        line,
        "\x1b[38;2;60;60;60m      3  \x1b[38;2;100;100;100m24.12.23 \x1b[38;2;255;0;0mx\x1b[39m \x1b[38;2;240;240;240m false\n"
    );
}

#[test]
fn line_with_the_time_of_day() {
    let line = render_entry(&entry(1, None, "ls"), "01.01.70", &Some("00:03:20".to_string()));
    assert_eq!(
        line,
        "\x1b[38;2;60;60;60m      1  \x1b[38;2;100;100;100m01.01.70 \x1b[38;2;100;100;100m00:03:20 \x1b[38;2;170;170;170m   ls\n"
    );
}

#[test]
fn line_escapes_newlines_of_the_text() {
    let line = render_entry(&entry(1234567, None, "for x in a\ndo\necho \\$x\ndone"), "d", &None);
    assert_eq!(
        line,
        "\x1b[38;2;60;60;60m 1234567  \x1b[38;2;100;100;100md \x1b[38;2;170;170;170m   for x in a\\ndo\\necho \\$x\\ndone\n"
    );
}

#[test]
fn fetched_line_is_the_escaped_text() {
    assert_eq!(render_fetched(&entry(1, Some(0), "ls -l")), "ls -l\n");
    assert_eq!(render_fetched(&entry(1, None, "a\nb\\c")), "a\\nb\\\\c\n");
}

fn stamp(date: &str, time: &str) -> (String, String) {
    (date.to_string(), time.to_string())
}

#[test]
fn dates_are_wanted_for_listed_commands_only() {
    let entries = vec![
        QueryEntry { nr: 1, timestamp: 200, exit_code: None, text: "ls".to_string() },
        QueryEntry { nr: 2, timestamp: 100, exit_code: Some(0), text: "cd".to_string() },
    ];
    assert_eq!(timestamps_to_date(&entries, None), vec![200, 100]);
    assert_eq!(timestamps_to_date(&entries, Some(1)), Vec::<u64>::new());
    assert_eq!(timestamps_to_date(&vec![], None), Vec::<u64>::new());
}

#[test]
fn output_of_a_list_has_a_line_for_each_command() {
    let entries = vec![entry(1, None, "ls"), entry(2, Some(0), "cd /")];
    let stamps = vec![stamp("02.01.70", "00:03:20"), stamp("01.01.70", "23:59:59")];
    let expected = format!(
        "{}{}",
        render_entry(&entries[0], "02.01.70", &None),
        render_entry(&entries[1], "01.01.70", &None)
    );
    assert_eq!(render_output(&entries, None, false, &stamps), Some(expected));
    let with_time = format!(
        "{}{}",
        render_entry(&entries[0], "02.01.70", &Some("00:03:20".to_string())),
        render_entry(&entries[1], "01.01.70", &Some("23:59:59".to_string()))
    );
    assert_eq!(render_output(&entries, None, true, &stamps), Some(with_time));
}

#[test]
fn output_of_a_fetch_is_the_text_alone() {
    let entries = vec![entry(7, Some(1), "echo a\\b\nc")];
    assert_eq!(render_output(&entries, Some(7), false, &vec![]), Some("echo a\\\\b\\nc\n".to_string()));
    assert_eq!(render_output(&entries, Some(7), true, &vec![]), Some("echo a\\\\b\\nc\n".to_string()));
    assert_eq!(render_output(&vec![], Some(7), false, &vec![]), Some(String::new()));
    assert_eq!(render_output(&vec![], None, false, &vec![]), Some(String::new()));
}

#[test]
fn output_wants_one_stamp_for_each_date() {
    let entries = vec![entry(1, None, "ls"), entry(2, Some(0), "cd /")];
    assert_eq!(render_output(&entries, None, false, &vec![stamp("d", "t")]), None);
    assert_eq!(render_output(&entries, None, false, &vec![]), None);
    assert_eq!(render_output(&entries, Some(1), false, &vec![stamp("d", "t")]), None);
}
