use superhist::segment::{read_lines, write_lines};
use superhist::store::SuperHist;

fn s(x: &str) -> String {
    x.to_string()
}

#[test]
fn records_are_written_one_per_line() {
    assert_eq!(write_lines(&vec![s("A"), s("B")]), "A\nB\n");
    assert_eq!(write_lines(&vec![]), "");
    assert_eq!(write_lines(&vec![s("")]), "\n");
}

#[test]
fn lines_end_at_line_feeds() {
    assert_eq!(read_lines("A\nB\n"), vec![s("A"), s("B")]);
    assert_eq!(read_lines("A\nB"), vec![s("A"), s("B")]);
    assert_eq!(read_lines(""), Vec::<String>::new());
    assert_eq!(read_lines("\n"), vec![s("")]);
    assert_eq!(read_lines("A\n\nB\n"), vec![s("A"), s(""), s("B")]);
}

#[test]
fn carriage_return_before_a_line_feed_is_dropped() {
    assert_eq!(read_lines("A\r\nB\r\n"), vec![s("A"), s("B")]);
    assert_eq!(read_lines("A\r\r\n"), vec![s("A\r")]);
    assert_eq!(read_lines("A\rB\n"), vec![s("A\rB")]);
    assert_eq!(read_lines("A\nB\r"), vec![s("A"), s("B\r")]);
    assert_eq!(read_lines("\r\n"), vec![s("")]);
}

#[test]
fn read_lines_agrees_with_the_standard_library() {
    for text in ["", "a", "a\n", "a\r\n", "\n\n", "a\nb\r", "\r", "\r\n\r\n", "é\n\u{1F600}", "a\r\rb\n\r"] {
        let expected: Vec<String> = text.lines().map(|l| l.to_string()).collect();
        assert_eq!(read_lines(text), expected);
        let by_reader: Vec<String> =
            std::io::BufRead::lines(text.as_bytes()).map(|l| l.unwrap()).collect();
        assert_eq!(read_lines(text), by_reader);
    }
}

#[test]
fn written_records_read_back() {
    let records = vec![s("{\"a\":1}"), s(""), s("x\\ny"), s("\u{1F600} \r tail")];
    assert_eq!(read_lines(&write_lines(&records)), records);
}

#[test]
fn archive_reads_back_last_first() {
    let h = SuperHist::new(s("/r"));
    let current = read_lines("A\nB\nC\n");
    let archived = write_lines(&h.archive(current));
    assert_eq!(archived, "C\nB\nA\n");
    assert_eq!(read_lines(&archived), vec![s("C"), s("B"), s("A")]);
}
