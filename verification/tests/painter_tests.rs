use superhist::painter::{queue, ExpandingBottomScreen, Rgb, TermOp};

fn print(s: &str) -> TermOp {
    TermOp::Print(s.to_string())
}

fn chars(s: &str) -> Vec<TermOp> {
    s.chars().map(TermOp::PrintChar).collect()
}

fn screen(width: u16) -> (ExpandingBottomScreen, Vec<TermOp>) {
    let mut screen = ExpandingBottomScreen::default();
    let mut tty = Vec::new();
    screen.start(&mut tty, (width, 24));
    (screen, tty)
}

#[test]
fn painter_starts_empty() {
    let screen = ExpandingBottomScreen::default();
    assert_eq!(
        screen,
        ExpandingBottomScreen {
            lines_scolled: 0,
            lines_printed: 0,
            term_size: (0, 0),
            col_x: 0,
            indent_x: 0,
            end_of_line: None,
        }
    );
}

#[test]
fn first_frame_starts_where_the_cursor_is() {
    let (screen, tty) = screen(80);
    assert_eq!(tty, vec![]);
    assert_eq!(screen.term_size, (80, 24));
}

#[test]
fn later_frame_starts_at_the_top_of_the_block() {
    let mut screen = ExpandingBottomScreen { lines_scolled: 3, lines_printed: 2, col_x: 7, ..Default::default() };
    let mut tty = vec![TermOp::ResetColor];
    screen.start(&mut tty, (80, 24));
    assert_eq!(tty, vec![TermOp::ResetColor, TermOp::MoveToPreviousLine(3)]);
    assert_eq!(screen.lines_printed, 0);
    assert_eq!(screen.col_x, 0);
    assert_eq!(screen.lines_scolled, 3);
}

#[test]
fn short_text_stays_on_its_line() {
    let (mut screen, mut tty) = screen(10);
    screen.start_line(&mut tty);
    screen.print("abc", &mut tty);
    let mut expected = vec![TermOp::ClearUntilNewLine, TermOp::ClearUntilNewLine, print("")];
    expected.extend(chars("abc"));
    assert_eq!(tty, expected);
    assert_eq!(screen.col_x, 3);
    assert_eq!(screen.lines_printed, 0);
}

#[test]
fn long_text_wraps_at_the_width() {
    let (mut screen, mut tty) = screen(5);
    screen.start_line(&mut tty);
    screen.print("abcdefg", &mut tty);
    screen.end_line(&mut tty);
    screen.end(&mut tty);
    let mut expected = vec![TermOp::ClearUntilNewLine, TermOp::ClearUntilNewLine, print("")];
    expected.extend(chars("abcde"));
    expected.push(print(""));
    expected.extend(chars("fg"));
    expected.push(TermOp::ClearUntilNewLine);
    expected.push(print("\r\n"));
    assert_eq!(tty, expected);
    assert_eq!(screen.lines_printed, 2);
    assert_eq!(screen.lines_scolled, 2);
    assert_eq!(screen.col_x, 0);
    assert_eq!(screen.end_of_line, None);
}

#[test]
fn continuation_lines_begin_at_the_indent() {
    let (mut screen, mut tty) = screen(6);
    screen.set_indent_x(4, &mut tty);
    screen.start_line(&mut tty);
    screen.print("abcd", &mut tty);
    let mut expected = vec![TermOp::ClearUntilNewLine, TermOp::ClearUntilNewLine, TermOp::ClearUntilNewLine];
    expected.extend(chars("ab"));
    expected.push(print("    "));
    expected.extend(chars("cd"));
    assert_eq!(tty, expected);
    assert_eq!(screen.col_x, 6);
    assert_eq!(screen.lines_printed, 1);
    assert_eq!(screen.indent_x, 4);
}

#[test]
fn wide_characters_take_two_columns() {
    let (mut screen, mut tty) = screen(4);
    screen.start_line(&mut tty);
    screen.print("界界界", &mut tty);
    assert_eq!(screen.lines_printed, 1);
    assert_eq!(screen.col_x, 2);
    let mut expected = vec![TermOp::ClearUntilNewLine, TermOp::ClearUntilNewLine, print("")];
    expected.extend(chars("界界"));
    expected.push(print(""));
    expected.extend(chars("界"));
    assert_eq!(tty, expected);
}

#[test]
fn wide_character_over_the_edge_completes_the_line() {
    let (mut screen, mut tty) = screen(2);
    screen.start_line(&mut tty);
    screen.print("a界", &mut tty);
    assert_eq!(screen.lines_printed, 1);
    assert_eq!(screen.col_x, 2);
    screen.print("a", &mut tty);
    assert_eq!(screen.lines_printed, 2);
    assert_eq!(screen.col_x, 1);
}

#[test]
fn control_characters_count_as_one_column() {
    let (mut screen, mut tty) = screen(10);
    screen.start_line(&mut tty);
    screen.print("a\u{7}b", &mut tty);
    assert_eq!(screen.col_x, 3);
}

#[test]
fn zero_width_characters_do_not_move_the_cursor() {
    let (mut screen, mut tty) = screen(10);
    screen.start_line(&mut tty);
    screen.print("e\u{301}", &mut tty);
    assert_eq!(screen.col_x, 1);
}

#[test]
fn ended_line_owes_its_line_break_until_the_next_paint() {
    let (mut screen, mut tty) = screen(10);
    screen.start_line(&mut tty);
    screen.print("a", &mut tty);
    screen.end_line(&mut tty);
    assert_eq!(screen.end_of_line, Some(1));
    assert_eq!(screen.lines_printed, 0);
    let before = tty.len();
    screen.start_line(&mut tty);
    assert_eq!(tty[before..], [TermOp::ClearUntilNewLine, print("\r\n")]);
    assert_eq!(screen.end_of_line, None);
    assert_eq!(screen.lines_printed, 1);
}

#[test]
fn empty_line_owes_nothing() {
    let (mut screen, mut tty) = screen(10);
    screen.start_line(&mut tty);
    screen.end_line(&mut tty);
    assert_eq!(screen.end_of_line, None);
    screen.end_of_line_flush(&mut tty, false);
    assert_eq!(tty, vec![TermOp::ClearUntilNewLine, TermOp::ClearUntilNewLine]);
}

#[test]
fn shrinking_frame_blanks_the_lines_it_leaves() {
    let mut screen = ExpandingBottomScreen { lines_scolled: 3, ..Default::default() };
    let mut tty = Vec::new();
    screen.start(&mut tty, (10, 24));
    screen.start_line(&mut tty);
    screen.print("a", &mut tty);
    screen.end_line(&mut tty);
    let before = tty.len();
    screen.end(&mut tty);
    let expected = vec![
        TermOp::ClearUntilNewLine,
        print("\r\n"),
        TermOp::ResetColor,
        TermOp::ClearUntilNewLine,
        print("\r\n"),
        TermOp::ResetColor,
        TermOp::ClearUntilNewLine,
        print("\r\n"),
    ];
    assert_eq!(tty[before..], expected[..]);
    assert_eq!(screen.lines_scolled, 3);
    assert_eq!(screen.lines_printed, 1);
}

#[test]
fn growing_frame_makes_the_block_higher() {
    let mut screen = ExpandingBottomScreen { lines_scolled: 1, ..Default::default() };
    let mut tty = Vec::new();
    screen.start(&mut tty, (10, 24));
    for text in ["a", "b", "c"] {
        screen.start_line(&mut tty);
        screen.print(text, &mut tty);
        screen.end_line(&mut tty);
    }
    screen.end(&mut tty);
    assert_eq!(screen.lines_printed, 3);
    assert_eq!(screen.lines_scolled, 3);
}

#[test]
fn clear_blanks_every_line_of_the_block() {
    let screen = ExpandingBottomScreen { lines_scolled: 2, ..Default::default() };
    let mut tty = Vec::new();
    screen.clear(&mut tty);
    assert_eq!(
        tty,
        vec![
            TermOp::MoveToPreviousLine(2),
            TermOp::ResetColor,
            TermOp::ClearUntilNewLine,
            print("\r\n"),
            TermOp::ClearUntilNewLine,
            print("\r\n"),
            TermOp::MoveToPreviousLine(2),
        ]
    );
}

#[test]
fn clear_without_a_block_blanks_the_line() {
    let screen = ExpandingBottomScreen::default();
    let mut tty = Vec::new();
    screen.clear(&mut tty);
    assert_eq!(tty, vec![TermOp::ResetColor, print("\r"), TermOp::ClearUntilNewLine]);
}

#[test]
fn queue_appends_an_operation() {
    let mut tty = vec![TermOp::ResetColor];
    queue(&mut tty, TermOp::SetForegroundColor(Rgb { r: 1, g: 2, b: 3 }));
    assert_eq!(tty, vec![TermOp::ResetColor, TermOp::SetForegroundColor(Rgb { r: 1, g: 2, b: 3 })]);
}

#[test]
fn print_char_moves_by_the_given_width() {
    let (mut screen, mut tty) = screen(10);
    screen.start_line(&mut tty);
    screen.print_char('a', Some(1), &mut tty);
    assert_eq!(screen.col_x, 1);
    screen.print_char('b', Some(3), &mut tty);
    assert_eq!(screen.col_x, 4);
    screen.print_char('c', None, &mut tty);
    assert_eq!(screen.col_x, 5);
    screen.print_char('d', Some(0), &mut tty);
    assert_eq!(screen.col_x, 5);
    screen.print_char('e', Some(6), &mut tty);
    assert_eq!(screen.col_x, 10);
    assert_eq!(screen.lines_printed, 1);
    screen.print_char('f', Some(usize::MAX), &mut tty);
    assert_eq!(screen.col_x, 10);
    assert_eq!(screen.lines_printed, 3);
    let mut expected = vec![TermOp::ClearUntilNewLine, print("")];
    expected.extend(chars("abcde"));
    expected.push(print(""));
    expected.extend(chars("f"));
    assert_eq!(tty, expected);
}

#[test]
fn painter_goes_on_after_the_queue_is_drained() {
    let (mut screen, mut tty) = screen(10);
    for text in ["a", "b"] {
        screen.start_line(&mut tty);
        screen.print(text, &mut tty);
        screen.end_line(&mut tty);
        tty.clear();
    }
    screen.start_line(&mut tty);
    assert_eq!(screen.lines_printed, 2);
    tty.clear();
    screen.print("c", &mut tty);
    screen.end_line(&mut tty);
    tty.clear();
    screen.end(&mut tty);
    assert_eq!(tty, vec![TermOp::ClearUntilNewLine, print("\r\n")]);
    assert_eq!(screen.lines_printed, 3);
    assert_eq!(screen.lines_scolled, 3);
}

#[test]
fn line_count_stays_at_the_largest_number() {
    let mut screen = ExpandingBottomScreen {
        lines_printed: usize::MAX,
        term_size: (1, 1),
        col_x: 1,
        end_of_line: Some(1),
        ..Default::default()
    };
    let mut tty = Vec::new();
    screen.end_of_line_flush(&mut tty, false);
    assert_eq!(screen.lines_printed, usize::MAX);
    screen.col_x = 1;
    screen.print_char('x', Some(2), &mut tty);
    assert_eq!(screen.lines_printed, usize::MAX);
    let mut screen = ExpandingBottomScreen { lines_printed: usize::MAX - 1, term_size: (1, 1), col_x: 1, ..Default::default() };
    screen.print_char('x', Some(2), &mut tty);
    assert_eq!(screen.lines_printed, usize::MAX);
}
