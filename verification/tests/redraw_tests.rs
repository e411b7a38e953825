use superhist::painter::{Rgb, TermOp};
use superhist::procedures::{Procedure, Procedures};
use superhist::redraw::Theme;
use superhist::session::{ProcedureMode, ProcedureState};
use superhist::store::SuperHist;

fn s(x: &str) -> String {
    x.to_string()
}

fn item(alias: &str, command: &str) -> (String, Procedure) {
    (s(alias), Procedure { command: s(command) })
}

fn print(x: &str) -> TermOp {
    TermOp::Print(s(x))
}

fn chars(x: &str) -> Vec<TermOp> {
    x.chars().map(TermOp::PrintChar).collect()
}

fn session(state: ProcedureState, procedures: Procedures) -> ProcedureMode {
    SuperHist::new(s("/root")).enter_proc_mode(state, s("/home"), None, procedures, None)
}

fn redraw(m: &mut ProcedureMode, width: u16) -> Vec<TermOp> {
    let mut tty = Vec::new();
    SuperHist::new(s("/root")).proc_mode_redraw(m, &mut tty, (width, 24), &Theme::default());
    tty
}

fn fg(c: Rgb) -> TermOp {
    TermOp::SetForegroundColor(c)
}

#[test]
fn standard_theme_has_its_colours() {
    let t = Theme::default();
    assert_eq!(t.selection_background, Rgb { r: 50, g: 50, b: 50 });
    assert_eq!(t.separator, Rgb { r: 50, g: 50, b: 50 });
    assert_eq!(t.alias, Rgb { r: 255, g: 255, b: 0 });
    assert_eq!(t.adding_header, Rgb { r: 0, g: 255, b: 255 });
    assert_eq!(t.seq_box_bracket, Rgb { r: 0, g: 120, b: 0 });
    assert_eq!(t.seq_box_index, Rgb { r: 0, g: 255, b: 0 });
    assert_eq!(t.command_text, Rgb { r: 180, g: 180, b: 180 });
}

#[test]
fn frame_without_procedures_is_a_rule() {
    let mut m = session(ProcedureState::Pick, Procedures::new());
    let t = Theme::default();
    let mut expected = vec![
        TermOp::ClearUntilNewLine,
        TermOp::ResetColor,
        TermOp::ClearUntilNewLine,
        fg(t.separator),
        TermOp::ClearUntilNewLine,
        TermOp::ClearUntilNewLine,
        print(""),
    ];
    expected.extend(chars("----"));
    expected.push(TermOp::ClearUntilNewLine);
    expected.push(print("\r\n"));
    assert_eq!(redraw(&mut m, 4), expected);
    assert_eq!(m.lines.lines_printed, 1);
    assert_eq!(m.lines.lines_scolled, 1);
}

#[test]
fn frame_lists_the_procedures_with_their_places() {
    let mut p = Procedures::new();
    p.insert(s("/home"), vec![item("cmd1", "echo hi"), item("b", "ls")]);
    let mut m = session(ProcedureState::Pick, p);
    m.sequence = vec![s("b")];
    m.selected = 1;
    let t = Theme::default();
    let ops = redraw(&mut m, 40);
    let rule_end = ops.iter().position(|op| *op == TermOp::PrintChar('-')).unwrap() + 40;
    let mut expected = vec![
        TermOp::ClearUntilNewLine,
        print("\r\n"),
        TermOp::ClearUntilNewLine,
        TermOp::ResetColor,
        fg(t.alias),
        print("cmd1 "),
        print("    "),
        fg(t.command_text),
        TermOp::ClearUntilNewLine,
    ];
    expected.extend(chars("echo hi"));
    expected.extend([
        TermOp::ClearUntilNewLine,
        print("\r\n"),
        TermOp::SetBackgroundColor(t.selection_background),
        fg(t.alias),
        print("   b "),
        fg(t.seq_box_bracket),
        print("["),
        fg(t.seq_box_index),
        print("1"),
        fg(t.seq_box_bracket),
        print("] "),
        fg(t.command_text),
        TermOp::ClearUntilNewLine,
    ]);
    expected.extend(chars("ls"));
    expected.extend([TermOp::ClearUntilNewLine, print("\r\n")]);
    assert_eq!(ops[rule_end..], expected[..]);
    assert_eq!(m.lines.indent_x, 4 + 1 + 1 + 3);
    assert_eq!(m.lines.lines_printed, 3);
}

#[test]
fn frame_of_a_waiting_command_has_its_header() {
    let mut p = Procedures::new();
    p.insert(s("/home"), vec![item("cmd1", "x")]);
    let state = ProcedureState::Add { alias: None, command: s("make") };
    let mut m = session(state, p);
    let t = Theme::default();
    let ops = redraw(&mut m, 3);
    let mut expected = vec![
        TermOp::ClearUntilNewLine,
        TermOp::ResetColor,
        TermOp::ClearUntilNewLine,
        fg(t.separator),
        TermOp::ClearUntilNewLine,
        print(""),
    ];
    expected.extend(chars("---"));
    expected.extend([
        TermOp::ClearUntilNewLine,
        print("\r\n"),
        fg(t.adding_header),
        TermOp::ClearUntilNewLine,
        print(""),
    ]);
    expected.extend(chars("[ad"));
    assert_eq!(ops[..expected.len()], expected[..]);
    assert!(ops.contains(&fg(t.command_text)));
    assert_eq!(m.state, ProcedureState::Add { alias: None, command: s("make") });
}

#[test]
fn second_frame_goes_back_to_the_top() {
    let mut p = Procedures::new();
    p.insert(s("/home"), vec![item("cmd1", "x"), item("cmd2", "y")]);
    let mut m = session(ProcedureState::Pick, p);
    redraw(&mut m, 20);
    assert_eq!(m.lines.lines_scolled, 3);
    m.info.remove_at(&s("/home"), 0);
    let ops = redraw(&mut m, 20);
    assert_eq!(ops[0], TermOp::MoveToPreviousLine(3));
    assert_eq!(
        ops[ops.len() - 3..],
        [TermOp::ResetColor, TermOp::ClearUntilNewLine, print("\r\n")]
    );
    assert_eq!(m.lines.lines_printed, 2);
    assert_eq!(m.lines.lines_scolled, 3);
}
