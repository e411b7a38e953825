//! The frame of a session: a header for a waiting command, a rule, and one
//! line for each procedure of the directory.

use vstd::prelude::*;
use vstd::string::*;
use vstd::utf8::encode_utf8;
use crate::painter::{
    queue, saturated, ExpandingBottomScreen, Frame, Rgb, TermOp, TermOpView,
};
use crate::procedures::{ProcList, Procedure};
use crate::session::{
    has_list, shown, ProcedureMode, ProcedureModeView, ProcedureState, ProcedureStateView,
};
use crate::store::SuperHist;
use crate::text::{
    decimal, decimal_string, pad_left, pad_left_spec, pad_right, pad_right_spec, repeat_char,
    repeated,
};

verus! {

/// The colours of a frame.
#[derive(Debug, Clone, Copy, PartialEq, Eq, Structural)]
pub struct Theme {
    pub selection_background: Rgb,
    pub separator: Rgb,
    pub alias: Rgb,
    pub adding_header: Rgb,
    pub seq_box_bracket: Rgb,
    pub seq_box_index: Rgb,
    pub command_text: Rgb,
}

impl Theme {
    /// The colours that a session has unless it is given others.
    pub open spec fn standard() -> Theme {
        Theme {
            selection_background: Rgb { r: 50, g: 50, b: 50 },
            separator: Rgb { r: 50, g: 50, b: 50 },
            alias: Rgb { r: 255, g: 255, b: 0 },
            adding_header: Rgb { r: 0, g: 255, b: 255 },
            seq_box_bracket: Rgb { r: 0, g: 120, b: 0 },
            seq_box_index: Rgb { r: 0, g: 255, b: 0 },
            command_text: Rgb { r: 180, g: 180, b: 180 },
        }
    }
}

impl Default for Theme {
    fn default() -> (r: Self)
        ensures
            r == Theme::standard(),
    {
        Theme {
            selection_background: Rgb { r: 50, g: 50, b: 50 },
            separator: Rgb { r: 50, g: 50, b: 50 },
            alias: Rgb { r: 255, g: 255, b: 0 },
            adding_header: Rgb { r: 0, g: 255, b: 255 },
            seq_box_bracket: Rgb { r: 0, g: 120, b: 0 },
            seq_box_index: Rgb { r: 0, g: 255, b: 0 },
            command_text: Rgb { r: 180, g: 180, b: 180 },
        }
    }
}

/// The length of `s` in bytes of UTF-8.
pub open spec fn byte_len(s: Seq<char>) -> nat {
    encode_utf8(s).len()
}

/// The width of the column of aliases for the first `n` procedures of
/// `list`: the length in bytes of the longest alias, and at least one.
pub open spec fn alias_column(list: ProcList, n: nat) -> nat
    decreases n,
{
    if n == 0 {
        1
    } else {
        let before = alias_column(list, (n - 1) as nat);
        if byte_len(list[n - 1].0) > before {
            byte_len(list[n - 1].0)
        } else {
            before
        }
    }
}

/// How a frame is laid out.
pub ghost struct Layout {
    /// The width of the column of aliases.
    pub name_column_width: usize,
    /// The width of a place in the sequence.
    pub seq_len: usize,
    /// The column at which commands begin: behind the alias, a space, and
    /// the box of the sequence with its brackets and a space.
    pub indent_x: usize,
}

/// The layout of the frame of `m`. With a list, the aliases take the width
/// of the longest and a place in the sequence takes as many digits as the
/// length of the sequence has; without, no width and one digit.
pub open spec fn layout_of(m: ProcedureModeView) -> Layout {
    let name_column_width: usize = if has_list(m) {
        alias_column(shown(m), shown(m).len()) as usize
    } else {
        0
    };
    let seq_len: usize = if has_list(m) {
        decimal(m.sequence.len()).len() as usize
    } else {
        1
    };
    Layout {
        name_column_width,
        seq_len,
        indent_x: saturated(name_column_width + 1 + seq_len + 3),
    }
}

/// A rule across a terminal of `columns` columns.
pub open spec fn rule_text(columns: u16) -> Seq<char> {
    repeated('-', columns as nat)
}

/// The place of `alias` in the sequence, looking at the first `n` places.
pub open spec fn place_within(sequence: Seq<Seq<char>>, alias: Seq<char>, n: nat) -> Option<int>
    decreases n,
{
    if n == 0 {
        None
    } else {
        match place_within(sequence, alias, (n - 1) as nat) {
            Some(i) => Some(i),
            None => if sequence[n - 1] == alias {
                Some(n - 1)
            } else {
                None
            },
        }
    }
}

/// The first place of `alias` in the sequence.
pub open spec fn place_of(sequence: Seq<Seq<char>>, alias: Seq<char>) -> Option<int> {
    place_within(sequence, alias, sequence.len())
}

/// The frame with the header of a waiting command: a rule, and below it
/// the command behind the label `[adding]`.
pub open spec fn with_header(f: Frame, theme: Theme, indent_x: usize, command: Seq<char>) -> Frame {
    f.start_line().queue(TermOpView::SetForegroundColor(theme.separator)).print(
        rule_text(f.screen.term_size.0),
    ).end_line().start_line().queue(TermOpView::SetForegroundColor(theme.adding_header)).print(
        pad_right_spec("[adding] "@, indent_x as nat),
    ).queue(TermOpView::SetForegroundColor(theme.command_text)).print(command).end_line()
}

/// The frame with the box of a procedure's place in the sequence: the
/// place, counted from one, between brackets; blank for a procedure that is
/// not in the sequence.
pub open spec fn with_box(f: Frame, theme: Theme, seq_len: usize, place: Option<int>) -> Frame {
    match place {
        Some(i) => f.queue(TermOpView::SetForegroundColor(theme.seq_box_bracket)).queue(
            TermOpView::Print("["@),
        ).queue(TermOpView::SetForegroundColor(theme.seq_box_index)).queue(
            TermOpView::Print(pad_left_spec(decimal((i + 1) as nat), seq_len as nat)),
        ).queue(TermOpView::SetForegroundColor(theme.seq_box_bracket)).queue(
            TermOpView::Print("] "@),
        ),
        None => f.queue(TermOpView::Print(" "@ + repeated(' ', seq_len as nat) + "  "@)),
    }
}

/// The frame with the line of the procedure at `index`: on the selection's
/// background where the cursor stands on it, the alias right-aligned in its
/// column, the box of the sequence, and the command.
pub open spec fn with_item(f: Frame, theme: Theme, m: ProcedureModeView, index: int) -> Frame {
    let l = layout_of(m);
    let item = shown(m)[index];
    let begun = f.start_line().queue(
        if index == m.selected {
            TermOpView::SetBackgroundColor(theme.selection_background)
        } else {
            TermOpView::ResetColor
        },
    ).queue(TermOpView::SetForegroundColor(theme.alias)).queue(
        TermOpView::Print(pad_left_spec(item.0, l.name_column_width as nat) + " "@),
    );
    with_box(begun, theme, l.seq_len, place_of(m.sequence, item.0)).queue(
        TermOpView::SetForegroundColor(theme.command_text),
    ).print(item.1).end_line()
}

/// The frame with the lines of the first `n` procedures.
pub open spec fn with_items(f: Frame, theme: Theme, m: ProcedureModeView, n: nat) -> Frame
    decreases n,
{
    if n == 0 {
        f
    } else {
        with_item(with_items(f, theme, m, (n - 1) as nat), theme, m, n - 1)
    }
}

/// The frame of the session `m` on a terminal of the size `term_size`,
/// queued behind `queued`: the header of a waiting command, a rule, the
/// lines of the procedures, and the end of the frame.
pub open spec fn redrawn(
    m: ProcedureModeView,
    theme: Theme,
    term_size: (u16, u16),
    queued: Seq<TermOpView>,
) -> Frame {
    let l = layout_of(m);
    let begun = (Frame { screen: m.lines, ops: queued }).start(term_size).set_indent_x(0).queue(
        TermOpView::ResetColor,
    );
    let headed = match m.state {
        ProcedureStateView::Add { command, .. } => with_header(begun, theme, l.indent_x, command),
        ProcedureStateView::Pick => begun,
    };
    let ruled = headed.set_indent_x(0).queue(
        TermOpView::SetForegroundColor(theme.separator),
    ).start_line().print(rule_text(term_size.0)).end_line();
    let listed = if has_list(m) {
        with_items(ruled.set_indent_x(l.indent_x), theme, m, shown(m).len())
    } else {
        ruled
    };
    listed.end()
}

/// The width of the column of aliases of `list`.
fn name_column_width(list: &Vec<(String, Procedure)>) -> (r: usize)
    ensures
        r == alias_column(list.deep_view(), list.len() as nat),
{
    let mut width: usize = 1;
    let mut i: usize = 0;
    while i < list.len()
        invariant
            i <= list.len(),
            width == alias_column(list.deep_view(), i as nat),
        decreases list.len() - i,
    {
        let n = list[i].0.as_str().as_bytes().len();
        assert(n == byte_len(list.deep_view()[i as int].0));
        if n > width {
            width = n;
        }
        i += 1;
    }
    width
}

/// The first place of `alias` in `sequence`.
fn find_place(sequence: &Vec<String>, alias: &String) -> (r: Option<usize>)
    ensures
        match r {
            Some(i) => place_of(sequence.deep_view(), alias@) == Some(i as int) && i
                < sequence.len(),
            None => place_of(sequence.deep_view(), alias@) is None,
        },
{
    let ghost sv = sequence.deep_view();
    let mut i: usize = 0;
    while i < sequence.len()
        invariant
            i <= sequence.len(),
            sv == sequence.deep_view(),
            place_within(sv, alias@, i as nat) is None,
        decreases sequence.len() - i,
    {
        if sequence[i] == *alias {
            proof {
                assert(sv[i as int] == alias@);
                lemma_place_tail(sv, alias@, (i + 1) as nat);
            }
            return Some(i);
        }
        assert(sv[i as int] != alias@);
        i += 1;
    }
    None
}

proof fn lemma_place_tail(sequence: Seq<Seq<char>>, alias: Seq<char>, n: nat)
    requires
        n <= sequence.len(),
        place_within(sequence, alias, n) is Some,
    ensures
        place_of(sequence, alias) == place_within(sequence, alias, n),
    decreases sequence.len() - n,
{
    if n < sequence.len() {
        lemma_place_tail(sequence, alias, n + 1);
    }
}

/// Queues the box of a place in the sequence.
fn paint_box(tty: &mut Vec<TermOp>, theme: &Theme, seq_len: usize, place: Option<usize>)
    requires
        place matches Some(i) ==> i < usize::MAX,
    ensures
        final(tty).deep_view() == with_box(
            Frame { screen: ExpandingBottomScreen::initial(), ops: old(tty).deep_view() },
            *theme,
            seq_len,
            match place {
                Some(i) => Some(i as int),
                None => None,
            },
        ).ops,
{
    match place {
        Some(i) => {
            queue(tty, TermOp::SetForegroundColor(theme.seq_box_bracket));
            queue(tty, TermOp::Print(String::from_str("[")));
            queue(tty, TermOp::SetForegroundColor(theme.seq_box_index));
            queue(
                tty,
                TermOp::Print(pad_left(decimal_string((i + 1) as u128).as_str(), seq_len)),
            );
            queue(tty, TermOp::SetForegroundColor(theme.seq_box_bracket));
            queue(tty, TermOp::Print(String::from_str("] ")));
        },
        None => {
            let mut blank = String::from_str(" ");
            blank.append(repeat_char(' ', seq_len).as_str());
            blank.append("  ");
            queue(tty, TermOp::Print(blank));
        },
    }
}

impl SuperHist {
    /// Paints the frame of the session: the operations are put behind those
    /// that `tty` holds, and the painter of the session is left where the
    /// frame ends.
    pub fn proc_mode_redraw(
        &self,
        proc_mode: &mut ProcedureMode,
        tty: &mut Vec<TermOp>,
        term_size: (u16, u16),
        theme: &Theme,
    )
        ensures
            (Frame { screen: final(proc_mode).lines, ops: final(tty).deep_view() }) == redrawn(
                old(proc_mode)@,
                *theme,
                term_size,
                old(tty).deep_view(),
            ),
            final(proc_mode)@ == (ProcedureModeView {
                lines: final(proc_mode).lines,
                ..old(proc_mode)@
            }),
    {
        let ghost m = proc_mode@;
        let ghost l = layout_of(m);
        let mut lines = proc_mode.lines;
        lines.start(tty, term_size);
        let (name_column_width, seq_len) = match proc_mode.info.get(&proc_mode.workdir_path) {
            Some(procs) => (
                name_column_width(procs),
                decimal_string(proc_mode.sequence.len() as u128).as_str().unicode_len(),
            ),
            None => (0, 1),
        };
        lines.set_indent_x(0, tty);
        queue(tty, TermOp::ResetColor);
        let indent_x = name_column_width.saturating_add(1).saturating_add(seq_len).saturating_add(
            3,
        );
        assert(name_column_width == l.name_column_width);
        assert(seq_len == l.seq_len);
        assert(indent_x == l.indent_x);
        let ghost begun = (Frame { screen: m.lines, ops: old(tty).deep_view() }).start(
            term_size,
        ).set_indent_x(0).queue(TermOpView::ResetColor);
        assert(begun == (Frame { screen: lines, ops: tty.deep_view() }));
        match &proc_mode.state {
            ProcedureState::Pick => {},
            ProcedureState::Add { command, .. } => {
                lines.start_line(tty);
                queue(tty, TermOp::SetForegroundColor(theme.separator));
                lines.print(repeat_char('-', term_size.0 as usize).as_str(), tty);
                lines.end_line(tty);
                lines.start_line(tty);
                queue(tty, TermOp::SetForegroundColor(theme.adding_header));
                lines.print(pad_right("[adding] ", indent_x).as_str(), tty);
                queue(tty, TermOp::SetForegroundColor(theme.command_text));
                lines.print(command.as_str(), tty);
                lines.end_line(tty);
                assert((Frame { screen: lines, ops: tty.deep_view() }) == with_header(
                    begun,
                    *theme,
                    indent_x,
                    command@,
                ));
            },
        }
        let ghost headed = Frame { screen: lines, ops: tty.deep_view() };
        lines.set_indent_x(0, tty);
        queue(tty, TermOp::SetForegroundColor(theme.separator));
        lines.start_line(tty);
        lines.print(repeat_char('-', term_size.0 as usize).as_str(), tty);
        lines.end_line(tty);
        let ghost ruled = Frame { screen: lines, ops: tty.deep_view() };
        assert(ruled == headed.set_indent_x(0).queue(
            TermOpView::SetForegroundColor(theme.separator),
        ).start_line().print(rule_text(term_size.0)).end_line());
        match proc_mode.info.get(&proc_mode.workdir_path) {
            Some(procs) => {
                lines.set_indent_x(indent_x, tty);
                let ghost based = ruled.set_indent_x(indent_x);
                let mut index: usize = 0;
                while index < procs.len()
                    invariant
                        index <= procs.len(),
                        procs.deep_view() == shown(m),
                        has_list(m),
                        m == proc_mode@,
                        l == layout_of(m),
                        name_column_width == l.name_column_width,
                        seq_len == l.seq_len,
                        (Frame { screen: lines, ops: tty.deep_view() }) == with_items(
                            based,
                            *theme,
                            m,
                            index as nat,
                        ),
                    decreases procs.len() - index,
                {
                    let ghost before = Frame { screen: lines, ops: tty.deep_view() };
                    let alias = &procs[index].0;
                    let command = &procs[index].1.command;
                    assert(procs.deep_view()[index as int] == (alias@, command@));
                    lines.start_line(tty);
                    if index == proc_mode.selected {
                        queue(tty, TermOp::SetBackgroundColor(theme.selection_background));
                    } else {
                        queue(tty, TermOp::ResetColor);
                    }
                    queue(tty, TermOp::SetForegroundColor(theme.alias));
                    let mut name = pad_left(alias.as_str(), name_column_width);
                    name.append(" ");
                    queue(tty, TermOp::Print(name));
                    let ghost named = Frame { screen: lines, ops: tty.deep_view() };
                    let place = find_place(&proc_mode.sequence, alias);
                    paint_box(tty, theme, seq_len, place);
                    let ghost boxed = Frame { screen: lines, ops: tty.deep_view() };
                    assert(boxed == with_box(
                        named,
                        *theme,
                        seq_len,
                        place_of(m.sequence, alias@),
                    ));
                    queue(tty, TermOp::SetForegroundColor(theme.command_text));
                    lines.print(command.as_str(), tty);
                    lines.end_line(tty);
                    assert((Frame { screen: lines, ops: tty.deep_view() }) == with_item(
                        before,
                        *theme,
                        m,
                        index as int,
                    ));
                    index += 1;
                }
            },
            None => {},
        }
        lines.end(tty);
        proc_mode.lines = lines;
    }
}

} // verus!
