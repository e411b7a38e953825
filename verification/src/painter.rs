//! Repainting a block of lines at the bottom of the terminal.
//!
//! The painter does not write to the terminal. It appends terminal
//! operations to a queue, which the caller carries out in order. Between two
//! frames it remembers how many lines the block has taken so far, so that
//! the next frame starts at the block's top and blanks what it no longer
//! fills.

use vstd::prelude::*;
use vstd::string::*;
use crate::text::{repeat_char, repeated, to_chars};

verus! {

/// A colour by its red, green and blue parts.
#[derive(Debug, Clone, Copy, PartialEq, Eq, Structural)]
pub struct Rgb {
    pub r: u8,
    pub g: u8,
    pub b: u8,
}

/// One operation on the terminal.
#[derive(Debug, PartialEq, Eq)]
pub enum TermOp {
    /// Move the cursor to the start of the line this many lines up.
    MoveToPreviousLine(u16),
    /// Blank the line from the cursor to its end.
    ClearUntilNewLine,
    /// Write a text.
    Print(String),
    /// Write one character.
    PrintChar(char),
    /// Back to the terminal's own colours.
    ResetColor,
    SetForegroundColor(Rgb),
    SetBackgroundColor(Rgb),
}

/// The mathematical value of a `TermOp`.
pub ghost enum TermOpView {
    MoveToPreviousLine(u16),
    ClearUntilNewLine,
    Print(Seq<char>),
    PrintChar(char),
    ResetColor,
    SetForegroundColor(Rgb),
    SetBackgroundColor(Rgb),
}

impl View for TermOp {
    type V = TermOpView;

    open spec fn view(&self) -> TermOpView {
        match self {
            TermOp::MoveToPreviousLine(n) => TermOpView::MoveToPreviousLine(*n),
            TermOp::ClearUntilNewLine => TermOpView::ClearUntilNewLine,
            TermOp::Print(s) => TermOpView::Print(s@),
            TermOp::PrintChar(c) => TermOpView::PrintChar(*c),
            TermOp::ResetColor => TermOpView::ResetColor,
            TermOp::SetForegroundColor(c) => TermOpView::SetForegroundColor(*c),
            TermOp::SetBackgroundColor(c) => TermOpView::SetBackgroundColor(*c),
        }
    }
}

impl DeepView for TermOp {
    type V = TermOpView;

    open spec fn deep_view(&self) -> TermOpView {
        self@
    }
}

/// The number of columns that `c` takes on the terminal, as the crate
/// `unicode-width` gives it; `None` for a control character.
pub uninterp spec fn display_width(c: char) -> Option<usize>;

/// `UnicodeWidthChar::width` of the crate `unicode-width`: the width of a
/// character is looked up in the crate's tables and depends on the character
/// alone.
#[verifier::external_body]
fn char_width(c: char) -> (w: Option<usize>)
    ensures
        w == display_width(c),
{
    unicode_width::UnicodeWidthChar::width(c)
}

/// The columns by which a character of the width `width` moves the cursor:
/// its width, and one for a character that has none.
pub open spec fn columns_of(width: Option<usize>) -> int {
    match width {
        Some(w) => w as int,
        None => 1,
    }
}

/// `n`, or the largest `usize` where `n` is beyond it: a count that has
/// reached the largest number stays there.
pub open spec fn saturated(n: int) -> usize {
    if n > usize::MAX {
        usize::MAX
    } else {
        n as usize
    }
}

/// The line break that the painter writes.
pub open spec fn line_break() -> TermOpView {
    TermOpView::Print("\r\n"@)
}

/// What the painter keeps between its calls: counters of the frame, and the
/// height of the block so far. No text is kept.
#[derive(Debug, Clone, Copy, PartialEq, Eq)]
pub struct ExpandingBottomScreen {
    /// How many lines the block has taken at most, over all frames.
    pub lines_scolled: usize,
    /// How many lines this frame has completed. The count does not go
    /// beyond the largest number.
    pub lines_printed: usize,
    /// Columns and rows of the terminal.
    pub term_size: (u16, u16),
    /// The column of the cursor; zero before anything stands on the line.
    pub col_x: usize,
    /// The column at which a line, and each continuation of it, begins.
    pub indent_x: usize,
    /// The column at which the last line ended, while its line break is
    /// still owed.
    pub end_of_line: Option<usize>,
}

impl ExpandingBottomScreen {
    /// The painter before its first frame.
    pub open spec fn initial() -> Self {
        ExpandingBottomScreen {
            lines_scolled: 0,
            lines_printed: 0,
            term_size: (0, 0),
            col_x: 0,
            indent_x: 0,
            end_of_line: None,
        }
    }

    /// The painter at the start of a frame.
    pub open spec fn started(self, term_size: (u16, u16)) -> Self {
        ExpandingBottomScreen { lines_printed: 0, term_size, col_x: 0, ..self }
    }

    /// What starting a frame queues: the way up to the top of the block.
    pub open spec fn start_ops(self) -> Seq<TermOpView> {
        if self.lines_scolled > 0 {
            seq![TermOpView::MoveToPreviousLine(self.lines_scolled as u16)]
        } else {
            Seq::empty()
        }
    }

    /// The painter once an owed line break is written.
    pub open spec fn flushed(self) -> Self {
        match self.end_of_line {
            Some(_) => ExpandingBottomScreen {
                end_of_line: None,
                lines_printed: saturated(self.lines_printed + 1),
                ..self
            },
            None => self,
        }
    }

    /// What flushing queues: the rest of the line is blanked, and an owed
    /// line break is written.
    pub open spec fn flush_ops(self) -> Seq<TermOpView> {
        match self.end_of_line {
            Some(_) => seq![TermOpView::ClearUntilNewLine, line_break()],
            None => seq![TermOpView::ClearUntilNewLine],
        }
    }

    /// The painter after a line is ended: a line with anything on it owes
    /// its line break.
    pub open spec fn line_ended(self) -> Self {
        if self.col_x != 0 {
            ExpandingBottomScreen { end_of_line: Some(self.col_x), col_x: 0, ..self }
        } else {
            self
        }
    }

    /// Whether the cursor stands at the right edge, so that the next
    /// character opens a new line.
    pub open spec fn at_edge(self) -> bool {
        self.col_x == self.term_size.0
    }

    /// Whether the next character is the first of its line, so that the
    /// indent is written before it.
    pub open spec fn at_line_start(self) -> bool {
        self.at_edge() || self.col_x == 0
    }

    /// The column of the cursor once the indent, where it is due, is
    /// written.
    pub open spec fn column_before(self) -> int {
        if self.at_line_start() {
            self.indent_x as int
        } else {
            self.col_x as int
        }
    }

    /// Whether a character of the width `width` does not fit before the
    /// right edge.
    pub open spec fn overflows(self, width: Option<usize>) -> bool {
        self.column_before() + columns_of(width) > self.term_size.0
    }

    /// The painter after a character of the width `width` is printed. A
    /// character at the right edge opens a new line; one that goes beyond
    /// the edge completes a line, too, and leaves the cursor at the edge.
    pub open spec fn char_printed(self, width: Option<usize>) -> Self {
        let wraps: int = if self.at_edge() {
            1
        } else {
            0
        };
        let spills: int = if self.overflows(width) {
            1
        } else {
            0
        };
        ExpandingBottomScreen {
            lines_printed: saturated(self.lines_printed + wraps + spills),
            col_x: if self.overflows(width) {
                self.term_size.0 as usize
            } else {
                (self.column_before() + columns_of(width)) as usize
            },
            ..self
        }
    }

    /// What printing the character `c` queues: the indent where `c` is the
    /// first of its line, and `c`.
    pub open spec fn char_ops(self, c: char) -> Seq<TermOpView> {
        if self.at_line_start() {
            seq![TermOpView::Print(repeated(' ', self.indent_x as nat)), TermOpView::PrintChar(c)]
        } else {
            seq![TermOpView::PrintChar(c)]
        }
    }

    /// The painter after the characters `s` are printed, one after another.
    pub open spec fn chars_printed(self, s: Seq<char>) -> Self
        decreases s.len(),
    {
        if s.len() == 0 {
            self
        } else {
            self.chars_printed(s.drop_last()).char_printed(display_width(s.last()))
        }
    }

    /// What printing the characters `s` queues.
    pub open spec fn chars_ops(self, s: Seq<char>) -> Seq<TermOpView>
        decreases s.len(),
    {
        if s.len() == 0 {
            Seq::empty()
        } else {
            self.chars_ops(s.drop_last()) + self.chars_printed(s.drop_last()).char_ops(s.last())
        }
    }

    /// The painter after `s` is printed: an owed line break is written
    /// first.
    pub open spec fn printed(self, s: Seq<char>) -> Self {
        self.flushed().chars_printed(s)
    }

    /// What printing `s` queues.
    pub open spec fn print_ops(self, s: Seq<char>) -> Seq<TermOpView> {
        self.flush_ops() + self.flushed().chars_ops(s)
    }

    /// The three operations that blank one line and go to the next.
    pub open spec fn blank_line_ops() -> Seq<TermOpView> {
        seq![TermOpView::ResetColor, TermOpView::ClearUntilNewLine, line_break()]
    }

    /// `n` times the operations `ops`.
    pub open spec fn times(n: nat, ops: Seq<TermOpView>) -> Seq<TermOpView>
        decreases n,
    {
        if n == 0 {
            Seq::empty()
        } else {
            Self::times((n - 1) as nat, ops) + ops
        }
    }

    /// How many lines of the block the frame has left unfilled.
    pub open spec fn stale_lines(self) -> nat {
        if self.flushed().lines_printed < self.lines_scolled {
            (self.lines_scolled - self.flushed().lines_printed) as nat
        } else {
            0
        }
    }

    /// The painter at the end of a frame: the block is as high as the
    /// highest frame so far.
    pub open spec fn ended(self) -> Self {
        let f = self.flushed();
        ExpandingBottomScreen {
            lines_scolled: if f.lines_printed > f.lines_scolled {
                f.lines_printed
            } else {
                f.lines_scolled
            },
            ..f
        }
    }

    /// What ending a frame queues: the flush, and a blank line for each line
    /// of the block that the frame has not filled.
    pub open spec fn end_ops(self) -> Seq<TermOpView> {
        self.flush_ops() + Self::times(self.stale_lines(), Self::blank_line_ops())
    }

    /// What clearing the block queues: from its top every line is blanked,
    /// and the cursor goes back to the top; with no block yet, the line of
    /// the cursor is blanked.
    pub open spec fn clear_ops(self) -> Seq<TermOpView> {
        if self.lines_scolled > 0 {
            seq![
                TermOpView::MoveToPreviousLine(self.lines_scolled as u16),
                TermOpView::ResetColor,
            ] + Self::times(
                self.lines_scolled as nat,
                seq![TermOpView::ClearUntilNewLine, line_break()],
            ) + seq![TermOpView::MoveToPreviousLine(self.lines_scolled as u16)]
        } else {
            seq![
                TermOpView::ResetColor,
                TermOpView::Print("\r"@),
                TermOpView::ClearUntilNewLine,
            ]
        }
    }
}

/// A frame in the making: the painter, and the operations queued so far.
pub ghost struct Frame {
    pub screen: ExpandingBottomScreen,
    pub ops: Seq<TermOpView>,
}

impl Frame {
    /// The frame with `op` queued.
    pub open spec fn queue(self, op: TermOpView) -> Frame {
        Frame { screen: self.screen, ops: self.ops.push(op) }
    }

    /// The frame after `start`.
    pub open spec fn start(self, term_size: (u16, u16)) -> Frame {
        Frame {
            screen: self.screen.started(term_size),
            ops: self.ops + self.screen.start_ops(),
        }
    }

    /// The frame after `set_indent_x`.
    pub open spec fn set_indent_x(self, indent_x: usize) -> Frame {
        Frame {
            screen: ExpandingBottomScreen { indent_x, ..self.screen.flushed() },
            ops: self.ops + self.screen.flush_ops(),
        }
    }

    /// The frame after `start_line`.
    pub open spec fn start_line(self) -> Frame {
        Frame {
            screen: ExpandingBottomScreen {
                col_x: self.screen.indent_x,
                ..self.screen.flushed()
            },
            ops: self.ops + self.screen.flush_ops(),
        }
    }

    /// The frame after `end_line`.
    pub open spec fn end_line(self) -> Frame {
        Frame { screen: self.screen.line_ended(), ops: self.ops }
    }

    /// The frame after `print`.
    pub open spec fn print(self, s: Seq<char>) -> Frame {
        Frame { screen: self.screen.printed(s), ops: self.ops + self.screen.print_ops(s) }
    }

    /// The frame after `end`.
    pub open spec fn end(self) -> Frame {
        Frame { screen: self.screen.ended(), ops: self.ops + self.screen.end_ops() }
    }
}

impl Default for ExpandingBottomScreen {
    fn default() -> (r: Self)
        ensures
            r == ExpandingBottomScreen::initial(),
    {
        ExpandingBottomScreen {
            lines_scolled: 0,
            lines_printed: 0,
            term_size: (0, 0),
            col_x: 0,
            indent_x: 0,
            end_of_line: None,
        }
    }
}

/// Appends `op` to `tty`.
pub fn queue(tty: &mut Vec<TermOp>, op: TermOp)
    ensures
        final(tty).deep_view() == old(tty).deep_view().push(op@),
{
    tty.push(op);
    assert(tty.deep_view() =~= old(tty).deep_view().push(op@));
}

impl ExpandingBottomScreen {
    /// Begins a frame on a terminal of the size `term_size`: nothing is
    /// printed yet, and the cursor is sent to the top of the block.
    pub fn start(&mut self, tty: &mut Vec<TermOp>, term_size: (u16, u16))
        ensures
            *final(self) == old(self).started(term_size),
            final(tty).deep_view() == old(tty).deep_view() + old(self).start_ops(),
    {
        self.lines_printed = 0;
        self.term_size = term_size;
        self.col_x = 0;
        if self.lines_scolled > 0 {
            queue(tty, TermOp::MoveToPreviousLine(self.lines_scolled as u16));
        }
        assert(tty.deep_view() =~= old(tty).deep_view() + old(self).start_ops());
    }

    /// Blanks the rest of the line and writes the line break that the last
    /// ended line still owes.
    pub fn end_of_line_flush(&mut self, tty: &mut Vec<TermOp>, _last_printed: bool)
        ensures
            *final(self) == old(self).flushed(),
            final(tty).deep_view() == old(tty).deep_view() + old(self).flush_ops(),
    {
        queue(tty, TermOp::ClearUntilNewLine);
        if let Some(_) = self.end_of_line {
            self.end_of_line = None;
            self.lines_printed = self.lines_printed.saturating_add(1);
            queue(tty, TermOp::Print(String::from_str("\r\n")));
        }
        assert(tty.deep_view() =~= old(tty).deep_view() + old(self).flush_ops());
    }

    /// Sets the column at which lines begin from here on.
    pub fn set_indent_x(&mut self, indent_x: usize, tty: &mut Vec<TermOp>)
        ensures
            *final(self) == (ExpandingBottomScreen { indent_x, ..old(self).flushed() }),
            final(tty).deep_view() == old(tty).deep_view() + old(self).flush_ops(),
    {
        self.end_of_line_flush(tty, false);
        self.indent_x = indent_x;
    }

    /// Begins a line at the indent.
    pub fn start_line(&mut self, tty: &mut Vec<TermOp>)
        ensures
            *final(self) == (ExpandingBottomScreen {
                col_x: old(self).indent_x,
                ..old(self).flushed()
            }),
            final(tty).deep_view() == old(tty).deep_view() + old(self).flush_ops(),
    {
        self.end_of_line_flush(tty, false);
        self.col_x = self.indent_x;
    }

    /// Ends the line. Its line break is written when the next thing is
    /// painted, so that a frame never ends below its last line.
    pub fn end_line(&mut self, _tty: &mut Vec<TermOp>)
        ensures
            *final(self) == old(self).line_ended(),
            final(_tty).deep_view() == old(_tty).deep_view(),
    {
        if self.col_x != 0 {
            self.end_of_line = Some(self.col_x);
        }
        self.col_x = 0;
    }

    /// Prints the character `c`, which takes `width` columns on the
    /// terminal, at the cursor.
    pub fn print_char(&mut self, c: char, width: Option<usize>, tty: &mut Vec<TermOp>)
        ensures
            *final(self) == old(self).char_printed(width),
            final(tty).deep_view() == old(tty).deep_view() + old(self).char_ops(c),
    {
        let edge = self.term_size.0 as usize;
        let wraps = self.col_x == edge;
        let mut column = self.col_x;
        if wraps || column == 0 {
            column = self.indent_x;
            queue(tty, TermOp::Print(repeat_char(' ', self.indent_x)));
        }
        queue(tty, TermOp::PrintChar(c));
        assert(tty.deep_view() =~= old(tty).deep_view() + old(self).char_ops(c));
        let step = match width {
            Some(w) => w,
            None => 1,
        };
        if wraps {
            self.lines_printed = self.lines_printed.saturating_add(1);
        }
        match column.checked_add(step) {
            Some(next) if next <= edge => {
                self.col_x = next;
            },
            _ => {
                self.lines_printed = self.lines_printed.saturating_add(1);
                self.col_x = edge;
            },
        }
    }

    /// Prints `s` at the cursor, wrapped at the right edge of the terminal
    /// by the width that each character takes there; every line that the
    /// text goes on to begins at the indent.
    pub fn print(&mut self, s: &str, tty: &mut Vec<TermOp>)
        ensures
            *final(self) == old(self).printed(s@),
            final(tty).deep_view() == old(tty).deep_view() + old(self).print_ops(s@),
    {
        self.end_of_line_flush(tty, false);
        let ghost begun = *self;
        let ghost queued = tty.deep_view();
        let chars = to_chars(s);
        let mut i: usize = 0;
        assert(tty.deep_view() =~= queued + begun.chars_ops(chars@.take(0)));
        while i < chars.len()
            invariant
                i <= chars.len(),
                *self == begun.chars_printed(chars@.take(i as int)),
                tty.deep_view() == queued + begun.chars_ops(chars@.take(i as int)),
            decreases chars.len() - i,
        {
            proof {
                let p = chars@.take(i + 1);
                assert(p.drop_last() =~= chars@.take(i as int));
                assert(p.last() == chars@[i as int]);
            }
            self.print_char(chars[i], char_width(chars[i]), tty);
            i += 1;
            assert(tty.deep_view() =~= queued + begun.chars_ops(chars@.take(i as int)));
        }
        assert(chars@.take(i as int) =~= s@);
        assert(tty.deep_view() =~= old(tty).deep_view() + old(self).print_ops(s@));
    }

    /// Ends the frame: a line of the block that this frame has not reached
    /// is blanked, so that nothing of an earlier, higher frame stays.
    pub fn end(&mut self, tty: &mut Vec<TermOp>)
        ensures
            *final(self) == old(self).ended(),
            final(tty).deep_view() == old(tty).deep_view() + old(self).end_ops(),
    {
        self.end_of_line_flush(tty, true);
        let ghost queued = tty.deep_view();
        let mut i: usize = self.lines_printed;
        assert(tty.deep_view() =~= queued + Self::times(0, Self::blank_line_ops()));
        while i < self.lines_scolled
            invariant
                *self == old(self).flushed(),
                self.lines_printed <= i,
                i <= self.lines_scolled || i == self.lines_printed,
                tty.deep_view() == queued + Self::times(
                    (i - self.lines_printed) as nat,
                    Self::blank_line_ops(),
                ),
            decreases self.lines_scolled - i,
        {
            let ghost before = tty.deep_view();
            queue(tty, TermOp::ResetColor);
            queue(tty, TermOp::ClearUntilNewLine);
            queue(tty, TermOp::Print(String::from_str("\r\n")));
            assert(tty.deep_view() =~= before + Self::blank_line_ops());
            i += 1;
            assert(tty.deep_view() =~= queued + Self::times(
                (i - self.lines_printed) as nat,
                Self::blank_line_ops(),
            ));
        }
        if self.lines_printed > self.lines_scolled {
            self.lines_scolled = self.lines_printed;
        }
        assert(tty.deep_view() =~= old(tty).deep_view() + old(self).end_ops());
    }

    /// Blanks the whole block and leaves the cursor at its top.
    pub fn clear(&self, tty: &mut Vec<TermOp>)
        ensures
            final(tty).deep_view() == old(tty).deep_view() + self.clear_ops(),
    {
        if self.lines_scolled > 0 {
            queue(tty, TermOp::MoveToPreviousLine(self.lines_scolled as u16));
            queue(tty, TermOp::ResetColor);
            let ghost queued = tty.deep_view();
            let ghost pair = seq![TermOpView::ClearUntilNewLine, line_break()];
            let mut i: usize = 0;
            assert(tty.deep_view() =~= queued + Self::times(0, pair));
            while i < self.lines_scolled
                invariant
                    i <= self.lines_scolled,
                    pair == seq![TermOpView::ClearUntilNewLine, line_break()],
                    tty.deep_view() == queued + Self::times(i as nat, pair),
                decreases self.lines_scolled - i,
            {
                let ghost before = tty.deep_view();
                queue(tty, TermOp::ClearUntilNewLine);
                queue(tty, TermOp::Print(String::from_str("\r\n")));
                assert(tty.deep_view() =~= before + pair);
                i += 1;
                assert(tty.deep_view() =~= queued + Self::times(i as nat, pair));
            }
            queue(tty, TermOp::MoveToPreviousLine(self.lines_scolled as u16));
            assert(tty.deep_view() =~= old(tty).deep_view() + self.clear_ops());
        } else {
            queue(tty, TermOp::ResetColor);
            queue(tty, TermOp::Print(String::from_str("\r")));
            queue(tty, TermOp::ClearUntilNewLine);
            assert(tty.deep_view() =~= old(tty).deep_view() + self.clear_ops());
        }
    }
}

} // verus!
