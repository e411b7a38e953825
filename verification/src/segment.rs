//! Segments as text: one record per line.
//!
//! A segment is written with a line feed behind every record. When it is
//! read, a line ends at a line feed; a carriage return before the line feed
//! belongs to the line ending, and what follows the last line feed is a line
//! too, unless it is empty.

use vstd::prelude::*;
use vstd::string::*;
use crate::text::{from_chars, to_chars};

verus! {

/// The text of a segment with the records `lines`: each record and a line
/// feed behind it.
pub open spec fn segment_text(lines: Seq<Seq<char>>) -> Seq<char>
    decreases lines.len(),
{
    if lines.len() == 0 {
        Seq::empty()
    } else {
        segment_text(lines.drop_last()) + lines.last().push('\n')
    }
}

/// `line` without the carriage return at its end, if it has one.
pub open spec fn without_return(line: Seq<char>) -> Seq<char> {
    if line.len() > 0 && line.last() == '\r' {
        line.drop_last()
    } else {
        line
    }
}

/// The lines that the first `n` characters of `text` complete, and what
/// they begin of the next line.
pub open spec fn split_at(text: Seq<char>, n: nat) -> (Seq<Seq<char>>, Seq<char>)
    decreases n,
{
    if n == 0 {
        (Seq::empty(), Seq::empty())
    } else {
        let (lines, begun) = split_at(text, (n - 1) as nat);
        if text[n - 1] == '\n' {
            (lines.push(without_return(begun)), Seq::empty())
        } else {
            (lines, begun.push(text[n - 1]))
        }
    }
}

/// The lines of `text`.
pub open spec fn segment_lines(text: Seq<char>) -> Seq<Seq<char>> {
    let (lines, begun) = split_at(text, text.len());
    if begun.len() > 0 {
        lines.push(begun)
    } else {
        lines
    }
}

/// Whether `line` can be a record: it holds no line feed and does not end
/// in a carriage return.
pub open spec fn is_record(line: Seq<char>) -> bool {
    &&& forall|i: int| 0 <= i < line.len() ==> line[i] != '\n'
    &&& line.len() > 0 ==> line.last() != '\r'
}

proof fn lemma_split_at_prefix(text: Seq<char>, more: Seq<char>, n: nat)
    requires
        n <= text.len(),
    ensures
        split_at(text + more, n) == split_at(text, n),
    decreases n,
{
    if n > 0 {
        lemma_split_at_prefix(text, more, (n - 1) as nat);
        assert((text + more)[n - 1] == text[n - 1]);
    }
}

proof fn lemma_split_at_line(text: Seq<char>, line: Seq<char>, k: nat)
    requires
        split_at(text, text.len()).1.len() == 0,
        k <= line.len(),
        forall|i: int| 0 <= i < line.len() ==> line[i] != '\n',
    ensures
        split_at(text + line, text.len() + k) == (split_at(text, text.len()).0, line.take(k as int)),
    decreases k,
{
    if k == 0 {
        lemma_split_at_prefix(text, line, text.len());
        assert(line.take(0) =~= Seq::<char>::empty());
        assert(split_at(text, text.len()).1 =~= Seq::<char>::empty());
    } else {
        lemma_split_at_line(text, line, (k - 1) as nat);
        assert((text + line)[text.len() + k - 1] == line[k - 1]);
        assert(line.take(k - 1).push(line[k - 1]) =~= line.take(k as int));
    }
}

/// Reading back what was written gives the records again.
pub proof fn lemma_segment_round_trip(lines: Seq<Seq<char>>)
    requires
        forall|i: int| 0 <= i < lines.len() ==> is_record(#[trigger] lines[i]),
    ensures
        segment_lines(segment_text(lines)) == lines,
        split_at(segment_text(lines), segment_text(lines).len()) == (lines, Seq::<char>::empty()),
    decreases lines.len(),
{
    if lines.len() > 0 {
        let before = lines.drop_last();
        let line = lines.last();
        assert forall|i: int| 0 <= i < before.len() implies is_record(#[trigger] before[i]) by {
            assert(before[i] == lines[i]);
        }
        lemma_segment_round_trip(before);
        let text = segment_text(before);
        let full = text + line.push('\n');
        assert(is_record(line));
        lemma_split_at_line(text, line, line.len());
        lemma_split_at_prefix(text + line, seq!['\n'], text.len() + line.len());
        assert(full =~= (text + line) + seq!['\n']);
        assert(line.take(line.len() as int) =~= line);
        assert(full[full.len() - 1] == '\n');
        assert(split_at(full, (full.len() - 1) as nat) == (before, line));
        assert(before.push(line) =~= lines);
    }
}

/// An archive segment reads as it was written: the records of the current
/// segment, the last first.
pub proof fn lemma_archive_reads_back(lines: Seq<Seq<char>>)
    requires
        forall|i: int| 0 <= i < lines.len() ==> is_record(#[trigger] lines[i]),
    ensures
        segment_lines(segment_text(lines.reverse())) == lines.reverse(),
{
    let turned = lines.reverse();
    assert forall|i: int| 0 <= i < turned.len() implies is_record(#[trigger] turned[i]) by {
        assert(turned[i] == lines[lines.len() - 1 - i]);
    }
    lemma_segment_round_trip(turned);
}

/// Writes records as the text of a segment.
pub fn write_lines(lines: &Vec<String>) -> (r: String)
    ensures
        r@ == segment_text(lines.deep_view()),
{
    let mut r = String::new();
    let mut i: usize = 0;
    assert(lines.deep_view().take(0) =~= Seq::<Seq<char>>::empty());
    while i < lines.len()
        invariant
            i <= lines.len(),
            r@ == segment_text(lines.deep_view().take(i as int)),
        decreases lines.len() - i,
    {
        proof {
            let part = lines.deep_view().take(i + 1);
            assert(part.drop_last() =~= lines.deep_view().take(i as int));
            assert(part.last() == lines@[i as int]@);
        }
        r.append(lines[i].as_str());
        r.push('\n');
        assert(r@ =~= segment_text(lines.deep_view().take(i + 1)));
        i += 1;
    }
    assert(lines.deep_view().take(i as int) =~= lines.deep_view());
    r
}

/// Reads the text of a segment as lines.
pub fn read_lines(text: &str) -> (r: Vec<String>)
    ensures
        r.deep_view() == segment_lines(text@),
{
    let chars = to_chars(text);
    let mut lines: Vec<String> = Vec::new();
    let mut begun: Vec<char> = Vec::new();
    let mut i: usize = 0;
    assert(lines.deep_view() =~= Seq::<Seq<char>>::empty());
    while i < chars.len()
        invariant
            i <= chars.len(),
            chars@ == text@,
            (lines.deep_view(), begun@) == split_at(chars@, i as nat),
        decreases chars.len() - i,
    {
        if chars[i] == '\n' {
            let mut n = begun.len();
            if n > 0 && begun[n - 1] == '\r' {
                n -= 1;
            }
            let line = from_chars(&begun, 0, n);
            assert(line@ =~= without_return(begun@));
            let ghost before = lines.deep_view();
            lines.push(line);
            assert(lines.deep_view() =~= before.push(line@));
            begun = Vec::new();
        } else {
            begun.push(chars[i]);
        }
        i += 1;
    }
    if begun.len() > 0 {
        let line = from_chars(&begun, 0, begun.len());
        assert(line@ =~= begun@);
        let ghost before = lines.deep_view();
        lines.push(line);
        assert(lines.deep_view() =~= before.push(line@));
    }
    lines
}

} // verus!
