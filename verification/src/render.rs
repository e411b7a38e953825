//! The lines that a query prints.

use vstd::prelude::*;
use vstd::string::*;
use crate::query::{QueryEntry, QueryEntryView};
use crate::text::{
    decimal, decimal_string, escape_newlines, escape_newlines_spec, escape_raw, escape_raw_spec,
    pad_left, pad_left_spec,
};

verus! {

/// The escape sequence that sets the foreground to the colour (`r`, `g`,
/// `b`): `ESC [ 38 ; 2 ;`, the three parts in base ten with `;` between
/// them, and `m`.
pub open spec fn fg_rgb_code(r: u8, g: u8, b: u8) -> Seq<char> {
    "\x1b[38;2;"@ + decimal(r as nat) + ";"@ + decimal(g as nat) + ";"@ + decimal(b as nat) + "m"@
}

/// The escape sequence that sets the foreground back to the terminal's own.
pub open spec fn fg_reset_code() -> Seq<char> {
    "\x1b[39m"@
}

/// `termion::color::Fg` around `termion::color::Rgb`, written out: termion
/// joins the prefix `ESC [ 38 ; 2 ;`, the three numbers in base ten with `;`
/// between them, and `m`.
#[verifier::external_body]
fn fg_rgb(r: u8, g: u8, b: u8) -> (s: String)
    ensures
        s@ == fg_rgb_code(r, g, b),
{
    termion::color::Fg(termion::color::Rgb(r, g, b)).to_string()
}

/// `termion::color::Fg` around `termion::color::Reset`, written out: termion
/// writes the constant `ESC [ 39 m`.
#[verifier::external_body]
fn fg_reset() -> (s: String)
    ensures
        s@ == fg_reset_code(),
{
    termion::color::Fg(termion::color::Reset).to_string()
}

/// How a line shows the way its command ended: blank after a success, a red
/// `x` after a failure, and blank in a dimmer colour where the end is not
/// known. In each case the colour of the text that follows is set too.
pub open spec fn exit_marker(code: Option<u32>) -> Seq<char> {
    match code {
        Some(c) => if c == 0 {
            fg_reset_code() + "  "@ + fg_rgb_code(240, 240, 240) + " "@
        } else {
            fg_rgb_code(255, 0, 0) + "x"@ + fg_reset_code() + " "@ + fg_rgb_code(240, 240, 240)
                + " "@
        },
        None => fg_rgb_code(170, 170, 170) + "   "@,
    }
}

/// The line of a listed command: its number right-aligned in six columns,
/// the date, the time of day where one is given, the exit marker, and the
/// text with its line feeds escaped; each part in its colour, and a line
/// feed at the end.
pub open spec fn entry_line(e: QueryEntryView, date: Seq<char>, time: Option<Seq<char>>) -> Seq<
    char,
> {
    let head = fg_rgb_code(60, 60, 60) + " "@ + pad_left_spec(decimal(e.nr as nat), 6) + "  "@
        + fg_rgb_code(100, 100, 100) + date + " "@;
    let clock = match time {
        Some(t) => fg_rgb_code(100, 100, 100) + t + " "@,
        None => Seq::empty(),
    };
    head + clock + exit_marker(e.exit_code) + escape_newlines_spec(e.text) + "\n"@
}

/// The line of a fetched command: its text alone, backslashes and line feeds
/// escaped, and a line feed at the end.
pub open spec fn fetched_line(e: QueryEntryView) -> Seq<char> {
    escape_raw_spec(e.text) + "\n"@
}

fn push_exit_marker(line: &mut String, code: Option<u32>)
    ensures
        final(line)@ == old(line)@ + exit_marker(code),
{
    match code {
        Some(c) => {
            if c == 0 {
                line.append(fg_reset().as_str());
                line.append("  ");
            } else {
                line.append(fg_rgb(255, 0, 0).as_str());
                line.append("x");
                line.append(fg_reset().as_str());
                line.append(" ");
            }
            line.append(fg_rgb(240, 240, 240).as_str());
            line.append(" ");
        },
        None => {
            line.append(fg_rgb(170, 170, 170).as_str());
            line.append("   ");
        },
    }
    assert(line@ =~= old(line)@ + exit_marker(code));
}

/// Renders a listed command as one line. `date` and `time` are the day and,
/// where wanted, the time of day of `entry.timestamp` in the reader's time
/// zone.
pub fn render_entry(entry: &QueryEntry, date: &str, time: &Option<String>) -> (line: String)
    ensures
        line@ == entry_line(entry@, date@, time.deep_view()),
{
    let mut line = fg_rgb(60, 60, 60);
    line.append(" ");
    line.append(pad_left(decimal_string(entry.nr as u128).as_str(), 6).as_str());
    line.append("  ");
    line.append(fg_rgb(100, 100, 100).as_str());
    line.append(date);
    line.append(" ");
    let ghost head = line@;
    match time {
        Some(t) => {
            line.append(fg_rgb(100, 100, 100).as_str());
            line.append(t.as_str());
            line.append(" ");
        },
        None => {},
    }
    let ghost clocked = line@;
    assert(clocked =~= head + match time.deep_view() {
        Some(t) => fg_rgb_code(100, 100, 100) + t + " "@,
        None => Seq::empty(),
    });
    push_exit_marker(&mut line, entry.exit_code);
    line.append(escape_newlines(entry.text.as_str()).as_str());
    line.append("\n");
    line
}

/// Renders a fetched command: its text, escaped so that a shell can take it
/// in, and a line feed.
pub fn render_fetched(entry: &QueryEntry) -> (line: String)
    ensures
        line@ == fetched_line(entry@),
{
    let mut line = escape_raw(entry.text.as_str());
    line.append("\n");
    line
}

/// The times that the output shows as days and times of day, in the order
/// of the entries: the times of all entries where commands are listed, none
/// where one command is fetched.
pub open spec fn dated(entries: Seq<QueryEntryView>, fetch: Option<u64>) -> Seq<u64> {
    match fetch {
        Some(_) => Seq::empty(),
        None => Seq::new(entries.len(), |k: int| entries[k].timestamp),
    }
}

/// The line of the entry at `k`: in the form of a fetched line where one
/// command is fetched, else in the form of a listed line, with the day that
/// stands at `k` in `stamps`, and with the time of day that stands there
/// where `full_timestamp` asks for it.
pub open spec fn output_line(
    entries: Seq<QueryEntryView>,
    fetch: Option<u64>,
    full_timestamp: bool,
    stamps: Seq<(Seq<char>, Seq<char>)>,
    k: int,
) -> Seq<char> {
    match fetch {
        Some(_) => fetched_line(entries[k]),
        None => entry_line(
            entries[k],
            stamps[k].0,
            if full_timestamp {
                Some(stamps[k].1)
            } else {
                None
            },
        ),
    }
}

/// The lines of the first `n` entries, one behind the other.
pub open spec fn output_text(
    entries: Seq<QueryEntryView>,
    fetch: Option<u64>,
    full_timestamp: bool,
    stamps: Seq<(Seq<char>, Seq<char>)>,
    n: nat,
) -> Seq<char>
    decreases n,
{
    if n == 0 {
        Seq::empty()
    } else {
        output_text(entries, fetch, full_timestamp, stamps, (n - 1) as nat) + output_line(
            entries,
            fetch,
            full_timestamp,
            stamps,
            n - 1,
        )
    }
}

/// The times of which the output of a query shows the day, and the time of
/// day where that is wanted: the caller finds both for the reader's time
/// zone and hands them to `render_output` in this order.
pub fn timestamps_to_date(entries: &Vec<QueryEntry>, fetch: Option<u64>) -> (r: Vec<u64>)
    ensures
        r@ == dated(entries.deep_view(), fetch),
{
    let mut r: Vec<u64> = Vec::new();
    if fetch.is_none() {
        let mut k: usize = 0;
        while k < entries.len()
            invariant
                k <= entries.len(),
                r@ == Seq::new(k as nat, |i: int| entries.deep_view()[i].timestamp),
            decreases entries.len() - k,
        {
            r.push(entries[k].timestamp);
            k += 1;
            assert(r@ =~= Seq::new(k as nat, |i: int| entries.deep_view()[i].timestamp));
        }
    }
    assert(r@ =~= dated(entries.deep_view(), fetch));
    r
}

/// Renders what a query prints. Where one command was fetched, its text
/// alone is printed; else each listed command gets its line, with the time
/// of day where `full_timestamp` is set. `stamps` holds the day and the time
/// of day for each time that `timestamps_to_date` gives; with another number
/// of them there is no output.
pub fn render_output(
    entries: &Vec<QueryEntry>,
    fetch: Option<u64>,
    full_timestamp: bool,
    stamps: &Vec<(String, String)>,
) -> (r: Option<String>)
    ensures
        r is Some == (stamps.len() == dated(entries.deep_view(), fetch).len()),
        r matches Some(text) ==> text@ == output_text(
            entries.deep_view(),
            fetch,
            full_timestamp,
            stamps.deep_view(),
            entries.len() as nat,
        ),
{
    let wanted = if fetch.is_some() {
        0
    } else {
        entries.len()
    };
    if stamps.len() != wanted {
        return None;
    }
    let mut text = String::new();
    let mut k: usize = 0;
    while k < entries.len()
        invariant
            k <= entries.len(),
            fetch is None ==> stamps.len() == entries.len(),
            text@ == output_text(
                entries.deep_view(),
                fetch,
                full_timestamp,
                stamps.deep_view(),
                k as nat,
            ),
        decreases entries.len() - k,
    {
        let line = match fetch {
            Some(_) => render_fetched(&entries[k]),
            None => {
                assert(stamps.deep_view()[k as int] == (stamps@[k as int].0@, stamps@[k as int].1@));
                let time = if full_timestamp {
                    Some(stamps[k].1.clone())
                } else {
                    None
                };
                render_entry(&entries[k], stamps[k].0.as_str(), &time)
            },
        };
        text.append(line.as_str());
        k += 1;
    }
    Some(text)
}

} // verus!
