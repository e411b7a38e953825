//! Taking over a history file of a shell: one command per line, behind its
//! time and its directory, with a backslash at the end of each line that
//! the command goes on after.

use vstd::prelude::*;
use vstd::string::*;
use crate::error::Error;
use crate::event::{records_to_append, Event, EventView, Payload, PayloadView};
use crate::store::SuperHist;
use crate::text::{decimal_value, digit_value, from_chars, to_chars};

verus! {

/// What the crate `regex` finds when it searches `text` for `pattern`.
/// `None` where the crate refuses the pattern. `Some(None)` where the
/// pattern does not match. Else the groups of the leftmost match in the
/// order of their opening brackets, the whole match first; a group that took
/// no part is `None`.
pub uninterp spec fn regex_captures(pattern: Seq<char>, text: Seq<char>) -> Option<
    Option<Seq<Option<Seq<char>>>>,
>;

/// `Regex::new` and `Regex::captures` of the crate `regex`: the pattern is
/// compiled and `text` is searched once. What is found depends on the
/// pattern and the text alone.
#[verifier::external_body]
fn regex_groups(pattern: &str, text: &str) -> (r: Option<Option<Vec<Option<String>>>>)
    ensures
        r.deep_view() == regex_captures(pattern@, text@),
{
    match regex::Regex::new(pattern) {
        Ok(re) => Some(
            re.captures(text).map(
                |found| found.iter().map(|group| group.map(|m| m.as_str().to_string())).collect(),
            ),
        ),
        Err(_) => None,
    }
}

/// The pattern of a line of the history file: a colon and a space, the time
/// in digits, a space, the directory up to the next colon, `:0;`, and the
/// command, which may go over several lines.
pub open spec fn history_pattern() -> Seq<char> {
    "^: ([0-9]+) ([^:]*):0;((.|\n)*)$"@
}

/// The terminal that imported commands are booked on.
pub open spec fn import_terminal() -> Seq<char> {
    "/dev/pts/999"@
}

/// Whether `s` is made of digits only.
pub open spec fn all_digits(s: Seq<char>) -> bool {
    forall|i: int| 0 <= i < s.len() ==> digit_value(#[trigger] s[i]) < 10
}

/// The number that `s` writes in base ten, where `s` is made of digits, of
/// one at least, and the number fits in 64 bits.
pub open spec fn parsed_number(s: Seq<char>) -> Option<u64> {
    if s.len() > 0 && all_digits(s) && decimal_value(s) <= u64::MAX {
        Some(decimal_value(s) as u64)
    } else {
        None
    }
}

proof fn lemma_number_grows(s: Seq<char>, k: int)
    requires
        0 <= k <= s.len(),
        all_digits(s),
    ensures
        decimal_value(s.take(k)) <= decimal_value(s),
    decreases s.len() - k,
{
    if k == s.len() {
        assert(s.take(k) =~= s);
    } else {
        lemma_number_grows(s, k + 1);
        let longer = s.take(k + 1);
        assert(longer.drop_last() =~= s.take(k));
        assert(digit_value(longer.last()) >= 0);
    }
}

/// The value of the digit `c`; ten for any other character.
fn digit_of(c: char) -> (d: u64)
    ensures
        d == digit_value(c),
{
    if c == '0' {
        0
    } else if c == '1' {
        1
    } else if c == '2' {
        2
    } else if c == '3' {
        3
    } else if c == '4' {
        4
    } else if c == '5' {
        5
    } else if c == '6' {
        6
    } else if c == '7' {
        7
    } else if c == '8' {
        8
    } else if c == '9' {
        9
    } else {
        10
    }
}

/// Reads a number in base ten.
pub fn parse_number(s: &str) -> (r: Option<u64>)
    ensures
        r == parsed_number(s@),
{
    let chars = to_chars(s);
    if chars.len() == 0 {
        return None;
    }
    let mut value: u64 = 0;
    let mut i: usize = 0;
    assert(decimal_value(chars@.take(0)) == 0);
    while i < chars.len()
        invariant
            i <= chars.len(),
            chars@ == s@,
            all_digits(chars@.take(i as int)),
            value == decimal_value(chars@.take(i as int)),
        decreases chars.len() - i,
    {
        let d = digit_of(chars[i]);
        let ghost longer = chars@.take(i + 1);
        proof {
            assert(longer.drop_last() =~= chars@.take(i as int));
            assert(longer.last() == chars@[i as int]);
        }
        if d >= 10 {
            assert(!all_digits(s@));
            return None;
        }
        assert forall|k: int| 0 <= k < longer.len() implies digit_value(#[trigger] longer[k])
            < 10 by {
            if k < i {
                assert(chars@.take(i as int)[k] == longer[k]);
            }
        }
        let next = match value.checked_mul(10) {
            Some(tens) => tens.checked_add(d),
            None => None,
        };
        match next {
            Some(n) => {
                value = n;
            },
            None => {
                proof {
                    assert(decimal_value(longer) > u64::MAX);
                    if all_digits(s@) {
                        lemma_number_grows(s@, i + 1);
                    }
                }
                return None;
            },
        }
        i += 1;
    }
    assert(chars@.take(i as int) =~= s@);
    Some(value)
}

/// The lines of a file with the continued ones put together. A line that
/// ends in a backslash goes on in the next line: the backslash becomes a
/// line feed. `pending` is what has been gathered of the command that is
/// going on. What goes on at the end of the file is left out.
pub open spec fn joined(lines: Seq<Seq<char>>, n: nat) -> (Seq<Seq<char>>, Seq<char>)
    decreases n,
{
    if n == 0 {
        (Seq::empty(), Seq::empty())
    } else {
        let (bunches, pending) = joined(lines, (n - 1) as nat);
        let line = lines[n - 1];
        if line.len() > 0 && line.last() == '\\' {
            (bunches, pending + line.drop_last().push('\n'))
        } else {
            (bunches.push(pending + line), Seq::empty())
        }
    }
}

/// Puts continued lines together.
pub fn join_continued(lines: &Vec<String>) -> (r: Vec<String>)
    ensures
        r.deep_view() == joined(lines.deep_view(), lines.len() as nat).0,
{
    let ghost lv = lines.deep_view();
    let mut bunches: Vec<String> = Vec::new();
    let mut bunch = String::new();
    let mut i: usize = 0;
    assert(bunches.deep_view() =~= joined(lv, 0).0);
    while i < lines.len()
        invariant
            i <= lines.len(),
            lv == lines.deep_view(),
            bunches.deep_view() == joined(lv, i as nat).0,
            bunch@ == joined(lv, i as nat).1,
        decreases lines.len() - i,
    {
        let chars = to_chars(lines[i].as_str());
        let n = chars.len();
        assert(lv[i as int] == chars@);
        if n > 0 && chars[n - 1] == '\\' {
            bunch.append(from_chars(&chars, 0, n - 1).as_str());
            bunch.push('\n');
            assert(bunch@ =~= joined(lv, i as nat).1 + chars@.drop_last().push('\n'));
        } else {
            bunch.append(lines[i].as_str());
            let ghost before = bunches.deep_view();
            bunches.push(bunch);
            assert(bunches.deep_view() =~= before.push(bunch@));
            bunch = String::new();
        }
        i += 1;
    }
    bunches
}

/// The command that the groups of a matched line describe: the time from
/// the first group, the directory from the second, the text from the third.
/// `None` where a group is missing or the time is no number of 64 bits.
pub open spec fn event_of_groups(groups: Seq<Option<Seq<char>>>) -> Option<EventView> {
    if groups.len() >= 4 && groups[1] is Some && groups[2] is Some && groups[3] is Some {
        match parsed_number(groups[1]->0) {
            Some(timestamp) => Some(
                EventView {
                    timestamp,
                    idx: 0,
                    terminal: import_terminal(),
                    payload: PayloadView::Command { text: groups[3]->0, workdir: groups[2]->0 },
                },
            ),
            None => None,
        }
    } else {
        None
    }
}

/// Builds the command that the groups of a matched line describe.
pub fn event_from_groups(groups: &Vec<Option<String>>) -> (r: Option<Event>)
    ensures
        r.deep_view() == event_of_groups(groups.deep_view()),
{
    if groups.len() < 4 {
        return None;
    }
    assert(groups.deep_view()[1] == groups@[1].deep_view());
    assert(groups.deep_view()[2] == groups@[2].deep_view());
    assert(groups.deep_view()[3] == groups@[3].deep_view());
    match (&groups[1], &groups[2], &groups[3]) {
        (Some(time), Some(workdir), Some(text)) => match parse_number(time.as_str()) {
            Some(timestamp) => Some(
                Event {
                    timestamp,
                    idx: 0,
                    terminal: String::from_str("/dev/pts/999"),
                    payload: Payload::Command { text: text.clone(), workdir: workdir.clone() },
                },
            ),
            None => None,
        },
        _ => None,
    }
}

/// What a search result gives for one line: nothing for a line that does
/// not match, the command for one that does, and a failure where the
/// pattern was refused or the groups describe no command.
pub open spec fn line_outcome(found: Option<Option<Seq<Option<Seq<char>>>>>) -> Result<
    Option<EventView>,
    Error,
> {
    match found {
        Some(Some(groups)) => match event_of_groups(groups) {
            Some(e) => Ok(Some(e)),
            None => Err(Error::InvalidParams),
        },
        Some(None) => Ok(None),
        None => Err(Error::InvalidParams),
    }
}

/// The commands of the first `n` lines, or the first failure among them.
pub open spec fn imported(bunches: Seq<Seq<char>>, n: nat) -> Result<Seq<EventView>, Error>
    decreases n,
{
    if n == 0 {
        Ok(Seq::empty())
    } else {
        match imported(bunches, (n - 1) as nat) {
            Ok(events) => match line_outcome(regex_captures(history_pattern(), bunches[n - 1])) {
                Ok(Some(e)) => Ok(events.push(e)),
                Ok(None) => Ok(events),
                Err(err) => Err(err),
            },
            Err(err) => Err(err),
        }
    }
}

/// What the search for the history pattern gives for one line.
pub fn event_of_search(found: Option<Option<Vec<Option<String>>>>) -> (r: Result<
    Option<Event>,
    Error,
>)
    ensures
        match line_outcome(found.deep_view()) {
            Ok(e) => r is Ok && r->Ok_0.deep_view() == e,
            Err(err) => r == Err::<Option<Event>, Error>(err),
        },
{
    match found {
        Some(Some(groups)) => match event_from_groups(&groups) {
            Some(e) => Ok(Some(e)),
            None => Err(Error::InvalidParams),
        },
        Some(None) => Ok(None),
        None => Err(Error::InvalidParams),
    }
}

impl SuperHist {
    /// The records that importing a history file with the lines `lines`
    /// writes to the current segment. Continued lines are put together; a
    /// line that does not look like a line of history is passed over; each
    /// other line gives a command, which is trimmed as in any append. A time
    /// that is no number of 64 bits fails the import with `InvalidParams`.
    pub fn import(&self, lines: &Vec<String>) -> (r: Result<Vec<Event>, Error>)
        ensures
            match imported(
                joined(lines.deep_view(), lines.len() as nat).0,
                joined(lines.deep_view(), lines.len() as nat).0.len(),
            ) {
                Ok(events) => r is Ok && r->Ok_0.deep_view() == records_to_append(events),
                Err(err) => r == Err::<Vec<Event>, Error>(err),
            },
    {
        let bunches = join_continued(lines);
        let ghost bv = bunches.deep_view();
        let mut events: Vec<Event> = Vec::new();
        let mut i: usize = 0;
        assert(events.deep_view() =~= Seq::<EventView>::empty());
        while i < bunches.len()
            invariant
                i <= bunches.len(),
                bv == bunches.deep_view(),
                bv == joined(lines.deep_view(), lines.len() as nat).0,
                imported(bv, i as nat) == Ok::<Seq<EventView>, Error>(events.deep_view()),
            decreases bunches.len() - i,
        {
            assert(bv[i as int] == bunches@[i as int]@);
            let found = regex_groups("^: ([0-9]+) ([^:]*):0;((.|\n)*)$", bunches[i].as_str());
            match event_of_search(found) {
                Ok(Some(e)) => {
                    let ghost before = events.deep_view();
                    events.push(e);
                    assert(events.deep_view() =~= before.push(e@));
                },
                Ok(None) => {},
                Err(err) => {
                    proof {
                        assert(line_outcome(regex_captures(history_pattern(), bv[i as int]))
                            == Err::<Option<EventView>, Error>(err));
                        assert(imported(bv, (i + 1) as nat) == Err::<Seq<EventView>, Error>(err));
                        lemma_imported_fails(bv, (i + 1) as nat, bv.len());
                    }
                    return Err(err);
                },
            }
            i += 1;
        }
        Ok(self.add(events))
    }
}

proof fn lemma_imported_fails(bunches: Seq<Seq<char>>, n: nat, m: nat)
    requires
        n <= m,
        imported(bunches, n) is Err,
    ensures
        imported(bunches, m) == imported(bunches, n),
    decreases m - n,
{
    if n < m {
        lemma_imported_fails(bunches, n, (m - 1) as nat);
    }
}

} // verus!
