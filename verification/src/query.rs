//! Retrieval from the log: unique commands, newest first, each with the exit
//! code of its run.
//!
//! A query walks the events in scan order, the newest first. A command is
//! listed where its text shows up for the first time among the commands that
//! pass the directory filter. Listed commands are numbered from the caller's
//! starting number, one by one, whether or not a single number is asked for.

use vstd::prelude::*;
use vstd::string::*;
use crate::event::{Event, EventView, Payload, PayloadView};
use crate::index::{code_of, SlotIndex};
use crate::store::SuperHist;

verus! {

/// One listed command.
#[derive(Debug, PartialEq, Eq)]
pub struct QueryEntry {
    /// Its sequence number.
    pub nr: u64,
    /// When the listed run began.
    pub timestamp: u64,
    /// How the listed run ended, where the log says so.
    pub exit_code: Option<u32>,
    /// The command as it was typed.
    pub text: String,
}

/// The mathematical value of a `QueryEntry`.
pub ghost struct QueryEntryView {
    pub nr: u64,
    pub timestamp: u64,
    pub exit_code: Option<u32>,
    pub text: Seq<char>,
}

impl View for QueryEntry {
    type V = QueryEntryView;

    open spec fn view(&self) -> QueryEntryView {
        QueryEntryView {
            nr: self.nr,
            timestamp: self.timestamp,
            exit_code: self.exit_code,
            text: self.text@,
        }
    }
}

impl DeepView for QueryEntry {
    type V = QueryEntryView;

    open spec fn deep_view(&self) -> QueryEntryView {
        self@
    }
}

/// The text of a command; empty for other events.
pub open spec fn command_text(e: EventView) -> Seq<char> {
    match e.payload {
        PayloadView::Command { text, .. } => text,
        _ => Seq::empty(),
    }
}

/// Whether `e` is a command that the filter lets through: any command
/// without a filter, else one run in the directory asked for.
pub open spec fn passes(e: EventView, filter: Option<Seq<char>>) -> bool {
    match e.payload {
        PayloadView::Command { workdir, .. } => match filter {
            Some(dir) => workdir == dir,
            None => true,
        },
        _ => false,
    }
}

/// Whether the event at `j` passes the filter.
pub open spec fn passes_at(events: Seq<EventView>, filter: Option<Seq<char>>, j: int) -> bool {
    0 <= j < events.len() && passes(events[j], filter)
}

/// The text of the command at `j`.
pub open spec fn text_at(events: Seq<EventView>, j: int) -> Seq<char> {
    command_text(events[j])
}

/// Whether the event at `i` is listed: it passes the filter, and no event
/// scanned before it passes with the same text.
pub open spec fn is_first_occurrence(
    events: Seq<EventView>,
    filter: Option<Seq<char>>,
    i: int,
) -> bool {
    &&& passes_at(events, filter, i)
    &&& forall|j: int|
        0 <= j < i && #[trigger] passes_at(events, filter, j) ==> text_at(events, j) != text_at(
            events,
            i,
        )
}

/// Whether one of the positions `ps` holds a command with the text `t`.
pub open spec fn has_text(events: Seq<EventView>, ps: Seq<int>, t: Seq<char>) -> bool {
    exists|k: int| 0 <= k < ps.len() && text_at(events, #[trigger] ps[k]) == t
}

/// The positions among the first `n` events that are listed, ascending.
pub open spec fn unique_positions(
    events: Seq<EventView>,
    filter: Option<Seq<char>>,
    n: nat,
) -> Seq<int>
    decreases n,
{
    if n == 0 {
        Seq::empty()
    } else {
        let before = unique_positions(events, filter, (n - 1) as nat);
        if is_first_occurrence(events, filter, n - 1) {
            before.push(n - 1)
        } else {
            before
        }
    }
}

/// The exit code known for the slot (`terminal`, `idx`) once the first `n`
/// events are scanned: that of the last of them that carries one for the
/// slot.
pub open spec fn exit_code_before(
    events: Seq<EventView>,
    terminal: Seq<char>,
    idx: u64,
    n: nat,
) -> Option<u32>
    decreases n,
{
    if n == 0 {
        None
    } else {
        let e = events[n - 1];
        match e.payload {
            PayloadView::ExitCode(code) if e.terminal == terminal && e.idx == idx => Some(code),
            _ => exit_code_before(events, terminal, idx, (n - 1) as nat),
        }
    }
}

/// The entry of the listed command at position `p`, the `k`-th listed.
pub open spec fn entry_for(events: Seq<EventView>, start_nr: u64, k: int, p: int) -> QueryEntryView {
    QueryEntryView {
        nr: (start_nr + k) as u64,
        timestamp: events[p].timestamp,
        exit_code: exit_code_before(events, events[p].terminal, events[p].idx, p as nat),
        text: command_text(events[p]),
    }
}

/// What a query over the first `n` events returns: every listed command
/// where no number is asked for, else the one with that number, if any.
pub open spec fn listed(
    events: Seq<EventView>,
    filter: Option<Seq<char>>,
    start_nr: u64,
    fetch: Option<u64>,
    n: nat,
) -> Seq<QueryEntryView> {
    let ps = unique_positions(events, filter, n);
    match fetch {
        None => Seq::new(ps.len(), |k: int| entry_for(events, start_nr, k, ps[k])),
        Some(f) => if start_nr <= f < start_nr + ps.len() {
            seq![entry_for(events, start_nr, f - start_nr, ps[f - start_nr])]
        } else {
            Seq::empty()
        },
    }
}

/// What a query over `events` returns.
pub open spec fn query_result(
    events: Seq<EventView>,
    filter: Option<Seq<char>>,
    start_nr: u64,
    fetch: Option<u64>,
) -> Seq<QueryEntryView> {
    listed(events, filter, start_nr, fetch, events.len())
}

/// How many commands a query over `events` lists where no number is asked
/// for.
pub open spec fn listed_count(events: Seq<EventView>, filter: Option<Seq<char>>) -> nat {
    unique_positions(events, filter, events.len()).len()
}

/// Scanning further lists no fewer commands.
pub proof fn lemma_unique_positions_grow(
    events: Seq<EventView>,
    filter: Option<Seq<char>>,
    n: nat,
    m: nat,
)
    requires
        n <= m,
    ensures
        unique_positions(events, filter, n).len() <= unique_positions(events, filter, m).len(),
    decreases m - n,
{
    if n < m {
        lemma_unique_positions_grow(events, filter, n, (m - 1) as nat);
    }
}

/// No more commands are listed than there are events.
pub proof fn lemma_listed_count_bounded(events: Seq<EventView>, filter: Option<Seq<char>>)
    ensures
        listed_count(events, filter) <= events.len(),
{
    lemma_unique_positions(events, filter, events.len());
}

/// The listed positions are positions of first occurrences, and they
/// ascend.
pub proof fn lemma_unique_positions(events: Seq<EventView>, filter: Option<Seq<char>>, n: nat)
    requires
        n <= events.len(),
    ensures
        unique_positions(events, filter, n).len() <= n,
        forall|k: int|
            0 <= k < unique_positions(events, filter, n).len() ==> 0 <= (
            #[trigger] unique_positions(events, filter, n)[k]) < n && is_first_occurrence(
                events,
                filter,
                unique_positions(events, filter, n)[k],
            ),
        forall|k: int, l: int|
            0 <= k < l < unique_positions(events, filter, n).len() ==> (
            #[trigger] unique_positions(events, filter, n)[k]) < (#[trigger] unique_positions(
                events,
                filter,
                n,
            )[l]),
    decreases n,
{
    if n > 0 {
        lemma_unique_positions(events, filter, (n - 1) as nat);
    }
}

/// Every passing event among the first `n` has its text at a listed
/// position.
pub proof fn lemma_unique_positions_cover(
    events: Seq<EventView>,
    filter: Option<Seq<char>>,
    n: nat,
    j: int,
)
    requires
        n <= events.len(),
        0 <= j < n,
        passes_at(events, filter, j),
    ensures
        has_text(events, unique_positions(events, filter, n), text_at(events, j)),
    decreases n,
{
    let m = (n - 1) as nat;
    let before = unique_positions(events, filter, m);
    let now = unique_positions(events, filter, n);
    if j < m {
        lemma_unique_positions_cover(events, filter, m, j);
        let k = choose|k: int| 0 <= k < before.len() && text_at(events, #[trigger] before[k]) == text_at(events, j);
        assert(now[k] == before[k]);
    } else if is_first_occurrence(events, filter, j) {
        assert(now[now.len() - 1] == j);
    } else {
        let i = choose|i: int|
            0 <= i < j && #[trigger] passes_at(events, filter, i) && text_at(events, i) == text_at(
                events,
                j,
            );
        lemma_unique_positions_cover(events, filter, m, i);
        let k = choose|k: int| 0 <= k < before.len() && text_at(events, #[trigger] before[k]) == text_at(events, i);
        assert(now[k] == before[k]);
    }
}

/// No two listed commands have the same text.
pub proof fn lemma_listed_texts_differ(
    events: Seq<EventView>,
    filter: Option<Seq<char>>,
    k: int,
    l: int,
)
    requires
        0 <= k < l < unique_positions(events, filter, events.len()).len(),
    ensures
        text_at(events, unique_positions(events, filter, events.len())[k]) != text_at(
            events,
            unique_positions(events, filter, events.len())[l],
        ),
{
    lemma_unique_positions(events, filter, events.len());
    let ps = unique_positions(events, filter, events.len());
    let p = ps[k];
    let q = ps[l];
    assert(is_first_occurrence(events, filter, q));
    assert(passes_at(events, filter, p));
}

/// A first occurrence among the first `n` events stands at a listed
/// position.
pub proof fn lemma_first_occurrence_listed(
    events: Seq<EventView>,
    filter: Option<Seq<char>>,
    n: nat,
    p: int,
)
    requires
        n <= events.len(),
        0 <= p < n,
        is_first_occurrence(events, filter, p),
    ensures
        exists|k: int|
            0 <= k < unique_positions(events, filter, n).len() && #[trigger] unique_positions(
                events,
                filter,
                n,
            )[k] == p,
    decreases n,
{
    let m = (n - 1) as nat;
    let before = unique_positions(events, filter, m);
    let now = unique_positions(events, filter, n);
    if p < m {
        lemma_first_occurrence_listed(events, filter, m, p);
        let k = choose|k: int| 0 <= k < before.len() && #[trigger] before[k] == p;
        assert(now[k] == p);
    } else {
        assert(now[now.len() - 1] == p);
    }
}

/// Asking again gives the same: a query's entries depend on nothing but the
/// events, the filter, the starting number and the number asked for.
pub proof fn lemma_query_repeatable(
    events: Seq<EventView>,
    filter: Option<Seq<char>>,
    start_nr: u64,
    fetch: Option<u64>,
    first: Seq<QueryEntryView>,
    second: Seq<QueryEntryView>,
)
    requires
        first == query_result(events, filter, start_nr, fetch),
        second == query_result(events, filter, start_nr, fetch),
    ensures
        first == second,
{
}

/// Numbers do not depend on what is asked for: a query for the number `f`
/// returns the entry that the full list has under `f`, and nothing where the
/// full list has no such entry.
pub proof fn lemma_fetch_is_entry_of_full_list(
    events: Seq<EventView>,
    filter: Option<Seq<char>>,
    start_nr: u64,
    f: u64,
)
    requires
        start_nr + listed_count(events, filter) <= u64::MAX,
    ensures
        forall|k: int|
            0 <= k < query_result(events, filter, start_nr, None).len() ==> (#[trigger] query_result(
                events,
                filter,
                start_nr,
                None,
            )[k]).nr == start_nr + k,
        if start_nr <= f < start_nr + query_result(events, filter, start_nr, None).len() {
            query_result(events, filter, start_nr, Some(f)) == seq![
                query_result(events, filter, start_nr, None)[f - start_nr],
            ]
        } else {
            query_result(events, filter, start_nr, Some(f)).len() == 0
        },
{
}

/// Whether no two commands among `events` have the same text.
pub open spec fn texts_distinct(events: Seq<EventView>) -> bool {
    forall|i: int, j: int|
        0 <= i < j < events.len() && #[trigger] passes_at(events, None, i) && #[trigger] passes_at(
            events,
            None,
            j,
        ) ==> text_at(events, i) != text_at(events, j)
}

/// The newer command is listed first: where no two commands have the same
/// text, a query without filter lists the command scanned at `p` before the
/// command scanned at a later `q`, each with its own time.
pub proof fn lemma_newer_listed_first(events: Seq<EventView>, start_nr: u64, p: int, q: int)
    requires
        texts_distinct(events),
        0 <= p < q < events.len(),
        passes_at(events, None, p),
        passes_at(events, None, q),
    ensures
        exists|k: int, l: int|
            0 <= k < l < query_result(events, None, start_nr, None).len() && (
            #[trigger] query_result(events, None, start_nr, None)[k]) == entry_for(
                events,
                start_nr,
                k,
                p,
            ) && (#[trigger] query_result(events, None, start_nr, None)[l]) == entry_for(
                events,
                start_nr,
                l,
                q,
            ),
{
    let n = events.len();
    let ps = unique_positions(events, None, n);
    let r = query_result(events, None, start_nr, None);
    assert(is_first_occurrence(events, None, p));
    assert(is_first_occurrence(events, None, q));
    lemma_first_occurrence_listed(events, None, n, p);
    lemma_first_occurrence_listed(events, None, n, q);
    lemma_unique_positions(events, None, n);
    let k = choose|k: int| 0 <= k < ps.len() && #[trigger] ps[k] == p;
    let l = choose|l: int| 0 <= l < ps.len() && #[trigger] ps[l] == q;
    if l <= k {
        if l < k {
            assert(ps[l] < ps[k]);
        }
    }
    assert(r[k] == entry_for(events, start_nr, k, p));
    assert(r[l] == entry_for(events, start_nr, l, q));
}

/// Whether the `k`-th entry of a query is the one entry for the text of the
/// command at `j`: it is the entry of the first passing event with that
/// text, and no other entry has the text.
pub open spec fn is_entry_of(
    events: Seq<EventView>,
    filter: Option<Seq<char>>,
    start_nr: u64,
    j: int,
    k: int,
) -> bool {
    let r = query_result(events, filter, start_nr, None);
    let p = unique_positions(events, filter, events.len())[k];
    &&& 0 <= k < r.len()
    &&& 0 <= p <= j
    &&& is_first_occurrence(events, filter, p)
    &&& text_at(events, p) == text_at(events, j)
    &&& r[k] == entry_for(events, start_nr, k, p)
    &&& forall|l: int| 0 <= l < r.len() && l != k ==> (#[trigger] r[l]).text != text_at(events, j)
}

/// The first occurrence wins: for a command at `j` that passes the filter,
/// the query has one entry with its text, and no other. The entry is that
/// of the first passing event with the text, so its time and its exit code
/// are those of the most recent run.
pub proof fn lemma_first_occurrence_wins(
    events: Seq<EventView>,
    filter: Option<Seq<char>>,
    start_nr: u64,
    j: int,
)
    requires
        passes_at(events, filter, j),
    ensures
        exists|k: int| is_entry_of(events, filter, start_nr, j, k),
{
    let n = events.len();
    let ps = unique_positions(events, filter, n);
    let r = query_result(events, filter, start_nr, None);
    lemma_unique_positions(events, filter, n);
    lemma_unique_positions_cover(events, filter, n, j);
    let k = choose|k: int| 0 <= k < ps.len() && text_at(events, #[trigger] ps[k]) == text_at(events, j);
    let p = ps[k];
    assert(is_first_occurrence(events, filter, p));
    if p > j {
        assert(passes_at(events, filter, j));
    }
    assert(r[k] == entry_for(events, start_nr, k, p));
    assert forall|l: int| 0 <= l < r.len() && l != k implies (#[trigger] r[l]).text != text_at(
        events,
        j,
    ) by {
        if l < k {
            lemma_listed_texts_differ(events, filter, l, k);
        } else {
            lemma_listed_texts_differ(events, filter, k, l);
        }
        assert(r[l].text == text_at(events, ps[l]));
    }
    assert(is_entry_of(events, filter, start_nr, j, k));
}

/// Whether `e` passes the filter.
fn event_passes(e: &Event, filter: &Option<String>) -> (r: bool)
    ensures
        r == passes(e@, filter.deep_view()),
{
    match &e.payload {
        Payload::Command { workdir, .. } => match filter {
            Some(dir) => *workdir == *dir,
            None => true,
        },
        _ => false,
    }
}

impl SuperHist {
    /// Lists the unique commands among `events`, which come in scan order:
    /// the newest first.
    ///
    /// A command passes where `workdir` is absent or names its directory. A
    /// text is listed once, at its first passing occurrence, with the exit
    /// code that the events before it give for its terminal and index.
    /// Numbers start at `nr` and grow by one per listed command. With
    /// `fetch`, only the command with that number is returned; the numbers
    /// stay what they are without it.
    ///
    /// The numbers have to fit in 64 bits. No more commands are listed than
    /// there are events, as `lemma_listed_count_bounded` says.
    pub fn fc(&self, events: &Vec<Event>, workdir: &Option<String>, nr: u64, fetch: Option<u64>) -> (r:
        Vec<QueryEntry>)
        requires
            nr + listed_count(events.deep_view(), workdir.deep_view()) <= u64::MAX,
        ensures
            r.deep_view() == query_result(events.deep_view(), workdir.deep_view(), nr, fetch),
    {
        let ghost evs = events.deep_view();
        let ghost filter = workdir.deep_view();
        let mut exits = SlotIndex::new();
        let mut seen = SlotIndex::new();
        let mut out: Vec<QueryEntry> = Vec::new();
        let mut next: u64 = nr;
        let mut i: usize = 0;
        assert(out.deep_view() =~= listed(evs, filter, nr, fetch, 0));
        while i < events.len()
            invariant
                i <= events.len(),
                evs == events.deep_view(),
                filter == workdir.deep_view(),
                nr + listed_count(evs, filter) <= u64::MAX,
                forall|t: Seq<char>| #[trigger]
                    seen@.contains_key((t, 0u64)) == has_text(
                        evs,
                        unique_positions(evs, filter, i as nat),
                        t,
                    ),
                next == nr + unique_positions(evs, filter, i as nat).len(),
                forall|t: Seq<char>, x: u64| #[trigger]
                    code_of(exits@, t, x) == exit_code_before(evs, t, x, i as nat),
                out.deep_view() == listed(evs, filter, nr, fetch, i as nat),
            decreases events.len() - i,
        {
            let e = &events[i];
            let ghost ps = unique_positions(evs, filter, i as nat);
            let ghost ps2 = unique_positions(evs, filter, (i + 1) as nat);
            let ghost exits_before = exits@;
            let ghost seen_before = seen@;
            proof {
                lemma_unique_positions(evs, filter, i as nat);
                lemma_unique_positions_grow(evs, filter, (i + 1) as nat, evs.len());
                assert(evs[i as int] == e@);
            }
            match &e.payload {
                Payload::Command { text, .. } => {
                    let listed_before = seen.get(text, 0).is_some();
                    let passing = event_passes(e, workdir);
                    assert(listed_before == has_text(evs, ps, text@));
                    if passing && !listed_before {
                        proof {
                            assert forall|j: int|
                                0 <= j < i && #[trigger] passes_at(evs, filter, j) implies text_at(
                                evs,
                                j,
                            ) != text_at(evs, i as int) by {
                                lemma_unique_positions_cover(evs, filter, i as nat, j);
                            }
                            assert(is_first_occurrence(evs, filter, i as int));
                            assert(ps2 == ps.push(i as int));
                        }
                        let matching = match fetch {
                            Some(f) => f == next,
                            None => true,
                        };
                        let ghost out_before = out.deep_view();
                        if matching {
                            let code = exits.get(&e.terminal, e.idx);
                            let entry = QueryEntry {
                                nr: next,
                                timestamp: e.timestamp,
                                exit_code: code,
                                text: text.clone(),
                            };
                            assert(entry@ == entry_for(evs, nr, ps.len() as int, i as int));
                            out.push(entry);
                            assert(out.deep_view() =~= out_before.push(
                                entry_for(evs, nr, ps.len() as int, i as int),
                            ));
                        }
                        seen.insert(text.clone(), 0, 0);
                        next += 1;
                        proof {
                            assert(out.deep_view() =~= listed(evs, filter, nr, fetch, (i + 1) as nat));
                            assert forall|t: Seq<char>| #[trigger]
                                seen@.contains_key((t, 0u64)) == has_text(evs, ps2, t) by {
                                if has_text(evs, ps2, t) {
                                    let k = choose|k: int|
                                        0 <= k < ps2.len() && text_at(evs, #[trigger] ps2[k]) == t;
                                    if k < ps.len() {
                                        assert(ps[k] == ps2[k]);
                                        assert(has_text(evs, ps, t));
                                    }
                                }
                                if has_text(evs, ps, t) {
                                    let k = choose|k: int|
                                        0 <= k < ps.len() && text_at(evs, #[trigger] ps[k]) == t;
                                    assert(ps2[k] == ps[k]);
                                }
                                if t == text@ {
                                    assert(ps2[ps.len() as int] == i);
                                    assert(text_at(evs, ps2[ps.len() as int]) == t);
                                }
                                assert(seen_before.contains_key((t, 0u64)) == has_text(evs, ps, t));
                            }
                        }
                    } else {
                        proof {
                            if passing {
                                let k = choose|k: int|
                                    0 <= k < ps.len() && text_at(evs, #[trigger] ps[k]) == text@;
                                assert(is_first_occurrence(evs, filter, ps[k]));
                                assert(passes_at(evs, filter, ps[k]));
                                assert(text_at(evs, ps[k]) == text_at(evs, i as int));
                                assert(!is_first_occurrence(evs, filter, i as int));
                            }
                            assert(ps2 == ps);
                        }
                    }
                    proof {
                        assert forall|t: Seq<char>, x: u64| #[trigger]
                            code_of(exits@, t, x) == exit_code_before(
                                evs,
                                t,
                                x,
                                (i + 1) as nat,
                            ) by {
                            assert(code_of(exits@, t, x) == exit_code_before(evs, t, x, i as nat));
                        }
                    }
                },
                Payload::ExitCode(code) => {
                    exits.insert(e.terminal.clone(), e.idx, *code);
                    proof {
                        assert(!is_first_occurrence(evs, filter, i as int));
                        assert(ps2 == ps);
                        assert forall|t: Seq<char>, x: u64| #[trigger]
                            code_of(exits@, t, x) == exit_code_before(
                                evs,
                                t,
                                x,
                                (i + 1) as nat,
                            ) by {
                            assert(code_of(exits_before, t, x) == exit_code_before(
                                evs,
                                t,
                                x,
                                i as nat,
                            ));
                        }
                    }
                },
                Payload::Start => {
                    proof {
                        assert(!is_first_occurrence(evs, filter, i as int));
                        assert(ps2 == ps);
                        assert forall|t: Seq<char>, x: u64| #[trigger]
                            code_of(exits@, t, x) == exit_code_before(
                                evs,
                                t,
                                x,
                                (i + 1) as nat,
                            ) by {
                            assert(code_of(exits@, t, x) == exit_code_before(evs, t, x, i as nat));
                        }
                    }
                },
            }
            i += 1;
        }
        out
    }

    /// Lists as `fc` does where the numbers fit in 64 bits, and says so
    /// where they do not: `None` is returned exactly where the number of the
    /// last listed command, or the number after it, is beyond 64 bits.
    pub fn fc_checked(
        &self,
        events: &Vec<Event>,
        workdir: &Option<String>,
        nr: u64,
        fetch: Option<u64>,
    ) -> (r: Option<Vec<QueryEntry>>)
        ensures
            match r {
                Some(entries) => nr + listed_count(events.deep_view(), workdir.deep_view())
                    <= u64::MAX && entries.deep_view() == query_result(
                    events.deep_view(),
                    workdir.deep_view(),
                    nr,
                    fetch,
                ),
                None => nr + listed_count(events.deep_view(), workdir.deep_view()) > u64::MAX,
            },
    {
        proof {
            lemma_listed_count_bounded(events.deep_view(), workdir.deep_view());
        }
        let room = u64::MAX - nr;
        if events.len() as u64 > room {
            // Only a count of the listed commands can tell.
            let all = self.fc(events, workdir, 0, None);
            assert(all.deep_view().len() == listed_count(events.deep_view(), workdir.deep_view()));
            if all.len() as u64 > room {
                return None;
            }
        }
        Some(self.fc(events, workdir, nr, fetch))
    }
}

} // verus!
