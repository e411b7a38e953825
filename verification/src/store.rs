//! The storage root and the files below it.

use vstd::prelude::*;
use vstd::string::*;
use crate::event::{event_is_blank, records_to_append, trim_event, Event, EventView};
use crate::query::{
    entry_for, lemma_newer_listed_first, passes_at, query_result, text_at, texts_distinct,
};
use crate::selection::SelectionState;
use crate::text::{join_path, join_path_spec};

verus! {

/// One history store: the directory that holds its files, and the selection
/// that its picking session will emit.
pub struct SuperHist {
    pub root: String,
    pub selection_state: SelectionState,
}

impl SuperHist {
    /// A store rooted at `path`, with an empty selection.
    pub fn new(path: String) -> (r: Self)
        ensures
            r.root@ == path@,
            r.selection_state@ == SelectionState::empty_view(),
    {
        SuperHist { root: path, selection_state: SelectionState::default() }
    }

    /// The empty file on which the one exclusive lock of the root is taken.
    pub fn lock_path(&self) -> (r: String)
        ensures
            r@ == join_path_spec(self.root@, "lock"@),
    {
        join_path(self.root.as_str(), "lock")
    }

    /// The current segment: one event per line, oldest first.
    pub fn main_db_file(&self) -> (r: String)
        ensures
            r@ == join_path_spec(self.root@, "db.json"@),
    {
        join_path(self.root.as_str(), "db.json")
    }

    /// The file to which the current segment is moved while it is archived,
    /// so that its events stand in one place at any time.
    pub fn archiving_file(&self) -> (r: String)
        ensures
            r@ == join_path_spec(self.root@, "db.json.archiving"@),
    {
        join_path(self.root.as_str(), "db.json.archiving")
    }

    /// The registry of procedures.
    pub fn procedures_file(&self) -> (r: String)
        ensures
            r@ == join_path_spec(self.root@, "procedures.json"@),
    {
        join_path(self.root.as_str(), "procedures.json")
    }

    /// The file that a new registry is written to before it replaces the old
    /// one.
    pub fn procedures_tmp_file(&self) -> (r: String)
        ensures
            r@ == join_path_spec(self.root@, "procedures.json.tmp"@),
    {
        join_path(self.root.as_str(), "procedures.json.tmp")
    }

    /// The directory of the archive segments.
    pub fn archive_dir(&self) -> (r: String)
        ensures
            r@ == join_path_spec(self.root@, "archive"@),
    {
        join_path(self.root.as_str(), "archive")
    }

    /// The file of a new archive segment: in the archive directory, named
    /// by the time of archiving and the host, so that the names of one
    /// host's archives sort by time.
    pub fn archive_file(&self, stamp: &str, host: &str) -> (r: String)
        ensures
            r@ == join_path_spec(
                join_path_spec(self.root@, "archive"@),
                archive_name(stamp@, host@),
            ),
    {
        let mut name = String::from_str(stamp);
        name.append("-");
        name.append(host);
        name.append(".xz");
        join_path(self.archive_dir().as_str(), name.as_str())
    }

    /// The records that an append of `events` writes to the current
    /// segment, in order: the text of each command is trimmed, and a command
    /// without text is left out, which is no error.
    pub fn add(&self, events: Vec<Event>) -> (r: Vec<Event>)
        ensures
            r.deep_view() == records_to_append(events.deep_view()),
    {
        let mut r: Vec<Event> = Vec::new();
        let ghost given = events@;
        let ghost all = events.deep_view();
        for e in it: events
            invariant
                it.seq() == given,
                all == Seq::new(given.len(), |k: int| given[k]@),
                r.deep_view() == records_to_append(all.take(it.index() as int)),
        {
            proof {
                let p = all.take(it.index() + 1);
                assert(p.drop_last() =~= all.take(it.index() as int));
                assert(p.last() == e@);
            }
            let e = trim_event(e);
            if !event_is_blank(&e) {
                let ghost before = r.deep_view();
                r.push(e);
                assert(r.deep_view() =~= before.push(e@));
            }
        }
        assert(all.take(all.len() as int) =~= all);
        r
    }

    /// The lines of the archive segment that takes the place of a current
    /// segment with the lines `lines`: the same lines, the last first.
    pub fn archive(&self, lines: Vec<String>) -> (r: Vec<String>)
        ensures
            r.deep_view() == lines.deep_view().reverse(),
    {
        let mut lines = lines;
        let ghost all = lines.deep_view();
        let mut r: Vec<String> = Vec::new();
        assert(r.deep_view() =~= Seq::<Seq<char>>::empty());
        while lines.len() > 0
            invariant
                lines.len() + r.len() == all.len(),
                lines.deep_view() == all.take(lines.len() as int),
                forall|k: int|
                    0 <= k < r.len() ==> (#[trigger] r.deep_view()[k]) == all[all.len() - 1 - k],
            decreases lines.len(),
        {
            let ghost left = lines.deep_view();
            let ghost got = r.deep_view();
            let line = lines.pop().unwrap();
            assert(line@ == left[left.len() - 1]);
            assert(lines.deep_view() =~= left.take(lines.len() as int));
            r.push(line);
            assert(r.deep_view() =~= got.push(line@));
        }
        assert(r.deep_view() =~= all.reverse());
        r
    }

    /// Puts the events of the store in scan order, the newest first.
    /// `current` holds the current segment as it stands in its file;
    /// `archives` holds the archive segments in the ascending order of their
    /// file names, which `name_order` gives, each as it stands in its file.
    pub fn scan_order(&self, current: Vec<Event>, archives: Vec<Vec<Event>>) -> (r: Vec<Event>)
        ensures
            r.deep_view() == scan_order(current.deep_view(), archives.deep_view()),
    {
        let mut current = current;
        let mut archives = archives;
        let ghost cur = current.deep_view();
        let ghost arcs = archives.deep_view();
        let mut r: Vec<Event> = Vec::new();
        assert(r.deep_view() =~= Seq::<EventView>::empty());
        while current.len() > 0
            invariant
                current.len() + r.len() == cur.len(),
                current.deep_view() == cur.take(current.len() as int),
                forall|k: int|
                    0 <= k < r.len() ==> (#[trigger] r.deep_view()[k]) == cur[cur.len() - 1 - k],
            decreases current.len(),
        {
            let ghost left = current.deep_view();
            let ghost got = r.deep_view();
            let e = current.pop().unwrap();
            assert(e@ == left[left.len() - 1]);
            assert(current.deep_view() =~= left.take(current.len() as int));
            r.push(e);
            assert(r.deep_view() =~= got.push(e@));
        }
        assert(r.deep_view() =~= cur.reverse());
        assert(arcs.skip(arcs.len() as int) =~= Seq::<Seq<EventView>>::empty());
        assert(r.deep_view() =~= cur.reverse() + newest_first(arcs.skip(arcs.len() as int)));
        while archives.len() > 0
            invariant
                archives.len() <= arcs.len(),
                archives.deep_view() == arcs.take(archives.len() as int),
                r.deep_view() == cur.reverse() + newest_first(arcs.skip(archives.len() as int)),
            decreases archives.len(),
        {
            let ghost left = archives.deep_view();
            let ghost got = r.deep_view();
            let ghost n = archives.len();
            let mut segment = archives.pop().unwrap();
            let ghost seg = segment.deep_view();
            assert(seg == left[left.len() - 1]);
            assert(archives.deep_view() =~= left.take(archives.len() as int));
            r.append(&mut segment);
            assert(r.deep_view() =~= got + seg);
            proof {
                lemma_newest_first_front(arcs.skip(n - 1));
                assert(arcs.skip(n - 1).drop_first() =~= arcs.skip(n as int));
                assert(arcs.skip(n - 1)[0] == seg);
                assert(r.deep_view() =~= cur.reverse() + newest_first(arcs.skip(n - 1)));
            }
        }
        assert(arcs.skip(0) =~= arcs);
        r
    }
}

/// The name of an archive segment: the time of archiving, the host, and the
/// ending `.xz`.
pub open spec fn archive_name(stamp: Seq<char>, host: Seq<char>) -> Seq<char> {
    stamp + "-"@ + host + ".xz"@
}

/// The events of archive segments, the newest segment first. The segments
/// come oldest first; within a segment the events stand newest first
/// already.
pub open spec fn newest_first(archives: Seq<Seq<EventView>>) -> Seq<EventView>
    decreases archives.len(),
{
    if archives.len() == 0 {
        Seq::empty()
    } else {
        archives.last() + newest_first(archives.drop_last())
    }
}

/// The events of a store in scan order: the current segment from its end to
/// its start, then the archive segments from the newest to the oldest, each
/// from its start to its end.
pub open spec fn scan_order(current: Seq<EventView>, archives: Seq<Seq<EventView>>) -> Seq<
    EventView,
> {
    current.reverse() + newest_first(archives)
}

/// The store after its current segment is archived: the segment, reversed,
/// is the newest archive, and the current segment is empty.
pub open spec fn archived(current: Seq<EventView>, archives: Seq<Seq<EventView>>) -> (
    Seq<EventView>,
    Seq<Seq<EventView>>,
) {
    (Seq::empty(), archives.push(current.reverse()))
}

proof fn lemma_newest_first_front(archives: Seq<Seq<EventView>>)
    requires
        archives.len() > 0,
    ensures
        newest_first(archives) == newest_first(archives.drop_first()) + archives[0],
    decreases archives.len(),
{
    if archives.len() == 1 {
        assert(archives.drop_first() =~= Seq::<Seq<EventView>>::empty());
        assert(archives.drop_last() =~= Seq::<Seq<EventView>>::empty());
        assert(newest_first(archives.drop_last()) =~= Seq::<EventView>::empty());
        assert(newest_first(archives) =~= archives[0]);
        assert(newest_first(archives.drop_first()) + archives[0] =~= archives[0]);
    } else {
        let shorter = archives.drop_last();
        lemma_newest_first_front(shorter);
        assert(shorter.drop_first() =~= archives.drop_first().drop_last());
        assert(archives.drop_first().last() == archives.last());
        assert(newest_first(archives) =~= newest_first(archives.drop_first()) + archives[0]);
    }
}

/// Archiving changes nothing for a query: the events of the store stand in
/// the same scan order before and after.
pub proof fn lemma_archive_keeps_scan_order(
    current: Seq<EventView>,
    archives: Seq<Seq<EventView>>,
)
    ensures
        scan_order(archived(current, archives).0, archived(current, archives).1) == scan_order(
            current,
            archives,
        ),
{
    let after = archives.push(current.reverse());
    assert(after.drop_last() =~= archives);
    assert(Seq::<EventView>::empty().reverse() =~= Seq::<EventView>::empty());
    assert(scan_order(Seq::empty(), after) =~= scan_order(current, archives));
}

/// A query after archiving gives what it gave before.
pub proof fn lemma_archive_keeps_queries(
    current: Seq<EventView>,
    archives: Seq<Seq<EventView>>,
    filter: Option<Seq<char>>,
    start_nr: u64,
    fetch: Option<u64>,
)
    ensures
        query_result(
            scan_order(archived(current, archives).0, archived(current, archives).1),
            filter,
            start_nr,
            fetch,
        ) == query_result(scan_order(current, archives), filter, start_nr, fetch),
{
    lemma_archive_keeps_scan_order(current, archives);
}

/// The later command is listed first: of two commands of the current
/// segment, the one appended later stands before the other in a query
/// without filter, where no two commands of the store have the same text.
pub proof fn lemma_later_command_listed_first(
    current: Seq<EventView>,
    archives: Seq<Seq<EventView>>,
    start_nr: u64,
    earlier: int,
    later: int,
)
    requires
        0 <= earlier < later < current.len(),
        passes_at(current, None, earlier),
        passes_at(current, None, later),
        texts_distinct(scan_order(current, archives)),
    ensures
        exists|k: int, l: int|
            0 <= k < l < query_result(scan_order(current, archives), None, start_nr, None).len()
                && (#[trigger] query_result(
                scan_order(current, archives),
                None,
                start_nr,
                None,
            )[k]).text == text_at(current, later) && (#[trigger] query_result(
                scan_order(current, archives),
                None,
                start_nr,
                None,
            )[l]).text == text_at(current, earlier) && query_result(
                scan_order(current, archives),
                None,
                start_nr,
                None,
            )[k].timestamp == current[later].timestamp && query_result(
                scan_order(current, archives),
                None,
                start_nr,
                None,
            )[l].timestamp == current[earlier].timestamp,
{
    let scan = scan_order(current, archives);
    let p = current.len() - 1 - later;
    let q = current.len() - 1 - earlier;
    assert(scan[p] == current[later]);
    assert(scan[q] == current[earlier]);
    lemma_newer_listed_first(scan, start_nr, p, q);
    let r = query_result(scan, None, start_nr, None);
    let (k, l) = choose|k: int, l: int|
        0 <= k < l < r.len() && (#[trigger] r[k]) == entry_for(scan, start_nr, k, p) && (
        #[trigger] r[l]) == entry_for(scan, start_nr, l, q);
    assert(r[k].text == text_at(current, later));
    assert(r[l].text == text_at(current, earlier));
}

} // verus!
