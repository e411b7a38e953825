//! The picking session: one directory's procedures, a cursor, a sequence of
//! chosen aliases, and what each key does to them.
//!
//! The session itself neither reads keys nor writes files. Its caller hands
//! it one input after another and carries out what each step asks for:
//! going on, writing the registry and going on, or ending.

use vstd::prelude::*;
use vstd::string::*;
use crate::painter::ExpandingBottomScreen;
use crate::procedures::{list_of, ProcList, Procedure, Procedures, Registry};
use crate::selection::{SelectionState, SelectionStateView};

verus! {

/// When a file was last modified, to the nanosecond.
#[derive(Debug, Clone, Copy, PartialEq, Eq, Structural)]
pub struct FileTime {
    pub seconds: i64,
    pub nanos: u32,
}

/// What the session is doing.
#[derive(Debug, PartialEq, Eq)]
pub enum ProcedureState {
    /// A command waits to be saved: as a new procedure, or over the
    /// highlighted one.
    Add { alias: Option<String>, command: String },
    /// Procedures are picked.
    Pick,
}

/// The mathematical value of a `ProcedureState`.
pub ghost enum ProcedureStateView {
    Add { alias: Option<Seq<char>>, command: Seq<char> },
    Pick,
}

impl View for ProcedureState {
    type V = ProcedureStateView;

    open spec fn view(&self) -> ProcedureStateView {
        match self {
            ProcedureState::Add { alias, command } => ProcedureStateView::Add {
                alias: alias.deep_view(),
                command: command@,
            },
            ProcedureState::Pick => ProcedureStateView::Pick,
        }
    }
}

/// The workspace of one session.
#[derive(Debug)]
pub struct ProcedureMode {
    /// When the registry file was last seen modified; `None` while there is
    /// no file.
    pub mtime: Option<FileTime>,
    /// The working copy of the registry.
    pub info: Procedures,
    /// The directory whose procedures are shown.
    pub workdir_path: String,
    pub state: ProcedureState,
    /// The index of the highlighted procedure.
    pub selected: usize,
    /// The chosen aliases, in the order in which they were chosen.
    pub sequence: Vec<String>,
    /// The painter of the session's block.
    pub lines: ExpandingBottomScreen,
}

/// The mathematical value of a `ProcedureMode`.
pub ghost struct ProcedureModeView {
    pub mtime: Option<FileTime>,
    pub info: Registry,
    pub workdir_path: Seq<char>,
    pub state: ProcedureStateView,
    pub selected: usize,
    pub sequence: Seq<Seq<char>>,
    pub lines: ExpandingBottomScreen,
}

impl View for ProcedureMode {
    type V = ProcedureModeView;

    open spec fn view(&self) -> ProcedureModeView {
        ProcedureModeView {
            mtime: self.mtime,
            info: self.info@,
            workdir_path: self.workdir_path@,
            state: self.state@,
            selected: self.selected,
            sequence: self.sequence.deep_view(),
            lines: self.lines,
        }
    }
}

/// A key, as far as the session tells keys apart.
#[derive(Debug, Clone, Copy, PartialEq, Eq, Structural)]
pub enum KeyCode {
    Char(char),
    Up,
    Down,
    Delete,
    Insert,
    Enter,
    /// Any other key.
    Other,
}

/// An event of the terminal.
#[derive(Debug, Clone, Copy, PartialEq, Eq, Structural)]
pub enum InputEvent {
    Key(KeyCode),
    Mouse,
    /// Any other event, such as a change of the terminal's size.
    Other,
}

/// What the input stream gave.
#[derive(Debug, Clone, Copy, PartialEq, Eq, Structural)]
pub enum Input {
    Event(InputEvent),
    /// Reading failed.
    Failed,
    /// Nothing was read.
    Nothing,
}

/// What the caller does after a step.
#[derive(Debug, Clone, Copy, PartialEq, Eq, Structural)]
pub enum Step {
    /// Go on with the next input.
    Continue,
    /// Write the working copy to the registry, note the file's new
    /// modification time in the workspace, and go on.
    Save,
    /// End the session and emit the selection.
    Stop,
}

/// The list of the session's directory; empty where it has none.
pub open spec fn shown(m: ProcedureModeView) -> ProcList {
    list_of(m.info, m.workdir_path)
}

/// Whether the registry has a list for the session's directory.
pub open spec fn has_list(m: ProcedureModeView) -> bool {
    m.info.contains_key(m.workdir_path)
}

/// The index of the last item of a list of `len` items; zero for an empty
/// list.
pub open spec fn last_index(len: nat) -> usize {
    if len == 0 {
        0
    } else {
        (len - 1) as usize
    }
}

/// `selected` held back to the last item of a list of `len` items.
pub open spec fn clamped(selected: int, len: nat) -> usize {
    if selected < last_index(len) {
        selected as usize
    } else {
        last_index(len)
    }
}

/// Whether `alias` is in the sequence.
pub open spec fn in_sequence(sequence: Seq<Seq<char>>, alias: Seq<char>) -> bool {
    exists|k: int| 0 <= k < sequence.len() && #[trigger] sequence[k] == alias
}

/// The sequence without `alias`, the others in their order.
pub open spec fn without_alias(sequence: Seq<Seq<char>>, alias: Seq<char>) -> Seq<Seq<char>>
    decreases sequence.len(),
{
    if sequence.len() == 0 {
        sequence
    } else if sequence.last() == alias {
        without_alias(sequence.drop_last(), alias)
    } else {
        without_alias(sequence.drop_last(), alias).push(sequence.last())
    }
}

/// The sequence after `alias` is toggled: put at the end where it was not
/// in, taken out where it was.
pub open spec fn toggled(sequence: Seq<Seq<char>>, alias: Seq<char>) -> Seq<Seq<char>> {
    if in_sequence(sequence, alias) {
        without_alias(sequence, alias)
    } else {
        sequence.push(alias)
    }
}

/// The index of the first procedure of `list` named `alias`, looking at the
/// first `n`.
pub open spec fn resolve_within(list: ProcList, alias: Seq<char>, n: nat) -> Option<int>
    decreases n,
{
    if n == 0 {
        None
    } else {
        match resolve_within(list, alias, (n - 1) as nat) {
            Some(i) => Some(i),
            None => if list[n - 1].0 == alias {
                Some(n - 1)
            } else {
                None
            },
        }
    }
}

/// The index of the first procedure of `list` named `alias`.
pub open spec fn resolve(list: ProcList, alias: Seq<char>) -> Option<int> {
    resolve_within(list, alias, list.len())
}

/// The procedures that the aliases of `sequence` name in `list`, in the
/// order of the sequence; an alias that names none is passed over.
pub open spec fn resolved_queue(list: ProcList, sequence: Seq<Seq<char>>) -> ProcList
    decreases sequence.len(),
{
    if sequence.len() == 0 {
        Seq::empty()
    } else {
        let before = resolved_queue(list, sequence.drop_last());
        match resolve(list, sequence.last()) {
            Some(i) => before.push(list[i]),
            None => before,
        }
    }
}

/// Whether an alias of `sequence` resolves to the item at `selected`.
pub open spec fn selected_resolved(list: ProcList, sequence: Seq<Seq<char>>, selected: int) -> bool {
    exists|k: int|
        0 <= k < sequence.len() && resolve(list, #[trigger] sequence[k]) == Some(selected)
}

/// The commands to run: what the sequence resolves to, and after them the
/// highlighted procedure, unless the sequence has resolved to it already.
pub open spec fn finalized(list: ProcList, sequence: Seq<Seq<char>>, selected: int) -> ProcList {
    if 0 <= selected < list.len() && !selected_resolved(list, sequence, selected) {
        resolved_queue(list, sequence).push(list[selected])
    } else {
        resolved_queue(list, sequence)
    }
}

/// The selection after a session with the workspace `m` is finalized: the
/// commands to run are put behind those already queued, and cursor and
/// sequence are taken over. Nothing changes where the registry has no list
/// for the directory.
pub open spec fn saved_selection(s: SelectionStateView, m: ProcedureModeView) -> SelectionStateView {
    if has_list(m) {
        SelectionStateView {
            mode: s.mode,
            selected: m.selected,
            sequence: m.sequence,
            exec_queue: s.exec_queue + finalized(shown(m), m.sequence, m.selected as int),
        }
    } else {
        s
    }
}

proof fn lemma_resolve_within(list: ProcList, alias: Seq<char>, n: nat)
    requires
        n <= list.len(),
    ensures
        match resolve_within(list, alias, n) {
            Some(i) => 0 <= i < n && list[i].0 == alias && forall|j: int|
                0 <= j < i ==> (#[trigger] list[j]).0 != alias,
            None => forall|j: int| 0 <= j < n ==> (#[trigger] list[j]).0 != alias,
        },
    decreases n,
{
    if n > 0 {
        lemma_resolve_within(list, alias, (n - 1) as nat);
    }
}

/// An alias resolves to the first procedure that bears it.
pub proof fn lemma_resolve(list: ProcList, alias: Seq<char>)
    ensures
        match resolve(list, alias) {
            Some(i) => 0 <= i < list.len() && list[i].0 == alias && forall|j: int|
                0 <= j < i ==> (#[trigger] list[j]).0 != alias,
            None => forall|j: int| 0 <= j < list.len() ==> (#[trigger] list[j]).0 != alias,
        },
{
    lemma_resolve_within(list, alias, list.len());
}

/// Every procedure that an alias of the sequence resolves to is in the
/// queue.
pub proof fn lemma_resolved_queue_has(list: ProcList, sequence: Seq<Seq<char>>, k: int)
    requires
        0 <= k < sequence.len(),
        resolve(list, sequence[k]) is Some,
    ensures
        resolved_queue(list, sequence).contains(list[resolve(list, sequence[k])->0]),
    decreases sequence.len(),
{
    let before = resolved_queue(list, sequence.drop_last());
    let all = resolved_queue(list, sequence);
    if k == sequence.len() - 1 {
        assert(all.last() == list[resolve(list, sequence[k])->0]);
    } else {
        lemma_resolved_queue_has(list, sequence.drop_last(), k);
        let item = list[resolve(list, sequence[k])->0];
        let at = choose|at: int| 0 <= at < before.len() && before[at] == item;
        assert(all[at] == item);
    }
}

/// The highlighted procedure is always among the commands to run.
pub proof fn lemma_finalized_has_selected(list: ProcList, sequence: Seq<Seq<char>>, selected: int)
    requires
        0 <= selected < list.len(),
    ensures
        finalized(list, sequence, selected).contains(list[selected]),
{
    let q = finalized(list, sequence, selected);
    if selected_resolved(list, sequence, selected) {
        let k = choose|k: int|
            0 <= k < sequence.len() && resolve(list, #[trigger] sequence[k]) == Some(selected);
        lemma_resolved_queue_has(list, sequence, k);
    } else {
        assert(q.last() == list[selected]);
    }
}

/// The index of the first procedure of `list` named `alias`.
fn find_alias(list: &Vec<(String, Procedure)>, alias: &String) -> (r: Option<usize>)
    ensures
        match r {
            Some(i) => resolve(list.deep_view(), alias@) == Some(i as int) && i < list.len(),
            None => resolve(list.deep_view(), alias@) is None,
        },
{
    let ghost lv = list.deep_view();
    let mut i: usize = 0;
    while i < list.len()
        invariant
            i <= list.len(),
            lv == list.deep_view(),
            resolve_within(lv, alias@, i as nat) is None,
        decreases list.len() - i,
    {
        if list[i].0 == *alias {
            proof {
                assert(lv[i as int].0 == alias@);
                lemma_resolve_tail(lv, alias@, (i + 1) as nat);
            }
            return Some(i);
        }
        assert(lv[i as int].0 != alias@);
        i += 1;
    }
    None
}

proof fn lemma_resolve_tail(list: ProcList, alias: Seq<char>, n: nat)
    requires
        n <= list.len(),
        resolve_within(list, alias, n) is Some,
    ensures
        resolve(list, alias) == resolve_within(list, alias, n),
    decreases list.len() - n,
{
    if n < list.len() {
        lemma_resolve_tail(list, alias, n + 1);
    }
}

/// Whether `alias` is in `sequence`.
pub(crate) fn sequence_has(sequence: &Vec<String>, alias: &String) -> (r: bool)
    ensures
        r == in_sequence(sequence.deep_view(), alias@),
{
    let mut i: usize = 0;
    while i < sequence.len()
        invariant
            i <= sequence.len(),
            forall|k: int| 0 <= k < i ==> #[trigger] sequence.deep_view()[k] != alias@,
        decreases sequence.len() - i,
    {
        if sequence[i] == *alias {
            assert(sequence.deep_view()[i as int] == alias@);
            return true;
        }
        i += 1;
    }
    false
}

/// A copy of `sequence`.
fn clone_sequence(sequence: &Vec<String>) -> (r: Vec<String>)
    ensures
        r.deep_view() == sequence.deep_view(),
{
    let mut r: Vec<String> = Vec::new();
    let mut i: usize = 0;
    while i < sequence.len()
        invariant
            i <= sequence.len(),
            r.deep_view() == sequence.deep_view().take(i as int),
        decreases sequence.len() - i,
    {
        let alias = sequence[i].clone();
        let ghost before = r.deep_view();
        r.push(alias);
        assert(r.deep_view() =~= before.push(alias@));
        i += 1;
        assert(r.deep_view() =~= sequence.deep_view().take(i as int));
    }
    assert(sequence.deep_view().take(i as int) =~= sequence.deep_view());
    r
}

/// `sequence` without `alias`.
pub(crate) fn sequence_without(sequence: &Vec<String>, alias: &String) -> (r: Vec<String>)
    ensures
        r.deep_view() == without_alias(sequence.deep_view(), alias@),
{
    let ghost sv = sequence.deep_view();
    let mut r: Vec<String> = Vec::new();
    let mut i: usize = 0;
    assert(r.deep_view() =~= without_alias(sv.take(0), alias@));
    while i < sequence.len()
        invariant
            i <= sequence.len(),
            sv == sequence.deep_view(),
            r.deep_view() == without_alias(sv.take(i as int), alias@),
        decreases sequence.len() - i,
    {
        proof {
            let p = sv.take(i + 1);
            assert(p.drop_last() =~= sv.take(i as int));
            assert(p.last() == sequence[i as int]@);
        }
        if sequence[i] != *alias {
            let kept = sequence[i].clone();
            let ghost before = r.deep_view();
            r.push(kept);
            assert(r.deep_view() =~= before.push(kept@));
        }
        i += 1;
    }
    assert(sv.take(i as int) =~= sv);
    r
}

/// The commands to run for a list, a sequence and a cursor.
pub fn finalize(list: &Vec<(String, Procedure)>, sequence: &Vec<String>, selected: usize) -> (r:
    Vec<(String, String)>)
    ensures
        r.deep_view() == finalized(list.deep_view(), sequence.deep_view(), selected as int),
{
    let ghost lv = list.deep_view();
    let ghost sv = sequence.deep_view();
    let mut r: Vec<(String, String)> = Vec::new();
    let mut with_selected = false;
    let mut k: usize = 0;
    assert(r.deep_view() =~= resolved_queue(lv, sv.take(0)));
    while k < sequence.len()
        invariant
            k <= sequence.len(),
            lv == list.deep_view(),
            sv == sequence.deep_view(),
            r.deep_view() == resolved_queue(lv, sv.take(k as int)),
            with_selected == selected_resolved(lv, sv.take(k as int), selected as int),
        decreases sequence.len() - k,
    {
        let ghost part = sv.take(k as int);
        let ghost next = sv.take(k + 1);
        proof {
            assert(next.drop_last() =~= part);
            assert(next.last() == sequence[k as int]@);
        }
        let found = find_alias(list, &sequence[k]);
        match found {
            Some(i) => {
                if i == selected {
                    with_selected = true;
                }
                let alias = list[i].0.clone();
                let command = list[i].1.command.clone();
                let ghost before = r.deep_view();
                r.push((alias, command));
                assert(r.deep_view() =~= before.push((alias@, command@)));
                assert(lv[i as int] == (alias@, command@));
            },
            None => {},
        }
        proof {
            if selected_resolved(lv, next, selected as int) {
                let w = choose|w: int|
                    0 <= w < next.len() && resolve(lv, #[trigger] next[w]) == Some(selected as int);
                if w < k {
                    assert(part[w] == next[w]);
                }
            }
            if selected_resolved(lv, part, selected as int) {
                let w = choose|w: int|
                    0 <= w < part.len() && resolve(lv, #[trigger] part[w]) == Some(selected as int);
                assert(next[w] == part[w]);
            }
            if found == Some(selected) {
                assert(resolve(lv, next[k as int]) == Some(selected as int));
            }
        }
        k += 1;
    }
    assert(sv.take(k as int) =~= sv);
    if !with_selected && selected < list.len() {
        let alias = list[selected].0.clone();
        let command = list[selected].1.command.clone();
        let ghost before = r.deep_view();
        r.push((alias, command));
        assert(r.deep_view() =~= before.push((alias@, command@)));
        assert(lv[selected as int] == (alias@, command@));
    }
    r
}

impl SelectionState {
    /// Finalizes the session of `proc_mode` into this selection: the
    /// procedures that the sequence names, in its order, and behind them the
    /// highlighted one where the sequence has not named it, are put at the
    /// end of the queue; cursor and sequence are taken over.
    pub fn save(&mut self, proc_mode: &ProcedureMode)
        ensures
            final(self)@ == saved_selection(old(self)@, proc_mode@),
    {
        match proc_mode.info.get(&proc_mode.workdir_path) {
            Some(procs) => {
                let mut items = finalize(procs, &proc_mode.sequence, proc_mode.selected);
                let ghost queued = self.exec_queue.deep_view();
                let ghost more = items.deep_view();
                self.exec_queue.append(&mut items);
                assert(self.exec_queue.deep_view() =~= queued + more);
                self.selected = proc_mode.selected;
                self.sequence = clone_sequence(&proc_mode.sequence);
            },
            None => {},
        }
    }
}

impl ProcedureMode {
    /// Takes cursor and sequence over from an earlier session's selection.
    pub fn load_selection_state(&mut self, selection_state: SelectionState)
        ensures
            final(self)@ == (ProcedureModeView {
                selected: selection_state.selected,
                sequence: selection_state.sequence.deep_view(),
                ..old(self)@
            }),
    {
        self.selected = selection_state.selected;
        self.sequence = selection_state.sequence;
    }
}

} // verus!
