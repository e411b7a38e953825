//! The record that one picking session hands to the next.

use vstd::prelude::*;
use vstd::string::*;

verus! {

/// What a session leaves behind: where the cursor stood, which aliases were
/// chosen and in which order, and the commands to run.
#[derive(Debug, PartialEq, Eq)]
pub struct SelectionState {
    pub mode: String,
    pub selected: usize,
    pub sequence: Vec<String>,
    pub exec_queue: Vec<(String, String)>,
}

/// The mathematical value of a `SelectionState`.
pub ghost struct SelectionStateView {
    pub mode: Seq<char>,
    pub selected: usize,
    pub sequence: Seq<Seq<char>>,
    pub exec_queue: Seq<(Seq<char>, Seq<char>)>,
}

impl View for SelectionState {
    type V = SelectionStateView;

    open spec fn view(&self) -> SelectionStateView {
        SelectionStateView {
            mode: self.mode@,
            selected: self.selected,
            sequence: self.sequence.deep_view(),
            exec_queue: self.exec_queue.deep_view(),
        }
    }
}

impl SelectionState {
    /// The state before any session: no mode, the cursor on the first item,
    /// nothing chosen and nothing to run.
    pub open spec fn empty_view() -> SelectionStateView {
        SelectionStateView {
            mode: Seq::empty(),
            selected: 0,
            sequence: Seq::empty(),
            exec_queue: Seq::empty(),
        }
    }
}

impl Default for SelectionState {
    fn default() -> (r: Self)
        ensures
            r@ == SelectionState::empty_view(),
    {
        let r = SelectionState {
            mode: String::new(),
            selected: 0,
            sequence: Vec::new(),
            exec_queue: Vec::new(),
        };
        assert(r.sequence.deep_view() =~= Seq::<Seq<char>>::empty());
        assert(r.exec_queue.deep_view() =~= Seq::<(Seq<char>, Seq<char>)>::empty());
        r
    }
}

} // verus!
