//! What a session does on each input, and how it meets the registry file.

use vstd::prelude::*;
use vstd::string::*;
use crate::painter::ExpandingBottomScreen;
use crate::error::Error;
use crate::procedures::{
    alias_free, all_unique, list_of, with_command, with_item_command, without_item, Procedures, Registry,
};
use crate::selection::{SelectionState, SelectionStateView};
use crate::session::{
    clamped, has_list, last_index, saved_selection, sequence_has, sequence_without, shown, toggled,
    without_alias, FileTime, Input, InputEvent, KeyCode, ProcedureMode, ProcedureModeView,
    ProcedureState, ProcedureStateView, Step,
};
use crate::store::SuperHist;

verus! {

/// A workspace, a selection, and what the caller is to do next.
pub ghost struct Outcome {
    pub mode: ProcedureModeView,
    pub selection: SelectionStateView,
    pub step: Step,
}

/// Whether the cursor stands on a procedure.
pub open spec fn has_highlighted(m: ProcedureModeView) -> bool {
    has_list(m) && m.selected < shown(m).len()
}

/// The workspace with the cursor one item up, held within the list: a
/// cursor that stood beyond the list comes back to its last item.
pub open spec fn moved_up(m: ProcedureModeView) -> ProcedureModeView {
    let up: int = if m.selected > 0 {
        m.selected - 1
    } else {
        0
    };
    ProcedureModeView { selected: clamped(up, shown(m).len()), ..m }
}

/// The workspace with the cursor one item down, held within the list.
pub open spec fn moved_down(m: ProcedureModeView) -> ProcedureModeView {
    ProcedureModeView { selected: clamped(m.selected + 1, shown(m).len()), ..m }
}

/// The workspace with the highlighted procedure toggled in the sequence.
pub open spec fn space_toggled(m: ProcedureModeView) -> ProcedureModeView {
    if has_highlighted(m) {
        ProcedureModeView {
            sequence: toggled(m.sequence, shown(m)[m.selected as int].0),
            ..m
        }
    } else {
        m
    }
}

/// The workspace without the highlighted procedure: it leaves the list and
/// the sequence, and the cursor stays within the list.
pub open spec fn deleted(m: ProcedureModeView) -> ProcedureModeView {
    if has_highlighted(m) {
        ProcedureModeView {
            sequence: without_alias(m.sequence, shown(m)[m.selected as int].0),
            info: without_item(m.info, m.workdir_path, m.selected as int),
            selected: clamped(m.selected as int, (shown(m).len() - 1) as nat),
            ..m
        }
    } else {
        m
    }
}

/// Whether the waiting command can be saved as a new procedure: a command
/// waits, and the alias that it is to bear, if it is to bear one, names no
/// procedure of the list yet.
pub open spec fn can_insert(m: ProcedureModeView) -> bool {
    m.state matches ProcedureStateView::Add { alias, .. } && alias_free(shown(m), alias)
}

/// The workspace after the waiting command is saved as a new procedure,
/// which the cursor then stands on. Where it cannot be saved, the workspace
/// stays as it is, and the command goes on waiting.
pub open spec fn inserted(m: ProcedureModeView) -> ProcedureModeView {
    match m.state {
        ProcedureStateView::Add { alias, command } => if alias_free(shown(m), alias) {
            ProcedureModeView {
                state: ProcedureStateView::Pick,
                info: with_command(m.info, alias, m.workdir_path, command),
                selected: shown(m).len() as usize,
                ..m
            }
        } else {
            m
        },
        ProcedureStateView::Pick => m,
    }
}

/// The workspace after the waiting command is written over that of the
/// highlighted procedure.
pub open spec fn overwritten(m: ProcedureModeView) -> ProcedureModeView {
    match m.state {
        ProcedureStateView::Add { command, .. } => if has_highlighted(m) {
            ProcedureModeView {
                state: ProcedureStateView::Pick,
                info: with_item_command(m.info, m.workdir_path, m.selected as int, command),
                ..m
            }
        } else {
            m
        },
        ProcedureStateView::Pick => m,
    }
}

/// The selection of a session that ends to run its commands.
pub open spec fn marked_for_execution(s: SelectionStateView) -> SelectionStateView {
    SelectionStateView { mode: "execute"@, ..s }
}

/// What a key does.
///
/// `q` finalizes and ends. Up and Down move the cursor within the list.
/// Space toggles the highlighted procedure in the sequence. Delete removes
/// it and has the registry written. Insert saves a waiting command as a new
/// procedure and has the registry written, unless it is to bear an alias
/// that the list uses already. Enter, while picking, finalizes,
/// marks the selection for execution and ends; with a command waiting, it
/// writes the command over the highlighted procedure and has the registry
/// written. Any other key does nothing.
pub open spec fn after_key(m: ProcedureModeView, s: SelectionStateView, key: KeyCode) -> Outcome {
    match key {
        KeyCode::Char(c) => if c == 'q' {
            Outcome { mode: m, selection: saved_selection(s, m), step: Step::Stop }
        } else if c == ' ' {
            Outcome { mode: space_toggled(m), selection: s, step: Step::Continue }
        } else {
            Outcome { mode: m, selection: s, step: Step::Continue }
        },
        KeyCode::Up => Outcome { mode: moved_up(m), selection: s, step: Step::Continue },
        KeyCode::Down => Outcome { mode: moved_down(m), selection: s, step: Step::Continue },
        KeyCode::Delete => Outcome { mode: deleted(m), selection: s, step: Step::Save },
        KeyCode::Insert => if can_insert(m) {
            Outcome { mode: inserted(m), selection: s, step: Step::Save }
        } else {
            Outcome { mode: m, selection: s, step: Step::Continue }
        },
        KeyCode::Enter => match m.state {
            ProcedureStateView::Pick => Outcome {
                mode: m,
                selection: marked_for_execution(saved_selection(s, m)),
                step: Step::Stop,
            },
            ProcedureStateView::Add { .. } => if has_highlighted(m) {
                Outcome { mode: overwritten(m), selection: s, step: Step::Save }
            } else {
                Outcome { mode: m, selection: s, step: Step::Continue }
            },
        },
        KeyCode::Other => Outcome { mode: m, selection: s, step: Step::Continue },
    }
}

/// What an event does: a key what `after_key` says, anything else nothing.
pub open spec fn after_event(m: ProcedureModeView, s: SelectionStateView, event: InputEvent) -> Outcome {
    match event {
        InputEvent::Key(key) => after_key(m, s, key),
        _ => Outcome { mode: m, selection: s, step: Step::Continue },
    }
}

/// What one input does. A failed read ends the session. While `flush_events`
/// is set, which it is for the one round after the working copy was read
/// anew, an event is taken and ignored.
pub open spec fn after_input(
    m: ProcedureModeView,
    s: SelectionStateView,
    flush_events: bool,
    input: Input,
) -> Outcome {
    match input {
        Input::Event(event) => if flush_events {
            Outcome { mode: m, selection: s, step: Step::Continue }
        } else {
            after_event(m, s, event)
        },
        Input::Failed => Outcome { mode: m, selection: s, step: Step::Stop },
        Input::Nothing => Outcome { mode: m, selection: s, step: Step::Continue },
    }
}

/// Whether the file, last seen modified at `seen`, is modified at another
/// time now. A file that cannot be looked at counts as unchanged.
pub open spec fn modified_since(seen: FileTime, on_disk: Option<FileTime>) -> bool {
    match on_disk {
        Some(now) => now != seen,
        None => false,
    }
}

/// Whether the working copy is older than the registry file. Without a
/// file when the copy was made, nothing is looked for.
pub open spec fn is_stale(m: ProcedureModeView, on_disk: Option<FileTime>) -> bool {
    match m.mtime {
        Some(seen) => modified_since(seen, on_disk),
        None => false,
    }
}

/// The workspace at the start of a session.
pub open spec fn entered(
    state: ProcedureStateView,
    workdir_path: Seq<char>,
    pick_result: Option<SelectionStateView>,
    procedures: Registry,
    mtime: Option<FileTime>,
) -> ProcedureModeView {
    ProcedureModeView {
        mtime,
        info: procedures,
        workdir_path,
        state,
        selected: match pick_result {
            Some(p) => p.selected,
            None => 0,
        },
        sequence: match pick_result {
            Some(p) => p.sequence,
            None => Seq::empty(),
        },
        lines: ExpandingBottomScreen::initial(),
    }
}

/// The alias of the highlighted procedure and the length of its list.
fn highlighted(proc_mode: &ProcedureMode) -> (r: Option<(String, usize)>)
    ensures
        match r {
            Some((alias, len)) => has_highlighted(proc_mode@) && alias@ == shown(
                proc_mode@,
            )[proc_mode.selected as int].0 && len == shown(proc_mode@).len(),
            None => !has_highlighted(proc_mode@),
        },
{
    match proc_mode.info.get(&proc_mode.workdir_path) {
        Some(procs) => {
            if proc_mode.selected < procs.len() {
                let alias = procs[proc_mode.selected].0.clone();
                assert(procs.deep_view()[proc_mode.selected as int].0 == alias@);
                Some((alias, procs.len()))
            } else {
                None
            }
        },
        None => None,
    }
}

/// The index of the last procedure of the session's list; zero where there
/// is none.
fn last_item(proc_mode: &ProcedureMode) -> (r: usize)
    ensures
        r == last_index(shown(proc_mode@).len()),
{
    match proc_mode.info.get(&proc_mode.workdir_path) {
        Some(procs) => {
            if procs.len() == 0 {
                0
            } else {
                procs.len() - 1
            }
        },
        None => 0,
    }
}

impl ProcedureMode {
    /// Whether the registry file has changed since the working copy was
    /// made, so that the copy is to be read anew. `on_disk` is the file's
    /// modification time now, `None` where it cannot be had.
    pub fn is_stale(&self, on_disk: Option<FileTime>) -> (r: bool)
        ensures
            r == is_stale(self@, on_disk),
    {
        match self.mtime {
            Some(seen) => match on_disk {
                Some(now) => now != seen,
                None => false,
            },
            None => false,
        }
    }

    /// Puts a registry read anew in the place of the working copy. What the
    /// session holds beside it stays: the cursor, the sequence, a waiting
    /// command.
    pub fn reload(&mut self, info: Procedures, mtime: Option<FileTime>)
        ensures
            final(self)@ == (ProcedureModeView { info: info@, mtime, ..old(self)@ }),
    {
        self.info = info;
        self.mtime = mtime;
    }
}

impl SuperHist {
    /// Whether the registry file, last seen modified at `file_time`, has
    /// another modification time now.
    pub fn are_procedures_updated(&self, file_time: FileTime, on_disk: Option<FileTime>) -> (r:
        bool)
        ensures
            r == modified_since(file_time, on_disk),
    {
        match on_disk {
            Some(now) => now != file_time,
            None => false,
        }
    }

    /// Sets up the workspace of a session on `workdir_path`, from the
    /// registry as it was loaded and the time its file was modified. An
    /// earlier selection gives the cursor and the sequence.
    pub fn enter_proc_mode(
        &self,
        state: ProcedureState,
        workdir_path: String,
        pick_result: Option<SelectionState>,
        procedures: Procedures,
        mtime: Option<FileTime>,
    ) -> (r: ProcedureMode)
        ensures
            r@ == entered(
                state@,
                workdir_path@,
                match pick_result {
                    Some(p) => Some(p@),
                    None => None,
                },
                procedures@,
                mtime,
            ),
    {
        let mut mode = ProcedureMode {
            info: procedures,
            workdir_path,
            state,
            mtime,
            sequence: Vec::new(),
            selected: 0,
            lines: ExpandingBottomScreen::default(),
        };
        assert(mode.sequence.deep_view() =~= Seq::<Seq<char>>::empty());
        if let Some(pick_result) = pick_result {
            mode.load_selection_state(pick_result);
        }
        mode
    }

    /// The change that adding a procedure makes to the registry: the
    /// procedure is put at the end of its directory's list, and the registry
    /// is to be written. An alias that names a procedure of the directory
    /// already is refused with `InvalidParams`, and nothing changes.
    pub fn proc_add(
        &self,
        procedures: &mut Procedures,
        save: &mut bool,
        alias: Option<String>,
        command: String,
        workdir_path: String,
    ) -> (r: Result<(), Error>)
        ensures
            r is Ok == alias_free(list_of(old(procedures)@, workdir_path@), alias.deep_view()),
            r is Err ==> r == Err::<(), Error>(Error::InvalidParams),
            final(procedures)@ == if r is Ok {
                with_command(old(procedures)@, alias.deep_view(), workdir_path@, command@)
            } else {
                old(procedures)@
            },
            *final(save) == (*old(save) || r is Ok),
    {
        let free = match &alias {
            Some(a) => !procedures.uses_alias(&workdir_path, a),
            None => true,
        };
        if !free {
            return Err(Error::InvalidParams);
        }
        procedures.add_command(alias, workdir_path, command);
        *save = true;
        Ok(())
    }

    /// The change that saving a session makes to the registry: the working
    /// copy takes its place whole, and the registry is to be written.
    pub fn proc_mode_save(
        &self,
        proc_mode: &ProcedureMode,
        procedures: &mut Procedures,
        save: &mut bool,
    )
        ensures
            final(procedures)@ == proc_mode.info@,
            *final(save),
    {
        *procedures = proc_mode.info.clone();
        *save = true;
    }

    /// Handles one event of the terminal. The lists of the working copy
    /// keep their aliases apart whatever the event.
    pub fn proc_mode_event(&mut self, proc_mode: &mut ProcedureMode, event: InputEvent) -> (r:
        Step)
        ensures
            (Outcome {
                mode: final(proc_mode)@,
                selection: final(self).selection_state@,
                step: r,
            }) == after_event(old(proc_mode)@, old(self).selection_state@, event),
            final(self).root == old(self).root,
            all_unique(final(proc_mode)@.info),
    {
        let step = self.handle_event(proc_mode, event);
        proc_mode.info.aliases_kept_apart();
        step
    }

    fn handle_event(&mut self, proc_mode: &mut ProcedureMode, event: InputEvent) -> (r: Step)
        ensures
            (Outcome {
                mode: final(proc_mode)@,
                selection: final(self).selection_state@,
                step: r,
            }) == after_event(old(proc_mode)@, old(self).selection_state@, event),
            final(self).root == old(self).root,
    {
        match event {
            InputEvent::Key(key) => match key {
                KeyCode::Char(c) => {
                    if c == 'q' {
                        self.selection_state.save(proc_mode);
                        return Step::Stop;
                    } else if c == ' ' {
                        match highlighted(proc_mode) {
                            Some((alias, _)) => {
                                if sequence_has(&proc_mode.sequence, &alias) {
                                    proc_mode.sequence = sequence_without(
                                        &proc_mode.sequence,
                                        &alias,
                                    );
                                } else {
                                    let ghost before = proc_mode.sequence.deep_view();
                                    proc_mode.sequence.push(alias);
                                    assert(proc_mode.sequence.deep_view() =~= before.push(alias@));
                                }
                            },
                            None => {},
                        }
                    }
                },
                KeyCode::Up => {
                    let last = last_item(proc_mode);
                    if proc_mode.selected > 0 && proc_mode.selected - 1 < last {
                        proc_mode.selected = proc_mode.selected - 1;
                    } else if proc_mode.selected > 0 {
                        proc_mode.selected = last;
                    }
                },
                KeyCode::Down => {
                    let last = last_item(proc_mode);
                    if proc_mode.selected < last {
                        proc_mode.selected = proc_mode.selected + 1;
                    } else {
                        proc_mode.selected = last;
                    }
                },
                KeyCode::Delete => {
                    match highlighted(proc_mode) {
                        Some((alias, len)) => {
                            proc_mode.sequence = sequence_without(&proc_mode.sequence, &alias);
                            proc_mode.info.remove_at(&proc_mode.workdir_path, proc_mode.selected);
                            let last = if len - 1 == 0 {
                                0
                            } else {
                                len - 2
                            };
                            if proc_mode.selected > last {
                                proc_mode.selected = last;
                            }
                        },
                        None => {},
                    }
                    return Step::Save;
                },
                KeyCode::Insert => {
                    let free = match &proc_mode.state {
                        ProcedureState::Add { alias: Some(a), .. } => !proc_mode.info.uses_alias(
                            &proc_mode.workdir_path,
                            a,
                        ),
                        _ => true,
                    };
                    if free {
                        let mut state = ProcedureState::Pick;
                        std::mem::swap(&mut proc_mode.state, &mut state);
                        match state {
                            ProcedureState::Pick => {},
                            ProcedureState::Add { command, alias } => {
                                let nr = proc_mode.info.add_command(
                                    alias,
                                    proc_mode.workdir_path.clone(),
                                    command,
                                );
                                proc_mode.selected = nr - 1;
                                return Step::Save;
                            },
                        }
                    }
                },
                KeyCode::Enter => {
                    let pending: Option<String> = match &proc_mode.state {
                        ProcedureState::Pick => None,
                        ProcedureState::Add { command, .. } => Some(command.clone()),
                    };
                    match pending {
                        None => {
                            self.selection_state.save(proc_mode);
                            self.selection_state.mode = String::from_str("execute");
                            return Step::Stop;
                        },
                        Some(command) => {
                            match highlighted(proc_mode) {
                                Some(_) => {
                                    proc_mode.info.set_command(
                                        &proc_mode.workdir_path,
                                        proc_mode.selected,
                                        command,
                                    );
                                    proc_mode.state = ProcedureState::Pick;
                                    return Step::Save;
                                },
                                None => {},
                            }
                        },
                    }
                },
                KeyCode::Other => {},
            },
            _ => {},
        }
        Step::Continue
    }

    /// Handles what the input stream gave in one round of the session.
    /// `flush_events` says that the working copy was read anew in this
    /// round: an event is then taken and ignored, so that no key acts on a
    /// list that the user has not seen.
    pub fn proc_mode(&mut self, proc_mode: &mut ProcedureMode, flush_events: bool, input: Input) -> (r:
        Step)
        ensures
            (Outcome {
                mode: final(proc_mode)@,
                selection: final(self).selection_state@,
                step: r,
            }) == after_input(old(proc_mode)@, old(self).selection_state@, flush_events, input),
            final(self).root == old(self).root,
            all_unique(final(proc_mode)@.info),
    {
        proc_mode.info.aliases_kept_apart();
        match input {
            Input::Event(event) => {
                if flush_events {
                    Step::Continue
                } else {
                    self.proc_mode_event(proc_mode, event)
                }
            },
            Input::Failed => Step::Stop,
            Input::Nothing => Step::Continue,
        }
    }
}

} // verus!
