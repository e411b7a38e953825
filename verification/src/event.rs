//! Events of the log: what one record says, and which records an append
//! writes.

use vstd::prelude::*;
use vstd::string::*;
use crate::error::Error;
use crate::text::{trim, trim_spec};

verus! {

/// What happened at an event.
#[derive(Debug, PartialEq, Eq)]
pub enum Payload {
    /// A shell started on the terminal.
    Start,
    /// A command was run.
    Command { text: String, workdir: String },
    /// The command of the same terminal and index ended with this code.
    ExitCode(u32),
}

/// One record of the log. `terminal` and `idx` together name one command
/// slot: an exit code belongs to the command with the same pair.
#[derive(Debug, PartialEq, Eq)]
pub struct Event {
    pub timestamp: u64,
    pub idx: u64,
    pub terminal: String,
    pub payload: Payload,
}

/// The mathematical value of a `Payload`.
pub ghost enum PayloadView {
    Start,
    Command { text: Seq<char>, workdir: Seq<char> },
    ExitCode(u32),
}

/// The mathematical value of an `Event`.
pub ghost struct EventView {
    pub timestamp: u64,
    pub idx: u64,
    pub terminal: Seq<char>,
    pub payload: PayloadView,
}

impl View for Payload {
    type V = PayloadView;

    open spec fn view(&self) -> PayloadView {
        match self {
            Payload::Start => PayloadView::Start,
            Payload::Command { text, workdir } => PayloadView::Command {
                text: text@,
                workdir: workdir@,
            },
            Payload::ExitCode(code) => PayloadView::ExitCode(*code),
        }
    }
}

impl DeepView for Payload {
    type V = PayloadView;

    open spec fn deep_view(&self) -> PayloadView {
        self@
    }
}

impl View for Event {
    type V = EventView;

    open spec fn view(&self) -> EventView {
        EventView {
            timestamp: self.timestamp,
            idx: self.idx,
            terminal: self.terminal@,
            payload: self.payload@,
        }
    }
}

impl DeepView for Event {
    type V = EventView;

    open spec fn deep_view(&self) -> EventView {
        self@
    }
}

impl Clone for Payload {
    fn clone(&self) -> (r: Self)
        ensures
            r@ == self@,
    {
        match self {
            Payload::Start => Payload::Start,
            Payload::Command { text, workdir } => Payload::Command {
                text: text.clone(),
                workdir: workdir.clone(),
            },
            Payload::ExitCode(code) => Payload::ExitCode(*code),
        }
    }
}

impl Clone for Event {
    fn clone(&self) -> (r: Self)
        ensures
            r@ == self@,
    {
        Event {
            timestamp: self.timestamp,
            idx: self.idx,
            terminal: self.terminal.clone(),
            payload: self.payload.clone(),
        }
    }
}

/// The payload that the parts of a request describe: a command with its
/// directory, an exit code alone, or a start alone. `None` for any other
/// combination.
pub open spec fn request_payload(
    command: Option<Seq<char>>,
    workdir: Option<Seq<char>>,
    exit_code: Option<u32>,
    start: bool,
) -> Option<PayloadView> {
    match (command, workdir, exit_code, start) {
        (Some(text), Some(dir), None, false) => Some(PayloadView::Command { text, workdir: dir }),
        (None, None, Some(code), false) => Some(PayloadView::ExitCode(code)),
        (None, None, None, true) => Some(PayloadView::Start),
        _ => None,
    }
}

impl Event {
    /// Builds the event that a request describes, or fails with
    /// `InvalidParams` where its parts fit none of the three payloads.
    pub fn from_request(
        timestamp: u64,
        idx: u64,
        terminal: String,
        command: Option<String>,
        workdir: Option<String>,
        exit_code: Option<u32>,
        start: bool,
    ) -> (r: Result<Event, Error>)
        ensures
            match request_payload(command.deep_view(), workdir.deep_view(), exit_code, start) {
                Some(p) => r == Ok::<Event, Error>(r->Ok_0) && r->Ok_0@ == (EventView {
                    timestamp,
                    idx,
                    terminal: terminal@,
                    payload: p,
                }),
                None => r == Err::<Event, Error>(Error::InvalidParams),
            },
    {
        let payload = match (command, workdir, exit_code, start) {
            (Some(text), Some(dir), None, false) => Payload::Command { text, workdir: dir },
            (None, None, Some(code), false) => Payload::ExitCode(code),
            (None, None, None, true) => Payload::Start,
            _ => {
                return Err(Error::InvalidParams);
            },
        };
        Ok(Event { timestamp, idx, terminal, payload })
    }
}

/// `e` as it is written to the log: the text of a command without the
/// whitespace around it, anything else unchanged.
pub open spec fn trimmed(e: EventView) -> EventView {
    match e.payload {
        PayloadView::Command { text, workdir } => EventView {
            payload: PayloadView::Command { text: trim_spec(text), workdir },
            ..e
        },
        _ => e,
    }
}

/// Whether `e` is a command with no text at all.
pub open spec fn is_blank(e: EventView) -> bool {
    e.payload matches PayloadView::Command { text, .. } && text.len() == 0
}

/// The records that appending `events` writes, in order: each event trimmed,
/// without those whose text is then empty.
pub open spec fn records_to_append(events: Seq<EventView>) -> Seq<EventView>
    decreases events.len(),
{
    if events.len() == 0 {
        Seq::empty()
    } else {
        let before = records_to_append(events.drop_last());
        let last = trimmed(events.last());
        if is_blank(last) {
            before
        } else {
            before.push(last)
        }
    }
}

/// Trims the text of a command; other events pass unchanged.
pub fn trim_event(e: Event) -> (r: Event)
    ensures
        r@ == trimmed(e@),
{
    match e.payload {
        Payload::Command { text, workdir } => Event {
            timestamp: e.timestamp,
            idx: e.idx,
            terminal: e.terminal,
            payload: Payload::Command { text: trim(text.as_str()), workdir },
        },
        payload => Event { timestamp: e.timestamp, idx: e.idx, terminal: e.terminal, payload },
    }
}

/// Whether `e` is a command whose text is empty.
pub fn event_is_blank(e: &Event) -> (r: bool)
    ensures
        r == is_blank(e@),
{
    match &e.payload {
        Payload::Command { text, .. } => text.as_str().is_empty(),
        _ => false,
    }
}

} // verus!
