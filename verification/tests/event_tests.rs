use superhist::error::Error;
use superhist::event::{event_is_blank, trim_event, Event, Payload};
use superhist::store::SuperHist;

fn cmd(text: &str) -> Event {
    Event {
        timestamp: 5,
        idx: 3,
        terminal: "/dev/pts/2".to_string(),
        payload: Payload::Command { text: text.to_string(), workdir: "/w".to_string() },
    }
}

#[test]
fn request_with_command_and_workdir_is_a_command() {
    let e = Event::from_request(
        100,
        1,
        "/dev/pts/1".to_string(),
        Some("ls".to_string()),
        Some("/home".to_string()),
        None,
        false,
    );
    assert_eq!(
        e,
        Ok(Event {
            timestamp: 100,
            idx: 1,
            terminal: "/dev/pts/1".to_string(),
            payload: Payload::Command { text: "ls".to_string(), workdir: "/home".to_string() },
        })
    );
}

#[test]
fn request_with_exit_code_is_an_exit_code() {
    let e = Event::from_request(101, 1, "t".to_string(), None, None, Some(2), false);
    assert_eq!(
        e,
        Ok(Event {
            timestamp: 101,
            idx: 1,
            terminal: "t".to_string(),
            payload: Payload::ExitCode(2)
        })
    );
}

#[test]
fn request_with_start_is_a_start() {
    let e = Event::from_request(7, 0, "t".to_string(), None, None, None, true);
    assert_eq!(
        e,
        Ok(Event { timestamp: 7, idx: 0, terminal: "t".to_string(), payload: Payload::Start })
    );
}

#[test]
fn request_with_other_parts_is_refused() {
    let s = |x: &str| Some(x.to_string());
    let t = || "t".to_string();
    assert_eq!(Event::from_request(1, 1, t(), None, None, None, false), Err(Error::InvalidParams));
    assert_eq!(Event::from_request(1, 1, t(), s("ls"), None, None, false), Err(Error::InvalidParams));
    assert_eq!(Event::from_request(1, 1, t(), None, s("/w"), None, false), Err(Error::InvalidParams));
    assert_eq!(
        Event::from_request(1, 1, t(), s("ls"), s("/w"), Some(0), false),
        Err(Error::InvalidParams)
    );
    assert_eq!(
        Event::from_request(1, 1, t(), s("ls"), s("/w"), None, true),
        Err(Error::InvalidParams)
    );
    assert_eq!(Event::from_request(1, 1, t(), None, None, Some(0), true), Err(Error::InvalidParams));
}

#[test]
fn invalid_params_has_its_message() {
    assert_eq!(Error::InvalidParams.message(), "invalid parameters");
}

#[test]
fn trim_event_trims_command_text_only() {
    assert_eq!(trim_event(cmd("  ls  ")), cmd("ls"));
    let exit = Event {
        timestamp: 1,
        idx: 1,
        terminal: " t ".to_string(),
        payload: Payload::ExitCode(1),
    };
    assert_eq!(trim_event(exit.clone()), exit);
}

#[test]
fn blank_is_a_command_without_text() {
    assert!(event_is_blank(&cmd("")));
    assert!(!event_is_blank(&cmd(" ")));
    assert!(!event_is_blank(&cmd("x")));
    let start = Event { timestamp: 1, idx: 1, terminal: "t".to_string(), payload: Payload::Start };
    assert!(!event_is_blank(&start));
}

#[test]
fn append_trims_and_drops_empty_commands() {
    let start = Event { timestamp: 1, idx: 1, terminal: "t".to_string(), payload: Payload::Start };
    let given = vec![cmd(" ls "), cmd("   "), start.clone(), cmd(""), cmd("make\n")];
    let hist = SuperHist::new("/r".to_string());
    assert_eq!(hist.add(given), vec![cmd("ls"), start, cmd("make")]);
}

#[test]
fn add_gives_the_records_of_an_append() {
    let hist = SuperHist::new("/r".to_string());
    assert_eq!(hist.add(vec![cmd("\tgit status "), cmd(" ")]), vec![cmd("git status")]);
    assert_eq!(hist.add(vec![]), vec![]);
}

#[test]
fn clone_of_an_event_is_equal() {
    let e = cmd("ls");
    assert_eq!(e.clone(), e);
}
