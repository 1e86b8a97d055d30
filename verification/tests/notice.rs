use voicetype::notice::{Mailbox, Notice, Outcome};
use voicetype::config::Config;
use voicetype::error::Failure;
use voicetype::frame::frame;
use voicetype::session::{Action, Event, Input, Session};

fn notice(kind: i32, text: &str) -> Option<Notice> {
    Some(Notice {
        kind,
        text: text.to_string(),
    })
}

#[test]
fn events_have_their_kinds() {
    let m = Mailbox::new();
    assert_eq!(m.post_event(&Event::Partial("a".into())), notice(0, "a"));
    assert_eq!(m.post_event(&Event::Final("b".into())), notice(1, "b"));
    assert_eq!(m.post_outcome(&Outcome::Ended), None);
    assert_eq!(m.post_outcome(&Outcome::Failed("c".into())), notice(2, "c"));
    assert_eq!(
        m.post_outcome(&Outcome::Panicked(Some("d".into()))),
        notice(2, "internal error: d")
    );
    assert_eq!(
        m.post_outcome(&Outcome::Panicked(None)),
        notice(2, "internal error: unknown panic")
    );
}

#[test]
fn texts_hold_no_nul() {
    let m = Mailbox::new();
    assert_eq!(
        m.post_event(&Event::Final("\0说\0\0x".into())),
        notice(1, " 说  x")
    );
    assert_eq!(m.post_event(&Event::Final("".into())), notice(1, ""));
}

#[test]
fn a_closed_mailbox_is_silent() {
    let mut m = Mailbox::new();
    m.close();
    assert_eq!(m.post_event(&Event::Final("x".into())), None);
    assert_eq!(m.post_outcome(&Outcome::Failed("x".into())), None);
    m.close();
    assert_eq!(m.post_event(&Event::Partial("x".into())), None);
}

#[test]
fn outcomes_of_actions() {
    let told = |a: &Action| Mailbox::new().post_outcome(&Outcome::of(a).unwrap());
    assert_eq!(told(&Action::Conclude(Event::Final("x".into()))), None);
    assert_eq!(told(&Action::Quit), None);
    assert_eq!(
        told(&Action::Fail(Failure::ClosedEarly)),
        notice(2, "ASR socket closed early")
    );
    assert!(Outcome::of(&Action::Wait).is_none());
    assert!(Outcome::of(&Action::Send(vec![])).is_none());
    assert!(Outcome::of(&Action::StopCapture).is_none());
    assert!(Outcome::of(&Action::Tell(Event::Partial("x".into()))).is_none());
}

/// What the addon is told of a session in which this happens after one partial
/// text.
fn notices(last: Input) -> Vec<(i32, String)> {
    let m = Mailbox::new();
    let (mut s, _) = Session::new(&Config::default());
    let said = frame(9, 1, 1, 1, br#"{"result":{"text":"a"}}"#).unwrap();
    let mut out = Vec::new();
    for input in [Input::Sent, Input::Frame(said), last] {
        let action = s.step(input);
        if let Action::Tell(ev) | Action::Conclude(ev) = &action {
            out.extend(m.post_event(ev));
        }
        if let Some(o) = Outcome::of(&action) {
            out.extend(m.post_outcome(&o));
        }
    }
    out.into_iter().map(|n| (n.kind, n.text)).collect()
}

#[test]
fn every_end_but_a_cancelled_one_is_reported() {
    let partial = (0, "a".to_string());
    let done = frame(9, 3, 1, 1, br#"{"result":{"text":"ab"}}"#).unwrap();
    assert_eq!(
        notices(Input::Frame(done)),
        vec![partial.clone(), (1, "ab".to_string())]
    );
    assert_eq!(
        notices(Input::TimedOut),
        vec![
            partial.clone(),
            (2, "timed out waiting for ASR response".to_string())
        ]
    );
    assert_eq!(notices(Input::Cancel), vec![partial]);
}
