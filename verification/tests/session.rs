use voicetype::config::Config;
use voicetype::error::Failure;
use voicetype::frame::frame;
use voicetype::gz::gunzip;
use voicetype::session::{Action, Event, Input, Session, SEGMENT_BYTES};

fn started() -> Session {
    let (mut s, action) = Session::new(&Config::default());
    assert!(matches!(action, Action::Send(_)));
    assert_eq!(s.step(Input::Sent), Action::Wait);
    s
}

fn said(text: &str, flags: u8) -> Input {
    let body = format!("{{\"result\":{{\"text\":\"{text}\"}}}}");
    Input::Frame(frame(9, flags, 1, 1, body.as_bytes()).unwrap())
}

/// The number and the audio of a packet.
fn packet(a: Action) -> (i32, Vec<u8>) {
    match a {
        Action::Send(p) => (
            i32::from_be_bytes(p[4..8].try_into().unwrap()),
            gunzip(&p[12..]).unwrap(),
        ),
        other => panic!("{:?}", other),
    }
}

#[test]
fn segments_are_two_hundred_milliseconds() {
    assert_eq!(SEGMENT_BYTES, 6400);
}

#[test]
fn all_audio_is_sent_in_order() {
    let all: Vec<u8> = (0..20_000u32).map(|i| (i * 7 % 256) as u8).collect();
    let mut s = started();
    let mut sent: Vec<(i32, Vec<u8>)> = Vec::new();
    let mut from = 0;
    for n in [100, 6300, 1, 12_800] {
        let mut a = s.step(Input::Audio(all[from..from + n].to_vec()));
        from += n;
        while a != Action::Wait {
            sent.push(packet(a));
            a = s.step(Input::Sent);
        }
    }
    assert_eq!(sent.len(), 3);
    assert_eq!(s.step(Input::Finish), Action::StopCapture);
    let left = vec![all[from..from + 99].to_vec(), all[from + 99..].to_vec()];
    sent.push(packet(s.step(Input::Leftover(left))));
    assert_eq!(s.step(Input::Sent), Action::Wait);
    let numbers: Vec<i32> = sent.iter().map(|p| p.0).collect();
    assert_eq!(numbers, vec![2, 3, 4, -5]);
    for p in &sent[..3] {
        assert_eq!(p.1.len(), SEGMENT_BYTES);
    }
    let audio: Vec<u8> = sent.into_iter().flat_map(|p| p.1).collect();
    assert_eq!(audio, all);
}

#[test]
fn after_the_last_audio_nothing_is_sent() {
    let mut s = started();
    assert!(s.wants_audio());
    assert_eq!(s.read_timeout_secs(), 120);
    assert_eq!(packet(s.step(Input::Leftover(vec![]))), (-2, vec![]));
    assert!(!s.wants_audio());
    assert_eq!(s.read_timeout_secs(), 30);
    assert_eq!(s.step(Input::Audio(vec![0; 7000])), Action::Wait);
    assert_eq!(s.step(Input::Finish), Action::Wait);
    assert_eq!(s.step(Input::Leftover(vec![vec![1]])), Action::Wait);
    assert_eq!(s.step(Input::Sent), Action::Wait);
}

#[test]
fn closed_capture_takes_no_audio() {
    let mut s = started();
    assert_eq!(s.step(Input::AudioClosed), Action::Wait);
    assert!(!s.wants_audio());
    assert_eq!(s.step(Input::Audio(vec![0; 7000])), Action::Wait);
    assert_eq!(packet(s.step(Input::Leftover(vec![]))), (-2, vec![]));
}

#[test]
fn transcripts_are_told_and_the_last_concludes() {
    let mut s = started();
    assert_eq!(
        s.step(said("ni", 1)),
        Action::Tell(Event::Partial("ni".into()))
    );
    assert_eq!(s.step(said("", 1)), Action::Wait);
    assert_eq!(s.step(Input::Other), Action::Wait);
    assert_eq!(
        s.step(said("ni hao", 1)),
        Action::Tell(Event::Partial("ni hao".into()))
    );
    assert_eq!(
        s.step(said("", 3)),
        Action::Conclude(Event::Final("ni hao".into()))
    );
    let mut s = started();
    assert_eq!(
        s.step(said("hi", 3)),
        Action::Conclude(Event::Final("hi".into()))
    );
    let mut s = started();
    assert_eq!(
        s.hear(Ok((true, "given".into()))),
        Action::Conclude(Event::Final("given".into()))
    );
}

#[test]
fn final_text_is_told_once_and_last() {
    let mut s = started();
    let mut told = Vec::new();
    let inputs = [
        said("a", 1),
        Input::Other,
        said("", 1),
        said("ab", 1),
        Input::Leftover(vec![]),
        Input::Sent,
        said("abc", 1),
        Input::Closed,
    ];
    for input in inputs {
        match s.step(input) {
            Action::Tell(ev) => told.push(ev),
            Action::Conclude(ev) => {
                told.push(ev);
                break;
            }
            Action::Wait | Action::Send(_) => {}
            other => panic!("{:?}", other),
        }
    }
    assert_eq!(
        told,
        vec![
            Event::Partial("a".into()),
            Event::Partial("ab".into()),
            Event::Partial("abc".into()),
            Event::Final("abc".into()),
        ]
    );
}

#[test]
fn hanging_up_is_fine_only_after_the_last_audio() {
    let mut s = started();
    assert_eq!(s.step(Input::Closed), Action::Fail(Failure::ClosedEarly));
    let mut s = started();
    s.step(said("ok", 1));
    s.step(Input::Leftover(vec![]));
    assert_eq!(
        s.step(Input::Closed),
        Action::Conclude(Event::Final("ok".into()))
    );
}

#[test]
fn failures_are_told_apart() {
    let (mut s, _) = Session::new(&Config::default());
    assert_eq!(
        s.step(Input::SendFailed("x".into())),
        Action::Fail(Failure::SendRequest("x".into()))
    );
    let mut s = started();
    s.step(Input::Audio(vec![0; SEGMENT_BYTES]));
    assert_eq!(
        s.step(Input::SendFailed("x".into())),
        Action::Fail(Failure::SendAudio("x".into()))
    );
    let mut s = started();
    s.step(Input::Leftover(vec![]));
    assert_eq!(
        s.step(Input::SendFailed("x".into())),
        Action::Fail(Failure::SendFinalAudio("x".into()))
    );
    let mut s = started();
    assert_eq!(
        s.step(Input::Broken("x".into())),
        Action::Fail(Failure::Socket("x".into()))
    );
    assert_eq!(
        s.step(Input::TimedOut),
        Action::Fail(Failure::ResponseTimeout)
    );
    assert_eq!(
        s.step(Input::Frame(vec![0x11])),
        Action::Fail(Failure::FrameTooShort)
    );
    assert_eq!(
        s.step(Input::Frame(vec![0x11, 0xf0, 0, 0, 0, 0, 0, 1])),
        Action::Fail(Failure::Server(1, "".into()))
    );
}

#[test]
fn giving_up_is_silent() {
    let mut s = started();
    s.step(said("text", 1));
    assert_eq!(s.step(Input::Cancel), Action::Quit);
}

#[test]
fn numbers_are_left_in_any_real_session() {
    let mut s = started();
    assert!(s.can_step(&Input::Audio(vec![0; 2 * SEGMENT_BYTES])));
    s.step(Input::Audio(vec![0; 2 * SEGMENT_BYTES]));
    assert!(s.can_step(&Input::Sent));
    assert!(s.can_step(&Input::Finish));
}

#[test]
fn messages_of_failures() {
    let t = || "why".to_string();
    let cases = [
        (
            Failure::NoApiKey,
            "no API key configured (set ArkApiKey or SpeechApiKey)",
        ),
        (Failure::BadAddress(t()), "why"),
        (Failure::BadHeader, "failed to parse header value"),
        (
            Failure::ConnectTimeout,
            "timed out connecting to VolcEngine ASR",
        ),
        (
            Failure::Connect(t()),
            "failed to connect to VolcEngine ASR: why",
        ),
        (
            Failure::Refused(t()),
            "VolcEngine ASR refused every route, last: why",
        ),
        (Failure::Gzip(t()), "why"),
        (Failure::SendRequest(t()), "failed to send ASR request: why"),
        (Failure::SendAudio(t()), "failed to send audio packet: why"),
        (
            Failure::SendFinalAudio(t()),
            "failed to send final audio packet: why",
        ),
        (
            Failure::ResponseTimeout,
            "timed out waiting for ASR response",
        ),
        (Failure::ClosedEarly, "ASR socket closed early"),
        (Failure::Socket(t()), "ASR socket error: why"),
        (Failure::FrameTooShort, "ASR frame too short"),
        (Failure::FrameTruncated, "ASR frame truncated"),
        (Failure::PayloadTruncated, "ASR frame payload truncated"),
        (Failure::Gunzip(t()), "gunzip failed: why"),
        (Failure::BadJson(t()), "bad ASR JSON: why"),
        (
            Failure::Server(4294967295, t()),
            "VolcEngine ASR error 4294967295: why",
        ),
        (Failure::Server(0, t()), "VolcEngine ASR error 0: why"),
        (Failure::Server(10, t()), "VolcEngine ASR error 10: why"),
    ];
    for (e, m) in cases {
        assert_eq!(e.message(), m);
    }
}
