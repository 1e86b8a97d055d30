use voicetype::error::Failure;
use voicetype::frame::{
    audio_request, extract_text, frame, frame_compressed, parse_frame, read_answer,
    COMPRESSION_GZIP, FLAG_NEG_WITH_SEQUENCE, FLAG_POS_SEQUENCE, FLAG_SERVER_LAST,
    MSG_CLIENT_AUDIO_ONLY, MSG_SERVER_ERROR, MSG_SERVER_FULL_RESPONSE, SERIALIZATION_JSON,
    SERIALIZATION_NONE,
};
use voicetype::gz::{gunzip, gzip};
use voicetype::json::{parse, render, Json};

fn json(text: &str) -> Json {
    parse(text.as_bytes()).unwrap()
}

fn server_frame(payload: &Json, is_last: bool) -> Vec<u8> {
    let flags = FLAG_POS_SEQUENCE | if is_last { FLAG_SERVER_LAST } else { 0 };
    frame(
        MSG_SERVER_FULL_RESPONSE,
        flags,
        SERIALIZATION_JSON,
        7,
        render(payload).as_bytes(),
    )
    .unwrap()
}

#[test]
fn parses_partial_last_and_error_frames() {
    let f = server_frame(&json(r#"{"result": {"text": "你好 world"}}"#), false);
    assert_eq!(parse_frame(&f).unwrap(), (false, "你好 world".into()));

    let f = server_frame(
        &json(r#"{"result": {"text": "", "utterances": [{"text": "a "}, {"text": "b"}]}}"#),
        true,
    );
    assert_eq!(parse_frame(&f).unwrap(), (true, "a b".into()));

    let mut f = vec![
        0x11,
        MSG_SERVER_ERROR << 4,
        (SERIALIZATION_JSON << 4) | COMPRESSION_GZIP,
        0,
    ];
    let body = gzip(br#"{"message":"bad key"}"#).unwrap();
    f.extend_from_slice(&45000003u32.to_be_bytes());
    f.extend_from_slice(&(body.len() as u32).to_be_bytes());
    f.extend_from_slice(&body);
    let err = parse_frame(&f).unwrap_err().message();
    assert!(err.contains("45000003") && err.contains("bad key"));
    assert_eq!(err, "VolcEngine ASR error 45000003: {\"message\":\"bad key\"}");

    assert!(parse_frame(&[0x11, 0x90]).is_err());
}

#[test]
fn last_audio_packet_has_negative_sequence() {
    let f = audio_request(5, &[0, 0], true).unwrap();
    assert_eq!(f[1], (MSG_CLIENT_AUDIO_ONLY << 4) | FLAG_NEG_WITH_SEQUENCE);
    assert_eq!(i32::from_be_bytes(f[4..8].try_into().unwrap()), -5);
}

#[test]
fn audio_packet_reads_back() {
    let audio: Vec<u8> = (0..6400u32).map(|i| (i % 251) as u8).collect();
    let f = audio_request(0x01020304, &audio, false).unwrap();
    assert_eq!(&f[..8], &[0x11, 0x21, 0x01, 0, 1, 2, 3, 4]);
    assert_eq!(
        u32::from_be_bytes(f[8..12].try_into().unwrap()) as usize,
        f.len() - 12
    );
    assert_ne!(&f[12..], &audio[..]);
    assert_eq!(gunzip(&f[12..]).unwrap(), audio);
    let f = audio_request(2, &[], true).unwrap();
    assert_eq!(gunzip(&f[12..]).unwrap(), Vec::<u8>::new());
}

#[test]
fn frame_of_given_bytes() {
    assert_eq!(
        frame_compressed(0b0010, 0b0011, 0, -2, &[9, 8, 7]),
        vec![0x11, 0x23, 0x01, 0, 0xff, 0xff, 0xff, 0xfe, 0, 0, 0, 3, 9, 8, 7]
    );
}

#[test]
fn gzip_is_undone_by_gunzip() {
    for data in [&b""[..], b"x", b"hello hello hello hello"] {
        let z = gzip(data).unwrap();
        assert!(z.len() >= 18);
        assert_eq!(&z[..2], &[0x1f, 0x8b]);
        assert_eq!(gunzip(&z).unwrap(), data);
    }
    assert!(matches!(gunzip(b"no gzip"), Err(Failure::Gunzip(_))));
    let z = gzip(b"hello").unwrap();
    assert!(gunzip(&z[..z.len() - 1]).is_err());
}

#[test]
fn responses_without_compression_or_sequence() {
    let body = r#"{"result":{"text":" hi "}}"#.as_bytes();
    let mut f = vec![0x11, 0x90, 0x10, 0];
    f.extend_from_slice(&(body.len() as u32).to_be_bytes());
    f.extend_from_slice(body);
    assert_eq!(parse_frame(&f).unwrap(), (false, "hi".into()));
    f[1] = 0x92;
    assert_eq!(parse_frame(&f).unwrap(), (true, "hi".into()));
    // Without the serialization, the payload is not looked at.
    f[2] = 0x00;
    assert_eq!(parse_frame(&f).unwrap(), (true, "".into()));
    // A header of two words.
    let mut g = vec![0x12, 0x90, 0x10, 0, 1, 2, 3, 4];
    g.extend_from_slice(&f[4..]);
    assert_eq!(parse_frame(&g).unwrap(), (false, "hi".into()));
    // An empty payload.
    assert_eq!(
        parse_frame(&[0x11, 0x90, 0x11, 0, 0, 0, 0, 0]).unwrap(),
        (false, "".into())
    );
}

#[test]
fn frames_of_other_kinds_say_nothing() {
    assert_eq!(
        parse_frame(&[0x11, 0xb2, 0x11, 0]).unwrap(),
        (false, "".into())
    );
}

#[test]
fn broken_frames_are_errors() {
    assert_eq!(parse_frame(&[]), Err(Failure::FrameTooShort));
    assert_eq!(parse_frame(&[0x11, 0x90, 0x11]), Err(Failure::FrameTooShort));
    assert_eq!(
        parse_frame(&[0x12, 0x90, 0x11, 0, 0, 0, 0]),
        Err(Failure::FrameTooShort)
    );
    assert_eq!(
        parse_frame(&[0x11, 0x91, 0x11, 0, 0, 0, 0]),
        Err(Failure::FrameTruncated)
    );
    assert_eq!(
        parse_frame(&[0x11, 0x91, 0x11, 0, 0, 0, 0, 7, 0, 0]),
        Err(Failure::FrameTruncated)
    );
    assert_eq!(
        parse_frame(&[0x11, 0x90, 0x11, 0, 0, 0, 0, 2, 1]),
        Err(Failure::PayloadTruncated)
    );
    assert_eq!(
        parse_frame(&[0x11, 0x90, 0x11, 0, 0xff, 0xff, 0xff, 0xff, 1]),
        Err(Failure::PayloadTruncated)
    );
    let e = parse_frame(&[0x11, 0x90, 0x11, 0, 0, 0, 0, 1, 1]).unwrap_err();
    assert!(matches!(e, Failure::Gunzip(_)));
    assert!(e.message().starts_with("gunzip failed: "));
    assert!(matches!(
        parse_frame(&[0x11, 0x90, 0x10, 0, 0, 0, 0, 1, b'{']),
        Err(Failure::BadJson(_))
    ));
}

#[test]
fn error_frames_report_what_they_can() {
    assert_eq!(
        parse_frame(&[0x11, 0xf0, 0x10, 0, 0, 0, 0]),
        Err(Failure::FrameTruncated)
    );
    assert_eq!(
        parse_frame(&[0x11, 0xf0, 0x10, 0, 0, 0, 0, 5]),
        Err(Failure::Server(5, "".into()))
    );
    assert_eq!(
        parse_frame(&[0x11, 0xf0, 0x10, 0, 0, 0, 0, 5, 0, 0, 0, 9, b'x']),
        Err(Failure::Server(5, "".into()))
    );
    assert_eq!(
        parse_frame(&[0x11, 0xf0, 0x11, 0, 0, 0, 0, 5, 0, 0, 0, 1, b'x']),
        Err(Failure::Server(5, "".into()))
    );
    assert_eq!(
        parse_frame(&[0x11, 0xf0, 0x10, 0, 0, 0, 0, 5, 0, 0, 0, 2, b'x', 0xff]),
        Err(Failure::Server(5, "x\u{fffd}".into()))
    );
    assert_eq!(
        parse_frame(&[0x11, 0xf0, 0x10, 0, 0, 0, 0, 5, 0, 0, 0, 3, 0xe8, 0xaf, 0xb4]),
        Err(Failure::Server(5, "说".into()))
    );
}

#[test]
fn transcript_is_the_text_or_the_utterances() {
    let cases = [
        (r#"{"result":{"text":" a b\n"}}"#, "a b"),
        (r#"{"result":{"text":"a","utterances":[{"text":"b"}]}}"#, "a"),
        (
            r#"{"result":{"text":"  ","utterances":[{"text":" b "},{"x":1},{"text":2},7,{"text":"c "}]}}"#,
            "b c",
        ),
        (r#"{"result":{"utterances":{"text":"b"}}}"#, ""),
        (r#"{"result":{"text":5}}"#, ""),
        (r#"{"result":[{"text":"a"}]}"#, ""),
        (r#"{"text":"a"}"#, ""),
        (r#"[]"#, ""),
    ];
    for (payload, text) in cases {
        assert_eq!(extract_text(&json(payload)), text, "{}", payload);
        let flags = FLAG_SERVER_LAST;
        assert_eq!(
            read_answer(flags, SERIALIZATION_JSON, payload.as_bytes()),
            Ok((true, text.to_string()))
        );
        assert_eq!(
            read_answer(0, SERIALIZATION_NONE, payload.as_bytes()),
            Ok((false, String::new()))
        );
    }
}

#[test]
fn framed_responses_read_back() {
    for flags in [1u8, 3, 5, 15] {
        for seq in [0, 1, -1, i32::MAX, i32::MIN] {
            let body = r#"{"result":{"text":"说"}}"#.as_bytes();
            let f = frame(MSG_SERVER_FULL_RESPONSE, flags, SERIALIZATION_JSON, seq, body).unwrap();
            assert_eq!(parse_frame(&f), Ok((flags & 2 != 0, "说".to_string())));
            assert_eq!(
                parse_frame(&f),
                read_answer(flags, SERIALIZATION_JSON, body)
            );
        }
    }
}

#[test]
fn framed_values_read_back() {
    let numbers = [
        f64::MAX,
        f64::MIN,
        1.7976931348623155e308,
        f64::MIN_POSITIVE,
        5e-324,
        -0.0,
        0.1,
        1e16,
        1.5e300,
    ];
    for n in numbers {
        let real = Json::Real(serde_json::Number::from_f64(n).unwrap());
        let result = Json::Object(vec![
            ("confidence".into(), real),
            ("text".into(), Json::Str(" 说 ".into())),
        ]);
        let v = Json::Object(vec![("result".into(), result)]);
        for seq in [7, -7, i32::MIN] {
            let body = render(&v);
            let f = frame(9, 0b0011, 1, seq, body.as_bytes()).unwrap();
            assert_eq!(parse_frame(&f), Ok((true, extract_text(&v))), "{}", n);
        }
        assert_eq!(extract_text(&v), "说");
        let back = parse(render(&v).as_bytes()).unwrap();
        assert!(matches!(
            back.get("result").unwrap().get("confidence"),
            Some(Json::Real(_))
        ));
    }
    let mut deep = Json::Null;
    for _ in 0..126 {
        deep = Json::Array(vec![deep]);
    }
    let v = Json::Object(vec![("deep".into(), deep)]);
    assert_eq!(parse_frame(&server_frame(&v, false)), Ok((false, "".into())));
    for v in [Json::Null, Json::Str("".into()), Json::Array(vec![])] {
        assert_eq!(parse_frame(&server_frame(&v, true)), Ok((true, "".into())));
    }
}

#[test]
fn compressing_never_fails() {
    let mut noise: u32 = 1;
    let data: Vec<u8> = (0..300_000)
        .map(|_| {
            noise = noise.wrapping_mul(1664525).wrapping_add(1013904223);
            (noise >> 24) as u8
        })
        .collect();
    for n in [0, 1, 2, 100, 65_535, 65_536, 100_000, 300_000] {
        let z = gzip(&data[..n]).unwrap();
        assert_eq!(&z[..3], &[0x1f, 0x8b, 8]);
        assert_eq!(gunzip(&z).unwrap(), &data[..n]);
    }
    let same = vec![7u8; 300_000];
    assert_eq!(gunzip(&gzip(&same).unwrap()).unwrap(), same);
}

#[test]
fn audio_packets_differ_where_their_parts_do() {
    let p = audio_request(3, &[1, 2], false).unwrap();
    assert_ne!(p, audio_request(4, &[1, 2], false).unwrap());
    assert_ne!(p, audio_request(3, &[1, 3], false).unwrap());
    assert_ne!(p, audio_request(3, &[1, 2], true).unwrap());
    assert_ne!(p, audio_request(-3, &[1, 2], true).unwrap());
    assert_eq!(p, audio_request(3, &[1, 2], false).unwrap());
}
