use voicetype::config::Config;
use voicetype::frame::full_request;
use voicetype::gz::gunzip;
use voicetype::json::{parse, render, Json};
use voicetype::payload::{hints_object, payload_with, request_payload};

fn at<'a>(j: &'a Json, path: &[&str]) -> &'a Json {
    let mut j = j;
    for key in path {
        j = j.get(key).unwrap();
    }
    j
}

#[test]
fn payload_two_pass_hotwords_and_context() {
    let p = request_payload(&Config::default());
    assert_eq!(*at(&p, &["request", "enable_nonstream"]), Json::Bool(true));
    assert!(at(&p, &["request"]).get("corpus").is_none());

    let cfg = Config {
        hotwords: vec!["Rust".into(), "Wayland".into()],
        context: "我是程序员，中英混说".into(),
        ..Default::default()
    };
    let p = request_payload(&cfg);
    let ctx = parse(
        at(&p, &["request", "corpus", "context"])
            .as_str()
            .unwrap()
            .as_bytes(),
    )
    .unwrap();
    assert_eq!(
        ctx.get("hotwords").unwrap().as_array().unwrap()[1]
            .get("word")
            .unwrap()
            .as_str(),
        Some("Wayland")
    );
    assert_eq!(
        ctx.get("context_data").unwrap().as_array().unwrap()[0]
            .get("text")
            .unwrap()
            .as_str(),
        Some("我是程序员，中英混说")
    );
}

#[test]
fn payload_without_hints_in_full() {
    assert_eq!(
        render(&request_payload(&Config::default())),
        concat_lines(&[
            r#"{"audio":{"bits":16,"channel":1,"codec":"raw","format":"pcm","rate":16000},"#,
            r#""request":{"enable_ddc":false,"enable_itn":true,"enable_nonstream":true,"#,
            r#""enable_punc":true,"model_name":"bigmodel","result_type":"full"},"#,
            r#""user":{"uid":"fcitx5-voicetype"}}"#,
        ])
    );
}

fn concat_lines(lines: &[&str]) -> String {
    lines.concat()
}

#[test]
fn hints_hold_only_what_is_set() {
    assert!(hints_object(&vec![], "").is_none());
    assert_eq!(
        render(&hints_object(&vec!["a\"b".to_string()], "").unwrap()),
        r#"{"hotwords":[{"word":"a\"b"}]}"#
    );
    assert_eq!(
        render(&hints_object(&vec![], "c").unwrap()),
        r#"{"context_data":[{"text":"c"}],"context_type":"dialog_ctx"}"#
    );
    let p = payload_with(Some("hints".to_string()));
    assert_eq!(
        at(&p, &["request", "corpus", "context"]).as_str(),
        Some("hints")
    );
}

#[test]
fn any_payload_can_be_read_out_of_the_request() {
    let v = parse(br#"{"a":0.1,"b":[1,{"c":"d"}]}"#).unwrap();
    let f = full_request(&v).unwrap();
    let body = gunzip(&f[12..]).unwrap();
    assert_eq!(body, render(&v).as_bytes());
    assert_eq!(parse(&body).unwrap().get("b"), v.get("b"));
}

#[test]
fn opening_request_reads_back() {
    let cfg = Config {
        hotwords: vec!["Rust".into()],
        context: "x".into(),
        ..Default::default()
    };
    let p = request_payload(&cfg);
    let f = full_request(&p).unwrap();
    assert_eq!(&f[..8], &[0x11, 0x11, 0x11, 0, 0, 0, 0, 1]);
    assert_eq!(
        u32::from_be_bytes(f[8..12].try_into().unwrap()) as usize,
        f.len() - 12
    );
    let body = gunzip(&f[12..]).unwrap();
    assert_eq!(body, render(&p).as_bytes());
    let back = parse(&body).unwrap();
    assert_eq!(
        at(&back, &["request", "corpus", "context"]),
        at(&p, &["request", "corpus", "context"])
    );
    assert_eq!(render(&back), render(&p));
}
