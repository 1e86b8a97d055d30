use voicetype::config::{
    parse_hotwords, Config, RawConfig, Route, RESOURCE_V1, RESOURCE_V2, URL_PLAN, URL_SPEECH,
};

#[test]
fn routes_plan_first_then_speech_v2_v1() {
    let cfg = Config {
        ark_api_key: "ark".into(),
        speech_api_key: "sp".into(),
        ..Default::default()
    };
    let r = cfg.routes();
    assert_eq!(r.len(), 3);
    assert_eq!(
        (r[0].url, r[0].api_key.as_str(), r[0].resource_id),
        (URL_PLAN, "ark", RESOURCE_V2)
    );
    assert_eq!((r[1].url, r[1].resource_id), (URL_SPEECH, RESOURCE_V2));
    assert_eq!((r[2].url, r[2].resource_id), (URL_SPEECH, RESOURCE_V1));
    assert!(Config::default().routes().is_empty());
}

#[test]
fn one_key_leads_to_its_own_gateway() {
    let cfg = Config {
        ark_api_key: "ark".into(),
        ..Default::default()
    };
    assert_eq!(
        cfg.routes(),
        vec![Route {
            url: "wss://openspeech.bytedance.com/api/v3/plan/sauc/bigmodel_async",
            api_key: "ark".into(),
            resource_id: "volc.seedasr.sauc.duration",
        }]
    );
    let cfg = Config {
        speech_api_key: "sp".into(),
        ..Default::default()
    };
    assert_eq!(
        cfg.routes(),
        vec![
            Route {
                url: "wss://openspeech.bytedance.com/api/v3/sauc/bigmodel_async",
                api_key: "sp".into(),
                resource_id: "volc.seedasr.sauc.duration",
            },
            Route {
                url: "wss://openspeech.bytedance.com/api/v3/sauc/bigmodel_async",
                api_key: "sp".into(),
                resource_id: "volc.bigasr.sauc.duration",
            },
        ]
    );
}

#[test]
fn hotwords_stand_between_commas_and_lines() {
    assert_eq!(
        parse_hotwords("Rust, Wayland,fcitx5"),
        vec!["Rust", "Wayland", "fcitx5"]
    );
    assert_eq!(
        parse_hotwords(" 豆包，语音 识别\n\n, ,\tx\r\n"),
        vec!["豆包", "语音 识别", "x"]
    );
    assert!(parse_hotwords("").is_empty());
    assert!(parse_hotwords(" ,\n，").is_empty());
}

#[test]
fn white_space_is_what_unicode_says() {
    for c in '\0'..=char::MAX {
        let around = format!("{c}word{c}");
        let words = parse_hotwords(&around);
        if matches!(c, ',' | '，' | '\n') || c.is_whitespace() {
            assert_eq!(words, vec!["word"], "{:?}", c);
        } else {
            assert_eq!(words, vec![around], "{:?}", c);
        }
    }
    let spaces = [
        0x9, 0xa, 0xb, 0xc, 0xd, 0x20, 0x85, 0xa0, 0x1680, 0x2000, 0x2001, 0x2002, 0x2003, 0x2004,
        0x2005, 0x2006, 0x2007, 0x2008, 0x2009, 0x200a, 0x2028, 0x2029, 0x202f, 0x205f, 0x3000,
    ];
    let all: Vec<u32> = ('\0'..=char::MAX)
        .filter(|c| parse_hotwords(&c.to_string()).is_empty())
        .map(|c| c as u32)
        .filter(|u| *u != 0x2c && *u != 0xff0c)
        .collect();
    assert_eq!(all, spaces);
}

#[test]
fn raw_settings_are_cleaned() {
    let raw = RawConfig {
        ark_api_key: Some(b" ark-1 \n".to_vec()),
        speech_api_key: None,
        hotwords: Some("Rust，Wayland".as_bytes().to_vec()),
        context: Some("我是程序员".as_bytes().to_vec()),
        audio_device: Some(vec![b'a', 0xff, b'b', b' ']),
    };
    let cfg = Config::from_raw(&raw);
    assert_eq!(cfg.ark_api_key, "ark-1");
    assert_eq!(cfg.speech_api_key, "");
    assert_eq!(cfg.hotwords, vec!["Rust", "Wayland"]);
    assert_eq!(cfg.context, "我是程序员");
    assert_eq!(cfg.audio_device, "a\u{fffd}b");
}
