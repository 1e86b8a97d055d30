use voicetype::config::{Config, Route, RESOURCE_V1, RESOURCE_V2, URL_PLAN, URL_SPEECH};
use voicetype::connect::{request_with_id, Connector, Handshake, Next, HOST};
use voicetype::error::Failure;

fn both_keys() -> Config {
    Config {
        ark_api_key: "ark".into(),
        speech_api_key: "sp".into(),
        ..Default::default()
    }
}

#[test]
fn no_key_no_connection() {
    let e = Connector::new(&Config::default()).err().unwrap();
    assert_eq!(e, Failure::NoApiKey);
}

#[test]
fn first_accepted_route_is_opened() {
    let mut c = Connector::new(&both_keys()).unwrap();
    assert_eq!((c.route().url, c.route().resource_id), (URL_PLAN, RESOURCE_V2));
    assert_eq!(c.on_handshake(Handshake::Http(403, "no".into())), Next::Retry);
    assert_eq!((c.route().url, c.route().resource_id), (URL_SPEECH, RESOURCE_V2));
    assert_eq!(c.on_handshake(Handshake::Opened), Next::Open);
    assert_eq!((c.route().url, c.route().resource_id), (URL_SPEECH, RESOURCE_V2));
}

#[test]
fn refused_everywhere_tells_of_the_last() {
    for (status, line) in [
        (401, "401 Unauthorized"),
        (403, "403 Forbidden"),
        (404, "404 Not Found"),
    ] {
        let mut c = Connector::new(&both_keys()).unwrap();
        assert_eq!(c.on_handshake(Handshake::Http(401, "".into())), Next::Retry);
        assert_eq!(c.on_handshake(Handshake::Http(404, "".into())), Next::Retry);
        assert_eq!(c.route().resource_id, RESOURCE_V1);
        let told = format!("{URL_SPEECH} ({RESOURCE_V1}) -> HTTP {line}");
        assert_eq!(
            c.on_handshake(Handshake::Http(status, "".into())),
            Next::GiveUp(Failure::Refused(told.clone()))
        );
        assert_eq!(
            Failure::Refused(told.clone()).message(),
            format!("VolcEngine ASR refused every route, last: {told}")
        );
    }
}

#[test]
fn other_failures_end_the_attempt() {
    for (h, e) in [
        (
            Handshake::Http(500, "HTTP error: 500".into()),
            Failure::Connect("HTTP error: 500".to_string()),
        ),
        (
            Handshake::Failed("io".into()),
            Failure::Connect("io".to_string()),
        ),
        (Handshake::TimedOut, Failure::ConnectTimeout),
    ] {
        let mut c = Connector::new(&both_keys()).unwrap();
        assert_eq!(c.on_handshake(h), Next::GiveUp(e));
        assert_eq!(c.route().url, URL_PLAN);
    }
}

#[test]
fn request_carries_key_model_and_id() {
    let route = Route {
        url: URL_PLAN,
        api_key: "ark".into(),
        resource_id: RESOURCE_V2,
    };
    let req = request_with_id(&route, "id-1").unwrap();
    assert_eq!(req.uri().to_string(), URL_PLAN);
    let h = req.headers();
    assert_eq!(h.len(), 10);
    assert_eq!(h["x-api-key"], "ark");
    assert_eq!(h["x-api-resource-id"], RESOURCE_V2);
    assert_eq!(h["x-api-connect-id"], "id-1");
    assert_eq!(h["x-api-request-id"], "id-1");
    assert_eq!(h["x-api-sequence"], "-1");
    assert_eq!(h["host"], "openspeech.bytedance.com");
    assert_eq!(h["connection"], "Upgrade");
    assert_eq!(h["upgrade"], "websocket");
    assert_eq!(h["sec-websocket-version"], "13");
    assert!(h.contains_key("sec-websocket-key"));
}

#[test]
fn keys_that_no_header_may_hold_are_refused() {
    let mut route = Route {
        url: URL_SPEECH,
        api_key: "a\nb".into(),
        resource_id: RESOURCE_V1,
    };
    assert_eq!(request_with_id(&route, "id").err(), Some(Failure::BadHeader));
    route.api_key = "a\tb é".into();
    assert!(request_with_id(&route, "id").is_ok());
    assert_eq!(
        request_with_id(&route, "i\u{7f}d").err(),
        Some(Failure::BadHeader)
    );
}

#[test]
fn addresses_that_make_no_request_are_refused() {
    let route = Route {
        url: "/no/host",
        api_key: "k".into(),
        resource_id: RESOURCE_V1,
    };
    let e = request_with_id(&route, "id").err().unwrap();
    assert!(matches!(e, Failure::BadAddress(_)));
    assert!(e.message().starts_with("URL error: "));
}

#[test]
fn an_address_without_a_path_leads_to_the_root() {
    let route = Route {
        url: "ws://user@localhost:8080",
        api_key: "k".into(),
        resource_id: RESOURCE_V1,
    };
    let req = request_with_id(&route, "id").unwrap();
    assert_eq!(req.uri().to_string(), "ws://user@localhost:8080/");
    assert_eq!(req.headers()["host"], "localhost:8080");
}

#[test]
fn every_gateway_can_be_asked_under_a_random_id() {
    let mut c = Connector::new(&both_keys()).unwrap();
    let mut seen: Vec<String> = Vec::new();
    for _ in 0..3 {
        let req = c.request().unwrap();
        assert_eq!(req.uri().to_string(), c.route().url);
        assert_eq!(req.headers()["host"], HOST);
        let id = req.headers()["x-api-connect-id"].to_str().unwrap().to_string();
        assert_eq!(id, req.headers()["x-api-request-id"].to_str().unwrap());
        assert_eq!(id.len(), 36);
        let b = id.as_bytes();
        for (i, c) in b.iter().enumerate() {
            if matches!(i, 8 | 13 | 18 | 23) {
                assert_eq!(*c, b'-');
            } else {
                assert!(matches!(c, b'0'..=b'9' | b'a'..=b'f'));
            }
        }
        assert_eq!(b[14], b'4');
        assert!(matches!(b[19], b'8' | b'9' | b'a' | b'b'));
        assert!(!seen.contains(&id));
        seen.push(id);
        c.on_handshake(Handshake::Http(404, "".into()));
    }
}
