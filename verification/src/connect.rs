//! Opening a session: which route is tried next, and what is sent to it.
use crate::config;
use crate::config::{Config, Route, RouteView};
use crate::error::{Error, Failure};
use crate::text;
use tokio_tungstenite::tungstenite::client::IntoClientRequest;
use tokio_tungstenite::tungstenite::http::header::InvalidHeaderValue;
use tokio_tungstenite::tungstenite::http::{HeaderValue, Request, StatusCode};
use vstd::prelude::*;
use vstd::utf8;

verus! {

/// How long a gateway may take to answer the handshake, in seconds.
pub const CONNECT_TIMEOUT_SECS: u64 = 15;

/// `http::Request`, a request for a connection.
#[verifier::external_type_specification]
#[verifier::external_body]
#[verifier::reject_recursive_types(T)]
pub struct ExRequest<T>(Request<T>);

/// `http::HeaderValue`, the value of a header.
#[verifier::external_type_specification]
#[verifier::external_body]
pub struct ExHeaderValue(HeaderValue);

/// `http::header::InvalidHeaderValue`, the refusal of a text as a value.
#[verifier::external_type_specification]
#[verifier::external_body]
pub struct ExInvalidHeaderValue(InvalidHeaderValue);

/// The headers of a request: the values of each name, in lower case.
pub uninterp spec fn request_headers(r: Request<()>) -> Map<Seq<char>, Seq<Seq<u8>>>;

/// The address that a request goes to, as text.
pub uninterp spec fn request_uri(r: Request<()>) -> Seq<char>;

/// The bytes of a header's value.
pub uninterp spec fn header_bytes(v: HeaderValue) -> Seq<u8>;

/// What making a request from an address gives: the address that the request
/// goes to, or the message of the error.
pub uninterp spec fn client_request_result(url: Seq<char>) -> Result<Seq<char>, Seq<char>>;

/// Whether a header may have the value: no control character but the tab.
pub open spec fn header_text(value: Seq<u8>) -> bool {
    forall|i: int|
        0 <= i < value.len() ==> #[trigger] value[i] == 9 || value[i] >= 32 && value[i] != 127
}

/// Whether the value is made of visible ASCII characters, blanks and tabs.
pub open spec fn visible_ascii(value: Seq<u8>) -> bool {
    forall|i: int| 0 <= i < value.len() ==> #[trigger] value[i] == 9 || 32 <= value[i] < 127
}

/// `c` in lower case, where it is an ASCII letter.
pub open spec fn lower(c: char) -> char {
    if 'A' <= c <= 'Z' {
        (c as u32 + 32) as char
    } else {
        c
    }
}

/// The name under which a header stands.
pub open spec fn header_key(name: Seq<char>) -> Seq<char> {
    name.map_values(|c: char| lower(c))
}

/// Whether `name` is a name of ASCII letters, digits and hyphens.
pub open spec fn plain_name(name: Seq<char>) -> bool {
    &&& 0 < name.len() <= 64
    &&& forall|i: int|
        0 <= i < name.len() ==> {
            let c = #[trigger] name[i];
            'A' <= c <= 'Z' || 'a' <= c <= 'z' || '0' <= c <= '9' || c == '-'
        }
}

/// Whether `url` is a secure websocket's address, made of the host and the path
/// and of plain characters only.
pub open spec fn plain_address(url: Seq<char>, host: Seq<char>, path: Seq<char>) -> bool {
    &&& url == "wss://"@ + host + path
    &&& url.len() <= 1000
    &&& host.len() > 0
    &&& path.len() > 0
    &&& path[0] == '/'
    &&& forall|i: int|
        0 <= i < host.len() ==> {
            let c = #[trigger] host[i];
            'a' <= c <= 'z' || '0' <= c <= '9' || c == '.'
        }
    &&& forall|i: int|
        0 <= i < path.len() ==> {
            let c = #[trigger] path[i];
            'a' <= c <= 'z' || '0' <= c <= '9' || c == '_' || c == '/'
        }
}

/// Whether the headers are those of a plain request for a websocket.
pub open spec fn handshake_headers(h: Map<Seq<char>, Seq<Seq<u8>>>) -> bool {
    &&& h.dom() == set![
        "host"@,
        "connection"@,
        "upgrade"@,
        "sec-websocket-version"@,
        "sec-websocket-key"@,
    ]
    &&& h["host"@].len() == 1
    &&& h["sec-websocket-key"@].len() == 1
    &&& h["connection"@] == seq![utf8::encode_utf8("Upgrade"@)]
    &&& h["upgrade"@] == seq![utf8::encode_utf8("websocket"@)]
    &&& h["sec-websocket-version"@] == seq![utf8::encode_utf8("13"@)]
}

/// Whether `c` is a hexadecimal digit in lower case.
pub open spec fn hex_digit(c: char) -> bool {
    '0' <= c <= '9' || 'a' <= c <= 'f'
}

/// Whether `id` is a random UUID in its hyphenated form.
pub open spec fn uuid_v4(id: Seq<char>) -> bool {
    &&& id.len() == 36
    &&& forall|i: int|
        0 <= i < 36 ==> if i == 8 || i == 13 || i == 18 || i == 23 {
            #[trigger] id[i] == '-'
        } else {
            hex_digit(id[i])
        }
    &&& id[14] == '4'
    &&& (id[19] == '8' || id[19] == '9' || id[19] == 'a' || id[19] == 'b')
}

/// The outcome of making a request, as characters.
pub open spec fn request_outcome(r: Result<Request<()>, String>) -> Result<Seq<char>, Seq<char>> {
    match r {
        Ok(req) => Ok(request_uri(req)),
        Err(t) => Err(t@),
    }
}

/// `http::HeaderValue::from_str`: the bytes of the text, where a header may
/// have them.
pub assume_specification[ HeaderValue::from_str ](src: &str) -> (r: Result<
    HeaderValue,
    InvalidHeaderValue,
>)
    ensures
        r is Ok <==> header_text(utf8::encode_utf8(src@)),
        r matches Ok(v) ==> header_bytes(v) == utf8::encode_utf8(src@),
;

/// `http::HeaderValue::from_static`: the bytes of the text, which is visible
/// ASCII.
pub assume_specification[ HeaderValue::from_static ](src: &'static str) -> (r: HeaderValue)
    requires
        visible_ascii(utf8::encode_utf8(src@)),
    ensures
        header_bytes(r) == utf8::encode_utf8(src@),
;

/// `tungstenite`'s `into_client_request` on an address: a plain request for a
/// websocket there, or the named error, told with its causes. A plain address
/// makes a request that goes to it and names its host. The key in the request
/// is random; nothing is said of it.
#[verifier::external_body]
fn client_request(url: &str) -> (r: Result<Request<()>, String>)
    ensures
        request_outcome(r) == client_request_result(url@),
        r matches Ok(req) ==> handshake_headers(request_headers(req)),
        forall|host: Seq<char>, path: Seq<char>| #[trigger]
            plain_address(url@, host, path) ==> r is Ok && request_uri(r->Ok_0) == url@
                && request_headers(r->Ok_0)["host"@] == seq![utf8::encode_utf8(host)],
{
    url.into_client_request().map_err(|e| format!("{:#}", anyhow::Error::from(e)))
}

/// `http::HeaderMap::insert` on the headers of a request: the name then has the
/// one value.
#[verifier::external_body]
fn insert_header(req: &mut Request<()>, name: &'static str, value: HeaderValue)
    requires
        plain_name(name@),
        request_headers(*old(req)).dom().finite(),
        request_headers(*old(req)).dom().len() < 64,
    ensures
        request_headers(*final(req)) == request_headers(*old(req)).insert(
            header_key(name@),
            seq![header_bytes(value)],
        ),
        request_uri(*final(req)) == request_uri(*old(req)),
{
    req.headers_mut().insert(name, value);
}

/// `uuid::Uuid::new_v4`, in its hyphenated form.
#[verifier::external_body]
fn new_request_id() -> (id: String)
    ensures
        uuid_v4(id@),
{
    uuid::Uuid::new_v4().to_string()
}

/// Whether the status says that the route is not provisioned for the key.
pub open spec fn refusal(status: u16) -> bool {
    status == 401 || status == 403 || status == 404
}

/// A refusal's status with its reason.
pub open spec fn status_line(status: u16) -> Seq<char> {
    if status == 401 {
        "401 Unauthorized"@
    } else if status == 403 {
        "403 Forbidden"@
    } else {
        "404 Not Found"@
    }
}

/// `http::StatusCode::to_string`: the status with its canonical reason.
#[verifier::external_body]
fn status_text(status: u16) -> (r: String)
    requires
        refusal(status),
    ensures
        r@ == status_line(status),
{
    StatusCode::from_u16(status).unwrap().to_string()
}

/// The headers that tell a gateway who asks for what, over `base`.
pub open spec fn with_route(
    base: Map<Seq<char>, Seq<Seq<u8>>>,
    route: RouteView,
    id: Seq<char>,
) -> Map<Seq<char>, Seq<Seq<u8>>> {
    base.insert(header_key("X-Api-Key"@), seq![utf8::encode_utf8(route.api_key)]).insert(
        header_key("X-Api-Resource-Id"@),
        seq![utf8::encode_utf8(route.resource_id)],
    ).insert(header_key("X-Api-Connect-Id"@), seq![utf8::encode_utf8(id)]).insert(
        header_key("X-Api-Request-Id"@),
        seq![utf8::encode_utf8(id)],
    ).insert(header_key("X-Api-Sequence"@), seq![utf8::encode_utf8("-1"@)])
}

/// Whether `req` goes to the address and asks there for a websocket for the
/// route, under the id.
pub open spec fn asks_for(
    req: Request<()>,
    uri: Seq<char>,
    route: RouteView,
    id: Seq<char>,
) -> bool {
    &&& request_uri(req) == uri
    &&& exists|base: Map<Seq<char>, Seq<Seq<u8>>>| #[trigger]
        handshake_headers(base) && request_headers(req) == with_route(base, route, id)
}

/// Visible ASCII characters are encoded as visible ASCII bytes.
proof fn visible_chars_encode(s: Seq<char>)
    requires
        forall|i: int| 0 <= i < s.len() ==> ' ' <= #[trigger] s[i] <= '~',
    ensures
        visible_ascii(utf8::encode_utf8(s)),
        header_text(utf8::encode_utf8(s)),
{
    assert(utf8::is_ascii_chars(s));
    utf8::is_ascii_chars_encode_utf8(s);
    let bytes = utf8::encode_utf8(s);
    assert forall|i: int| 0 <= i < bytes.len() implies 32 <= #[trigger] bytes[i] < 127 by {
        assert(' ' <= s[i] <= '~');
        assert(bytes[i] == s[i] as u8);
    }
}

/// A random UUID can be the value of a header.
proof fn uuid_is_header_text(id: Seq<char>)
    requires
        uuid_v4(id),
    ensures
        header_text(utf8::encode_utf8(id)),
{
    assert forall|i: int| 0 <= i < id.len() implies ' ' <= #[trigger] id[i] <= '~' by {
        assert(id[i] == '-' || hex_digit(id[i]));
    }
    visible_chars_encode(id);
}

/// The names of the headers can be inserted.
proof fn route_header_names()
    ensures
        plain_name("X-Api-Key"@),
        plain_name("X-Api-Resource-Id"@),
        plain_name("X-Api-Connect-Id"@),
        plain_name("X-Api-Request-Id"@),
        plain_name("X-Api-Sequence"@),
        visible_ascii(utf8::encode_utf8("-1"@)),
{
    reveal_strlit("X-Api-Key");
    reveal_strlit("X-Api-Resource-Id");
    reveal_strlit("X-Api-Connect-Id");
    reveal_strlit("X-Api-Request-Id");
    reveal_strlit("X-Api-Sequence");
    reveal_strlit("-1");
    visible_chars_encode("-1"@);
}

/// The keys of the route's headers differ from one another and from that of the
/// host.
proof fn route_header_keys_differ()
    ensures
        header_key("X-Api-Key"@) != header_key("X-Api-Resource-Id"@),
        header_key("X-Api-Key"@) != header_key("X-Api-Connect-Id"@),
        header_key("X-Api-Key"@) != header_key("X-Api-Request-Id"@),
        header_key("X-Api-Key"@) != header_key("X-Api-Sequence"@),
        header_key("X-Api-Resource-Id"@) != header_key("X-Api-Connect-Id"@),
        header_key("X-Api-Resource-Id"@) != header_key("X-Api-Request-Id"@),
        header_key("X-Api-Resource-Id"@) != header_key("X-Api-Sequence"@),
        header_key("X-Api-Connect-Id"@) != header_key("X-Api-Request-Id"@),
        header_key("X-Api-Connect-Id"@) != header_key("X-Api-Sequence"@),
        header_key("X-Api-Request-Id"@) != header_key("X-Api-Sequence"@),
        header_key("X-Api-Key"@) != "host"@,
        header_key("X-Api-Resource-Id"@) != "host"@,
        header_key("X-Api-Connect-Id"@) != "host"@,
        header_key("X-Api-Request-Id"@) != "host"@,
        header_key("X-Api-Sequence"@) != "host"@,
{
    reveal_strlit("host");
    reveal_strlit("X-Api-Key");
    reveal_strlit("X-Api-Resource-Id");
    reveal_strlit("X-Api-Connect-Id");
    reveal_strlit("X-Api-Request-Id");
    reveal_strlit("X-Api-Sequence");
    assert("host"@.len() == 4);
    assert(header_key("X-Api-Key"@).len() == 9);
    assert(header_key("X-Api-Resource-Id"@).len() == 17);
    assert(header_key("X-Api-Connect-Id"@).len() == 16);
    assert(header_key("X-Api-Request-Id"@).len() == 16);
    assert(header_key("X-Api-Sequence"@).len() == 14);
    assert(header_key("X-Api-Connect-Id"@)[6] == 'c');
    assert(header_key("X-Api-Request-Id"@)[6] == 'r');
}

/// The request to the route's gateway, under the id.
pub fn request_with_id(route: &Route, id: &str) -> (r: Result<Request<()>, Error>)
    requires
        visible_ascii(utf8::encode_utf8(route.resource_id@)),
    ensures
        match client_request_result(route.url@) {
            Err(t) => r matches Err(e) && e@ == Failure::BadAddress(t),
            Ok(uri) => if header_text(utf8::encode_utf8(route.api_key@)) && header_text(
                utf8::encode_utf8(id@),
            ) {
                r matches Ok(req) && asks_for(req, uri, route@, id@)
            } else {
                r matches Err(e) && e@ == Failure::<Seq<char>>::BadHeader
            },
        },
        // A plain address makes a request that goes to it and names its host.
        forall|host: Seq<char>, path: Seq<char>| #[trigger]
            plain_address(route.url@, host, path) ==> client_request_result(route.url@) == Ok::<
                Seq<char>,
                Seq<char>,
            >(route.url@) && (r matches Ok(req) ==> request_headers(req)["host"@] == seq![
                utf8::encode_utf8(host),
            ]),
{
    proof {
        route_header_names();
        route_header_keys_differ();
    }
    let mut req = match client_request(route.url) {
        Ok(req) => req,
        Err(t) => return Err(Failure::BadAddress(t)),
    };
    let ghost base = request_headers(req);
    let key = match HeaderValue::from_str(route.api_key.as_str()) {
        Ok(v) => v,
        Err(_) => return Err(Failure::BadHeader),
    };
    insert_header(&mut req, "X-Api-Key", key);
    insert_header(&mut req, "X-Api-Resource-Id", HeaderValue::from_static(route.resource_id));
    let connect_id = match HeaderValue::from_str(id) {
        Ok(v) => v,
        Err(_) => return Err(Failure::BadHeader),
    };
    insert_header(&mut req, "X-Api-Connect-Id", connect_id);
    let request_id = match HeaderValue::from_str(id) {
        Ok(v) => v,
        Err(_) => return Err(Failure::BadHeader),
    };
    insert_header(&mut req, "X-Api-Request-Id", request_id);
    insert_header(&mut req, "X-Api-Sequence", HeaderValue::from_static("-1"));
    proof {
        assert(handshake_headers(base));
        assert(request_headers(req) == with_route(base, route@, id@));
    }
    Ok(req)
}

/// A request tells the gateway the key, the model, the id, twice, and the
/// sequence number -1, each in a header of its own.
pub proof fn request_tells_all(
    req: Request<()>,
    uri: Seq<char>,
    route: RouteView,
    id: Seq<char>,
)
    requires
        asks_for(req, uri, route, id),
    ensures
        request_headers(req)[header_key("X-Api-Key"@)] == seq![utf8::encode_utf8(route.api_key)],
        request_headers(req)[header_key("X-Api-Resource-Id"@)] == seq![
            utf8::encode_utf8(route.resource_id),
        ],
        request_headers(req)[header_key("X-Api-Connect-Id"@)] == seq![utf8::encode_utf8(id)],
        request_headers(req)[header_key("X-Api-Request-Id"@)] == seq![utf8::encode_utf8(id)],
        request_headers(req)[header_key("X-Api-Sequence"@)] == seq![utf8::encode_utf8("-1"@)],
{
    route_header_keys_differ();
}

/// How a handshake ended.
#[derive(Debug)]
pub enum Handshake {
    /// The gateway accepted.
    Opened,
    /// The gateway answered with the status; the text tells of it.
    Http(u16, String),
    /// It failed otherwise; the text tells why.
    Failed(String),
    /// The gateway did not answer in time.
    TimedOut,
}

/// What follows a handshake.
#[derive(Debug, PartialEq, Eq)]
pub enum Next {
    /// The session is open.
    Open,
    /// The next route is to be tried.
    Retry,
    /// No session can be opened.
    GiveUp(Error),
}

/// What follows a handshake, as characters.
pub enum NextView {
    Open,
    Retry,
    GiveUp(Failure<Seq<char>>),
}

impl View for Next {
    type V = NextView;

    open spec fn view(&self) -> NextView {
        match *self {
            Next::Open => NextView::Open,
            Next::Retry => NextView::Retry,
            Next::GiveUp(e) => NextView::GiveUp(e@),
        }
    }
}

/// Whether the handshake was refused.
pub open spec fn refused(h: Handshake) -> bool {
    h matches Handshake::Http(status, _) && refusal(status)
}

/// How a refusal is told.
pub open spec fn refusal_text(route: RouteView, status: u16) -> Seq<char> {
    route.url + " ("@ + route.resource_id + ") -> HTTP "@ + status_line(status)
}

/// What follows the handshake with the route at `at`: a refusal leads to the
/// next route, if there is one.
pub open spec fn after_handshake(routes: Seq<RouteView>, at: int, h: Handshake) -> NextView {
    match h {
        Handshake::Opened => NextView::Open,
        Handshake::Http(status, t) => if !refusal(status) {
            NextView::GiveUp(Failure::Connect(t@))
        } else if at + 1 < routes.len() {
            NextView::Retry
        } else {
            NextView::GiveUp(Failure::Refused(refusal_text(routes[at], status)))
        },
        Handshake::Failed(t) => NextView::GiveUp(Failure::Connect(t@)),
        Handshake::TimedOut => NextView::GiveUp(Failure::ConnectTimeout),
    }
}

/// The host of the gateways.
pub const HOST: &'static str = "openspeech.bytedance.com";

/// Whether the route leads to a gateway, with a model.
pub open spec fn known(route: RouteView) -> bool {
    &&& route.url == config::URL_PLAN@ || route.url == config::URL_SPEECH@
    &&& route.resource_id == config::RESOURCE_V2@ || route.resource_id == config::RESOURCE_V1@
}

/// The address of a gateway is plain, and a model can stand in a header.
proof fn known_routes_can_be_asked(route: RouteView)
    requires
        known(route),
    ensures
        exists|path: Seq<char>| #[trigger] plain_address(route.url, HOST@, path),
        visible_ascii(utf8::encode_utf8(route.resource_id)),
{
    reveal_strlit("volc.seedasr.sauc.duration");
    reveal_strlit("volc.bigasr.sauc.duration");
    visible_chars_encode(config::RESOURCE_V2@);
    visible_chars_encode(config::RESOURCE_V1@);
    reveal_strlit("wss://openspeech.bytedance.com/api/v3/plan/sauc/bigmodel_async");
    reveal_strlit("wss://openspeech.bytedance.com/api/v3/sauc/bigmodel_async");
    reveal_strlit("wss://");
    reveal_strlit("openspeech.bytedance.com");
    let path = route.url.skip(30);
    assert(route.url =~= "wss://"@ + HOST@ + path);
    assert(plain_address(route.url, HOST@, path));
}

/// The attempt to open a session: the routes, and the one that is tried.
pub struct Connector {
    routes: Vec<Route>,
    at: usize,
}

impl Connector {
    /// The routes.
    pub closed spec fn routes(&self) -> Seq<RouteView> {
        config::routes_view(self.routes@)
    }

    /// Which route is tried.
    pub closed spec fn at(&self) -> int {
        self.at as int
    }

    /// A route is tried, and each leads to a gateway with a model.
    pub closed spec fn wf(&self) -> bool {
        &&& self.at < self.routes@.len()
        &&& forall|i: int| 0 <= i < self.routes@.len() ==> known((#[trigger] self.routes@[i])@)
    }

    /// Starts with the first route that the configuration leads to.
    pub fn new(cfg: &Config) -> (r: Result<Connector, Error>)
        ensures
            ({
                let routes = config::routes_for(cfg.ark_api_key@, cfg.speech_api_key@);
                if routes.len() == 0 {
                    r matches Err(e) && e@ == Failure::<Seq<char>>::NoApiKey
                } else {
                    r matches Ok(c) && c.wf() && c.routes() == routes && c.at() == 0
                }
            }),
    {
        let routes = cfg.routes();
        if routes.len() == 0 {
            return Err(Failure::NoApiKey);
        }
        proof {
            config::routes_lead_to_gateways(cfg.ark_api_key@, cfg.speech_api_key@);
            assert forall|i: int| 0 <= i < routes@.len() implies known((#[trigger] routes@[i])@) by {
                assert(config::routes_view(routes@)[i] == routes@[i]@);
            }
        }
        Ok(Connector { routes, at: 0 })
    }

    /// The route that is tried.
    pub fn route(&self) -> (r: &Route)
        requires
            self.wf(),
        ensures
            r@ == self.routes()[self.at()],
    {
        &self.routes[self.at]
    }

    /// The request for the route that is tried, under a new id.
    pub fn request(&self) -> (r: Result<Request<()>, Error>)
        requires
            self.wf(),
        ensures
            ({
                let route = self.routes()[self.at()];
                if header_text(utf8::encode_utf8(route.api_key)) {
                    &&& r matches Ok(req)
                    &&& exists|id: Seq<char>| #[trigger]
                        uuid_v4(id) && asks_for(req, route.url, route, id)
                    &&& request_headers(req)["host"@] == seq![utf8::encode_utf8(HOST@)]
                } else {
                    r matches Err(e) && e@ == Failure::<Seq<char>>::BadHeader
                }
            }),
    {
        let id = new_request_id();
        proof {
            uuid_is_header_text(id@);
            known_routes_can_be_asked(self.routes@[self.at as int]@);
        }
        request_with_id(&self.routes[self.at], id.as_str())
    }

    /// Takes note of how the handshake with the route that is tried ended.
    pub fn on_handshake(&mut self, h: Handshake) -> (r: Next)
        requires
            old(self).wf(),
        ensures
            final(self).wf(),
            final(self).routes() == old(self).routes(),
            r@ == after_handshake(old(self).routes(), old(self).at(), h),
            final(self).at() == if r@ is Retry {
                old(self).at() + 1
            } else {
                old(self).at()
            },
    {
        match h {
            Handshake::Opened => Next::Open,
            Handshake::Http(status, t) => {
                if status != 401 && status != 403 && status != 404 {
                    Next::GiveUp(Failure::Connect(t))
                } else if self.at < self.routes.len() - 1 {
                    self.at += 1;
                    Next::Retry
                } else {
                    let route = &self.routes[self.at];
                    let mut told = route.url.to_owned();
                    told.append(" (");
                    told.append(route.resource_id);
                    told.append(") -> HTTP ");
                    told.append(status_text(status).as_str());
                    Next::GiveUp(Failure::Refused(told))
                }
            },
            Handshake::Failed(t) => Next::GiveUp(Failure::Connect(t)),
            Handshake::TimedOut => Next::GiveUp(Failure::ConnectTimeout),
        }
    }
}

/// How the attempt ends, or stands, after the handshakes, from the route at
/// `at` on, and with which route.
pub open spec fn after_handshakes(routes: Seq<RouteView>, at: int, hs: Seq<Handshake>) -> (
    NextView,
    int,
)
    decreases hs.len(),
{
    if hs.len() == 0 {
        (NextView::Retry, at)
    } else {
        match after_handshake(routes, at, hs[0]) {
            NextView::Retry => after_handshakes(routes, at + 1, hs.drop_first()),
            next => (next, at),
        }
    }
}

/// While routes are left, refusals lead from each to the next.
proof fn refusals_lead_on(routes: Seq<RouteView>, at: int, hs: Seq<Handshake>)
    requires
        0 <= at,
        hs.len() > 0,
        at + hs.len() <= routes.len(),
        forall|i: int| 0 <= i < hs.len() - 1 ==> refused(#[trigger] hs[i]),
    ensures
        after_handshakes(routes, at, hs) == match after_handshake(
            routes,
            at + hs.len() - 1,
            hs.last(),
        ) {
            NextView::Retry => (NextView::Retry, at + hs.len()),
            next => (next, at + hs.len() - 1),
        },
    decreases hs.len(),
{
    if hs.len() > 1 {
        assert(refused(hs[0]));
        let rest = hs.drop_first();
        assert forall|i: int| 0 <= i < rest.len() - 1 implies refused(#[trigger] rest[i]) by {
            assert(rest[i] == hs[i + 1]);
        }
        assert(rest.last() == hs.last());
        refusals_lead_on(routes, at + 1, rest);
    } else {
        reveal_with_fuel(after_handshakes, 2);
        assert(hs.drop_first().len() == 0);
    }
}

/// The first route that a gateway accepts is opened: the routes before it were
/// refused, and none behind it is tried.
pub proof fn first_accepted_route_opens(routes: Seq<RouteView>, hs: Seq<Handshake>)
    requires
        0 < hs.len() <= routes.len(),
        forall|i: int| 0 <= i < hs.len() - 1 ==> refused(#[trigger] hs[i]),
        hs.last() is Opened,
    ensures
        after_handshakes(routes, 0, hs) == (NextView::Open, hs.len() - 1),
{
    refusals_lead_on(routes, 0, hs);
}

/// Where every route is refused, the attempt ends with the last refusal.
pub proof fn refused_everywhere_gives_up(routes: Seq<RouteView>, hs: Seq<Handshake>)
    requires
        0 < hs.len() == routes.len(),
        forall|i: int| 0 <= i < hs.len() ==> refused(#[trigger] hs[i]),
    ensures
        after_handshakes(routes, 0, hs) == (
            NextView::GiveUp(
                Failure::Refused(refusal_text(routes.last(), hs.last()->Http_0)),
            ),
            routes.len() - 1,
        ),
{
    assert(refused(hs[hs.len() - 1]));
    refusals_lead_on(routes, 0, hs);
}

/// A handshake that fails without a refusal ends the attempt, though routes may
/// be left.
pub proof fn other_failure_gives_up(routes: Seq<RouteView>, hs: Seq<Handshake>)
    requires
        0 < hs.len() <= routes.len(),
        forall|i: int| 0 <= i < hs.len() - 1 ==> refused(#[trigger] hs[i]),
        !(hs.last() is Opened),
        !refused(hs.last()),
    ensures
        after_handshakes(routes, 0, hs).0 is GiveUp,
        after_handshakes(routes, 0, hs).1 == hs.len() - 1,
{
    refusals_lead_on(routes, 0, hs);
}

/// A gateway has a quarter of a minute to answer.
pub proof fn handshakes_take_a_quarter_of_a_minute()
    ensures
        CONNECT_TIMEOUT_SECS * 4 == 60,
{
}

/// A refusal, by one of three statuses, leads to the next route, whichever routes
/// there are, and the last one ends the attempt. Every other answer ends it at
/// once: an accepted handshake opens the session, and any failure is told as it
/// is.
pub proof fn only_refusals_lead_on(
    routes: Seq<RouteView>,
    at: int,
    status: u16,
    t: String,
)
    requires
        0 <= at < routes.len(),
    ensures
        after_handshake(routes, at, Handshake::Opened) is Open,
        after_handshake(routes, at, Handshake::TimedOut) == NextView::GiveUp(
            Failure::<Seq<char>>::ConnectTimeout,
        ),
        after_handshake(routes, at, Handshake::Failed(t)) == NextView::GiveUp(
            Failure::Connect(t@),
        ),
        ({
            let next = after_handshake(routes, at, Handshake::Http(status, t));
            let refused = status == 401 || status == 403 || status == 404;
            &&& !refused ==> next == NextView::GiveUp(Failure::Connect(t@))
            &&& refused && at < routes.len() - 1 ==> next is Retry
            &&& refused && at == routes.len() - 1 ==> next is GiveUp && next->GiveUp_0 is Refused
        }),
{
}

/// The last refusal is told with the address, the model and the status of the
/// route, in this order.
pub proof fn refusals_tell_route_and_status(route: RouteView, status: u16)
    requires
        status == 401 || status == 403 || status == 404,
    ensures
        ({
            let told = refusal_text(route, status);
            let a = route.url.len() as int;
            let b = a + 2 + route.resource_id.len();
            &&& told.take(a) == route.url
            &&& told.subrange(a, a + 2) == " ("@
            &&& told.subrange(a + 2, b) == route.resource_id
            &&& told.subrange(b, b + 10) == ") -> HTTP "@
            &&& told.subrange(b + 10, b + 13) == text::decimal(status as nat)
        }),
{
    reveal_strlit(" (");
    reveal_strlit(") -> HTTP ");
    reveal_strlit("401 Unauthorized");
    reveal_strlit("403 Forbidden");
    reveal_strlit("404 Not Found");
    reveal_with_fuel(text::decimal, 4);
    let told = refusal_text(route, status);
    let a = route.url.len() as int;
    let b = a + 2 + route.resource_id.len();
    assert(told.take(a) =~= route.url);
    assert(told.subrange(a, a + 2) =~= " ("@);
    assert(told.subrange(a + 2, b) =~= route.resource_id);
    assert(told.subrange(b, b + 10) =~= ") -> HTTP "@);
    assert(told.subrange(b + 10, b + 13) =~= text::decimal(status as nat));
}

/// The names of the route's headers in lower case.
proof fn route_header_keys()
    ensures
        header_key("X-Api-Key"@) == "x-api-key"@,
        header_key("X-Api-Resource-Id"@) == "x-api-resource-id"@,
        header_key("X-Api-Connect-Id"@) == "x-api-connect-id"@,
        header_key("X-Api-Request-Id"@) == "x-api-request-id"@,
        header_key("X-Api-Sequence"@) == "x-api-sequence"@,
{
    reveal_strlit("X-Api-Key");
    reveal_strlit("X-Api-Resource-Id");
    reveal_strlit("X-Api-Connect-Id");
    reveal_strlit("X-Api-Request-Id");
    reveal_strlit("X-Api-Sequence");
    reveal_strlit("x-api-key");
    reveal_strlit("x-api-resource-id");
    reveal_strlit("x-api-connect-id");
    reveal_strlit("x-api-request-id");
    reveal_strlit("x-api-sequence");
    assert(header_key("X-Api-Key"@) =~= "x-api-key"@);
    assert(header_key("X-Api-Resource-Id"@) =~= "x-api-resource-id"@);
    assert(header_key("X-Api-Connect-Id"@) =~= "x-api-connect-id"@);
    assert(header_key("X-Api-Request-Id"@) =~= "x-api-request-id"@);
    assert(header_key("X-Api-Sequence"@) =~= "x-api-sequence"@);
}

/// A request goes to its address, and has the headers of a plain request for a
/// websocket and five more, one value each: the key, the model, the id, twice,
/// and the number -1. It has no others.
pub proof fn requests_hold_ten_headers(
    req: Request<()>,
    uri: Seq<char>,
    route: RouteView,
    id: Seq<char>,
)
    requires
        asks_for(req, uri, route, id),
    ensures
        request_uri(req) == uri,
        ({
            let h = request_headers(req);
            &&& h["x-api-key"@] == seq![utf8::encode_utf8(route.api_key)]
            &&& h["x-api-resource-id"@] == seq![utf8::encode_utf8(route.resource_id)]
            &&& h["x-api-connect-id"@] == seq![utf8::encode_utf8(id)]
            &&& h["x-api-request-id"@] == seq![utf8::encode_utf8(id)]
            &&& h["x-api-sequence"@] == seq![utf8::encode_utf8("-1"@)]
            &&& h["connection"@] == seq![utf8::encode_utf8("Upgrade"@)]
            &&& h["upgrade"@] == seq![utf8::encode_utf8("websocket"@)]
            &&& h["sec-websocket-version"@] == seq![utf8::encode_utf8("13"@)]
            &&& h.dom() == set![
                "host"@,
                "connection"@,
                "upgrade"@,
                "sec-websocket-version"@,
                "sec-websocket-key"@,
                "x-api-key"@,
                "x-api-resource-id"@,
                "x-api-connect-id"@,
                "x-api-request-id"@,
                "x-api-sequence"@,
            ]
        }),
{
    request_tells_all(req, uri, route, id);
    route_header_keys();
    reveal_strlit("connection");
    reveal_strlit("upgrade");
    reveal_strlit("sec-websocket-version");
    reveal_strlit("x-api-key");
    reveal_strlit("x-api-resource-id");
    reveal_strlit("x-api-connect-id");
    reveal_strlit("x-api-request-id");
    reveal_strlit("x-api-sequence");
    assert("connection"@.len() == 10 && "upgrade"@.len() == 7);
    assert("sec-websocket-version"@.len() == 21);
    assert("x-api-key"@.len() == 9 && "x-api-resource-id"@.len() == 17);
    assert("x-api-connect-id"@.len() == 16 && "x-api-request-id"@.len() == 16);
    assert("x-api-sequence"@.len() == 14);
    let base = choose|base: Map<Seq<char>, Seq<Seq<u8>>>| #[trigger]
        handshake_headers(base) && request_headers(req) == with_route(base, route, id);
    assert(request_headers(req).dom() =~= set![
        "host"@,
        "connection"@,
        "upgrade"@,
        "sec-websocket-version"@,
        "sec-websocket-key"@,
        "x-api-key"@,
        "x-api-resource-id"@,
        "x-api-connect-id"@,
        "x-api-request-id"@,
        "x-api-sequence"@,
    ]);
}

/// What follows a handshake is seen whole.
pub proof fn next_steps_are_seen_whole(e: Error)
    ensures
        Next::Open@ is Open,
        Next::Retry@ is Retry,
        Next::GiveUp(e)@ == NextView::GiveUp(e@),
{
}

} // verus!
