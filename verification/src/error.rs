//! What can end a session, and how it is told to the user.
use crate::text;
use vstd::prelude::*;

verus! {

/// Why a session failed. `T` is `String` in a running program, and the
/// characters alone in a contract.
#[derive(Debug, PartialEq, Eq)]
pub enum Failure<T> {
    /// Neither gateway has an API key.
    NoApiKey,
    /// A gateway's address could not be made into a request.
    BadAddress(T),
    /// An API key holds what no header may hold.
    BadHeader,
    /// The gateway did not answer the handshake in time.
    ConnectTimeout,
    /// The handshake failed for a reason other than a refusal.
    Connect(T),
    /// Every route was refused; the text tells of the last one.
    Refused(T),
    /// A message could not be compressed.
    Gzip(T),
    /// The opening request could not be sent.
    SendRequest(T),
    /// A packet of audio could not be sent.
    SendAudio(T),
    /// The last packet of audio could not be sent.
    SendFinalAudio(T),
    /// The server was silent for too long.
    ResponseTimeout,
    /// The server hung up before the end of the audio was sent.
    ClosedEarly,
    /// The connection broke.
    Socket(T),
    /// A frame is shorter than its header.
    FrameTooShort,
    /// A frame ends inside one of its words.
    FrameTruncated,
    /// A frame ends inside its payload.
    PayloadTruncated,
    /// A payload could not be decompressed.
    Gunzip(T),
    /// A payload is not JSON.
    BadJson(T),
    /// The server reported an error.
    Server(u32, T),
}

/// Why a session failed.
pub type Error = Failure<String>;

impl View for Failure<String> {
    type V = Failure<Seq<char>>;

    open spec fn view(&self) -> Failure<Seq<char>> {
        match *self {
            Failure::NoApiKey => Failure::NoApiKey,
            Failure::BadAddress(t) => Failure::BadAddress(t@),
            Failure::BadHeader => Failure::BadHeader,
            Failure::ConnectTimeout => Failure::ConnectTimeout,
            Failure::Connect(t) => Failure::Connect(t@),
            Failure::Refused(t) => Failure::Refused(t@),
            Failure::Gzip(t) => Failure::Gzip(t@),
            Failure::SendRequest(t) => Failure::SendRequest(t@),
            Failure::SendAudio(t) => Failure::SendAudio(t@),
            Failure::SendFinalAudio(t) => Failure::SendFinalAudio(t@),
            Failure::ResponseTimeout => Failure::ResponseTimeout,
            Failure::ClosedEarly => Failure::ClosedEarly,
            Failure::Socket(t) => Failure::Socket(t@),
            Failure::FrameTooShort => Failure::FrameTooShort,
            Failure::FrameTruncated => Failure::FrameTruncated,
            Failure::PayloadTruncated => Failure::PayloadTruncated,
            Failure::Gunzip(t) => Failure::Gunzip(t@),
            Failure::BadJson(t) => Failure::BadJson(t@),
            Failure::Server(code, t) => Failure::Server(code, t@),
        }
    }
}

/// The message that tells the user of a failure.
pub open spec fn failure_text(e: Failure<Seq<char>>) -> Seq<char> {
    match e {
        Failure::NoApiKey => "no API key configured (set ArkApiKey or SpeechApiKey)"@,
        Failure::BadAddress(t) => t,
        Failure::BadHeader => "failed to parse header value"@,
        Failure::ConnectTimeout => "timed out connecting to VolcEngine ASR"@,
        Failure::Connect(t) => "failed to connect to VolcEngine ASR: "@ + t,
        Failure::Refused(t) => "VolcEngine ASR refused every route, last: "@ + t,
        Failure::Gzip(t) => t,
        Failure::SendRequest(t) => "failed to send ASR request: "@ + t,
        Failure::SendAudio(t) => "failed to send audio packet: "@ + t,
        Failure::SendFinalAudio(t) => "failed to send final audio packet: "@ + t,
        Failure::ResponseTimeout => "timed out waiting for ASR response"@,
        Failure::ClosedEarly => "ASR socket closed early"@,
        Failure::Socket(t) => "ASR socket error: "@ + t,
        Failure::FrameTooShort => "ASR frame too short"@,
        Failure::FrameTruncated => "ASR frame truncated"@,
        Failure::PayloadTruncated => "ASR frame payload truncated"@,
        Failure::Gunzip(t) => "gunzip failed: "@ + t,
        Failure::BadJson(t) => "bad ASR JSON: "@ + t,
        Failure::Server(code, t) => "VolcEngine ASR error "@ + text::decimal(code as nat) + ": "@
            + t,
    }
}

/// `head` followed by `tail`.
fn joined(head: &str, tail: &str) -> (r: String)
    ensures
        r@ == head@ + tail@,
{
    let mut out = head.to_owned();
    out.append(tail);
    out
}

impl Failure<String> {
    /// The message that tells the user of this failure.
    pub fn message(&self) -> (r: String)
        ensures
            r@ == failure_text(self@),
    {
        match self {
            Failure::NoApiKey =>
                "no API key configured (set ArkApiKey or SpeechApiKey)".to_owned(),
            Failure::BadAddress(t) => t.clone(),
            Failure::BadHeader => "failed to parse header value".to_owned(),
            Failure::ConnectTimeout => "timed out connecting to VolcEngine ASR".to_owned(),
            Failure::Connect(t) => joined("failed to connect to VolcEngine ASR: ", t.as_str()),
            Failure::Refused(t) =>
                joined("VolcEngine ASR refused every route, last: ", t.as_str()),
            Failure::Gzip(t) => t.clone(),
            Failure::SendRequest(t) => joined("failed to send ASR request: ", t.as_str()),
            Failure::SendAudio(t) => joined("failed to send audio packet: ", t.as_str()),
            Failure::SendFinalAudio(t) =>
                joined("failed to send final audio packet: ", t.as_str()),
            Failure::ResponseTimeout => "timed out waiting for ASR response".to_owned(),
            Failure::ClosedEarly => "ASR socket closed early".to_owned(),
            Failure::Socket(t) => joined("ASR socket error: ", t.as_str()),
            Failure::FrameTooShort => "ASR frame too short".to_owned(),
            Failure::FrameTruncated => "ASR frame truncated".to_owned(),
            Failure::PayloadTruncated => "ASR frame payload truncated".to_owned(),
            Failure::Gunzip(t) => joined("gunzip failed: ", t.as_str()),
            Failure::BadJson(t) => joined("bad ASR JSON: ", t.as_str()),
            Failure::Server(code, t) => {
                let mut out = joined("VolcEngine ASR error ", text::decimal_text(*code).as_str());
                out.append(": ");
                out.append(t.as_str());
                out
            },
        }
    }
}

/// A failure that has a cause is told by what it is, and then by the cause, all
/// of it.
pub proof fn failures_end_with_their_cause(code: u32, t: Seq<char>)
    ensures
        failure_text(Failure::BadAddress(t)) == t,
        failure_text(Failure::Gzip(t)) == t,
        failure_text(Failure::Connect(t)) == failure_text(Failure::Connect(Seq::empty())) + t,
        failure_text(Failure::Refused(t)) == failure_text(Failure::Refused(Seq::empty())) + t,
        failure_text(Failure::SendRequest(t)) == failure_text(Failure::SendRequest(Seq::empty()))
            + t,
        failure_text(Failure::SendAudio(t)) == failure_text(Failure::SendAudio(Seq::empty())) + t,
        failure_text(Failure::SendFinalAudio(t)) == failure_text(
            Failure::SendFinalAudio(Seq::empty()),
        ) + t,
        failure_text(Failure::Socket(t)) == failure_text(Failure::Socket(Seq::empty())) + t,
        failure_text(Failure::Gunzip(t)) == failure_text(Failure::Gunzip(Seq::empty())) + t,
        failure_text(Failure::BadJson(t)) == failure_text(Failure::BadJson(Seq::empty())) + t,
        failure_text(Failure::Server(code, t)) == failure_text(
            Failure::Server(code, Seq::empty()),
        ) + t,
{
    assert(forall|a: Seq<char>| #[trigger] (a + Seq::<char>::empty()) =~= a);
    assert(forall|a: Seq<char>, b: Seq<char>| #[trigger]
        (a + b) == (a + Seq::<char>::empty()) + b);
}

/// An error of the server is told with its code in decimal, between words that
/// are the same for every code.
pub proof fn server_errors_tell_their_code(code: u32, t: Seq<char>)
    ensures
        ({
            let told = failure_text(Failure::Server(code, t));
            let digits = text::decimal(code as nat);
            let end = 21 + digits.len() as int;
            &&& told.len() == end + 2 + t.len()
            &&& told.take(21) == "VolcEngine ASR error "@
            &&& told.subrange(21, end) == digits
            &&& told.subrange(end, end + 2) == ": "@
            &&& told.skip(end + 2) == t
        }),
{
    reveal_strlit("VolcEngine ASR error ");
    reveal_strlit(": ");
    let told = failure_text(Failure::Server(code, t));
    let digits = text::decimal(code as nat);
    let end = 21 + digits.len() as int;
    assert(told.take(21) =~= "VolcEngine ASR error "@);
    assert(told.subrange(21, end) =~= digits);
    assert(told.subrange(end, end + 2) =~= ": "@);
    assert(told.skip(end + 2) =~= t);
}

/// A failure is seen as what it is, with its cause.
pub proof fn failures_are_seen_whole(code: u32, t: String)
    ensures
        Failure::<String>::NoApiKey@ is NoApiKey,
        Failure::BadAddress(t)@ == Failure::BadAddress(t@),
        Failure::<String>::BadHeader@ is BadHeader,
        Failure::<String>::ConnectTimeout@ is ConnectTimeout,
        Failure::Connect(t)@ == Failure::Connect(t@),
        Failure::Refused(t)@ == Failure::Refused(t@),
        Failure::Gzip(t)@ == Failure::Gzip(t@),
        Failure::SendRequest(t)@ == Failure::SendRequest(t@),
        Failure::SendAudio(t)@ == Failure::SendAudio(t@),
        Failure::SendFinalAudio(t)@ == Failure::SendFinalAudio(t@),
        Failure::<String>::ResponseTimeout@ is ResponseTimeout,
        Failure::<String>::ClosedEarly@ is ClosedEarly,
        Failure::Socket(t)@ == Failure::Socket(t@),
        Failure::<String>::FrameTooShort@ is FrameTooShort,
        Failure::<String>::FrameTruncated@ is FrameTruncated,
        Failure::<String>::PayloadTruncated@ is PayloadTruncated,
        Failure::Gunzip(t)@ == Failure::Gunzip(t@),
        Failure::BadJson(t)@ == Failure::BadJson(t@),
        Failure::Server(code, t)@ == Failure::Server(code, t@),
{
}

} // verus!
