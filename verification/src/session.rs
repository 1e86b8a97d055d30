//! A recognition session: audio goes out in packets of equal length, and
//! transcripts come back.
//!
//! The session is told what happens, and says what is to be done about it. Each
//! action is performed, and its outcome told, before anything else is.
use crate::bytes;
use crate::config;
use crate::config::Config;
use crate::error::{Error, Failure};
use crate::frame;
use crate::gz;
use crate::json;
use crate::payload;
use vstd::prelude::*;
use vstd::slice::slice_subrange;
use vstd::utf8;

verus! {

/// 200 ms of 16 kHz s16le per packet.
pub const SEGMENT_BYTES: usize = 16_000 * 2 * 200 / 1000;

/// How long the server may be silent while audio is sent, in seconds.
pub const IDLE_TIMEOUT_SECS: u64 = 120;

/// How long the server may be silent after the last audio, in seconds.
pub const FINAL_TIMEOUT_SECS: u64 = 30;

/// What the user is told of.
#[derive(Debug, PartialEq, Eq)]
pub enum Event {
    /// Cumulative text recognized so far.
    Partial(String),
    /// The whole text.
    Final(String),
}

/// An event as characters.
pub enum EventView {
    Partial(Seq<char>),
    Final(Seq<char>),
}

impl View for Event {
    type V = EventView;

    open spec fn view(&self) -> EventView {
        match *self {
            Event::Partial(t) => EventView::Partial(t@),
            Event::Final(t) => EventView::Final(t@),
        }
    }
}

/// The kinds of message that a session sends.
#[derive(Debug, Clone, Copy, PartialEq, Eq, Structural)]
pub enum Message {
    Request,
    Audio,
    LastAudio,
}

/// What happens in a session.
#[derive(Debug)]
pub enum Input {
    /// The message was sent.
    Sent,
    /// The message could not be sent; the text tells why.
    SendFailed(String),
    /// Audio was captured.
    Audio(Vec<u8>),
    /// No more audio will be captured.
    AudioClosed,
    /// The user ends the utterance.
    Finish,
    /// Capture was stopped, and this is the audio that was still waiting.
    Leftover(Vec<Vec<u8>>),
    /// The user gives the utterance up.
    Cancel,
    /// The server sent a frame.
    Frame(Vec<u8>),
    /// The server sent something that is no frame.
    Other,
    /// The server hung up.
    Closed,
    /// The connection broke; the text tells why.
    Broken(String),
    /// The server was silent for too long.
    TimedOut,
}

/// What is to be done.
#[derive(Debug, PartialEq, Eq)]
pub enum Action {
    /// Nothing, until something happens.
    Wait,
    /// Send the message.
    Send(Vec<u8>),
    /// Stop capturing, and hand over the audio that is still waiting.
    StopCapture,
    /// Tell the user.
    Tell(Event),
    /// Tell the user, and end the session.
    Conclude(Event),
    /// End the session without a word.
    Quit,
    /// End the session with the error.
    Fail(Error),
}

/// What is to be done, as bytes and characters.
pub enum ActionView {
    Wait,
    Send(Seq<u8>),
    StopCapture,
    Tell(EventView),
    Conclude(EventView),
    Quit,
    Fail(Failure<Seq<char>>),
}

impl View for Action {
    type V = ActionView;

    open spec fn view(&self) -> ActionView {
        match *self {
            Action::Wait => ActionView::Wait,
            Action::Send(packet) => ActionView::Send(packet@),
            Action::StopCapture => ActionView::StopCapture,
            Action::Tell(ev) => ActionView::Tell(ev@),
            Action::Conclude(ev) => ActionView::Conclude(ev@),
            Action::Quit => ActionView::Quit,
            Action::Fail(e) => ActionView::Fail(e@),
        }
    }
}

/// Where a session stands.
pub struct SessionView {
    /// The number of the next packet of audio.
    pub seq: int,
    /// The audio that waits to be sent.
    pub pcm: Seq<u8>,
    /// The transcript that came last.
    pub last_text: Seq<char>,
    /// Whether more audio may be captured.
    pub audio_open: bool,
    /// Whether the last audio was sent.
    pub finished: bool,
    /// The message that was sent last.
    pub sending: Message,
}

/// Where a session starts: the request has the first number.
pub open spec fn initial() -> SessionView {
    SessionView {
        seq: 2,
        pcm: Seq::empty(),
        last_text: Seq::empty(),
        audio_open: true,
        finished: false,
        sending: Message::Request,
    }
}

/// Whether a session can stand there: packets of audio are numbered from two
/// on, and where the last audio was sent, none waits and nothing was sent since.
pub open spec fn sound(s: SessionView) -> bool {
    &&& s.seq >= 2
    &&& s.finished ==> s.pcm.len() == 0 && s.sending == Message::LastAudio
}

/// Whether the session takes captured audio.
pub open spec fn wants_audio(s: SessionView) -> bool {
    s.audio_open && !s.finished
}

/// The chunks, one after the other.
pub open spec fn joined(chunks: Seq<Vec<u8>>) -> Seq<u8>
    decreases chunks.len(),
{
    if chunks.len() == 0 {
        Seq::empty()
    } else {
        joined(chunks.drop_last()) + chunks.last()@
    }
}

/// Sends the next packet of audio, where enough waits for one.
pub open spec fn next_segment(s: SessionView) -> (SessionView, ActionView) {
    if s.pcm.len() < SEGMENT_BYTES {
        (s, ActionView::Wait)
    } else {
        match gz::gzip_result(s.pcm.take(SEGMENT_BYTES as int)) {
            Ok(z) => (
                SessionView {
                    seq: s.seq + 1,
                    pcm: s.pcm.skip(SEGMENT_BYTES as int),
                    sending: Message::Audio,
                    ..s
                },
                ActionView::Send(frame::audio_packet(s.seq as i32, false, z)),
            ),
            Err(t) => (s, ActionView::Fail(Failure::Gzip(t))),
        }
    }
}

/// Sends all audio that waits, as the last packet.
pub open spec fn last_segment(s: SessionView) -> (SessionView, ActionView) {
    match gz::gzip_result(s.pcm) {
        Ok(z) => (
            SessionView {
                pcm: Seq::empty(),
                finished: true,
                sending: Message::LastAudio,
                ..s
            },
            ActionView::Send(frame::audio_packet(s.seq as i32, true, z)),
        ),
        Err(t) => (s, ActionView::Fail(Failure::Gzip(t))),
    }
}

/// Takes note of what a frame says.
pub open spec fn hear(
    s: SessionView,
    said: Result<(bool, Seq<char>), Failure<Seq<char>>>,
) -> (SessionView, ActionView) {
    match said {
        Err(e) => (s, ActionView::Fail(e)),
        Ok((is_last, t)) => {
            let heard = if t.len() > 0 {
                SessionView { last_text: t, ..s }
            } else {
                s
            };
            if is_last {
                (heard, ActionView::Conclude(EventView::Final(heard.last_text)))
            } else if t.len() > 0 {
                (heard, ActionView::Tell(EventView::Partial(t)))
            } else {
                (heard, ActionView::Wait)
            }
        },
    }
}

/// What the session does about what happens.
pub open spec fn step(s: SessionView, input: Input) -> (SessionView, ActionView) {
    match input {
        Input::Sent => if s.sending == Message::Audio {
            next_segment(s)
        } else {
            (s, ActionView::Wait)
        },
        Input::SendFailed(t) => (
            s,
            ActionView::Fail(
                match s.sending {
                    Message::Request => Failure::SendRequest(t@),
                    Message::Audio => Failure::SendAudio(t@),
                    Message::LastAudio => Failure::SendFinalAudio(t@),
                },
            ),
        ),
        Input::Audio(chunk) => if wants_audio(s) {
            next_segment(SessionView { pcm: s.pcm + chunk@, ..s })
        } else {
            (s, ActionView::Wait)
        },
        Input::AudioClosed => (SessionView { audio_open: false, ..s }, ActionView::Wait),
        Input::Finish => if s.finished {
            (s, ActionView::Wait)
        } else {
            (s, ActionView::StopCapture)
        },
        Input::Leftover(chunks) => if s.finished {
            (s, ActionView::Wait)
        } else {
            last_segment(SessionView { pcm: s.pcm + joined(chunks@), ..s })
        },
        Input::Cancel => (s, ActionView::Quit),
        Input::Frame(msg) => hear(s, frame::reply(msg@)),
        Input::Other => (s, ActionView::Wait),
        Input::Closed => if s.finished {
            (s, ActionView::Conclude(EventView::Final(s.last_text)))
        } else {
            (s, ActionView::Fail(Failure::ClosedEarly))
        },
        Input::Broken(t) => (s, ActionView::Fail(Failure::Socket(t@))),
        Input::TimedOut => (s, ActionView::Fail(Failure::ResponseTimeout)),
    }
}

/// Whether the session sends a packet of audio, not the last one, about what
/// happens.
pub open spec fn sends_segment(s: SessionView, input: Input) -> bool {
    match input {
        Input::Sent => s.sending == Message::Audio && s.pcm.len() >= SEGMENT_BYTES,
        Input::Audio(chunk) => wants_audio(s) && s.pcm.len() + chunk@.len() >= SEGMENT_BYTES,
        _ => false,
    }
}

/// The audio in the packet that the session sends about what happens, where it
/// sends one.
pub open spec fn outgoing(s: SessionView, input: Input) -> Seq<u8> {
    match input {
        Input::Audio(chunk) => (s.pcm + chunk@).take(SEGMENT_BYTES as int),
        Input::Leftover(chunks) => s.pcm + joined(chunks@),
        _ => s.pcm.take(SEGMENT_BYTES as int),
    }
}

/// A session.
pub struct Session {
    seq: i32,
    pcm: Vec<u8>,
    last_text: String,
    audio_open: bool,
    finished: bool,
    sending: Message,
}

impl View for Session {
    type V = SessionView;

    closed spec fn view(&self) -> SessionView {
        SessionView {
            seq: self.seq as int,
            pcm: self.pcm@,
            last_text: self.last_text@,
            audio_open: self.audio_open,
            finished: self.finished,
            sending: self.sending,
        }
    }
}

impl Session {
    /// The session stands soundly, and the number of the next packet fits its
    /// word.
    pub open spec fn wf(&self) -> bool {
        sound(self@) && self@.seq <= i32::MAX
    }

    /// Starts a session: the request is to be sent first.
    pub fn new(cfg: &Config) -> (r: (Session, Action))
        ensures
            r.0.wf(),
            r.0@ == initial(),
            r.1 is Send,
            r.1@ == ({
                let corpus = payload::corpus_of(config::texts(cfg.hotwords@), cfg.context@);
                match gz::gzip_result(
                    utf8::encode_utf8(json::json_text(payload::payload_json(corpus))),
                ) {
                    Ok(z) => ActionView::Send(frame::request_packet(z)),
                    Err(t) => ActionView::Fail(Failure::Gzip(t)),
                }
            }),
            // The server can read the settings out of the request.
            r.1 matches Action::Send(packet) ==> ({
                let body = gz::gunzip_result(packet@.skip(12));
                body is Ok && json::json_parse(body->Ok_0) is Ok && json::json_parse(body->Ok_0)->Ok_0
                    == payload::payload_json(
                    payload::corpus_of(config::texts(cfg.hotwords@), cfg.context@),
                )
            }),
    {
        let s = Session {
            seq: 2,
            pcm: Vec::new(),
            last_text: String::new(),
            audio_open: true,
            finished: false,
            sending: Message::Request,
        };
        let action = match frame::full_request(&payload::request_payload(cfg)) {
            Ok(packet) => Action::Send(packet),
            Err(e) => Action::Fail(e),
        };
        (s, action)
    }

    /// Whether the session takes captured audio.
    pub fn wants_audio(&self) -> (r: bool)
        ensures
            r == wants_audio(self@),
    {
        self.audio_open && !self.finished
    }

    /// How long the server may be silent now, in seconds.
    pub fn read_timeout_secs(&self) -> (r: u64)
        ensures
            r == if self@.finished {
                FINAL_TIMEOUT_SECS
            } else {
                IDLE_TIMEOUT_SECS
            },
    {
        if self.finished {
            FINAL_TIMEOUT_SECS
        } else {
            IDLE_TIMEOUT_SECS
        }
    }

    /// Whether there is a number left for the packet that is sent about what
    /// happens.
    pub fn can_step(&self, input: &Input) -> (r: bool)
        ensures
            r == (sends_segment(self@, *input) ==> self@.seq < i32::MAX),
    {
        let due = match input {
            Input::Sent => self.sending == Message::Audio && self.pcm.len() >= SEGMENT_BYTES,
            Input::Audio(chunk) => self.wants_audio() && (self.pcm.len() >= SEGMENT_BYTES
                || chunk.len() >= SEGMENT_BYTES - self.pcm.len()),
            _ => false,
        };
        !due || self.seq < i32::MAX
    }

    /// Sends the next packet of audio, where enough waits for one.
    fn next_segment(&mut self) -> (r: Action)
        requires
            old(self).wf(),
            !old(self)@.finished,
            old(self)@.pcm.len() >= SEGMENT_BYTES ==> old(self)@.seq < i32::MAX,
        ensures
            final(self).wf(),
            (final(self)@, r@) == next_segment(old(self)@),
            old(self)@.pcm.len() >= SEGMENT_BYTES ==> r is Send,
            r matches Action::Send(packet) ==> gz::gunzip_result(packet@.skip(12)) is Ok
                && gz::gunzip_result(packet@.skip(12))->Ok_0 == old(self)@.pcm.take(
                SEGMENT_BYTES as int,
            ),
    {
        if self.pcm.len() < SEGMENT_BYTES {
            return Action::Wait;
        }
        let segment = slice_subrange(self.pcm.as_slice(), 0, SEGMENT_BYTES);
        assert(segment@ =~= self.pcm@.take(SEGMENT_BYTES as int));
        match frame::audio_request(self.seq, segment, false) {
            Ok(packet) => {
                self.pcm = self.pcm.split_off(SEGMENT_BYTES);
                self.seq += 1;
                self.sending = Message::Audio;
                assert(self.pcm@ =~= old(self)@.pcm.skip(SEGMENT_BYTES as int));
                Action::Send(packet)
            },
            Err(e) => Action::Fail(e),
        }
    }

    /// Sends all audio that waits, and the chunks behind it, as the last
    /// packet.
    fn last_segment(&mut self, chunks: Vec<Vec<u8>>) -> (r: Action)
        requires
            old(self).wf(),
            !old(self)@.finished,
        ensures
            final(self).wf(),
            (final(self)@, r@) == last_segment(
                SessionView { pcm: old(self)@.pcm + joined(chunks@), ..old(self)@ },
            ),
            r is Send,
            r matches Action::Send(packet) ==> gz::gunzip_result(packet@.skip(12)) is Ok
                && gz::gunzip_result(packet@.skip(12))->Ok_0 == old(self)@.pcm + joined(chunks@),
    {
        let mut i: usize = 0;
        assert(chunks@.take(0) =~= Seq::empty());
        assert(self.pcm@ =~= old(self)@.pcm + joined(chunks@.take(0)));
        while i < chunks.len()
            invariant
                i <= chunks@.len(),
                self.wf(),
                !old(self)@.finished,
                self@ == (SessionView {
                    pcm: old(self)@.pcm + joined(chunks@.take(i as int)),
                    ..old(self)@
                }),
            decreases chunks.len() - i,
        {
            self.pcm.extend_from_slice(chunks[i].as_slice());
            proof {
                let next = chunks@.take(i + 1);
                assert(next.drop_last() =~= chunks@.take(i as int));
                assert(self.pcm@ =~= old(self)@.pcm + joined(next));
            }
            i += 1;
        }
        assert(chunks@.take(i as int) =~= chunks@);
        match frame::audio_request(self.seq, self.pcm.as_slice(), true) {
            Ok(packet) => {
                self.pcm = Vec::new();
                self.finished = true;
                self.sending = Message::LastAudio;
                assert(self.pcm@ =~= Seq::empty());
                Action::Send(packet)
            },
            Err(e) => Action::Fail(e),
        }
    }

    /// Takes note of what a frame says.
    pub fn hear(&mut self, said: Result<(bool, String), Error>) -> (r: Action)
        requires
            old(self).wf(),
        ensures
            final(self).wf(),
            (final(self)@, r@) == hear(old(self)@, frame::reply_view(said)),
    {
        match said {
            Err(e) => Action::Fail(e),
            Ok((is_last, t)) => {
                let blank = t.as_str().is_empty();
                if !blank {
                    self.last_text = t.clone();
                }
                if is_last {
                    Action::Conclude(Event::Final(self.last_text.clone()))
                } else if !blank {
                    Action::Tell(Event::Partial(t))
                } else {
                    Action::Wait
                }
            },
        }
    }

    /// Takes note of what happens, and says what is to be done about it.
    pub fn step(&mut self, input: Input) -> (r: Action)
        requires
            old(self).wf(),
            sends_segment(old(self)@, input) ==> old(self)@.seq < i32::MAX,
        ensures
            final(self).wf(),
            (final(self)@, r@) == step(old(self)@, input),
            // A packet that is due is sent.
            sends_segment(old(self)@, input) ==> r is Send,
            input is Leftover && !old(self)@.finished ==> r is Send,
            // The server can read the audio out of the packet.
            r matches Action::Send(packet) ==> gz::gunzip_result(packet@.skip(12)) is Ok
                && gz::gunzip_result(packet@.skip(12))->Ok_0 == outgoing(old(self)@, input),
    {
        match input {
            Input::Sent => if self.sending == Message::Audio {
                self.next_segment()
            } else {
                Action::Wait
            },
            Input::SendFailed(t) => Action::Fail(
                match self.sending {
                    Message::Request => Failure::SendRequest(t),
                    Message::Audio => Failure::SendAudio(t),
                    Message::LastAudio => Failure::SendFinalAudio(t),
                },
            ),
            Input::Audio(chunk) => if self.wants_audio() {
                self.pcm.extend_from_slice(chunk.as_slice());
                assert(self.pcm@ =~= old(self)@.pcm + chunk@);
                self.next_segment()
            } else {
                Action::Wait
            },
            Input::AudioClosed => {
                self.audio_open = false;
                Action::Wait
            },
            Input::Finish => if self.finished {
                Action::Wait
            } else {
                Action::StopCapture
            },
            Input::Leftover(chunks) => if self.finished {
                Action::Wait
            } else {
                self.last_segment(chunks)
            },
            Input::Cancel => Action::Quit,
            Input::Frame(msg) => {
                let said = frame::parse_frame(msg.as_slice());
                self.hear(said)
            },
            Input::Other => Action::Wait,
            Input::Closed => if self.finished {
                Action::Conclude(Event::Final(self.last_text.clone()))
            } else {
                Action::Fail(Failure::ClosedEarly)
            },
            Input::Broken(t) => Action::Fail(Failure::Socket(t)),
            Input::TimedOut => Action::Fail(Failure::ResponseTimeout),
        }
    }
}

/// A packet holds 200 ms of 16-bit samples at 16 kHz. The server may be silent
/// for two minutes while audio is sent, and for half a minute after that.
pub proof fn limits_are_in_samples_and_seconds()
    ensures
        SEGMENT_BYTES * 5 == 16_000 * 2,
        IDLE_TIMEOUT_SECS == 2 * 60,
        FINAL_TIMEOUT_SECS == 30,
{
}

/// A session starts with no audio and no text, takes audio, and has yet to send
/// the first packet of it, whose number is two.
pub proof fn sessions_start_empty()
    ensures
        initial().seq == 2,
        initial().pcm.len() == 0,
        initial().last_text.len() == 0,
        initial().audio_open,
        !initial().finished,
        initial().sending == Message::Request,
{
}

/// The last frame concludes the session, wherever it stands, with the text of
/// the frame, or, where that is blank, with the last text before it. Any other
/// frame is told, unless it is blank.
pub proof fn the_last_frame_concludes(s: SessionView, msg: Vec<u8>, is_last: bool, t: Seq<char>)
    requires
        frame::reply(msg@) == Ok::<_, Failure<Seq<char>>>((is_last, t)),
    ensures
        step(s, Input::Frame(msg)).1 is Conclude <==> is_last,
        is_last && t.len() > 0 ==> step(s, Input::Frame(msg)).1 == ActionView::Conclude(
            EventView::Final(t),
        ),
        is_last && t.len() == 0 ==> step(s, Input::Frame(msg)).1 == ActionView::Conclude(
            EventView::Final(s.last_text),
        ),
        !is_last && t.len() > 0 ==> step(s, Input::Frame(msg)).1 == ActionView::Tell(
            EventView::Partial(t),
        ),
        !is_last && t.len() == 0 ==> step(s, Input::Frame(msg)).1 is Wait,
{
}

/// What is said is heard alike in every session: it concludes both of two
/// sessions or neither, it is told in both or in neither, and fails both or
/// neither, with the same error.
pub proof fn sessions_hear_alike(
    s1: SessionView,
    s2: SessionView,
    said: Result<(bool, Seq<char>), Failure<Seq<char>>>,
)
    ensures
        hear(s1, said).1 is Conclude <==> (said matches Ok(p) && p.0),
        hear(s1, said).1 is Conclude <==> hear(s2, said).1 is Conclude,
        hear(s1, said).1 is Tell <==> hear(s2, said).1 is Tell,
        hear(s1, said).1 is Tell ==> hear(s1, said).1 == hear(s2, said).1,
        hear(s1, said).1 is Fail <==> said is Err,
        said matches Err(e) ==> hear(s1, said).1 == ActionView::Fail(e),
{
}

/// A frame that cannot be read, or that reports an error, fails the session with
/// that error.
pub proof fn errors_of_the_server_fail_the_session(
    s: SessionView,
    msg: Vec<u8>,
    e: Failure<Seq<char>>,
)
    requires
        frame::reply(msg@) == Err::<(bool, Seq<char>), _>(e),
    ensures
        step(s, Input::Frame(msg)) == (s, ActionView::Fail(e)),
{
}

/// What a frame says changes nothing but the text, and that only where the frame
/// has one.
pub proof fn frames_change_the_text_only(s: SessionView, msg: Vec<u8>)
    ensures
        ({
            let next = step(s, Input::Frame(msg)).0;
            &&& next.seq == s.seq
            &&& next.pcm == s.pcm
            &&& next.audio_open == s.audio_open
            &&& next.finished == s.finished
            &&& next.sending == s.sending
            &&& next.last_text == match frame::reply(msg@) {
                Ok((_, t)) => if t.len() == 0 {
                    s.last_text
                } else {
                    t
                },
                Err(_) => s.last_text,
            }
        }),
{
}

/// Nothing but a frame changes the text, and nothing but audio changes the audio
/// or the number of the next packet.
pub proof fn audio_and_text_stand_apart(s: SessionView, input: Input)
    ensures
        !(input is Frame) ==> step(s, input).0.last_text == s.last_text,
        !(input is Audio || input is Leftover || input is Sent) ==> step(s, input).0.pcm == s.pcm
            && step(s, input).0.seq == s.seq && step(s, input).0.sending == s.sending,
        !(input is AudioClosed) ==> step(s, input).0.audio_open == s.audio_open,
        input is AudioClosed ==> !step(s, input).0.audio_open,
        !(input is Leftover) ==> step(s, input).0.finished == s.finished,
{
}

/// Audio that is taken is kept until it makes a packet, and the next packet then
/// carries the oldest of it, under the next number. A session takes audio until
/// capture has closed or the last audio was sent, and none after that.
pub proof fn audio_is_kept_until_it_makes_a_packet(s: SessionView, chunk: Vec<u8>)
    requires
        0 <= s.seq <= i32::MAX,
    ensures
        wants_audio(s) <==> s.audio_open && !s.finished,
        ({
            let all = s.pcm + chunk@;
            let (next, action) = step(s, Input::Audio(chunk));
            if !s.audio_open || s.finished {
                next == s && action is Wait
            } else if all.len() < 6400 {
                next == (SessionView { pcm: all, ..s }) && action is Wait
            } else {
                packet_goes_out(SessionView { pcm: all, ..s }, next, action)
            }
        }),
{
    if s.audio_open && !s.finished {
        segment_goes_out(SessionView { pcm: s.pcm + chunk@, ..s });
    }
}

/// When a packet of audio was sent, the next one follows, if enough audio waits
/// for it. When another message was sent, nothing follows.
pub proof fn packets_follow_one_another(s: SessionView)
    requires
        0 <= s.seq <= i32::MAX,
    ensures
        ({
            let (next, action) = step(s, Input::Sent);
            if s.sending != Message::Audio || s.pcm.len() < 6400 {
                next == s && action is Wait
            } else {
                packet_goes_out(s, next, action)
            }
        }),
{
    segment_goes_out(s);
}

/// Whether the oldest audio that waits at `s` goes out in a packet that can be
/// read, and what is left waits at `next`. Where it cannot be compressed, the
/// session fails.
pub open spec fn packet_goes_out(s: SessionView, next: SessionView, action: ActionView) -> bool {
    match gz::gzip_result(s.pcm.subrange(0, 6400)) {
        Err(t) => next == s && action == ActionView::Fail(Failure::Gzip(t)),
        Ok(z) => {
            &&& action is Send
            &&& action->Send_0.len() == 12 + z.len()
            &&& action->Send_0[1] == 0x21
            &&& bytes::word_at(action->Send_0, 4) as int == s.seq % 0x1_0000_0000
            &&& action->Send_0.skip(12) == z
            &&& next.pcm == s.pcm.subrange(6400, s.pcm.len() as int)
            &&& next.seq == s.seq + 1
            &&& next.sending == Message::Audio
            &&& next.last_text == s.last_text
            &&& next.audio_open == s.audio_open
            &&& next.finished == s.finished
        },
    }
}

/// Enough audio for a packet goes out.
proof fn segment_goes_out(s: SessionView)
    requires
        0 <= s.seq <= i32::MAX,
    ensures
        s.pcm.len() >= 6400 ==> packet_goes_out(s, next_segment(s).0, next_segment(s).1),
        s.pcm.len() < 6400 ==> next_segment(s) == (s, ActionView::Wait),
{
    if s.pcm.len() >= 6400 {
        assert(s.pcm.take(SEGMENT_BYTES as int) =~= s.pcm.subrange(0, 6400));
        assert(s.pcm.skip(SEGMENT_BYTES as int) =~= s.pcm.subrange(6400, s.pcm.len() as int));
        match gz::gzip_result(s.pcm.subrange(0, 6400)) {
            Ok(z) => {
                let n = s.seq as i32;
                let packet = frame::audio_packet(n, false, z);
                frame::frames_are_laid_out(
                    frame::MSG_CLIENT_AUDIO_ONLY,
                    frame::FLAG_POS_SEQUENCE,
                    frame::SERIALIZATION_NONE,
                    n,
                    z,
                );
                assert((0b0010u8 << 4) | 0b0001u8 == 0x21) by (bit_vector);
                bytes::first_byte_counts_most(packet, 4);
            },
            Err(_) => {},
        }
    }
}

/// The chunks follow one another in order, and none is left out.
pub proof fn chunks_are_joined(a: Seq<Vec<u8>>, b: Seq<Vec<u8>>)
    ensures
        joined(a + b) == joined(a) + joined(b),
    decreases b.len(),
{
    if b.len() == 0 {
        assert(a + b =~= a);
        assert(joined(a) + joined(b) =~= joined(a));
    } else {
        chunks_are_joined(a, b.drop_last());
        assert((a + b).drop_last() =~= a + b.drop_last());
        assert(joined(a + b) =~= joined(a) + joined(b));
    }
}

/// One chunk is joined as it is.
pub proof fn one_chunk_is_joined_whole(c: Vec<u8>)
    ensures
        joined(seq![c]) == c@,
        joined(Seq::empty()).len() == 0,
{
    assert(seq![c].drop_last() =~= Seq::empty());
    assert(joined(seq![c].drop_last()) =~= Seq::empty());
    assert(joined(seq![c]) =~= c@);
}

/// Every byte of every chunk stands behind the chunks before it.
pub proof fn every_byte_has_its_place(chunks: Seq<Vec<u8>>, k: int, i: int)
    requires
        0 <= k < chunks.len(),
        0 <= i < chunks[k]@.len(),
    ensures
        joined(chunks.take(k)).len() + i < joined(chunks).len(),
        joined(chunks)[joined(chunks.take(k)).len() + i] == chunks[k]@[i],
        joined(chunks.take(k + 1)).len() == joined(chunks.take(k)).len() + chunks[k]@.len(),
{
    let head = chunks.take(k);
    let tail = chunks.skip(k + 1);
    assert(chunks =~= head + seq![chunks[k]] + tail);
    assert(chunks.take(k + 1) =~= head + seq![chunks[k]]);
    chunks_are_joined(head + seq![chunks[k]], tail);
    chunks_are_joined(head, seq![chunks[k]]);
    one_chunk_is_joined_whole(chunks[k]);
}

/// What is handed over when capture has stopped goes out at once and whole,
/// behind the audio that waits, in the last packet, which has the negated number.
/// Only the first such input counts.
pub proof fn all_that_is_left_goes_out_last(s: SessionView, chunks: Vec<Vec<u8>>)
    requires
        0 <= s.seq <= i32::MAX,
    ensures
        ({
            let (next, action) = step(s, Input::Leftover(chunks));
            if s.finished {
                next == s && action is Wait
            } else {
                match gz::gzip_result(s.pcm + joined(chunks@)) {
                    Err(t) => action == ActionView::Fail(Failure::Gzip(t)) && !next.finished,
                    Ok(z) => {
                        &&& action is Send
                        &&& action->Send_0.len() == 12 + z.len()
                        &&& action->Send_0[1] == 0x23
                        &&& bytes::word_at(action->Send_0, 4) as int == -s.seq % 0x1_0000_0000
                        &&& action->Send_0.skip(12) == z
                        &&& next.finished
                        &&& next.pcm.len() == 0
                        &&& next.seq == s.seq
                        &&& next.sending == Message::LastAudio
                        &&& next.last_text == s.last_text
                        &&& next.audio_open == s.audio_open
                    },
                }
            }
        }),
{
    match gz::gzip_result(s.pcm + joined(chunks@)) {
        Ok(z) => {
            let n = s.seq as i32;
            let packet = frame::audio_packet(n, true, z);
            frame::audio_packets_are_raw_audio(n, true, z);
            bytes::first_byte_counts_most(packet, 4);
        },
        Err(_) => {},
    }
}

/// How a session ends when nothing is said: a hang-up is fine after the last
/// audio was sent, and then the last text is the final one, and an error before
/// that. A broken connection and silence are errors at any time.
pub proof fn hang_ups_and_silence_end_the_session(s: SessionView, t: String)
    ensures
        step(s, Input::Closed) == (
            s,
            if s.finished {
                ActionView::Conclude(EventView::Final(s.last_text))
            } else {
                ActionView::Fail(Failure::<Seq<char>>::ClosedEarly)
            },
        ),
        step(s, Input::Broken(t)) == (s, ActionView::Fail(Failure::Socket(t@))),
        step(s, Input::TimedOut) == (s, ActionView::Fail(Failure::<Seq<char>>::ResponseTimeout)),
        step(s, Input::Other) == (s, ActionView::Wait),
        step(s, Input::Cancel) == (s, ActionView::Quit),
{
}

/// A message that cannot be sent fails the session, and the error tells which
/// message it was, and why.
pub proof fn failed_messages_are_told_apart(s: SessionView, t: String)
    ensures
        step(s, Input::SendFailed(t)).0 == s,
        s.sending == Message::Request ==> step(s, Input::SendFailed(t)).1 == ActionView::Fail(
            Failure::SendRequest(t@),
        ),
        s.sending == Message::Audio ==> step(s, Input::SendFailed(t)).1 == ActionView::Fail(
            Failure::SendAudio(t@),
        ),
        s.sending == Message::LastAudio ==> step(s, Input::SendFailed(t)).1 == ActionView::Fail(
            Failure::SendFinalAudio(t@),
        ),
{
}

/// Ending the utterance stops capture, once, and loses no audio.
pub proof fn finishing_stops_capture_once(s: SessionView)
    ensures
        step(s, Input::Finish).0 == s,
        step(s, Input::Finish).1 == if s.finished {
            ActionView::Wait
        } else {
            ActionView::StopCapture
        },
        step(s, Input::AudioClosed) == (
            SessionView { audio_open: false, ..s },
            ActionView::Wait,
        ),
{
}

/// Whether a packet of audio is due is told before it is sent: only then is one
/// sent, the last one apart.
pub proof fn packets_go_out_when_due(s: SessionView, input: Input)
    ensures
        step(s, input).1 is Send ==> sends_segment(s, input) || input is Leftover,
        sends_segment(s, input) ==> step(s, input).1 is Send || step(s, input).1 is Fail,
{
}

/// Actions and events are seen whole.
pub proof fn actions_are_seen_whole(packet: Vec<u8>, t: String, e: Error)
    ensures
        Action::Wait@ is Wait,
        Action::Send(packet)@ == ActionView::Send(packet@),
        Action::StopCapture@ is StopCapture,
        Action::Tell(Event::Partial(t))@ == ActionView::Tell(EventView::Partial(t@)),
        Action::Conclude(Event::Final(t))@ == ActionView::Conclude(EventView::Final(t@)),
        Action::Quit@ is Quit,
        Action::Fail(e)@ == ActionView::Fail(e@),
        Event::Partial(t)@ == EventView::Partial(t@),
        Event::Final(t)@ == EventView::Final(t@),
{
}

} // verus!
