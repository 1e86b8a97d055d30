//! What holds of a whole session, whatever happens in it and in whatever order.
use crate::error;
use crate::frame;
use crate::gz;
use crate::notice;
use crate::notice::NoticeView;
use crate::session;
use crate::session::{ActionView, EventView, Input, SessionView, SEGMENT_BYTES};
use vstd::prelude::*;

verus! {

/// Where a session stands after the inputs.
pub open spec fn after(inputs: Seq<Input>) -> SessionView
    decreases inputs.len(),
{
    if inputs.len() == 0 {
        session::initial()
    } else {
        session::step(after(inputs.drop_last()), inputs.last()).0
    }
}

/// What the session did about the last input.
pub open spec fn reaction(inputs: Seq<Input>) -> ActionView {
    session::step(after(inputs.drop_last()), inputs.last()).1
}

/// Whether the session has not failed.
pub open spec fn alive(inputs: Seq<Input>) -> bool
    decreases inputs.len(),
{
    inputs.len() > 0 ==> alive(inputs.drop_last()) && !(reaction(inputs) is Fail)
}

/// The audio that an input brings to a session.
pub open spec fn brought(s: SessionView, input: Input) -> Seq<u8> {
    match input {
        Input::Audio(chunk) => if session::wants_audio(s) {
            chunk@
        } else {
            Seq::empty()
        },
        Input::Leftover(chunks) => if s.finished {
            Seq::empty()
        } else {
            session::joined(chunks@)
        },
        _ => Seq::empty(),
    }
}

/// All audio that the inputs brought, in order.
pub open spec fn captured(inputs: Seq<Input>) -> Seq<u8>
    decreases inputs.len(),
{
    if inputs.len() == 0 {
        Seq::empty()
    } else {
        captured(inputs.drop_last()) + brought(after(inputs.drop_last()), inputs.last())
    }
}

/// All packets of audio that the session sent, in order.
pub open spec fn sent(inputs: Seq<Input>) -> Seq<Seq<u8>>
    decreases inputs.len(),
{
    if inputs.len() == 0 {
        Seq::empty()
    } else {
        match reaction(inputs) {
            ActionView::Send(packet) => sent(inputs.drop_last()).push(packet),
            _ => sent(inputs.drop_last()),
        }
    }
}

/// The last transcript that is not blank, of those that the frames among the
/// inputs carry.
pub open spec fn latest_text(inputs: Seq<Input>) -> Seq<char>
    decreases inputs.len(),
{
    if inputs.len() == 0 {
        Seq::empty()
    } else {
        match inputs.last() {
            Input::Frame(msg) => match frame::reply(msg@) {
                Ok((_, t)) => if t.len() > 0 {
                    t
                } else {
                    latest_text(inputs.drop_last())
                },
                Err(_) => latest_text(inputs.drop_last()),
            },
            _ => latest_text(inputs.drop_last()),
        }
    }
}

/// Whether `packet` carries the audio, with the number.
pub open spec fn carries(packet: Seq<u8>, seq: int, is_last: bool, audio: Seq<u8>) -> bool {
    &&& gz::gzip_result(audio) is Ok
    &&& packet == frame::audio_packet(seq as i32, is_last, gz::gzip_result(audio)->Ok_0)
}

/// Whether the first `n` packets carry the first `n` segments of the audio,
/// numbered from two on.
pub open spec fn in_order(packets: Seq<Seq<u8>>, audio: Seq<u8>, n: int) -> bool {
    &&& 0 <= n <= packets.len()
    &&& n * SEGMENT_BYTES <= audio.len()
    &&& forall|i: int|
        0 <= i < n ==> carries(
            #[trigger] packets[i],
            2 + i,
            false,
            audio.subrange(i * SEGMENT_BYTES, (i + 1) * SEGMENT_BYTES),
        )
}

/// More audio and more packets do not change what the first packets carry.
proof fn in_order_extends(
    packets: Seq<Seq<u8>>,
    more_packets: Seq<Seq<u8>>,
    audio: Seq<u8>,
    more_audio: Seq<u8>,
    n: int,
)
    requires
        in_order(packets, audio, n),
    ensures
        in_order(packets + more_packets, audio + more_audio, n),
{
    assert forall|i: int| 0 <= i < n implies carries(
        #[trigger] (packets + more_packets)[i],
        2 + i,
        false,
        (audio + more_audio).subrange(i * SEGMENT_BYTES, (i + 1) * SEGMENT_BYTES),
    ) by {
        assert((packets + more_packets)[i] == packets[i]);
        assert(0 <= i * SEGMENT_BYTES <= (i + 1) * SEGMENT_BYTES <= n * SEGMENT_BYTES)
            by (nonlinear_arith)
            requires
                0 <= i < n,
        ;
        assert((audio + more_audio).subrange(i * SEGMENT_BYTES, (i + 1) * SEGMENT_BYTES)
            =~= audio.subrange(i * SEGMENT_BYTES, (i + 1) * SEGMENT_BYTES));
    }
}

/// Every byte that is captured is sent once, in order: the packets of audio are
/// numbered from two on without a gap, each carries the next segment of what
/// was captured, and what is not sent yet waits. The last packet carries what
/// was left, under the negated number.
pub proof fn audio_is_sent_in_order(inputs: Seq<Input>)
    requires
        alive(inputs),
    ensures
        ({
            let s = after(inputs);
            let packets = sent(inputs);
            let audio = captured(inputs);
            if s.finished {
                &&& packets.len() > 0
                &&& in_order(packets, audio, packets.len() - 1)
                &&& s.seq == 2 + packets.len() - 1
                &&& carries(
                    packets.last(),
                    s.seq,
                    true,
                    audio.skip((packets.len() - 1) * SEGMENT_BYTES),
                )
                &&& s.pcm.len() == 0
            } else {
                &&& in_order(packets, audio, packets.len() as int)
                &&& s.seq == 2 + packets.len()
                &&& s.pcm == audio.skip(packets.len() * SEGMENT_BYTES)
            }
        }),
    decreases inputs.len(),
{
    if inputs.len() > 0 {
        let init = inputs.drop_last();
        audio_is_sent_in_order(init);
        let s = after(init);
        let packets = sent(init);
        let n = if s.finished { packets.len() - 1 } else { packets.len() as int };
        let audio = captured(init);
        let more = brought(s, inputs.last());
        let all = audio + more;
        let next = after(inputs);
        if s.finished {
            assert(all =~= audio);
            assert(sent(inputs) == packets);
        } else {
            let pending = s.pcm + more;
            assert(pending =~= all.skip(n * SEGMENT_BYTES));
            match reaction(inputs) {
                ActionView::Send(packet) => {
                    in_order_extends(packets, seq![packet], audio, more, n);
                    assert(packets + seq![packet] =~= sent(inputs));
                    if next.finished {
                        assert(carries(packet, s.seq, true, pending));
                    } else {
                        let segment = pending.take(SEGMENT_BYTES as int);
                        assert(s.pcm =~= pending || inputs.last() is Audio);
                        assert(carries(packet, s.seq, false, segment));
                        assert((n + 1) * SEGMENT_BYTES == n * SEGMENT_BYTES + SEGMENT_BYTES)
                            by (nonlinear_arith);
                        assert(segment =~= all.subrange(
                            n * SEGMENT_BYTES,
                            (n + 1) * SEGMENT_BYTES,
                        ));
                        assert(pending.skip(SEGMENT_BYTES as int) =~= all.skip(
                            (n + 1) * SEGMENT_BYTES,
                        ));
                    }
                },
                _ => {
                    in_order_extends(packets, Seq::empty(), audio, more, n);
                    assert(packets + Seq::<Seq<u8>>::empty() =~= packets);
                    assert(next.pcm =~= pending);
                },
            }
        }
    } else {
        assert(session::initial().pcm =~= Seq::<u8>::empty().skip(0));
    }
}

/// The transcript that a session ends with, where the server ends it or hangs
/// up after the last audio, is the last one that was not blank.
pub proof fn conclusion_is_latest_text(inputs: Seq<Input>)
    ensures
        after(inputs).last_text == latest_text(inputs),
        inputs.len() > 0 && reaction(inputs) is Conclude ==> reaction(inputs)
            == ActionView::Conclude(EventView::Final(latest_text(inputs))),
    decreases inputs.len(),
{
    if inputs.len() > 0 {
        conclusion_is_latest_text(inputs.drop_last());
    }
}

/// The user is told of no blank text before the end, and of none that no frame
/// carried.
pub proof fn partials_are_what_was_said(inputs: Seq<Input>)
    requires
        inputs.len() > 0,
        reaction(inputs) is Tell,
    ensures
        latest_text(inputs).len() > 0,
        reaction(inputs) == ActionView::Tell(EventView::Partial(latest_text(inputs))),
        inputs.last() is Frame,
{
}

/// Whether the session has not ended: it was neither concluded nor given up, and
/// has not failed.
pub open spec fn running(inputs: Seq<Input>) -> bool
    decreases inputs.len(),
{
    inputs.len() > 0 ==> running(inputs.drop_last()) && !(reaction(inputs) is Conclude) && !(
    reaction(inputs) is Quit) && !(reaction(inputs) is Fail)
}

/// All that the user was told, in order.
pub open spec fn told(inputs: Seq<Input>) -> Seq<EventView>
    decreases inputs.len(),
{
    if inputs.len() == 0 {
        Seq::empty()
    } else {
        match reaction(inputs) {
            ActionView::Tell(ev) => told(inputs.drop_last()).push(ev),
            ActionView::Conclude(ev) => told(inputs.drop_last()).push(ev),
            _ => told(inputs.drop_last()),
        }
    }
}

/// While a session runs, the user is told of partial texts only.
proof fn running_sessions_tell_partials(inputs: Seq<Input>)
    requires
        running(inputs),
    ensures
        forall|i: int| 0 <= i < told(inputs).len() ==> #[trigger] told(inputs)[i] is Partial,
    decreases inputs.len(),
{
    if inputs.len() > 0 {
        running_sessions_tell_partials(inputs.drop_last());
    }
}

/// A session tells of at most one final text, and last: just where it is
/// concluded, and with the last text that was not blank. A session that is given
/// up or fails tells of none.
pub proof fn final_text_comes_once_and_last(inputs: Seq<Input>)
    requires
        inputs.len() > 0,
        running(inputs.drop_last()),
    ensures
        forall|i: int| 0 <= i < told(inputs).len() - 1 ==> #[trigger] told(inputs)[i] is Partial,
        reaction(inputs) is Conclude <==> told(inputs).len() > 0 && told(inputs).last() is Final,
        reaction(inputs) is Conclude ==> told(inputs).last() == EventView::Final(
            latest_text(inputs),
        ),
{
    running_sessions_tell_partials(inputs.drop_last());
    conclusion_is_latest_text(inputs);
    let before = told(inputs.drop_last());
    if before.len() > 0 {
        assert(before[before.len() - 1] is Partial);
    }
}

/// The notice, if there is one, as a sequence.
pub open spec fn as_seq(n: Option<NoticeView>) -> Seq<NoticeView> {
    match n {
        Some(n) => seq![n],
        None => Seq::empty(),
    }
}

/// What the addon is told of an action, while it listens: of the event, and
/// then, where the session ends with the action, of how it ended.
pub open spec fn action_notices(a: ActionView) -> Seq<NoticeView> {
    let event = match a {
        ActionView::Tell(ev) => notice::event_notice(true, ev),
        ActionView::Conclude(ev) => notice::event_notice(true, ev),
        _ => None,
    };
    let end = match notice::outcome_of(a) {
        Some(o) => notice::outcome_notice(true, o),
        None => None,
    };
    as_seq(event) + as_seq(end)
}

/// All that the addon is told of a session, while it listens, in order.
pub open spec fn notices(inputs: Seq<Input>) -> Seq<NoticeView>
    decreases inputs.len(),
{
    if inputs.len() == 0 {
        Seq::empty()
    } else {
        notices(inputs.drop_last()) + action_notices(reaction(inputs))
    }
}

/// While a session runs, the addon is told of partial texts only.
proof fn running_sessions_send_partial_notices(inputs: Seq<Input>)
    requires
        running(inputs),
    ensures
        forall|i: int|
            0 <= i < notices(inputs).len() ==> (#[trigger] notices(inputs)[i]).kind
                == notice::VT_EVENT_PARTIAL,
    decreases inputs.len(),
{
    if inputs.len() > 0 {
        running_sessions_send_partial_notices(inputs.drop_last());
        let before = notices(inputs.drop_last());
        let last = action_notices(reaction(inputs));
        assert(reaction(inputs) matches ActionView::Tell(ev) ==> ev is Partial);
        assert forall|i: int| 0 <= i < notices(inputs).len() implies (#[trigger] notices(
            inputs,
        )[i]).kind == notice::VT_EVENT_PARTIAL by {
            if i < before.len() {
                assert(notices(inputs)[i] == before[i]);
            } else {
                assert(notices(inputs)[i] == last[i - before.len()]);
            }
        }
    }
}

/// A session ends just with the actions that have an outcome, and silently just
/// where the user gives it up.
pub proof fn endings_have_outcomes(inputs: Seq<Input>)
    requires
        inputs.len() > 0,
        running(inputs.drop_last()),
    ensures
        !running(inputs) <==> notice::outcome_of(reaction(inputs)) is Some,
        reaction(inputs) is Quit <==> inputs.last() is Cancel,
{
}

/// Every end of a session that the user does not give up is reported to an addon
/// that listens, once and last: by the final text, where the session is
/// concluded, and by the error, where it fails. Until then, and in a session
/// that is given up, the addon is told of partial texts only.
pub proof fn every_end_is_reported_once_and_last(inputs: Seq<Input>)
    requires
        inputs.len() > 0,
        running(inputs.drop_last()),
        !running(inputs),
    ensures
        inputs.last() is Cancel ==> forall|i: int|
            0 <= i < notices(inputs).len() ==> (#[trigger] notices(inputs)[i]).kind
                == notice::VT_EVENT_PARTIAL,
        !(inputs.last() is Cancel) ==> {
            &&& notices(inputs).len() > 0
            &&& forall|i: int|
                0 <= i < notices(inputs).len() - 1 ==> (#[trigger] notices(inputs)[i]).kind
                    == notice::VT_EVENT_PARTIAL
            &&& match reaction(inputs) {
                ActionView::Conclude(_) => notices(inputs).last() == (NoticeView {
                    kind: notice::VT_EVENT_FINAL as int,
                    text: notice::without_nul(latest_text(inputs)),
                }),
                ActionView::Fail(e) => notices(inputs).last() == (NoticeView {
                    kind: notice::VT_EVENT_ERROR as int,
                    text: notice::without_nul(error::failure_text(e)),
                }),
                _ => false,
            }
        },
{
    running_sessions_send_partial_notices(inputs.drop_last());
    endings_have_outcomes(inputs);
    conclusion_is_latest_text(inputs);
    let before = notices(inputs.drop_last());
    let last = action_notices(reaction(inputs));
    assert(notices(inputs) == before + last);
    if inputs.last() is Cancel {
        assert(notices(inputs) =~= before);
    } else {
        assert(last.len() == 1);
        assert forall|i: int| 0 <= i < notices(inputs).len() - 1 implies (#[trigger] notices(
            inputs,
        )[i]).kind == notice::VT_EVENT_PARTIAL by {
            assert(notices(inputs)[i] == before[i]);
        }
    }
}

/// Once the last audio was sent, the session takes no audio and sends nothing,
/// and does not go back.
pub proof fn finish_is_final(s: SessionView, input: Input)
    requires
        session::sound(s),
        s.finished,
    ensures
        !session::wants_audio(s),
        session::sound(session::step(s, input).0),
        session::step(s, input).0.finished,
        session::step(s, input).0.pcm.len() == 0,
        !(session::step(s, input).1 is Send),
        !(session::step(s, input).1 is StopCapture),
{
}

/// The last audio goes out only when capture was stopped and what was still
/// waiting was handed over, and the session asks for that just when the user
/// ends the utterance for the first time.
pub proof fn capture_stops_before_the_last_audio(s: SessionView, input: Input)
    requires
        !s.finished,
    ensures
        session::step(s, input).0.finished ==> input is Leftover,
        session::step(s, input).1 is StopCapture <==> input is Finish,
{
}

/// Every session stands soundly, whatever happened in it.
pub proof fn sessions_are_sound(inputs: Seq<Input>)
    ensures
        session::sound(after(inputs)),
    decreases inputs.len(),
{
    if inputs.len() > 0 {
        sessions_are_sound(inputs.drop_last());
    }
}

/// Audio waits only until it makes a packet: when the session waits after audio
/// came or was sent, less than a packet is left.
pub proof fn full_segments_do_not_wait(s: SessionView, input: Input)
    requires
        match input {
            Input::Audio(_) => session::wants_audio(s),
            Input::Sent => s.sending == session::Message::Audio,
            _ => false,
        },
        session::step(s, input).1 is Wait,
    ensures
        session::step(s, input).0.pcm.len() < SEGMENT_BYTES,
{
}

/// A session that is given up ends without a word, wherever it stands.
pub proof fn cancelling_is_silent(s: SessionView)
    ensures
        session::step(s, Input::Cancel) == (s, ActionView::Quit),
{
}

/// Capture counts as open just until it is reported closed.
pub proof fn capture_is_open_until_closed(inputs: Seq<Input>)
    ensures
        after(inputs).audio_open <==> forall|i: int|
            0 <= i < inputs.len() ==> !(#[trigger] inputs[i] is AudioClosed),
    decreases inputs.len(),
{
    if inputs.len() > 0 {
        let init = inputs.drop_last();
        capture_is_open_until_closed(init);
        session::audio_and_text_stand_apart(after(init), inputs.last());
        let last = inputs.len() - 1;
        if after(inputs).audio_open {
            assert forall|i: int| 0 <= i < inputs.len() implies !(#[trigger] inputs[i] is
                AudioClosed) by {
                if i < last {
                    assert(init[i] == inputs[i]);
                }
            }
        } else if after(init).audio_open {
            assert(inputs[last] is AudioClosed);
        } else {
            let i = choose|i: int| 0 <= i < init.len() && #[trigger] init[i] is AudioClosed;
            assert(inputs[i] is AudioClosed);
        }
    }
}

/// The last audio was sent just where what was left when capture had stopped was
/// handed over, in a session that has not failed.
pub proof fn finished_when_all_was_handed_over(inputs: Seq<Input>)
    requires
        alive(inputs),
    ensures
        after(inputs).finished <==> exists|i: int|
            0 <= i < inputs.len() && #[trigger] inputs[i] is Leftover,
    decreases inputs.len(),
{
    if inputs.len() > 0 {
        let init = inputs.drop_last();
        finished_when_all_was_handed_over(init);
        let last = inputs.len() - 1;
        if inputs.last() is Leftover {
            assert(inputs[last] is Leftover);
        } else if after(init).finished {
            let i = choose|i: int| 0 <= i < init.len() && #[trigger] init[i] is Leftover;
            assert(inputs[i] is Leftover);
        } else {
            assert forall|i: int| 0 <= i < inputs.len() implies !(#[trigger] inputs[i] is
                Leftover) by {
                if i < last {
                    assert(init[i] == inputs[i]);
                }
            }
        }
    }
}

} // verus!
