//! What the addon is told, and when it no longer is.
use crate::error;
use crate::session::{Action, ActionView, Event, EventView};
use vstd::prelude::*;

verus! {

pub const VT_EVENT_PARTIAL: i32 = 0;

pub const VT_EVENT_FINAL: i32 = 1;

pub const VT_EVENT_ERROR: i32 = 2;

/// What the addon is told: a kind of event, and a text that can be handed over
/// as one that ends with NUL.
#[derive(Debug, PartialEq, Eq)]
pub struct Notice {
    pub kind: i32,
    pub text: String,
}

/// A notice as characters.
pub struct NoticeView {
    pub kind: int,
    pub text: Seq<char>,
}

impl View for Notice {
    type V = NoticeView;

    open spec fn view(&self) -> NoticeView {
        NoticeView { kind: self.kind as int, text: self.text@ }
    }
}

/// The notice, if there is one, as characters.
pub open spec fn maybe_notice(n: Option<Notice>) -> Option<NoticeView> {
    match n {
        Some(n) => Some(n@),
        None => None,
    }
}

/// `t` with a blank in place of each NUL.
pub open spec fn without_nul(t: Seq<char>) -> Seq<char> {
    t.map_values(
        |c: char|
            if c == '\0' {
                ' '
            } else {
                c
            },
    )
}

/// No NUL is left, and nothing else has changed.
pub proof fn nothing_but_nul_changes(t: Seq<char>)
    ensures
        without_nul(t).len() == t.len(),
        forall|i: int| 0 <= i < t.len() ==> #[trigger] without_nul(t)[i] != '\0',
        forall|i: int|
            0 <= i < t.len() && t[i] != '\0' ==> #[trigger] without_nul(t)[i] == t[i],
{
}

/// `t` with a blank in place of each NUL.
fn replace_nul(t: &str) -> (r: String)
    ensures
        r@ == without_nul(t@),
{
    let mut out = String::new();
    assert(without_nul(t@.take(0)) =~= Seq::empty());
    for c in it: t.chars()
        invariant
            it.seq() == t@,
            out@ == without_nul(t@.take(it.index())),
    {
        assert(t@.take(it.index() + 1) =~= t@.take(it.index()).push(c));
        if c == '\0' {
            out.push(' ');
        } else {
            out.push(c);
        }
        assert(out@ =~= without_nul(t@.take(it.index() + 1)));
    }
    assert(t@.take(t@.len() as int) =~= t@);
    out
}

/// How a session ended.
#[derive(Debug)]
pub enum Outcome {
    /// As it should.
    Ended,
    /// With an error; the text tells of it.
    Failed(String),
    /// With a panic, and its message, if it had a readable one.
    Panicked(Option<String>),
}

/// How a session ended, as characters.
pub enum OutcomeView {
    Ended,
    Failed(Seq<char>),
    Panicked(Option<Seq<char>>),
}

impl View for Outcome {
    type V = OutcomeView;

    open spec fn view(&self) -> OutcomeView {
        match *self {
            Outcome::Ended => OutcomeView::Ended,
            Outcome::Failed(t) => OutcomeView::Failed(t@),
            Outcome::Panicked(Some(t)) => OutcomeView::Panicked(Some(t@)),
            Outcome::Panicked(None) => OutcomeView::Panicked(None),
        }
    }
}

/// How a session ends with the action, where it does: a session that is
/// concluded or given up ends as it should.
pub open spec fn outcome_of(a: ActionView) -> Option<OutcomeView> {
    match a {
        ActionView::Conclude(_) => Some(OutcomeView::Ended),
        ActionView::Quit => Some(OutcomeView::Ended),
        ActionView::Fail(e) => Some(OutcomeView::Failed(error::failure_text(e))),
        _ => None,
    }
}

impl Outcome {
    /// How a session ends with the action, where it does.
    pub fn of(a: &Action) -> (r: Option<Outcome>)
        ensures
            match outcome_of(a@) {
                Some(o) => r matches Some(out) && out@ == o,
                None => r is None,
            },
    {
        match a {
            Action::Conclude(_) => Some(Outcome::Ended),
            Action::Quit => Some(Outcome::Ended),
            Action::Fail(e) => Some(Outcome::Failed(e.message())),
            _ => None,
        }
    }
}

/// What is told of how a session ended: nothing, where it ended as it should.
pub open spec fn outcome_text(o: OutcomeView) -> Option<Seq<char>> {
    match o {
        OutcomeView::Ended => None,
        OutcomeView::Failed(t) => Some(t),
        OutcomeView::Panicked(Some(t)) => Some("internal error: "@ + t),
        OutcomeView::Panicked(None) => Some("internal error: "@ + "unknown panic"@),
    }
}

/// What is delivered of the text, where the way to the addon is open.
pub open spec fn delivered(open: bool, kind: int, t: Seq<char>) -> Option<NoticeView> {
    if open {
        Some(NoticeView { kind, text: without_nul(t) })
    } else {
        None
    }
}

/// What is delivered of an event.
pub open spec fn event_notice(open: bool, ev: EventView) -> Option<NoticeView> {
    match ev {
        EventView::Partial(t) => delivered(open, VT_EVENT_PARTIAL as int, t),
        EventView::Final(t) => delivered(open, VT_EVENT_FINAL as int, t),
    }
}

/// What is delivered of how a session ended.
pub open spec fn outcome_notice(open: bool, o: OutcomeView) -> Option<NoticeView> {
    match outcome_text(o) {
        Some(t) => delivered(open, VT_EVENT_ERROR as int, t),
        None => None,
    }
}

/// The way to the addon. It is open until the addon closes it.
pub struct Mailbox {
    open: bool,
}

impl Mailbox {
    /// Whether notices are delivered.
    pub closed spec fn is_open(&self) -> bool {
        self.open
    }

    /// The addon is there.
    pub fn new() -> (r: Mailbox)
        ensures
            r.is_open(),
    {
        Mailbox { open: true }
    }

    /// The addon is gone: nothing is delivered from here on.
    pub fn close(&mut self)
        ensures
            !final(self).is_open(),
    {
        self.open = false;
    }

    /// The notice to deliver, where the addon is there.
    fn post(&self, kind: i32, text: &str) -> (r: Option<Notice>)
        ensures
            maybe_notice(r) == delivered(self.is_open(), kind as int, text@),
    {
        if self.open {
            Some(Notice { kind, text: replace_nul(text) })
        } else {
            None
        }
    }

    /// The notice of an event.
    pub fn post_event(&self, ev: &Event) -> (r: Option<Notice>)
        ensures
            maybe_notice(r) == event_notice(self.is_open(), ev@),
    {
        match ev {
            Event::Partial(t) => self.post(VT_EVENT_PARTIAL, t.as_str()),
            Event::Final(t) => self.post(VT_EVENT_FINAL, t.as_str()),
        }
    }

    /// The notice of how a session ended: none, where it ended as it should.
    pub fn post_outcome(&self, o: &Outcome) -> (r: Option<Notice>)
        ensures
            maybe_notice(r) == outcome_notice(self.is_open(), o@),
    {
        match o {
            Outcome::Ended => None,
            Outcome::Failed(t) => self.post(VT_EVENT_ERROR, t.as_str()),
            Outcome::Panicked(message) => {
                let mut told = "internal error: ".to_owned();
                match message {
                    Some(t) => told.append(t.as_str()),
                    None => told.append("unknown panic"),
                }
                self.post(VT_EVENT_ERROR, told.as_str())
            },
        }
    }
}

/// Only a session that ended as it should ends without a notice; every other end
/// is told as an error.
pub proof fn only_a_good_end_is_silent(o: OutcomeView)
    ensures
        outcome_notice(true, o) is None <==> o is Ended,
        outcome_notice(true, o) matches Some(n) ==> n.kind == VT_EVENT_ERROR,
{
}

/// A call of a mailbox.
pub enum Call {
    Event(EventView),
    Outcome(OutcomeView),
    Close,
}

/// Whether the way to the addon is open after the calls.
pub open spec fn open_after(calls: Seq<Call>) -> bool
    decreases calls.len(),
{
    calls.len() > 0 ==> open_after(calls.drop_last()) && !(calls.last() is Close)
}

/// What is delivered upon the last call.
pub open spec fn answer(calls: Seq<Call>) -> Option<NoticeView> {
    let open = open_after(calls.drop_last());
    match calls.last() {
        Call::Event(ev) => event_notice(open, ev),
        Call::Outcome(o) => outcome_notice(open, o),
        Call::Close => None,
    }
}

/// Once the mailbox was closed, nothing is delivered ever again.
pub proof fn closed_for_good(calls: Seq<Call>, at: int)
    requires
        0 <= at < calls.len(),
        calls[at] is Close,
    ensures
        !open_after(calls),
        answer(calls) is None,
    decreases calls.len(),
{
    if at < calls.len() - 1 {
        closed_for_good(calls.drop_last(), at);
    }
}

/// Until the mailbox is closed, everything is delivered.
pub proof fn open_until_closed(calls: Seq<Call>)
    requires
        calls.len() > 0,
        forall|i: int| 0 <= i < calls.len() ==> !(#[trigger] calls[i] is Close),
    ensures
        open_after(calls),
        calls.last() matches Call::Event(ev) ==> answer(calls) == event_notice(true, ev)
            && answer(calls) is Some,
        calls.last() matches Call::Outcome(o) ==> answer(calls) == outcome_notice(true, o),
    decreases calls.len(),
{
    let init = calls.drop_last();
    assert(!(calls[calls.len() - 1] is Close));
    if init.len() > 0 {
        assert forall|i: int| 0 <= i < init.len() implies !(#[trigger] init[i] is Close) by {
            assert(!(calls[i] is Close));
        }
        open_until_closed(init);
    }
}

/// The addon is told of a partial text as kind 0, of a final text as kind 1 and of
/// an error as kind 2, each time with the whole text, and of nothing once it is
/// gone.
pub proof fn notices_carry_the_whole_text(t: Seq<char>)
    ensures
        event_notice(true, EventView::Partial(t)) == Some(
            NoticeView { kind: 0, text: without_nul(t) },
        ),
        event_notice(true, EventView::Final(t)) == Some(
            NoticeView { kind: 1, text: without_nul(t) },
        ),
        outcome_notice(true, OutcomeView::Failed(t)) == Some(
            NoticeView { kind: 2, text: without_nul(t) },
        ),
        event_notice(false, EventView::Partial(t)) is None,
        event_notice(false, EventView::Final(t)) is None,
        outcome_notice(false, OutcomeView::Failed(t)) is None,
        outcome_notice(false, OutcomeView::Panicked(Some(t))) is None,
        outcome_notice(false, OutcomeView::Panicked(None)) is None,
{
}

/// A panic is told as an internal error, with its message, all of it.
pub proof fn panics_are_told_with_their_message(t: Seq<char>)
    ensures
        outcome_text(OutcomeView::Panicked(Some(t))) == Some("internal error: "@ + t),
        outcome_text(OutcomeView::Panicked(None)) == outcome_text(
            OutcomeView::Panicked(Some("unknown panic"@)),
        ),
{
}

/// A NUL, and nothing else, becomes a blank, wherever it stands.
pub proof fn nul_becomes_a_blank(a: Seq<char>, c: char, b: Seq<char>)
    ensures
        without_nul(a + seq![c] + b) == without_nul(a) + seq![
            if c as u32 == 0 {
                ' '
            } else {
                c
            },
        ] + without_nul(b),
{
    assert(without_nul(a + seq![c] + b) =~= without_nul(a) + seq![
        if c as u32 == 0 {
            ' '
        } else {
            c
        },
    ] + without_nul(b));
}

/// A session that fails is told by the message of its error, and one that does
/// not end has no outcome.
pub proof fn failures_are_told_by_their_message(a: ActionView)
    ensures
        a matches ActionView::Fail(e) ==> outcome_of(a) == Some(
            OutcomeView::Failed(error::failure_text(e)),
        ),
        a is Conclude || a is Quit ==> outcome_of(a) == Some(OutcomeView::Ended),
        a is Wait || a is Send || a is StopCapture || a is Tell ==> outcome_of(a) is None,
{
}

/// Notices and outcomes are seen whole.
pub proof fn notices_are_seen_whole(n: Notice, t: String)
    ensures
        n@ == (NoticeView { kind: n.kind as int, text: n.text@ }),
        maybe_notice(Some(n)) == Some(n@),
        maybe_notice(None) is None,
        Outcome::Ended@ is Ended,
        Outcome::Failed(t)@ == OutcomeView::Failed(t@),
        Outcome::Panicked(Some(t))@ == OutcomeView::Panicked(Some(t@)),
        Outcome::Panicked(None)@ == OutcomeView::Panicked(None),
{
}

} // verus!
