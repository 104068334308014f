//! The session state machine: tracks whether a telemetry session is
//! active or idle, and decides what to publish for each decoded datagram.
//!
//! A valid sample always moves to `Active` and publishes the freshly
//! composed status; the disconnect signal always moves to `Idle` and
//! publishes the idle status, whatever the state was; malformed input
//! changes nothing and publishes nothing. The machine begins in `Idle`,
//! and the caller publishes the idle status once before any datagram.

use vstd::prelude::*;
use vstd::utf8::decode_utf8;
use vstd::utf8::valid_utf8;

use crate::compose::compose;
use crate::compose::compose_spec;
use crate::compose::opt_string_view;
use crate::compose::Status;
use crate::compose::StatusView;
use crate::decode::bye_line;
use crate::decode::classify_datagram;
use crate::decode::decode_datagram;
use crate::decode::is_telem_line;
use crate::decode::Decoded;
use crate::decode::DecodedView;

verus! {

/// The single long-lived display state.
pub enum SessionStatus {
    Idle,
    Active(Status),
}

pub enum SessionStatusView {
    Idle,
    Active(StatusView),
}

impl View for SessionStatus {
    type V = SessionStatusView;

    open spec fn view(&self) -> SessionStatusView {
        match self {
            SessionStatus::Idle => SessionStatusView::Idle,
            SessionStatus::Active(st) => SessionStatusView::Active(st@),
        }
    }
}

/// The session state machine: the display state plus the user's optional
/// override callsign.
pub struct Session {
    pub status: SessionStatus,
    pub callsign: Option<String>,
}

pub struct SessionView {
    pub status: SessionStatusView,
    pub callsign: Option<Seq<char>>,
}

impl View for Session {
    type V = SessionView;

    open spec fn view(&self) -> SessionView {
        SessionView { status: self.status@, callsign: opt_string_view(self.callsign) }
    }
}

pub open spec fn idle_title() -> Seq<char> {
    seq!['M', 'i', 's', 's', 'i', 'o', 'n', ' ', 'p', 'l', 'a', 'n', 'n', 'i', 'n', 'g']
}

/// The baseline status shown while no session is active.
pub open spec fn idle_view() -> StatusView {
    StatusView { title: idle_title(), detail: None, small_image: None, small_text: None }
}

/// One step of the machine: the state after a decoded datagram, and the
/// status to publish, if any.
pub open spec fn spec_step(s: SessionView, d: DecodedView) -> (SessionView, Option<StatusView>) {
    match d {
        DecodedView::Bye => (
            SessionView { status: SessionStatusView::Idle, callsign: s.callsign },
            Some(idle_view()),
        ),
        DecodedView::Telem(t) => {
            let st = compose_spec(t, s.callsign);
            (SessionView { status: SessionStatusView::Active(st), callsign: s.callsign }, Some(st))
        },
        DecodedView::Malformed => (s, None),
    }
}

pub open spec fn opt_status_view(r: Option<Status>) -> Option<StatusView> {
    match r {
        Some(st) => Some(st@),
        None => None,
    }
}

impl Session {
    /// A fresh machine: idle, with no override callsign.
    pub fn new() -> (s: Session)
        ensures
            s@.status is Idle,
            s@.callsign is None,
    {
        Session { status: SessionStatus::Idle, callsign: None }
    }

    /// The baseline idle status: a static title and no detail.
    pub fn idle_status() -> (st: Status)
        ensures
            st@ == idle_view(),
    {
        proof {
            reveal_strlit("Mission planning");
        }
        let st = Status {
            title: String::from_str("Mission planning"),
            detail: None,
            small_image: None,
            small_text: None,
        };
        proof {
            assert(st@.title =~= idle_title());
        }
        st
    }

    /// Records the user's override callsign; empty text clears it.
    pub fn set_callsign(&mut self, callsign: String)
        ensures
            final(self)@.status == old(self)@.status,
            final(self)@.callsign == if callsign@.len() == 0 {
                None::<Seq<char>>
            } else {
                Some(callsign@)
            },
    {
        self.callsign = if callsign.as_str().is_empty() {
            None
        } else {
            Some(callsign)
        };
    }

    /// Steps the machine on one decoded datagram, returning the status to
    /// publish, if any.
    pub fn handle_decoded(&mut self, d: Decoded) -> (r: Option<Status>)
        requires
            d matches Decoded::Telem(t) ==> t.wf(),
        ensures
            final(self)@ == spec_step(old(self)@, d@).0,
            opt_status_view(r) == spec_step(old(self)@, d@).1,
    {
        match d {
            Decoded::Bye => {
                self.status = SessionStatus::Idle;
                Some(Self::idle_status())
            },
            Decoded::Telem(t) => {
                let st = compose(&t, &self.callsign);
                let published = st.duplicate();
                self.status = SessionStatus::Active(st);
                Some(published)
            },
            Decoded::Malformed => None,
        }
    }

    /// Decodes one raw datagram and steps the machine on the outcome.
    pub fn handle_datagram(&mut self, input: &[u8]) -> (r: Option<Status>)
        ensures
            final(self)@ == spec_step(old(self)@, classify_datagram(input@)).0,
            opt_status_view(r) == spec_step(old(self)@, classify_datagram(input@)).1,
    {
        let d = decode_datagram(input);
        self.handle_decoded(d)
    }
}

/// The disconnect signal is idempotent: from any state it moves to `Idle`
/// and publishes the idle status, and a second disconnect does exactly
/// the same again.
pub proof fn lemma_bye_idempotent(s: SessionView)
    ensures
        spec_step(s, DecodedView::Bye).0.status is Idle,
        spec_step(s, DecodedView::Bye).1 == Some(idle_view()),
        spec_step(spec_step(s, DecodedView::Bye).0, DecodedView::Bye) == spec_step(
            s,
            DecodedView::Bye,
        ),
{
}

/// A datagram that is not UTF-8, and a line that is neither the
/// disconnect signal nor a telemetry command, is malformed: the machine
/// keeps its state and publishes nothing.
pub proof fn lemma_unrecognized_ignored(s: SessionView, bytes: Seq<u8>)
    requires
        !valid_utf8(bytes) || (decode_utf8(bytes) != bye_line() && !is_telem_line(
            decode_utf8(bytes),
        )),
    ensures
        classify_datagram(bytes) is Malformed,
        spec_step(s, classify_datagram(bytes)) == (s, Option::<StatusView>::None),
{
}

} // verus!
