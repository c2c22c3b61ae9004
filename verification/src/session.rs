use vstd::prelude::*;
use crate::scrollback::ScrollbackBuffer;
use crate::scrollback::complete_lines;
use crate::scrollback::decoded_lines;
use crate::scrollback::evict_to_cap;
use crate::scrollback::follow_offset;
use crate::scrollback::tail_fragment;

verus! {

/// What one non-blocking read of the session's output endpoint produced:
/// fresh bytes, nothing yet, or end of stream because the child exited.
pub enum ReadEvent {
    Data(Vec<u8>),
    WouldBlock,
    Closed,
}

/// The session error taxonomy: a failed spawn is fatal to startup; a write
/// on a dead session and a read after close degrade the session, not the
/// process.
#[derive(Clone, Copy, PartialEq, Eq, Structural, Debug)]
pub enum SessionError {
    Spawn,
    Write,
    Closed,
}

impl SessionError {
    /// A diagnostic for the presentation layer.
    pub fn message(&self) -> (r: String)
        ensures
            match self {
                SessionError::Spawn => r@ == "could not spawn the shell session"@,
                SessionError::Write => r@ == "session input closed"@,
                SessionError::Closed => r@ == "session ended"@,
            },
    {
        match self {
            SessionError::Spawn => "could not spawn the shell session".to_owned(),
            SessionError::Write => "session input closed".to_owned(),
            SessionError::Closed => "session ended".to_owned(),
        }
    }
}

/// The status line appended to the scrollback when the session closes, so
/// the overlay keeps the last output visible instead of blanking.
pub open spec fn session_ended_note() -> Seq<char> {
    "[session ended]"@
}

/// Liveness of the child session, as the verified core tracks it: the
/// process-facing endpoints live outside, and hand their outcomes in as
/// `ReadEvent`s. While live, reads may be attempted; once the stream closes
/// the tracker goes dead, stays dead, and gates off further reads and
/// writes.
pub struct SessionTracker {
    alive: bool,
}

impl SessionTracker {
    pub closed spec fn live(self) -> bool {
        self.alive
    }

    pub fn new() -> (r: SessionTracker)
        ensures
            r.live(),
    {
        SessionTracker { alive: true }
    }

    pub fn is_alive(&self) -> (r: bool)
        ensures
            r == self.live(),
    {
        self.alive
    }

    /// Whether the reader task should attempt another read: exactly while
    /// the session is live.
    pub fn wants_read(&self) -> (r: bool)
        ensures
            r == self.live(),
    {
        self.alive
    }

    /// Gate for forwarding keystrokes: `Ok` exactly while the session is
    /// live, `Err(Write)` once it is dead.
    pub fn check_write(&self) -> (r: Result<(), SessionError>)
        ensures
            self.live() ==> r == Result::<(), SessionError>::Ok(()),
            !self.live() ==> r == Result::<(), SessionError>::Err(SessionError::Write),
    {
        if self.alive {
            Result::Ok(())
        } else {
            Result::Err(SessionError::Write)
        }
    }

    /// Forceful or natural termination; idempotent, safe after exit.
    pub fn mark_dead(&mut self)
        ensures
            !final(self).live(),
    {
        self.alive = false;
    }

    /// Apply one read outcome to the scrollback. Fresh bytes are ingested;
    /// end of stream kills the session and appends a status line so the last
    /// output stays visible; nothing happens on would-block or once dead.
    pub fn on_read_event(&mut self, ev: ReadEvent, buf: &mut ScrollbackBuffer)
        requires
            old(buf).wf(),
        ensures
            final(buf).wf(),
            final(self).live() == (old(self).live() && !(ev matches ReadEvent::Closed)),
            final(buf).cap() == old(buf).cap(),
            final(buf).pinned_flag() == old(buf).pinned_flag(),
            match ev {
                ReadEvent::Data(bytes) => if old(self).live() {
                    &&& final(buf).lines_view() == evict_to_cap(
                        old(buf).lines_view() + decoded_lines(
                            complete_lines(old(buf).partial_view() + bytes@),
                        ),
                        old(buf).cap(),
                    )
                    &&& final(buf).partial_view() == tail_fragment(
                        old(buf).partial_view() + bytes@,
                    )
                    &&& final(buf).off() == follow_offset(
                        old(buf).off(),
                        old(buf).pinned_flag(),
                        complete_lines(old(buf).partial_view() + bytes@).len() as int,
                        final(buf).lines_view().len() as int,
                    )
                } else {
                    *final(buf) == *old(buf)
                },
                ReadEvent::WouldBlock => *final(buf) == *old(buf),
                ReadEvent::Closed => if old(self).live() {
                    &&& final(buf).lines_view() == evict_to_cap(
                        old(buf).lines_view().push(session_ended_note()),
                        old(buf).cap(),
                    )
                    &&& final(buf).partial_view() == old(buf).partial_view()
                    &&& final(buf).off() == follow_offset(
                        old(buf).off(),
                        old(buf).pinned_flag(),
                        1,
                        final(buf).lines_view().len() as int,
                    )
                } else {
                    *final(buf) == *old(buf)
                },
            },
    {
        match ev {
            ReadEvent::Data(bytes) => {
                if self.alive {
                    buf.ingest(bytes.as_slice());
                }
            },
            ReadEvent::WouldBlock => {},
            ReadEvent::Closed => {
                if self.alive {
                    self.alive = false;
                    buf.append_line("[session ended]".to_owned());
                } else {
                    self.alive = false;
                }
            },
        }
    }
}

} // verus!
