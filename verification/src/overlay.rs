use vstd::prelude::*;
use crate::animator::Animator;
use crate::compositor::Frame;
use crate::compositor::Viewport;
use crate::compositor::render;
use crate::compositor::spec_rows;
use crate::scrollback::ScrollbackBuffer;
use crate::scrollback::visible_window;
use crate::session::ReadEvent;
use crate::session::SessionTracker;

verus! {

/// The animator after a batch of pending toggle signals, applied oldest
/// first, each one debounced.
pub open spec fn fold_toggles(a: Animator, ts: Seq<u64>, n: int) -> Animator
    decreases n,
{
    if n <= 0 {
        a
    } else {
        fold_toggles(a, ts, n - 1).spec_toggle(ts[n - 1])
    }
}

/// The whole overlay core: the scrollback fed by the reader task, the
/// animator driven by the foreground loop, and the session liveness that
/// gates the reader. The reader side calls `feed`; the foreground loop calls
/// `tick` once per cadence and hands the frame to the presentation layer.
pub struct Overlay {
    pub scrollback: ScrollbackBuffer,
    pub animator: Animator,
    pub session: SessionTracker,
}

impl Overlay {
    pub open spec fn wf(self) -> bool {
        &&& self.scrollback.wf()
        &&& self.animator.wf()
    }

    /// A hidden overlay around an empty scrollback and a live session: the
    /// scrollback holds the given capacity (a zero request clamped to one),
    /// the animator the given extent with the default timing constants.
    pub fn new(capacity: usize, extent: u64) -> (r: Overlay)
        ensures
            r.wf(),
            r.scrollback.lines_view() == Seq::<Seq<char>>::empty(),
            r.scrollback.partial_view() == Seq::<u8>::empty(),
            r.scrollback.cap() == if capacity >= 1 {
                capacity as int
            } else {
                1
            },
            r.scrollback.off() == 0,
            !r.scrollback.pinned_flag(),
            r.animator.state == crate::animator::VisibilityState::Hidden,
            r.animator.extent == if extent <= crate::animator::MAX_ANIM_PARAM {
                extent
            } else {
                crate::animator::MAX_ANIM_PARAM
            },
            r.animator.duration_ms == crate::animator::DEFAULT_DURATION_MS,
            r.animator.debounce_ms == crate::animator::DEFAULT_DEBOUNCE_MS,
            r.animator.last_accepted == Option::<u64>::None,
            r.session.live(),
    {
        Overlay {
            scrollback: ScrollbackBuffer::new(capacity),
            animator: Animator::with_defaults(extent),
            session: SessionTracker::new(),
        }
    }

    /// Reader-task entry point: apply one read outcome to the scrollback
    /// under the shared-handle lock. While live, fresh bytes are ingested
    /// and end of stream kills the session and appends the session-ended
    /// status line; would-block, or any event once dead, changes nothing.
    pub fn feed(&mut self, ev: ReadEvent)
        requires
            old(self).wf(),
        ensures
            final(self).wf(),
            final(self).animator == old(self).animator,
            final(self).session.live() == (old(self).session.live() && !(ev matches
            ReadEvent::Closed)),
            final(self).scrollback.cap() == old(self).scrollback.cap(),
            final(self).scrollback.pinned_flag() == old(self).scrollback.pinned_flag(),
            match ev {
                ReadEvent::Data(bytes) => if old(self).session.live() {
                    &&& final(self).scrollback.lines_view() == crate::scrollback::evict_to_cap(
                        old(self).scrollback.lines_view() + crate::scrollback::decoded_lines(
                            crate::scrollback::complete_lines(
                                old(self).scrollback.partial_view() + bytes@,
                            ),
                        ),
                        old(self).scrollback.cap(),
                    )
                    &&& final(self).scrollback.partial_view() == crate::scrollback::tail_fragment(
                        old(self).scrollback.partial_view() + bytes@,
                    )
                    &&& final(self).scrollback.off() == crate::scrollback::follow_offset(
                        old(self).scrollback.off(),
                        old(self).scrollback.pinned_flag(),
                        crate::scrollback::complete_lines(
                            old(self).scrollback.partial_view() + bytes@,
                        ).len() as int,
                        final(self).scrollback.lines_view().len() as int,
                    )
                } else {
                    final(self).scrollback == old(self).scrollback
                },
                ReadEvent::WouldBlock => final(self).scrollback == old(self).scrollback,
                ReadEvent::Closed => if old(self).session.live() {
                    &&& final(self).scrollback.lines_view() == crate::scrollback::evict_to_cap(
                        old(self).scrollback.lines_view().push(
                            crate::session::session_ended_note(),
                        ),
                        old(self).scrollback.cap(),
                    )
                    &&& final(self).scrollback.partial_view() == old(
                        self,
                    ).scrollback.partial_view()
                    &&& final(self).scrollback.off() == crate::scrollback::follow_offset(
                        old(self).scrollback.off(),
                        old(self).scrollback.pinned_flag(),
                        1,
                        final(self).scrollback.lines_view().len() as int,
                    )
                } else {
                    final(self).scrollback == old(self).scrollback
                },
            },
    {
        self.session.on_read_event(ev, &mut self.scrollback);
    }

    /// One foreground tick, bounded work, never blocking: drain the pending
    /// toggle signals (debounced, oldest first), settle a finished slide,
    /// and project the scrollback through the viewport at the offset the
    /// animator reports for `now`. Only the animator moves; the scrollback
    /// and session are read, not written.
    pub fn tick(&mut self, now: u64, toggles: &Vec<u64>, viewport: Viewport) -> (frame: Frame)
        requires
            old(self).wf(),
        ensures
            final(self).wf(),
            final(self).scrollback == old(self).scrollback,
            final(self).session == old(self).session,
            final(self).animator == fold_toggles(
                old(self).animator,
                toggles@,
                toggles@.len() as int,
            ).spec_step(now),
            frame.width == viewport.spec_clamped().width,
            frame.height == viewport.spec_clamped().height,
            frame.rows@.map_values(|r: crate::compositor::Row| (r.y as int, r.text@)) == ({
                let shown = final(self).animator.spec_offset(now);
                let h = viewport.spec_clamped().height as int;
                let lh = viewport.spec_clamped().line_height as int;
                let window = visible_window(
                    final(self).scrollback.lines_view(),
                    final(self).scrollback.off(),
                    h / lh + 1,
                );
                spec_rows(
                    window,
                    if shown <= h {
                        shown
                    } else {
                        h
                    },
                    h,
                    lh,
                    window.len() as int,
                )
            }),
    {
        let mut k: usize = 0;
        while k < toggles.len()
            invariant
                k <= toggles@.len(),
                old(self).wf(),
                self.scrollback == old(self).scrollback,
                self.session == old(self).session,
                self.animator.wf(),
                self.animator == fold_toggles(old(self).animator, toggles@, k as int),
            decreases toggles@.len() - k,
        {
            self.animator.accept_toggle(toggles[k]);
            k = k + 1;
        }
        self.animator.step(now);
        let v = viewport.clamped();
        let rows_fit: usize = (v.height / v.line_height + 1) as usize;
        let shown: u64 = self.animator.current_offset(now);
        let snapshot = self.scrollback.visible_lines(rows_fit);
        let frame = render(&snapshot, shown, v);
        proof {
            assert(viewport.spec_clamped().spec_clamped() == viewport.spec_clamped());
            crate::animator::lemma_offset_in_range(self.animator, now);
        }
        frame
    }
}

} // verus!
