use vstd::prelude::*;
use crate::clock::spec_elapsed;
use crate::clock::elapsed_ms;
use vstd::arithmetic::mul::lemma_mul_inequality;
use vstd::arithmetic::div_mod::lemma_div_is_ordered;
use vstd::arithmetic::div_mod::lemma_div_multiples_vanish;

verus! {

/// Default slide duration, in milliseconds.
pub const DEFAULT_DURATION_MS: u64 = 200;

/// Default minimum interval between accepted toggle signals.
pub const DEFAULT_DEBOUNCE_MS: u64 = 300;

/// Largest accepted extent or duration; keeps the interpolation product in
/// range.
pub const MAX_ANIM_PARAM: u64 = 0xFFFF_FFFF;

/// Where the overlay is in its show/hide cycle. Sliding states carry the
/// wall-clock start of the slide and `base`, the progress (in milliseconds of
/// animation time) already covered when the slide began — nonzero when a
/// toggle reversed a slide mid-flight, so that the reversal continues from
/// the interrupted position instead of snapping to an endpoint.
#[derive(Clone, Copy, PartialEq, Eq, Structural, Debug)]
pub enum VisibilityState {
    Hidden,
    SlidingIn { start: u64, base: u64 },
    Visible,
    SlidingOut { start: u64, base: u64 },
}

/// Drives the overlay's vertical offset from debounced toggle signals and
/// wall-clock time. Offset convention: 0 is fully hidden, `extent` fully
/// shown, so `current_offset` is how many pixels of the overlay are on
/// screen.
#[derive(Clone, Copy, Debug)]
pub struct Animator {
    pub state: VisibilityState,
    /// Travel distance in pixels between fully hidden and fully shown.
    pub extent: u64,
    /// Slide duration in milliseconds; positive.
    pub duration_ms: u64,
    /// Minimum interval between accepted toggles, in milliseconds.
    pub debounce_ms: u64,
    /// Instant of the last accepted toggle, if any.
    pub last_accepted: Option<u64>,
}

/// Animation progress in [0, dur]: `base` plus time elapsed in the slide,
/// clamped at the duration.
pub open spec fn clamped_progress(start: u64, base: u64, dur: u64, now: u64) -> int {
    let e = base + spec_elapsed(start, now);
    if e >= dur {
        dur as int
    } else {
        e
    }
}

impl Animator {
    pub open spec fn wf(self) -> bool {
        &&& 0 < self.duration_ms <= MAX_ANIM_PARAM
        &&& self.extent <= MAX_ANIM_PARAM
        &&& match self.state {
            VisibilityState::SlidingIn { start: _, base } => base <= self.duration_ms,
            VisibilityState::SlidingOut { start: _, base } => base <= self.duration_ms,
            _ => true,
        }
    }

    /// The vertical offset at `now`: linear interpolation over the clamped
    /// progress, rising toward `extent` while sliding in, falling toward 0
    /// while sliding out.
    pub open spec fn spec_offset(self, now: u64) -> int {
        match self.state {
            VisibilityState::Hidden => 0,
            VisibilityState::Visible => self.extent as int,
            VisibilityState::SlidingIn { start, base } => self.extent * clamped_progress(
                start,
                base,
                self.duration_ms,
                now,
            ) / self.duration_ms as int,
            VisibilityState::SlidingOut { start, base } => self.extent * (self.duration_ms
                - clamped_progress(start, base, self.duration_ms, now)) / self.duration_ms as int,
        }
    }

    /// Whether a toggle signal arriving at `now` passes the debounce filter.
    pub open spec fn spec_toggle_accepted(self, now: u64) -> bool {
        match self.last_accepted {
            Option::None => true,
            Option::Some(t) => spec_elapsed(t, now) >= self.debounce_ms,
        }
    }

    /// The state an accepted toggle at `now` moves to: hidden and visible
    /// start a fresh slide; a slide in flight reverses from its current
    /// progress.
    pub open spec fn spec_transition(self, now: u64) -> VisibilityState {
        match self.state {
            VisibilityState::Hidden => VisibilityState::SlidingIn { start: now, base: 0 },
            VisibilityState::Visible => VisibilityState::SlidingOut { start: now, base: 0 },
            VisibilityState::SlidingIn { start, base } => VisibilityState::SlidingOut {
                start: now,
                base: (self.duration_ms - clamped_progress(
                    start,
                    base,
                    self.duration_ms,
                    now,
                )) as u64,
            },
            VisibilityState::SlidingOut { start, base } => VisibilityState::SlidingIn {
                start: now,
                base: (self.duration_ms - clamped_progress(
                    start,
                    base,
                    self.duration_ms,
                    now,
                )) as u64,
            },
        }
    }

    /// The whole animator after a toggle signal at `now`: unchanged when
    /// debounced, otherwise transitioned with the acceptance recorded.
    pub open spec fn spec_toggle(self, now: u64) -> Animator {
        if self.spec_toggle_accepted(now) {
            Animator {
                state: self.spec_transition(now),
                extent: self.extent,
                duration_ms: self.duration_ms,
                debounce_ms: self.debounce_ms,
                last_accepted: Option::Some(now),
            }
        } else {
            self
        }
    }

    /// The animator after the auto-transition check at `now`: a slide whose
    /// duration has elapsed settles into its endpoint state.
    pub open spec fn spec_step(self, now: u64) -> Animator {
        match self.state {
            VisibilityState::SlidingIn { start, base } => if clamped_progress(
                start,
                base,
                self.duration_ms,
                now,
            ) == self.duration_ms {
                Animator { state: VisibilityState::Visible, ..self }
            } else {
                self
            },
            VisibilityState::SlidingOut { start, base } => if clamped_progress(
                start,
                base,
                self.duration_ms,
                now,
            ) == self.duration_ms {
                Animator { state: VisibilityState::Hidden, ..self }
            } else {
                self
            },
            _ => self,
        }
    }

    /// An animator at rest, hidden, with nothing yet accepted. Zero
    /// parameters are clamped to the valid range.
    pub fn new(extent: u64, duration_ms: u64, debounce_ms: u64) -> (r: Animator)
        ensures
            r.wf(),
            r.state == VisibilityState::Hidden,
            r.last_accepted == Option::<u64>::None,
            r.extent == if extent <= MAX_ANIM_PARAM {
                extent
            } else {
                MAX_ANIM_PARAM
            },
            r.duration_ms == if 0 < duration_ms && duration_ms <= MAX_ANIM_PARAM {
                duration_ms
            } else if duration_ms == 0 {
                1
            } else {
                MAX_ANIM_PARAM
            },
            r.debounce_ms == debounce_ms,
    {
        Animator {
            state: VisibilityState::Hidden,
            extent: if extent <= MAX_ANIM_PARAM {
                extent
            } else {
                MAX_ANIM_PARAM
            },
            duration_ms: if duration_ms == 0 {
                1
            } else if duration_ms <= MAX_ANIM_PARAM {
                duration_ms
            } else {
                MAX_ANIM_PARAM
            },
            debounce_ms,
            last_accepted: Option::None,
        }
    }

    /// An animator with the default timing constants.
    pub fn with_defaults(extent: u64) -> (r: Animator)
        ensures
            r.wf(),
            r.state == VisibilityState::Hidden,
            r.last_accepted == Option::<u64>::None,
            r.extent == if extent <= MAX_ANIM_PARAM {
                extent
            } else {
                MAX_ANIM_PARAM
            },
            r.duration_ms == DEFAULT_DURATION_MS,
            r.debounce_ms == DEFAULT_DEBOUNCE_MS,
    {
        Self::new(extent, DEFAULT_DURATION_MS, DEFAULT_DEBOUNCE_MS)
    }

    /// How many pixels of the overlay are shown at `now`; pure in the state
    /// and the clock.
    pub fn current_offset(&self, now: u64) -> (r: u64)
        requires
            self.wf(),
        ensures
            r as int == self.spec_offset(now),
            r <= self.extent,
    {
        proof {
            lemma_offset_in_range(*self, now);
        }
        match self.state {
            VisibilityState::Hidden => 0,
            VisibilityState::Visible => self.extent,
            VisibilityState::SlidingIn { start, base } => {
                let p = exec_progress(start, base, self.duration_ms, now);
                proof {
                    lemma_interp_bound(self.extent, p, self.duration_ms);
                }
                (self.extent * p) / self.duration_ms
            },
            VisibilityState::SlidingOut { start, base } => {
                let p = exec_progress(start, base, self.duration_ms, now);
                proof {
                    lemma_interp_bound(self.extent, (self.duration_ms - p) as u64, self.duration_ms);
                }
                (self.extent * (self.duration_ms - p)) / self.duration_ms
            },
        }
    }

    /// Feed a toggle signal observed at `now`. Returns whether it survived
    /// the debounce filter; a rejected signal changes nothing.
    pub fn accept_toggle(&mut self, now: u64) -> (accepted: bool)
        requires
            old(self).wf(),
        ensures
            final(self).wf(),
            accepted == old(self).spec_toggle_accepted(now),
            *final(self) == old(self).spec_toggle(now),
    {
        let accepted = match self.last_accepted {
            Option::None => true,
            Option::Some(t) => elapsed_ms(t, now) >= self.debounce_ms,
        };
        if accepted {
            let next = match self.state {
                VisibilityState::Hidden => VisibilityState::SlidingIn { start: now, base: 0 },
                VisibilityState::Visible => VisibilityState::SlidingOut { start: now, base: 0 },
                VisibilityState::SlidingIn { start, base } => {
                    let p = exec_progress(start, base, self.duration_ms, now);
                    VisibilityState::SlidingOut { start: now, base: self.duration_ms - p }
                },
                VisibilityState::SlidingOut { start, base } => {
                    let p = exec_progress(start, base, self.duration_ms, now);
                    VisibilityState::SlidingIn { start: now, base: self.duration_ms - p }
                },
            };
            self.state = next;
            self.last_accepted = Option::Some(now);
        }
        accepted
    }

    /// Settle a finished slide into its endpoint; the offset it reports does
    /// not move.
    pub fn step(&mut self, now: u64)
        requires
            old(self).wf(),
        ensures
            final(self).wf(),
            *final(self) == old(self).spec_step(now),
            final(self).spec_offset(now) == old(self).spec_offset(now),
    {
        proof {
            lemma_step_keeps_offset(*self, now);
        }
        match self.state {
            VisibilityState::SlidingIn { start, base } => {
                let p = exec_progress(start, base, self.duration_ms, now);
                if p == self.duration_ms {
                    self.state = VisibilityState::Visible;
                }
            },
            VisibilityState::SlidingOut { start, base } => {
                let p = exec_progress(start, base, self.duration_ms, now);
                if p == self.duration_ms {
                    self.state = VisibilityState::Hidden;
                }
            },
            _ => {},
        }
    }
}

/// Clamped animation progress, executable twin of `clamped_progress`.
fn exec_progress(start: u64, base: u64, dur: u64, now: u64) -> (p: u64)
    requires
        0 < dur,
        base <= dur,
    ensures
        p as int == clamped_progress(start, base, dur, now),
        p <= dur,
{
    let e = elapsed_ms(start, now);
    if e >= dur - base {
        dur
    } else {
        base + e
    }
}

proof fn lemma_interp_bound(ext: u64, p: u64, dur: u64)
    requires
        ext <= MAX_ANIM_PARAM,
        p <= dur <= MAX_ANIM_PARAM,
    ensures
        ext * p <= MAX_ANIM_PARAM * MAX_ANIM_PARAM,
        0 < dur ==> (ext * p) as int / dur as int <= ext,
{
    lemma_mul_inequality(ext as int, MAX_ANIM_PARAM as int, p as int);
    lemma_mul_inequality(p as int, MAX_ANIM_PARAM as int, MAX_ANIM_PARAM as int);
    assert(MAX_ANIM_PARAM * p == p * MAX_ANIM_PARAM) by (nonlinear_arith);
    if 0 < dur {
        lemma_mul_inequality(p as int, dur as int, ext as int);
        assert(ext * p == p * ext) by (nonlinear_arith);
        assert(ext * dur == dur * ext) by (nonlinear_arith);
        lemma_div_is_ordered(ext * p, ext * dur, dur as int);
        lemma_div_multiples_vanish(ext as int, dur as int);
    }
}

/// The interpolated offset always lies between 0 and the extent.
pub proof fn lemma_offset_in_range(a: Animator, now: u64)
    requires
        a.wf(),
    ensures
        0 <= a.spec_offset(now) <= a.extent,
{
    match a.state {
        VisibilityState::SlidingIn { start, base } => {
            let p = clamped_progress(start, base, a.duration_ms, now);
            lemma_interp_bound(a.extent, p as u64, a.duration_ms);
            vstd::arithmetic::div_mod::lemma_div_pos_is_pos(a.extent * p, a.duration_ms as int);
            vstd::arithmetic::mul::lemma_mul_nonnegative(a.extent as int, p);
        },
        VisibilityState::SlidingOut { start, base } => {
            let p = clamped_progress(start, base, a.duration_ms, now);
            let q = a.duration_ms - p;
            lemma_interp_bound(a.extent, q as u64, a.duration_ms);
            vstd::arithmetic::div_mod::lemma_div_pos_is_pos(a.extent * q, a.duration_ms as int);
            vstd::arithmetic::mul::lemma_mul_nonnegative(a.extent as int, q);
        },
        _ => {},
    }
}

/// During an uninterrupted slide-in the reported offset never decreases as
/// the clock advances.
pub proof fn lemma_slide_in_monotonic(a: Animator, n1: u64, n2: u64)
    requires
        a.wf(),
        a.state matches VisibilityState::SlidingIn { .. },
        n1 <= n2,
    ensures
        a.spec_offset(n1) <= a.spec_offset(n2),
{
    match a.state {
        VisibilityState::SlidingIn { start, base } => {
            let p1 = clamped_progress(start, base, a.duration_ms, n1);
            let p2 = clamped_progress(start, base, a.duration_ms, n2);
            assert(p1 <= p2);
            lemma_mul_inequality(p1, p2, a.extent as int);
            assert(a.extent * p1 == p1 * a.extent) by (nonlinear_arith);
            assert(a.extent * p2 == p2 * a.extent) by (nonlinear_arith);
            lemma_div_is_ordered(a.extent * p1, a.extent * p2, a.duration_ms as int);
        },
        _ => {},
    }
}

/// During an uninterrupted slide-out the reported offset never increases as
/// the clock advances.
pub proof fn lemma_slide_out_monotonic(a: Animator, n1: u64, n2: u64)
    requires
        a.wf(),
        a.state matches VisibilityState::SlidingOut { .. },
        n1 <= n2,
    ensures
        a.spec_offset(n1) >= a.spec_offset(n2),
{
    match a.state {
        VisibilityState::SlidingOut { start, base } => {
            let q1 = a.duration_ms - clamped_progress(start, base, a.duration_ms, n1);
            let q2 = a.duration_ms - clamped_progress(start, base, a.duration_ms, n2);
            assert(q2 <= q1);
            lemma_mul_inequality(q2, q1, a.extent as int);
            assert(a.extent * q1 == q1 * a.extent) by (nonlinear_arith);
            assert(a.extent * q2 == q2 * a.extent) by (nonlinear_arith);
            lemma_div_is_ordered(a.extent * q2, a.extent * q1, a.duration_ms as int);
        },
        _ => {},
    }
}

/// Starting hidden, an accepted toggle begins a slide whose offset rises
/// monotonically; once the full duration has elapsed the offset equals the
/// shown extent exactly and the auto-transition settles the state to
/// `Visible`.
pub proof fn lemma_show_animation(a: Animator, t: u64, n1: u64, n2: u64)
    requires
        a.wf(),
        a.state == VisibilityState::Hidden,
        a.spec_toggle_accepted(t),
        t <= n1 <= n2,
    ensures
        a.spec_toggle(t).spec_offset(n1) <= a.spec_toggle(t).spec_offset(n2),
        n1 - t >= a.duration_ms ==> a.spec_toggle(t).spec_offset(n1) == a.extent as int,
        n1 - t >= a.duration_ms ==> a.spec_toggle(t).spec_step(n1).state
            == VisibilityState::Visible,
{
    let b = a.spec_toggle(t);
    lemma_slide_in_monotonic(b, n1, n2);
    if n1 - t >= a.duration_ms {
        assert(clamped_progress(t, 0, a.duration_ms, n1) == a.duration_ms as int);
        assert(a.extent * a.duration_ms == a.duration_ms * a.extent) by (nonlinear_arith);
        lemma_div_multiples_vanish(a.extent as int, a.duration_ms as int);
    }
}

/// An accepted toggle never jumps the offset: at the instant of the toggle
/// the new state reports exactly the offset the old state reported — in
/// particular, a slide reversed mid-flight continues from the interrupted
/// position.
pub proof fn lemma_toggle_continuous(a: Animator, now: u64)
    requires
        a.wf(),
        a.spec_toggle_accepted(now),
    ensures
        a.spec_toggle(now).spec_offset(now) == a.spec_offset(now),
{
    let dur = a.duration_ms;
    assert(a.extent * dur == dur * a.extent) by (nonlinear_arith);
    lemma_div_multiples_vanish(a.extent as int, dur as int);
    lemma_div_multiples_vanish(0, dur as int);
    match a.state {
        VisibilityState::Hidden => {
            assert(clamped_progress(now, 0, dur, now) == 0);
        },
        VisibilityState::Visible => {
            assert(clamped_progress(now, 0, dur, now) == 0);
        },
        VisibilityState::SlidingIn { start, base } => {
            let p = clamped_progress(start, base, dur, now);
            assert(clamped_progress(now, (dur - p) as u64, dur, now) == if p == 0 {
                dur as int
            } else {
                dur - p
            });
        },
        VisibilityState::SlidingOut { start, base } => {
            let p = clamped_progress(start, base, dur, now);
            assert(clamped_progress(now, (dur - p) as u64, dur, now) == if p == 0 {
                dur as int
            } else {
                dur - p
            });
        },
    }
}

/// Debounce: of two toggle signals closer together than the debounce window
/// the second changes nothing at all, while a signal a full window later is
/// accepted again.
pub proof fn lemma_debounce(a: Animator, t1: u64, t2: u64)
    requires
        a.wf(),
        a.spec_toggle_accepted(t1),
        t1 <= t2,
    ensures
        t2 - t1 < a.debounce_ms ==> a.spec_toggle(t1).spec_toggle(t2) == a.spec_toggle(t1),
        t2 - t1 >= a.debounce_ms ==> a.spec_toggle(t1).spec_toggle_accepted(t2)
            && a.spec_toggle(t1).spec_toggle(t2).last_accepted == Option::<u64>::Some(t2),
{
}

proof fn lemma_step_keeps_offset(a: Animator, now: u64)
    requires
        a.wf(),
    ensures
        a.spec_step(now).spec_offset(now) == a.spec_offset(now),
{
    match a.state {
        VisibilityState::SlidingIn { start, base } => {
            let p = clamped_progress(start, base, a.duration_ms, now);
            if p == a.duration_ms {
                assert(a.extent * a.duration_ms == a.duration_ms * a.extent) by (nonlinear_arith);
                lemma_div_multiples_vanish(a.extent as int, a.duration_ms as int);
            }
        },
        VisibilityState::SlidingOut { start, base } => {
            let p = clamped_progress(start, base, a.duration_ms, now);
            if p == a.duration_ms {
            }
        },
        _ => {},
    }
}

} // verus!
