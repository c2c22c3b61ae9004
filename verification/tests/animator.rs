use dropterm::Animator;
use dropterm::VisibilityState;

fn shown(extent: u64, duration: u64, debounce: u64) -> Animator {
    Animator::new(extent, duration, debounce)
}

#[test]
fn toggle_from_hidden_slides_in_monotonically() {
    let mut a = shown(100, 200, 300);
    assert!(a.accept_toggle(1000));
    assert!(matches!(a.state, VisibilityState::SlidingIn { .. }));
    let mut prev = a.current_offset(1000);
    assert_eq!(prev, 0);
    for t in [1050u64, 1100, 1150, 1199] {
        let o = a.current_offset(t);
        assert!(o >= prev);
        prev = o;
    }
    assert_eq!(a.current_offset(1100), 50);
    assert_eq!(a.current_offset(1200), 100);
    assert_eq!(a.current_offset(5000), 100);
}

#[test]
fn finished_slide_settles_to_visible_with_exact_offset() {
    let mut a = shown(100, 200, 300);
    a.accept_toggle(1000);
    a.step(1199);
    assert!(matches!(a.state, VisibilityState::SlidingIn { .. }));
    a.step(1200);
    assert_eq!(a.state, VisibilityState::Visible);
    assert_eq!(a.current_offset(1200), 100);
}

#[test]
fn halfway_point_is_half_the_extent() {
    let mut a = shown(100, 200, 300);
    a.accept_toggle(1000);
    let half = a.current_offset(1100);
    assert!(half == 50);
    a.step(1201);
    assert_eq!(a.state, VisibilityState::Visible);
}

#[test]
fn reversal_mid_flight_is_continuous() {
    let mut a = shown(100, 1000, 300);
    a.accept_toggle(1000);
    let at_interrupt = a.current_offset(1400);
    assert_eq!(at_interrupt, 40);
    assert!(a.accept_toggle(1400));
    assert!(matches!(a.state, VisibilityState::SlidingOut { .. }));
    assert_eq!(a.current_offset(1400), at_interrupt);
    assert_eq!(a.current_offset(1500), 30);
    a.step(1800);
    assert_eq!(a.state, VisibilityState::Hidden);
    assert_eq!(a.current_offset(1800), 0);
}

#[test]
fn reversal_of_slide_out_is_continuous() {
    let mut a = shown(100, 1000, 300);
    a.accept_toggle(1000);
    a.step(2000);
    assert_eq!(a.state, VisibilityState::Visible);
    a.accept_toggle(2000);
    let at_interrupt = a.current_offset(2600);
    assert_eq!(at_interrupt, 40);
    assert!(a.accept_toggle(2600));
    assert!(matches!(a.state, VisibilityState::SlidingIn { .. }));
    assert_eq!(a.current_offset(2600), at_interrupt);
}

#[test]
fn close_signals_collapse_to_one_transition() {
    let mut a = shown(100, 200, 300);
    assert!(a.accept_toggle(1000));
    let state_after_first = a.state;
    assert!(!a.accept_toggle(1050));
    assert_eq!(a.state, state_after_first);
}

#[test]
fn spaced_signals_both_transition() {
    let mut a = shown(100, 200, 300);
    assert!(a.accept_toggle(1000));
    assert!(a.accept_toggle(1400));
    assert!(matches!(a.state, VisibilityState::SlidingOut { .. }));
}

#[test]
fn degenerate_parameters_are_clamped() {
    let a = Animator::new(0, 0, 0);
    assert_eq!(a.extent, 0);
    assert_eq!(a.duration_ms, 1);
    let mut b = Animator::with_defaults(50);
    assert_eq!(b.duration_ms, dropterm::DEFAULT_DURATION_MS);
    assert_eq!(b.debounce_ms, dropterm::DEFAULT_DEBOUNCE_MS);
    assert!(b.accept_toggle(0));
}
