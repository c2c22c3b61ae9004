use dropterm::Overlay;
use dropterm::ReadEvent;
use dropterm::Viewport;
use dropterm::render;

#[test]
fn zero_viewport_is_clamped_to_minimum() {
    let v = Viewport { width: 0, height: 0, line_height: 0 };
    let c = v.clamped();
    assert_eq!(c, Viewport { width: 1, height: 1, line_height: 1 });
}

#[test]
fn oversized_viewport_is_clamped_to_maximum() {
    let v = Viewport { width: u64::MAX, height: 2, line_height: 1 };
    assert_eq!(v.clamped().width, dropterm::MAX_DIM);
}

#[test]
fn fully_shown_rows_are_stacked_from_the_top() {
    let snapshot = vec!["a".to_string(), "b".to_string()];
    let v = Viewport { width: 50, height: 100, line_height: 10 };
    let frame = render(&snapshot, 100, v);
    assert_eq!(frame.width, 50);
    assert_eq!(frame.height, 100);
    assert_eq!(frame.rows.len(), 2);
    assert_eq!(frame.rows[0].y, 0);
    assert_eq!(frame.rows[0].text, "a".to_string());
    assert_eq!(frame.rows[1].y, 10);
    assert_eq!(frame.rows[1].text, "b".to_string());
}

#[test]
fn partial_slide_clips_lines_above_the_screen() {
    let snapshot: Vec<String> = (0..12).map(|i| format!("l{}", i)).collect();
    let v = Viewport { width: 50, height: 100, line_height: 10 };
    let frame = render(&snapshot, 15, v);
    // y_i = 15 - 100 + 10 i; visible iff -10 < y < 100, so i in 8..=11.
    assert_eq!(frame.rows.len(), 4);
    assert_eq!(frame.rows[0].y, -5);
    assert_eq!(frame.rows[0].text, "l8".to_string());
    assert_eq!(frame.rows[3].y, 25);
    assert_eq!(frame.rows[3].text, "l11".to_string());
}

#[test]
fn lines_beyond_the_viewport_are_not_rasterized() {
    let snapshot: Vec<String> = (0..50).map(|i| format!("l{}", i)).collect();
    let v = Viewport { width: 50, height: 100, line_height: 10 };
    let frame = render(&snapshot, 100, v);
    assert_eq!(frame.rows.len(), 10);
}

#[test]
fn hidden_overlay_renders_no_rows() {
    let snapshot = vec!["a".to_string()];
    let v = Viewport { width: 50, height: 100, line_height: 10 };
    let frame = render(&snapshot, 0, v);
    assert_eq!(frame.rows.len(), 0);
}

#[test]
fn tick_drains_toggles_debounced_and_renders() {
    let mut overlay = Overlay::new(100, 100);
    overlay.feed(ReadEvent::Data(b"hello\n".to_vec()));
    let v = Viewport { width: 50, height: 100, line_height: 10 };
    // Two signals 50 ms apart: only the first transitions; after the full
    // 200 ms default duration the overlay is fully shown.
    let frame = overlay.tick(1200, &vec![1000, 1050], v);
    assert_eq!(frame.height, 100);
    assert_eq!(
        overlay.animator.state,
        dropterm::VisibilityState::Visible
    );
    assert_eq!(frame.rows.len(), 1);
    assert_eq!(frame.rows[0].text, "hello".to_string());
    assert_eq!(frame.rows[0].y, 0);
}

#[test]
fn tick_while_hidden_shows_nothing() {
    let mut overlay = Overlay::new(100, 100);
    overlay.feed(ReadEvent::Data(b"hidden text\n".to_vec()));
    let v = Viewport { width: 50, height: 100, line_height: 10 };
    let frame = overlay.tick(500, &Vec::new(), v);
    assert_eq!(frame.rows.len(), 0);
}
