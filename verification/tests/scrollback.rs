use dropterm::ScrollbackBuffer;

fn lines_of(buf: &ScrollbackBuffer, h: usize) -> Vec<String> {
    buf.visible_lines(h)
}

#[test]
fn chunk_invariance_concrete() {
    let mut chunked = ScrollbackBuffer::new(100);
    chunked.ingest(b"li");
    chunked.ingest(b"ne1\nli");
    chunked.ingest(b"");
    chunked.ingest(b"ne2\npar");
    let mut whole = ScrollbackBuffer::new(100);
    whole.ingest(b"line1\nline2\npar");
    assert_eq!(chunked.line_count(), whole.line_count());
    assert_eq!(lines_of(&chunked, 10), lines_of(&whole, 10));
    assert_eq!(chunked.pending_fragment(), whole.pending_fragment());
    assert_eq!(chunked.pending_fragment(), b"par".to_vec());
}

#[test]
fn multibyte_sequence_split_across_chunks() {
    let mut buf = ScrollbackBuffer::new(10);
    let bytes = "caf\u{e9}\n".as_bytes();
    buf.ingest(&bytes[..4]);
    assert_eq!(buf.line_count(), 0);
    buf.ingest(&bytes[4..]);
    assert_eq!(lines_of(&buf, 10), vec!["caf\u{e9}".to_string()]);
}

#[test]
fn invalid_bytes_get_replacement_character() {
    let mut buf = ScrollbackBuffer::new(10);
    buf.ingest(&[0xFF, b'a', b'\n']);
    assert_eq!(lines_of(&buf, 10), vec!["\u{FFFD}a".to_string()]);
}

#[test]
fn capacity_evicts_oldest_fifo() {
    let mut buf = ScrollbackBuffer::new(3);
    for i in 0..5 {
        buf.ingest(format!("l{}\n", i).as_bytes());
    }
    assert_eq!(buf.line_count(), 3);
    assert_eq!(
        lines_of(&buf, 10),
        vec!["l2".to_string(), "l3".to_string(), "l4".to_string()]
    );
}

#[test]
fn zero_capacity_is_clamped() {
    let buf = ScrollbackBuffer::new(0);
    assert_eq!(buf.capacity(), 1);
}

#[test]
fn scroll_clamps_both_ends() {
    let mut buf = ScrollbackBuffer::new(10);
    buf.ingest(b"a\nb\nc\nd\ne\n");
    buf.scroll(100);
    assert_eq!(buf.scroll_offset(), 5);
    buf.scroll(-100);
    assert_eq!(buf.scroll_offset(), 0);
    buf.scroll(2);
    assert_eq!(buf.scroll_offset(), 2);
    buf.scroll(-1);
    assert_eq!(buf.scroll_offset(), 1);
}

#[test]
fn offset_zero_follows_tail() {
    let mut buf = ScrollbackBuffer::new(10);
    buf.ingest(b"a\nb\n");
    assert_eq!(buf.scroll_offset(), 0);
    buf.ingest(b"c\n");
    assert_eq!(buf.scroll_offset(), 0);
    assert_eq!(lines_of(&buf, 1), vec!["c".to_string()]);
}

#[test]
fn scrolled_offset_survives_new_output() {
    let mut buf = ScrollbackBuffer::new(10);
    buf.ingest(b"a\nb\nc\n");
    buf.scroll(2);
    buf.ingest(b"d\n");
    assert_eq!(buf.scroll_offset(), 2);
}

#[test]
fn pinned_viewer_keeps_looking_at_same_lines() {
    let mut buf = ScrollbackBuffer::new(10);
    buf.ingest(b"a\nb\nc\n");
    buf.scroll(1);
    buf.set_pinned(true);
    let before = lines_of(&buf, 2);
    buf.ingest(b"d\ne\n");
    assert_eq!(buf.scroll_offset(), 3);
    assert_eq!(lines_of(&buf, 2), before);
}

#[test]
fn visible_lines_windows_from_offset() {
    let mut buf = ScrollbackBuffer::new(10);
    buf.ingest(b"a\nb\nc\nd\n");
    assert_eq!(
        lines_of(&buf, 2),
        vec!["c".to_string(), "d".to_string()]
    );
    buf.scroll(1);
    assert_eq!(
        lines_of(&buf, 2),
        vec!["b".to_string(), "c".to_string()]
    );
}

#[test]
fn visible_lines_returns_fewer_when_short() {
    let mut buf = ScrollbackBuffer::new(10);
    buf.ingest(b"only\n");
    assert_eq!(lines_of(&buf, 10), vec!["only".to_string()]);
}

#[test]
fn clear_is_safe_and_empties() {
    let mut buf = ScrollbackBuffer::new(10);
    buf.ingest(b"a\nb\npartial");
    buf.scroll(1);
    buf.clear();
    assert_eq!(buf.line_count(), 0);
    assert_eq!(buf.scroll_offset(), 0);
    assert_eq!(buf.pending_fragment(), Vec::<u8>::new());
    assert_eq!(buf.capacity(), 10);
    buf.ingest(b"fresh\n");
    assert_eq!(lines_of(&buf, 10), vec!["fresh".to_string()]);
}
