use dropterm::ReadEvent;
use dropterm::ScrollbackBuffer;
use dropterm::SessionError;
use dropterm::SessionTracker;

#[test]
fn printed_lines_then_close_reports_closed() {
    let mut session = SessionTracker::new();
    let mut buf = ScrollbackBuffer::new(100);
    session.on_read_event(ReadEvent::Data(b"line1\nline2\n".to_vec()), &mut buf);
    assert_eq!(
        buf.visible_lines(10),
        vec!["line1".to_string(), "line2".to_string()]
    );
    session.on_read_event(ReadEvent::Closed, &mut buf);
    assert!(!session.wants_read());
    assert!(!session.is_alive());
    assert_eq!(
        buf.visible_lines(10),
        vec![
            "line1".to_string(),
            "line2".to_string(),
            "[session ended]".to_string()
        ]
    );
}

#[test]
fn would_block_changes_nothing() {
    let mut session = SessionTracker::new();
    let mut buf = ScrollbackBuffer::new(100);
    session.on_read_event(ReadEvent::Data(b"x\n".to_vec()), &mut buf);
    session.on_read_event(ReadEvent::WouldBlock, &mut buf);
    assert!(session.wants_read());
    assert_eq!(buf.line_count(), 1);
}

#[test]
fn close_is_idempotent() {
    let mut session = SessionTracker::new();
    let mut buf = ScrollbackBuffer::new(100);
    session.on_read_event(ReadEvent::Closed, &mut buf);
    assert_eq!(buf.line_count(), 1);
    session.on_read_event(ReadEvent::Closed, &mut buf);
    session.on_read_event(ReadEvent::Data(b"late\n".to_vec()), &mut buf);
    assert_eq!(buf.line_count(), 1);
    assert!(!session.wants_read());
}

#[test]
fn write_gate_follows_liveness() {
    let mut session = SessionTracker::new();
    let mut buf = ScrollbackBuffer::new(100);
    assert_eq!(session.check_write(), Ok(()));
    session.on_read_event(ReadEvent::Closed, &mut buf);
    assert_eq!(session.check_write(), Err(SessionError::Write));
}

#[test]
fn terminate_is_idempotent() {
    let mut session = SessionTracker::new();
    session.mark_dead();
    session.mark_dead();
    assert!(!session.is_alive());
}

#[test]
fn error_messages_name_each_failure() {
    assert_eq!(
        SessionError::Spawn.message(),
        "could not spawn the shell session".to_string()
    );
    assert_eq!(SessionError::Write.message(), "session input closed".to_string());
    assert_eq!(SessionError::Closed.message(), "session ended".to_string());
}
