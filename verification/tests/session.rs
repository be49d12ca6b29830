use lib::session::{redraw_delay_nanos, startup, uses_face, Startup};

#[test]
fn redirected_output_prints_a_timestamp_whatever_term_says() {
    assert_eq!(startup(false, None), Startup::PrintTimestamp);
    assert_eq!(startup(false, Some("dumb")), Startup::PrintTimestamp);
    assert_eq!(startup(false, Some("xterm-256color")), Startup::PrintTimestamp);
}

#[test]
fn a_terminal_needs_a_usable_term() {
    assert_eq!(startup(true, Some("xterm-256color")), Startup::Interactive);
    assert_eq!(startup(true, Some("dumbo")), Startup::Interactive);
    let refused = Startup::Fail("interactive mode requires an xterm-compatible TERM value".to_string());
    assert_eq!(startup(true, Some("dumb")), refused);
    assert_eq!(startup(true, Some("")), refused);
    assert_eq!(startup(true, None), refused);
}

#[test]
fn the_face_is_drawn_only_in_ghostty() {
    assert!(uses_face(Some("ghostty")));
    assert!(uses_face(Some("Ghostty")));
    assert!(uses_face(Some("GHOSTTY")));
    assert!(!uses_face(Some("ghostty2")));
    assert!(!uses_face(Some("ghost")));
    assert!(!uses_face(Some("kitty")));
    assert!(!uses_face(Some("")));
    assert!(!uses_face(None));
}

#[test]
fn a_resize_redraws_at_once() {
    assert_eq!(redraw_delay_nanos(true, 123), 0);
    assert_eq!(redraw_delay_nanos(false, 250_000_000), 750_000_000);
    assert_eq!(redraw_delay_nanos(false, 0), 1_000_000_000);
}
