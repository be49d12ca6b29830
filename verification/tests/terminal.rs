use lib::terminal::{parse_pixel_response, reported_pixel_size};

#[test]
fn parses_the_standard_pixel_size_reply() {
    assert_eq!(parse_pixel_response(b"\x1b[4;900;1440t"), Some((1440, 900)));
}

#[test]
fn pixel_reply_may_be_surrounded_by_other_bytes() {
    assert_eq!(parse_pixel_response(b"noise\x1b[4;20;30tmore"), Some((30, 20)));
    assert_eq!(parse_pixel_response(b"\x1b[4;20;30;99t"), Some((30, 20)));
    assert_eq!(parse_pixel_response(b"\x1b[4;+20;0030t"), Some((30, 20)));
}

#[test]
fn malformed_pixel_replies_are_rejected() {
    assert_eq!(parse_pixel_response(b""), None);
    assert_eq!(parse_pixel_response(b"\x1b[4;900t"), None);
    assert_eq!(parse_pixel_response(b"\x1b[4;900;1440"), None);
    assert_eq!(parse_pixel_response(b"\x1b[4;0;1440t"), None);
    assert_eq!(parse_pixel_response(b"\x1b[4;900;0t"), None);
    assert_eq!(parse_pixel_response(b"\x1b[4;900;70000t"), None);
    assert_eq!(parse_pixel_response(b"\x1b[4;-9;10t"), None);
    assert_eq!(parse_pixel_response(b"\x1b[4;;10t"), None);
    assert_eq!(parse_pixel_response(b"\x1b[4;+;10t"), None);
    assert_eq!(parse_pixel_response(b"\xff\x1b[4;900;1440t"), None);
}

#[test]
fn window_pixels_are_used_only_when_both_are_known() {
    assert_eq!(reported_pixel_size(Some((1440, 900))), Some((1440, 900)));
    assert_eq!(reported_pixel_size(Some((0, 900))), None);
    assert_eq!(reported_pixel_size(Some((1440, 0))), None);
    assert_eq!(reported_pixel_size(None), None);
}
