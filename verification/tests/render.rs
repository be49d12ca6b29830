use lib::layout::{Layout, LayoutMode, PositionedLine};
use lib::render::render_frame;
use lib::Rgb;

fn one_line() -> Layout {
    Layout {
        mode: LayoutMode::Compact,
        lines: vec![PositionedLine { row: 1, column: 1, text: "12".into() }],
    }
}

#[test]
fn frame_clears_without_overriding_terminal_color() {
    let frame = render_frame(&one_line(), None);
    assert!(frame.starts_with("\x1b[2J\x1b[H"));
    assert!(!frame.contains("38;5"));
    assert!(!frame.contains("\x1b#"));
}

#[test]
fn explicit_color_wraps_the_frame_in_truecolor_sgr() {
    let frame = render_frame(&one_line(), Some(Rgb::new(18, 52, 86)));
    assert!(frame.contains("\x1b[38;2;18;52;86m"));
    assert!(frame.ends_with("\x1b[0m"));
}

#[test]
fn frame_places_each_line_in_order() {
    let layout = Layout {
        mode: LayoutMode::Hero,
        lines: vec![
            PositionedLine { row: 12, column: 37, text: "09:41:07".into() },
            PositionedLine { row: 140, column: 1000, text: "x".into() },
        ],
    };
    assert_eq!(
        render_frame(&layout, None),
        "\x1b[2J\x1b[H\x1b[12;37H09:41:07\x1b[140;1000Hx"
    );
    assert_eq!(
        render_frame(&layout, Some(Rgb::new(0, 255, 7))),
        "\x1b[2J\x1b[H\x1b[38;2;0;255;7m\x1b[12;37H09:41:07\x1b[140;1000Hx\x1b[0m"
    );
}

#[test]
fn hidden_layout_only_clears() {
    let layout = Layout { mode: LayoutMode::Hidden, lines: Vec::new() };
    assert_eq!(render_frame(&layout, None), "\x1b[2J\x1b[H");
}
