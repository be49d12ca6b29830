use lib::clock::ClockSnapshot;
use lib::layout::TerminalSize;
use lib::neue_machina::{display_time, encode_base64, face_frame, face_plan, kitty_frame};
use lib::{Gradient, Rgb};

#[test]
fn base64_matches_known_values() {
    assert_eq!(encode_base64(b""), "");
    assert_eq!(encode_base64(b"f"), "Zg==");
    assert_eq!(encode_base64(b"foo"), "Zm9v");
}

#[test]
fn base64_covers_every_length_and_the_whole_alphabet() {
    assert_eq!(encode_base64(b"fo"), "Zm8=");
    assert_eq!(encode_base64(b"foob"), "Zm9vYg==");
    assert_eq!(encode_base64(b"fooba"), "Zm9vYmE=");
    assert_eq!(encode_base64(b"foobar"), "Zm9vYmFy");
    assert_eq!(encode_base64(&[0xfb, 0xff, 0xbf]), "+/+/");
    assert_eq!(encode_base64(&[0, 0, 0]), "AAAA");
    for n in 0..20 {
        assert_eq!(encode_base64(&vec![7; n]).len(), 4 * ((n + 2) / 3));
    }
}

fn decode_base64(text: &str) -> Vec<u8> {
    let value = |c: u8| match c {
        b'A'..=b'Z' => c - b'A',
        b'a'..=b'z' => c - b'a' + 26,
        b'0'..=b'9' => c - b'0' + 52,
        b'+' => 62,
        _ => 63,
    };
    let mut bytes = Vec::new();
    for group in text.as_bytes().chunks(4) {
        let v: Vec<u8> = group.iter().map(|&c| value(c)).collect();
        bytes.push((v[0] << 2) | (v[1] >> 4));
        if group[2] != b'=' {
            bytes.push((v[1] << 4) | (v[2] >> 2));
        }
        if group[3] != b'=' {
            bytes.push((v[2] << 6) | v[3]);
        }
    }
    bytes
}

#[test]
fn base64_pads_at_the_end_only_and_decodes_back() {
    for n in 0..40_usize {
        let bytes: Vec<u8> = (0..n).map(|i| (i * 37 + 11) as u8).collect();
        let encoded = encode_base64(&bytes);
        let padding = (3 - n % 3) % 3;
        assert_eq!(encoded.len() - encoded.trim_end_matches('=').len(), padding);
        assert!(!encoded.trim_end_matches('=').contains('='));
        assert_eq!(decode_base64(&encoded), bytes);
    }
}

#[test]
fn kitty_frame_uses_raw_rgba_and_does_not_draw_text_cells() {
    let frame = kitty_frame(2, 3, 10, 4, 2, 1, &[255; 8]);
    assert!(frame.starts_with("\x1b[?2026h"));
    assert!(frame.ends_with("\x1b[?2026l"));
    assert!(frame.contains("a=T,f=32,s=2,v=1"));
    assert!(frame.contains("c=10,r=4,C=1"));
    assert!(!frame.contains('█'));
}

#[test]
fn kitty_frame_exact_output_for_one_chunk() {
    let frame = kitty_frame(2, 3, 10, 4, 2, 1, &[255; 8]);
    assert_eq!(
        frame,
        "\x1b[?2026h\x1b_Ga=d,d=i,i=1624011,q=2;\x1b\\\x1b[2J\x1b[H\x1b[2;3H\
         \x1b_Ga=T,f=32,s=2,v=1,i=1624011,c=10,r=4,C=1,q=2,m=0;//////////8=\x1b\\\x1b[?2026l"
    );
}

#[test]
fn kitty_frame_splits_long_images_into_chunks() {
    // 3 * 2048 bytes encode to 8192 characters: two full chunks.
    let frame = kitty_frame(1, 1, 4, 2, 32, 48, &vec![0; 3 * 2048]);
    assert_eq!(frame.matches("\x1b_G").count(), 3);
    assert!(frame.contains("m=1;"));
    assert!(frame.contains("\x1b_Gm=0;"));
    // One more byte needs a third chunk.
    let frame = kitty_frame(1, 1, 4, 2, 32, 48, &vec![0; 3 * 2048 + 1]);
    assert_eq!(frame.matches("\x1b_Gm=1;").count(), 1);
    assert_eq!(frame.matches("\x1b_Gm=0;").count(), 1);
}

#[test]
fn kitty_frame_for_an_empty_image_sends_no_pixels() {
    let frame = kitty_frame(1, 1, 1, 1, 0, 0, &[]);
    assert_eq!(frame, "\x1b[?2026h\x1b_Ga=d,d=i,i=1624011,q=2;\x1b\\\x1b[2J\x1b[H\x1b[1;1H\x1b[?2026l");
}

#[test]
fn missing_ioctl_pixel_metrics_still_emits_the_real_font_image() {
    let clock = ClockSnapshot {
        face_text: "12:34:56".into(),
        compact_text: "12:34:56".into(),
        date_text: "27/08/2026".into(),
        meridiem: None,
    };
    let size = TerminalSize { columns: 60, rows: 10 };
    let foreground = Some(Rgb::new(18, 52, 86));
    let plan = face_plan(size, None, &clock).expect("a pane of 60 by 10 takes the face");
    // The pixels stand for what the platform draws for `plan.time`.
    let rgba = vec![0_u8; plan.width * plan.height * 4];
    let frame = face_frame(size, &plan, &rgba, foreground, None, &clock);
    assert!(frame.contains("a=T,f=32"));
    assert!(frame.contains("27/08/2026"));
    assert!(frame.contains("\x1b[9;26H27/08/2026"));
    assert!(frame.contains("\x1b[38;2;18;52;86m"));
    assert!(!frame.contains('█'));
}

#[test]
fn reduced_width_hides_seconds_before_leaving_the_large_face() {
    assert_eq!(display_time(TerminalSize { columns: 51, rows: 7 }, "12:34:56"), "12:34");
}

#[test]
fn wide_panes_keep_the_seconds() {
    assert_eq!(display_time(TerminalSize { columns: 52, rows: 7 }, "12:34:56"), "12:34:56");
    assert_eq!(display_time(TerminalSize { columns: 20, rows: 7 }, "12:34"), "12:34");
}

#[test]
fn face_plan_without_pixel_metrics() {
    let clock = ClockSnapshot {
        face_text: "12:34:56".into(),
        compact_text: "12:34:56".into(),
        date_text: "27/08/2026".into(),
        meridiem: None,
    };
    let plan = face_plan(TerminalSize { columns: 60, rows: 10 }, None, &clock).unwrap();
    assert_eq!((plan.row, plan.column, plan.columns, plan.rows), (2, 3, 56, 7));
    assert_eq!((plan.width, plan.height), (560, 140));
    assert_eq!(plan.time, "12:34:56");
    let plan = face_plan(TerminalSize { columns: 40, rows: 6 }, Some((800, 240)), &clock).unwrap();
    assert_eq!((plan.row, plan.column, plan.columns, plan.rows), (1, 3, 36, 5));
    assert_eq!((plan.width, plan.height), (720, 200));
    assert_eq!(plan.time, "12:34");
    let plan = face_plan(TerminalSize { columns: 40, rows: 6 }, Some((0, 240)), &clock).unwrap();
    assert_eq!((plan.width, plan.height), (360, 100));
}

#[test]
fn face_plan_refuses_small_panes_and_empty_images() {
    let clock = ClockSnapshot {
        face_text: "12:34".into(),
        compact_text: "12:34".into(),
        date_text: "d".into(),
        meridiem: None,
    };
    assert!(face_plan(TerminalSize { columns: 11, rows: 10 }, None, &clock).is_none());
    assert!(face_plan(TerminalSize { columns: 60, rows: 3 }, None, &clock).is_none());
    // Fewer pixels than cells leaves each cell zero pixels wide.
    assert!(face_plan(TerminalSize { columns: 60, rows: 10 }, Some((30, 200)), &clock).is_none());
}

#[test]
fn date_line_takes_the_gradient_colour_and_is_left_out_in_short_panes() {
    let clock = ClockSnapshot {
        face_text: "12:34".into(),
        compact_text: "12:34".into(),
        date_text: "27/08/2026".into(),
        meridiem: None,
    };
    let size = TerminalSize { columns: 60, rows: 10 };
    let plan = face_plan(size, None, &clock).unwrap();
    let gradient = Gradient { top: Rgb::new(200, 0, 0), bottom: Rgb::new(1, 2, 3) };
    let frame = face_frame(size, &plan, &[], Some(Rgb::new(9, 9, 9)), Some(gradient), &clock);
    assert!(frame.ends_with("\x1b[38;2;1;2;3m\x1b[9;26H27/08/2026\x1b[0m"));
    let frame = face_frame(size, &plan, &[], None, None, &clock);
    assert!(frame.ends_with("\x1b[?2026l\x1b[9;26H27/08/2026"));
    let short = TerminalSize { columns: 60, rows: 9 };
    let plan = face_plan(short, None, &clock).unwrap();
    let frame = face_frame(short, &plan, &[], None, None, &clock);
    assert!(frame.ends_with("\x1b[?2026l"));
}
