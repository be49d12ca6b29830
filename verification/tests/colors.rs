use lib::{Gradient, HourFormat, Options, Rgb};

#[test]
fn hex_colours_in_both_lengths_and_cases() {
    assert_eq!(Rgb::from_hex("#7aa2f7"), Some(Rgb::new(0x7a, 0xa2, 0xf7)));
    assert_eq!(Rgb::from_hex("7AA2F7"), Some(Rgb::new(0x7a, 0xa2, 0xf7)));
    assert_eq!(Rgb::from_hex("#abc"), Rgb::from_hex("#aabbcc"));
    assert_eq!(Rgb::from_hex("abc"), Some(Rgb::new(0xaa, 0xbb, 0xcc)));
}

#[test]
fn bad_hex_colours_are_refused() {
    assert_eq!(Rgb::from_hex(""), None);
    assert_eq!(Rgb::from_hex("#"), None);
    assert_eq!(Rgb::from_hex("#1234"), None);
    assert_eq!(Rgb::from_hex("#12345g"), None);
    assert_eq!(Rgb::from_hex("#ééé"), None);
    assert_eq!(Rgb::from_hex("##abc"), None);
    assert_eq!(Rgb::from_hex("##aabbcc"), None);
    assert_eq!(Rgb::from_hex("#-1-1-1"), None);
}

#[test]
fn only_hex_digits_make_a_colour() {
    assert_eq!(Rgb::from_hex("#+f+f+f"), None);
    assert_eq!(Rgb::from_hex("#+1+2+3"), None);
    assert_eq!(Rgb::from_hex("+ab"), None);
    assert_eq!(Rgb::from_hex("#0f0"), Some(Rgb::new(0, 0xff, 0)));
}

#[test]
fn gradients_darken_by_a_fifth_with_a_held_multiplication() {
    let gradient = Rgb::new(50, 63, 64).gradient();
    assert_eq!(gradient, Gradient { top: Rgb::new(50, 63, 64), bottom: Rgb::new(40, 50, 51) });
    assert_eq!(Rgb::new(255, 0, 5).gradient().bottom, Rgb::new(51, 0, 4));
}

#[test]
fn default_options() {
    let options = Options::default();
    assert_eq!(options.hour_format, HourFormat::H24);
    assert!(options.show_seconds);
    assert_eq!(options.color, None);
    assert!(!options.gradient);
}
