use lib::cli::{parse_color, parse_options, CliAction, USAGE};
use lib::{HourFormat, Options, Rgb};

fn arguments(list: &[&str]) -> Vec<String> {
    list.iter().map(|argument| argument.to_string()).collect()
}

fn run_options(list: &[&str]) -> Options {
    match parse_options(&arguments(list)) {
        Ok(CliAction::Run(options)) => options,
        other => panic!("expected options, got {other:?}"),
    }
}

#[test]
fn options_parse_without_dependencies() {
    let options = run_options(&["--12h", "--no-seconds"]);
    assert_eq!(options.hour_format, HourFormat::H12);
    assert!(!options.show_seconds);
    assert_eq!(options.color, None);
}

#[test]
fn parses_hex_color_in_both_forms() {
    let equals = run_options(&["--color=#7aa2f7"]);
    let separate = run_options(&["--color", "#abc"]);
    assert_eq!(equals.color, Some(Rgb::new(0x7a, 0xa2, 0xf7)));
    assert_eq!(separate.color, Some(Rgb::new(0xaa, 0xbb, 0xcc)));
}

#[test]
fn rejects_invalid_color() {
    assert!(parse_options(&arguments(&["--color=always"])).is_err());
}

#[test]
fn no_arguments_give_the_default_options() {
    assert_eq!(run_options(&[]), Options::default());
}

#[test]
fn conflicting_flags_are_rejected() {
    assert_eq!(
        parse_options(&arguments(&["--12h", "--24h"])),
        Err(format!("conflicting option: --24h\n\n{USAGE}"))
    );
    assert_eq!(
        parse_options(&arguments(&["--no-seconds", "--12h", "--seconds"])),
        Err(format!("conflicting option: --seconds\n\n{USAGE}"))
    );
    assert!(parse_options(&arguments(&["--24h", "--12h"])).is_err());
    assert!(parse_options(&arguments(&["--seconds", "--no-seconds"])).is_err());
}

#[test]
fn repeating_a_flag_is_not_a_conflict() {
    let options = run_options(&["--12h", "--no-seconds", "--12h", "--no-seconds"]);
    assert_eq!(options.hour_format, HourFormat::H12);
    assert!(!options.show_seconds);
    let options = run_options(&["--24h", "--seconds"]);
    assert_eq!(options, Options::default());
}

#[test]
fn both_colour_forms_agree() {
    for value in ["#7aa2f7", "abc", "#12", "zz"] {
        let joined = parse_options(&arguments(&[&format!("--color={value}"), "--12h"]));
        let split = parse_options(&arguments(&["--color", value, "--12h"]));
        assert_eq!(joined, split);
    }
}

#[test]
fn help_and_version_stop_reading() {
    assert_eq!(parse_options(&arguments(&["--help", "--bogus"])), Ok(CliAction::Help));
    assert_eq!(parse_options(&arguments(&["-h"])), Ok(CliAction::Help));
    assert_eq!(parse_options(&arguments(&["--12h", "--version"])), Ok(CliAction::Version));
    assert_eq!(parse_options(&arguments(&["-V"])), Ok(CliAction::Version));
}

#[test]
fn errors_name_the_problem() {
    assert_eq!(
        parse_options(&arguments(&["--color"])),
        Err("--color expects a hex value such as #7aa2f7".to_string())
    );
    assert_eq!(
        parse_options(&arguments(&["--bogus"])),
        Err(format!("unknown option: --bogus\n\n{USAGE}"))
    );
    assert_eq!(
        parse_options(&arguments(&["--color", "nope"])),
        Err(format!("invalid color `nope`; use #RRGGBB or #RGB\n\n{USAGE}"))
    );
    assert_eq!(
        parse_color("#12345"),
        Err(format!("invalid color `#12345`; use #RRGGBB or #RGB\n\n{USAGE}"))
    );
    assert_eq!(parse_color("#010203"), Ok(Rgb::new(1, 2, 3)));
}
