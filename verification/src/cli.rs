//! Reading the command line.
use vstd::prelude::*;

use crate::text::{push_char, same_text};
use crate::{default_options, parsed_hex_color, HourFormat, Options, Rgb};

verus! {

/// The usage text.
pub const USAGE: &'static str = "Usage: tclok [--12h|--24h] [--seconds|--no-seconds] [--color <#RRGGBB>]\n\nA large, resize-responsive clock for modern UTF-8 xterm-compatible terminals.\nUses your terminal's foreground color unless --color is provided. Use Ctrl-C to exit.";

/// What the command line asks for.
#[derive(Debug, Clone, Copy, PartialEq, Eq, Structural)]
pub enum CliAction {
    /// Run the clock with these options.
    Run(Options),
    /// Print the usage text and exit.
    Help,
    /// Print the version and exit.
    Version,
}

/// The error for a colour that does not parse.
pub open spec fn invalid_color_message(value: Seq<char>) -> Seq<char> {
    "invalid color `"@ + value + "`; use #RRGGBB or #RGB\n\n"@ + USAGE@
}

/// The colour `value` names, or the error that says it names none.
pub open spec fn color_result(value: Seq<char>) -> Result<Rgb, Seq<char>> {
    match parsed_hex_color(value) {
        Some(c) => Ok(c),
        None => Err(invalid_color_message(value)),
    }
}

/// The error for an option that is not known.
pub open spec fn unknown_option_message(argument: Seq<char>) -> Seq<char> {
    "unknown option: "@ + argument + "\n\n"@ + USAGE@
}

/// The error for `--color` at the end of the command line.
pub open spec fn missing_color_message() -> Seq<char> {
    "--color expects a hex value such as #7aa2f7"@
}

/// `options` with the colour set.
pub open spec fn with_color(options: Options, color: Rgb) -> Options {
    Options { color: Some(color), ..options }
}

/// The error for a flag that contradicts one given before it.
pub open spec fn conflicting_option_message(argument: Seq<char>) -> Seq<char> {
    "conflicting option: "@ + argument + "\n\n"@ + USAGE@
}

/// Reads `args` from left to right, starting from `options`: each flag
/// updates the options, `--help`/`-h` and `--version`/`-V` stop reading, and
/// the first bad argument gives its error. `hour_given` and `seconds_given`
/// tell whether an hour flag or a seconds flag was read already: a later
/// flag that asks for the other setting is a conflict; repeating the same
/// flag is not.
pub open spec fn parse_arguments(
    args: Seq<Seq<char>>,
    options: Options,
    hour_given: bool,
    seconds_given: bool,
) -> Result<CliAction, Seq<char>>
    decreases args.len(),
{
    if args.len() == 0 {
        Ok(CliAction::Run(options))
    } else {
        let argument = args[0];
        let rest = args.drop_first();
        if argument == "--12h"@ || argument == "--24h"@ {
            let format = if argument == "--12h"@ {
                HourFormat::H12
            } else {
                HourFormat::H24
            };
            if hour_given && options.hour_format != format {
                Err(conflicting_option_message(argument))
            } else {
                parse_arguments(
                    rest,
                    Options { hour_format: format, ..options },
                    true,
                    seconds_given,
                )
            }
        } else if argument == "--seconds"@ || argument == "--no-seconds"@ {
            let show = argument == "--seconds"@;
            if seconds_given && options.show_seconds != show {
                Err(conflicting_option_message(argument))
            } else {
                parse_arguments(rest, Options { show_seconds: show, ..options }, hour_given, true)
            }
        } else if argument == "--color"@ {
            if rest.len() == 0 {
                Err(missing_color_message())
            } else {
                match color_result(rest[0]) {
                    Ok(c) => parse_arguments(
                        rest.drop_first(),
                        with_color(options, c),
                        hour_given,
                        seconds_given,
                    ),
                    Err(e) => Err(e),
                }
            }
        } else if argument == "--help"@ || argument == "-h"@ {
            Ok(CliAction::Help)
        } else if argument == "--version"@ || argument == "-V"@ {
            Ok(CliAction::Version)
        } else if argument.len() >= 8 && argument.take(8) == "--color="@ {
            match color_result(argument.skip(8)) {
                Ok(c) => parse_arguments(rest, with_color(options, c), hour_given, seconds_given),
                Err(e) => Err(e),
            }
        } else {
            Err(unknown_option_message(argument))
        }
    }
}

/// `--color=VALUE` and `--color VALUE` mean the same: for any value, the
/// rest of the command line and the options read so far, both forms give
/// the same result.
pub proof fn lemma_color_forms_agree(
    value: Seq<char>,
    rest: Seq<Seq<char>>,
    options: Options,
    hour_given: bool,
    seconds_given: bool,
)
    ensures
        parse_arguments(seq!["--color="@ + value] + rest, options, hour_given, seconds_given)
            == parse_arguments(seq!["--color"@, value] + rest, options, hour_given, seconds_given),
{
    reveal_strlit("--color=");
    reveal_strlit("--color");
    reveal_strlit("--12h");
    reveal_strlit("--24h");
    reveal_strlit("--seconds");
    reveal_strlit("--no-seconds");
    reveal_strlit("--help");
    reveal_strlit("-h");
    reveal_strlit("--version");
    reveal_strlit("-V");
    let joined = seq!["--color="@ + value] + rest;
    let split = seq!["--color"@, value] + rest;
    let argument = "--color="@ + value;
    assert(joined[0] == argument);
    assert(joined.drop_first() =~= rest);
    assert(split[0] == "--color"@);
    assert(split.drop_first()[0] == value);
    assert(split.drop_first().drop_first() =~= rest);
    assert(argument.take(8) =~= "--color="@);
    assert(argument.skip(8) =~= value);
    assert(argument.len() >= 8);
    assert(argument != "--color"@) by {
        assert(argument[7] != "--color"@[7] || argument.len() != 7);
    }
    assert(argument != "--12h"@) by {
        assert(argument[2] != "--12h"@[2]);
    }
    assert(argument != "--24h"@) by {
        assert(argument[2] != "--24h"@[2]);
    }
    assert(argument != "--seconds"@) by {
        assert(argument[2] != "--seconds"@[2]);
    }
    assert(argument != "--no-seconds"@) by {
        assert(argument[2] != "--no-seconds"@[2]);
    }
    assert(argument != "--help"@) by {
        assert(argument[2] != "--help"@[2]);
    }
    assert(argument != "-h"@) by {
        assert(argument[1] != "-h"@[1]);
    }
    assert(argument != "--version"@) by {
        assert(argument[2] != "--version"@[2]);
    }
    assert(argument != "-V"@) by {
        assert(argument[1] != "-V"@[1]);
    }
}

/// The characters of each argument.
pub open spec fn argument_texts(args: Seq<String>) -> Seq<Seq<char>> {
    args.map_values(|a: String| a@)
}

/// Reads a colour argument.
pub fn parse_color(value: &str) -> (color: Result<Rgb, String>)
    ensures
        match color {
            Ok(c) => color_result(value@) == Ok::<Rgb, Seq<char>>(c),
            Err(e) => color_result(value@) == Err::<Rgb, Seq<char>>(e@),
        },
{
    match Rgb::from_hex(value) {
        Some(c) => Ok(c),
        None => {
            let mut message = String::from_str("invalid color `");
            message.append(value);
            message.append("`; use #RRGGBB or #RGB\n\n");
            message.append(USAGE);
            Err(message)
        },
    }
}

/// A colour argument, in either form, changes only the colour: reading it
/// and then the rest of the command line is reading the rest from the same
/// options, hour format and seconds kept, with the colour set to the one the
/// value names; a value that names no colour is an error.
pub proof fn lemma_color_changes_only_the_color(
    value: Seq<char>,
    rest: Seq<Seq<char>>,
    options: Options,
    hour_given: bool,
    seconds_given: bool,
)
    ensures
        parsed_hex_color(value) matches Some(c) ==> parse_arguments(
            seq!["--color"@, value] + rest,
            options,
            hour_given,
            seconds_given,
        ) == parse_arguments(
            rest,
            Options {
                hour_format: options.hour_format,
                show_seconds: options.show_seconds,
                color: Some(c),
                gradient: options.gradient,
            },
            hour_given,
            seconds_given,
        ),
        parsed_hex_color(value) is None ==> parse_arguments(
            seq!["--color"@, value] + rest,
            options,
            hour_given,
            seconds_given,
        ) is Err,
        parse_arguments(seq!["--color="@ + value] + rest, options, hour_given, seconds_given)
            == parse_arguments(seq!["--color"@, value] + rest, options, hour_given, seconds_given),
{
    lemma_color_forms_agree(value, rest, options, hour_given, seconds_given);
    reveal_strlit("--color");
    reveal_strlit("--12h");
    reveal_strlit("--24h");
    reveal_strlit("--seconds");
    reveal_strlit("--no-seconds");
    let split = seq!["--color"@, value] + rest;
    assert(split[0] == "--color"@);
    assert(split.drop_first()[0] == value);
    assert(split.drop_first().drop_first() =~= rest);
    assert(split.drop_first().len() > 0);
    assert("--color"@ != "--12h"@) by {
        assert("--color"@[2] != "--12h"@[2]);
    }
    assert("--color"@ != "--24h"@) by {
        assert("--color"@[2] != "--24h"@[2]);
    }
    assert("--color"@ != "--seconds"@) by {
        assert("--color"@[2] != "--seconds"@[2]);
    }
    assert("--color"@ != "--no-seconds"@) by {
        assert("--color"@[2] != "--no-seconds"@[2]);
    }
}

/// Asking for both hour formats, or for seconds both shown and hidden, is
/// refused whatever follows, from any options read so far without an hour
/// or seconds flag: the second, contradicting flag is named in the error.
pub proof fn lemma_conflicting_flags_are_refused(rest: Seq<Seq<char>>, options: Options)
    ensures
        parse_arguments(seq!["--12h"@, "--24h"@] + rest, options, false, false)
            == Err::<CliAction, Seq<char>>(conflicting_option_message("--24h"@)),
        parse_arguments(seq!["--24h"@, "--12h"@] + rest, options, false, false)
            == Err::<CliAction, Seq<char>>(conflicting_option_message("--12h"@)),
        parse_arguments(seq!["--seconds"@, "--no-seconds"@] + rest, options, false, false)
            == Err::<CliAction, Seq<char>>(conflicting_option_message("--no-seconds"@)),
        parse_arguments(seq!["--no-seconds"@, "--seconds"@] + rest, options, false, false)
            == Err::<CliAction, Seq<char>>(conflicting_option_message("--seconds"@)),
{
    reveal_strlit("--12h");
    reveal_strlit("--24h");
    reveal_strlit("--seconds");
    reveal_strlit("--no-seconds");
    assert("--12h"@ != "--24h"@) by {
        assert("--12h"@[2] != "--24h"@[2]);
    }
    assert("--seconds"@ != "--no-seconds"@) by {
        assert("--seconds"@.len() != "--no-seconds"@.len());
    }
    let a = seq!["--12h"@, "--24h"@] + rest;
    assert(a[0] == "--12h"@ && a.drop_first()[0] == "--24h"@);
    assert(parse_arguments(
        a.drop_first(),
        Options { hour_format: HourFormat::H12, ..options },
        true,
        false,
    ) == Err::<CliAction, Seq<char>>(conflicting_option_message("--24h"@)));
    let b = seq!["--24h"@, "--12h"@] + rest;
    assert(b[0] == "--24h"@ && b.drop_first()[0] == "--12h"@);
    assert(parse_arguments(
        b.drop_first(),
        Options { hour_format: HourFormat::H24, ..options },
        true,
        false,
    ) == Err::<CliAction, Seq<char>>(conflicting_option_message("--12h"@)));
    let c = seq!["--seconds"@, "--no-seconds"@] + rest;
    assert(c[0] == "--seconds"@ && c.drop_first()[0] == "--no-seconds"@);
    assert(parse_arguments(
        c.drop_first(),
        Options { show_seconds: true, ..options },
        false,
        true,
    ) == Err::<CliAction, Seq<char>>(conflicting_option_message("--no-seconds"@)));
    let d = seq!["--no-seconds"@, "--seconds"@] + rest;
    assert(d[0] == "--no-seconds"@ && d.drop_first()[0] == "--seconds"@);
    assert(parse_arguments(
        d.drop_first(),
        Options { show_seconds: false, ..options },
        false,
        true,
    ) == Err::<CliAction, Seq<char>>(conflicting_option_message("--seconds"@)));
}

/// Each hour or seconds flag changes only its own setting: reading it and
/// then the rest of the command line is reading the rest from the same
/// options with that one setting changed (colour and the other setting
/// kept), unless it contradicts a flag read before it. Help and version stop
/// reading whatever follows, and an empty command line runs with the options
/// read so far.
pub proof fn lemma_flags_change_only_their_setting(
    rest: Seq<Seq<char>>,
    options: Options,
    hour_given: bool,
    seconds_given: bool,
)
    ensures
        !(hour_given && options.hour_format == HourFormat::H24) ==> parse_arguments(
            seq!["--12h"@] + rest,
            options,
            hour_given,
            seconds_given,
        ) == parse_arguments(
            rest,
            Options {
                hour_format: HourFormat::H12,
                show_seconds: options.show_seconds,
                color: options.color,
                gradient: options.gradient,
            },
            true,
            seconds_given,
        ),
        !(hour_given && options.hour_format == HourFormat::H12) ==> parse_arguments(
            seq!["--24h"@] + rest,
            options,
            hour_given,
            seconds_given,
        ) == parse_arguments(
            rest,
            Options {
                hour_format: HourFormat::H24,
                show_seconds: options.show_seconds,
                color: options.color,
                gradient: options.gradient,
            },
            true,
            seconds_given,
        ),
        !(seconds_given && !options.show_seconds) ==> parse_arguments(
            seq!["--seconds"@] + rest,
            options,
            hour_given,
            seconds_given,
        ) == parse_arguments(
            rest,
            Options {
                hour_format: options.hour_format,
                show_seconds: true,
                color: options.color,
                gradient: options.gradient,
            },
            hour_given,
            true,
        ),
        !(seconds_given && options.show_seconds) ==> parse_arguments(
            seq!["--no-seconds"@] + rest,
            options,
            hour_given,
            seconds_given,
        ) == parse_arguments(
            rest,
            Options {
                hour_format: options.hour_format,
                show_seconds: false,
                color: options.color,
                gradient: options.gradient,
            },
            hour_given,
            true,
        ),
        parse_arguments(seq!["--help"@] + rest, options, hour_given, seconds_given) == Ok::<
            CliAction,
            Seq<char>,
        >(CliAction::Help),
        parse_arguments(seq!["-h"@] + rest, options, hour_given, seconds_given) == Ok::<
            CliAction,
            Seq<char>,
        >(CliAction::Help),
        parse_arguments(seq!["--version"@] + rest, options, hour_given, seconds_given) == Ok::<
            CliAction,
            Seq<char>,
        >(CliAction::Version),
        parse_arguments(seq!["-V"@] + rest, options, hour_given, seconds_given) == Ok::<
            CliAction,
            Seq<char>,
        >(CliAction::Version),
        parse_arguments(seq![], options, hour_given, seconds_given) == Ok::<CliAction, Seq<char>>(
            CliAction::Run(options),
        ),
{
    reveal_strlit("--color");
    reveal_strlit("--12h");
    reveal_strlit("--24h");
    reveal_strlit("--seconds");
    reveal_strlit("--no-seconds");
    reveal_strlit("--help");
    reveal_strlit("-h");
    reveal_strlit("--version");
    reveal_strlit("-V");
    assert("--12h"@ != "--24h"@) by {
        assert("--12h"@[2] != "--24h"@[2]);
    }
    assert("--seconds"@ != "--no-seconds"@) by {
        assert("--seconds"@.len() != "--no-seconds"@.len());
    }
    let words = seq![
        "--12h"@,
        "--24h"@,
        "--seconds"@,
        "--no-seconds"@,
        "--help"@,
        "-h"@,
        "--version"@,
        "-V"@,
    ];
    assert forall|w: Seq<char>| words.contains(w) implies (seq![w] + rest)[0] == w && (seq![w]
        + rest).drop_first() =~= rest by {}
    assert(words[0] == "--12h"@ && words[1] == "--24h"@ && words[2] == "--seconds"@ && words[3]
        == "--no-seconds"@ && words[4] == "--help"@ && words[5] == "-h"@ && words[6] == "--version"@
        && words[7] == "-V"@);
    assert("--help"@ != "--12h"@ && "--help"@ != "--24h"@ && "--help"@ != "--seconds"@
        && "--help"@ != "--no-seconds"@ && "--help"@ != "--color"@) by {
        assert("--help"@[2] != "--12h"@[2] && "--help"@[2] != "--24h"@[2] && "--help"@[2]
            != "--seconds"@[2] && "--help"@[2] != "--no-seconds"@[2] && "--help"@[2]
            != "--color"@[2]);
    }
    assert("-h"@ != "--12h"@ && "-h"@ != "--24h"@ && "-h"@ != "--seconds"@ && "-h"@
        != "--no-seconds"@ && "-h"@ != "--color"@) by {
        assert("-h"@.len() == 2);
    }
    assert("--version"@ != "--12h"@ && "--version"@ != "--24h"@ && "--version"@ != "--seconds"@
        && "--version"@ != "--no-seconds"@ && "--version"@ != "--color"@ && "--version"@
        != "--help"@ && "--version"@ != "-h"@) by {
        assert("--version"@[2] != "--12h"@[2] && "--version"@[2] != "--24h"@[2] && "--version"@[2]
            != "--seconds"@[2] && "--version"@[2] != "--no-seconds"@[2] && "--version"@[2]
            != "--color"@[2] && "--version"@[2] != "--help"@[2]);
    }
    assert("-V"@ != "--12h"@ && "-V"@ != "--24h"@ && "-V"@ != "--seconds"@ && "-V"@
        != "--no-seconds"@ && "-V"@ != "--color"@ && "-V"@ != "--help"@ && "-V"@ != "-h"@) by {
        assert("-V"@.len() == 2 && "-V"@[1] != "-h"@[1]);
    }
    assert(words.contains("--12h"@) && words.contains("--24h"@) && words.contains("--seconds"@)
        && words.contains("--no-seconds"@) && words.contains("--help"@) && words.contains("-h"@)
        && words.contains("--version"@) && words.contains("-V"@)) by {
        assert(words[0] == "--12h"@);
        assert(words[1] == "--24h"@);
        assert(words[2] == "--seconds"@);
        assert(words[3] == "--no-seconds"@);
        assert(words[4] == "--help"@);
        assert(words[5] == "-h"@);
        assert(words[6] == "--version"@);
        assert(words[7] == "-V"@);
    }
    assert(Options { hour_format: HourFormat::H12, ..options } == Options {
        hour_format: HourFormat::H12,
        show_seconds: options.show_seconds,
        color: options.color,
        gradient: options.gradient,
    });
}

/// `prefix`, then `argument`, a blank line and the usage text.
fn message_with_usage(prefix: &str, argument: &str) -> (message: String)
    ensures
        message@ == prefix@ + argument@ + "\n\n"@ + USAGE@,
{
    let mut message = String::from_str(prefix);
    message.append(argument);
    push_char(&mut message, '\n');
    push_char(&mut message, '\n');
    message.append(USAGE);
    proof {
        reveal_strlit("\n\n");
    }
    assert(message@ =~= prefix@ + argument@ + "\n\n"@ + USAGE@);
    message
}

/// Reads the command-line arguments (without the program name), starting
/// from the default options with no flag read yet (see `parse_arguments`).
pub fn parse_options(args: &Vec<String>) -> (action: Result<CliAction, String>)
    ensures
        match action {
            Ok(a) => parse_arguments(argument_texts(args@), default_options(), false, false) == Ok::<
                CliAction,
                Seq<char>,
            >(a),
            Err(e) => parse_arguments(argument_texts(args@), default_options(), false, false) == Err::<
                CliAction,
                Seq<char>,
            >(e@),
        },
{
    let ghost texts = argument_texts(args@);
    let mut options = Options::default();
    let mut hour_given = false;
    let mut seconds_given = false;
    let mut i: usize = 0;
    assert(texts.skip(0) =~= texts);
    while i < args.len()
        invariant
            i <= args@.len(),
            texts == argument_texts(args@),
            parse_arguments(texts, default_options(), false, false) == parse_arguments(
                texts.skip(i as int),
                options,
                hour_given,
                seconds_given,
            ),
        decreases args@.len() - i,
    {
        let ghost rest = texts.skip(i as int);
        assert(rest[0] == args@[i as int]@);
        assert(rest.drop_first() =~= texts.skip(i + 1));
        let argument = args[i].as_str();
        i = i + 1;
        let twelve = same_text(argument, "--12h");
        let seconds = same_text(argument, "--seconds");
        if twelve || same_text(argument, "--24h") {
            let format = if twelve {
                HourFormat::H12
            } else {
                HourFormat::H24
            };
            if hour_given && options.hour_format != format {
                return Err(message_with_usage("conflicting option: ", argument));
            }
            options.hour_format = format;
            hour_given = true;
        } else if seconds || same_text(argument, "--no-seconds") {
            if seconds_given && options.show_seconds != seconds {
                return Err(message_with_usage("conflicting option: ", argument));
            }
            options.show_seconds = seconds;
            seconds_given = true;
        } else if same_text(argument, "--color") {
            if i >= args.len() {
                return Err(String::from_str("--color expects a hex value such as #7aa2f7"));
            }
            assert(rest.drop_first()[0] == args@[i as int]@);
            assert(rest.drop_first().drop_first() =~= texts.skip(i + 1));
            match parse_color(args[i].as_str()) {
                Ok(c) => options.color = Some(c),
                Err(e) => return Err(e),
            }
            i = i + 1;
        } else if same_text(argument, "--help") || same_text(argument, "-h") {
            return Ok(CliAction::Help);
        } else if same_text(argument, "--version") || same_text(argument, "-V") {
            return Ok(CliAction::Version);
        } else {
            let n = argument.unicode_len();
            if n >= 8 && same_text(argument.substring_char(0, 8), "--color=") {
                match parse_color(argument.substring_char(8, n)) {
                    Ok(c) => options.color = Some(c),
                    Err(e) => return Err(e),
                }
                assert(argument@.subrange(8, n as int) =~= argument@.skip(8));
                assert(argument@.subrange(0, 8) =~= argument@.take(8));
            } else {
                assert(n >= 8 ==> argument@.subrange(0, 8) =~= argument@.take(8));
                return Err(message_with_usage("unknown option: ", argument));
            }
        }
    }
    assert(texts.skip(i as int) =~= seq![]);
    Ok(CliAction::Run(options))
}

} // verus!
