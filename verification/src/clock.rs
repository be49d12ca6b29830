//! The text that one clock frame shows.
use vstd::prelude::*;

use crate::text::{
    digit_char, digits_read, lemma_two_digits_read_back, push_char, push_two_digits, two_digits,
};
use crate::{HourFormat, Options};
use std::time::{Duration, SystemTime, SystemTimeError, UNIX_EPOCH};
use vstd::utf8::{decode_utf8, valid_utf8};

verus! {

/// The formatted time and date for one instant.
#[derive(Debug, Clone, PartialEq, Eq)]
pub struct ClockSnapshot {
    pub face_text: String,
    pub compact_text: String,
    pub date_text: String,
    pub meridiem: Option<&'static str>,
}

/// The characters a snapshot holds.
pub struct ClockView {
    pub face: Seq<char>,
    pub compact: Seq<char>,
    pub date: Seq<char>,
    pub meridiem: Option<Seq<char>>,
}

impl View for ClockSnapshot {
    type V = ClockView;

    open spec fn view(&self) -> ClockView {
        ClockView {
            face: self.face_text@,
            compact: self.compact_text@,
            date: self.date_text@,
            meridiem: match self.meridiem {
                Some(p) => Some(p@),
                None => None,
            },
        }
    }
}

/// What `String::from_utf8_lossy` makes of `bytes`: the text they encode,
/// with each invalid sequence replaced by U+FFFD.
pub uninterp spec fn utf8_lossy(bytes: Seq<u8>) -> Seq<char>;

/// Decodes bytes as UTF-8, replacing what is invalid.
///
/// Trusted: `String::from_utf8_lossy` (made owned). Its result is named by
/// `utf8_lossy`; the standard library documents that valid UTF-8 comes back
/// unchanged, which the second clause states.
#[verifier::external_body]
fn decode_lossy(bytes: &[u8]) -> (text: String)
    ensures
        text@ == utf8_lossy(bytes@),
        valid_utf8(bytes@) ==> text@ == decode_utf8(bytes@),
{
    String::from_utf8_lossy(bytes).into_owned()
}

/// The first `length` bytes of a C character buffer, as bytes.
pub open spec fn written_bytes(buffer: Seq<i8>, length: int) -> Seq<u8> {
    buffer.take(length).map_values(|b: i8| b as u8)
}

/// Whether a C formatting call wrote a usable, valid UTF-8 text: something,
/// no more than the buffer holds, and decodable.
pub open spec fn wrote_valid_text(buffer: Seq<i8>, length: int) -> bool {
    0 < length <= buffer.len() && valid_utf8(written_bytes(buffer, length))
}

/// The text a C formatting call left in `buffer` after writing `length`
/// bytes; none when it wrote nothing or claims more than the buffer holds.
pub open spec fn written_text(buffer: Seq<i8>, length: int) -> Option<Seq<char>> {
    if 0 < length <= buffer.len() {
        Some(utf8_lossy(written_bytes(buffer, length)))
    } else {
        None
    }
}

/// The seconds since midnight, UTC, at `timestamp`.
pub open spec fn seconds_of_day(timestamp: i64) -> int {
    timestamp as int % 86_400
}

/// The hour shown for `hour_24` (0 to 23) in the given format.
pub open spec fn shown_hour(hour_24: int, format: HourFormat) -> int {
    match format {
        HourFormat::H24 => hour_24,
        HourFormat::H12 => if hour_24 % 12 == 0 {
            12
        } else {
            hour_24 % 12
        },
    }
}

/// `AM` or `PM` for the hour, on a 12-hour clock only.
pub open spec fn period_of(hour_24: int, format: HourFormat) -> Option<Seq<char>> {
    match format {
        HourFormat::H24 => None,
        HourFormat::H12 => Some(
            if hour_24 >= 12 {
                "PM"@
            } else {
                "AM"@
            },
        ),
    }
}

/// `HH:MM:SS`, or `HH:MM` without seconds.
pub open spec fn clock_face(hour: int, minute: int, second: int, show_seconds: bool) -> Seq<char> {
    let hm = two_digits(hour as nat) + seq![':'] + two_digits(minute as nat);
    if show_seconds {
        hm + seq![':'] + two_digits(second as nat)
    } else {
        hm
    }
}

/// The face followed by the period, when there is one.
pub open spec fn compact_face(face: Seq<char>, period: Option<Seq<char>>) -> Seq<char> {
    match period {
        Some(p) => face + seq![' '] + p,
        None => face,
    }
}

/// The snapshot for `timestamp` read as UTC.
pub open spec fn utc_snapshot(timestamp: i64, options: Options) -> ClockView {
    let day = seconds_of_day(timestamp);
    let hour_24 = day / 3600;
    let face = clock_face(
        shown_hour(hour_24, options.hour_format),
        (day % 3600) / 60,
        day % 60,
        options.show_seconds,
    );
    let period = period_of(hour_24, options.hour_format);
    ClockView {
        face: face,
        compact: compact_face(face, period),
        date: "UTC (local time unavailable)"@,
        meridiem: period,
    }
}

/// Whether `face` reads `HH:MM`, or `HH:MM:SS` when `seconds`, in ASCII
/// digits.
pub open spec fn is_clock_face(face: Seq<char>, seconds: bool) -> bool {
    &&& face.len() == if seconds {
        8int
    } else {
        5int
    }
    &&& forall|i: int|
        0 <= i < face.len() ==> if i % 3 == 2 {
            #[trigger] face[i] == ':'
        } else {
            '0' <= face[i] <= '9'
        }
}

/// The UTC clock is plain text: its face is `HH:MM` or `HH:MM:SS`, with the
/// hour within 0 to 23 (1 to 12 on a 12-hour clock), and its compact text
/// holds no escape character.
pub proof fn lemma_utc_clock_is_plain(timestamp: i64, options: Options)
    ensures
        is_clock_face(utc_snapshot(timestamp, options).face, options.show_seconds),
        0 <= seconds_of_day(timestamp) / 3600 < 24,
        options.hour_format == HourFormat::H12 ==> 1 <= shown_hour(
            seconds_of_day(timestamp) / 3600,
            HourFormat::H12,
        ) <= 12,
        forall|i: int|
            0 <= i < utc_snapshot(timestamp, options).compact.len() ==> #[trigger] utc_snapshot(
                timestamp,
                options,
            ).compact[i] != '\x1b',
{
    reveal_strlit("AM");
    reveal_strlit("PM");
    let v = utc_snapshot(timestamp, options);
    let day = seconds_of_day(timestamp);
    let hour_24 = day / 3600;
    let hour = shown_hour(hour_24, options.hour_format);
    let minute = (day % 3600) / 60;
    let second = day % 60;
    assert(0 <= hour < 24);
    let face = v.face;
    assert forall|i: int| 0 <= i < face.len() implies if i % 3 == 2 {
        #[trigger] face[i] == ':'
    } else {
        '0' <= face[i] <= '9'
    } by {
        assert(face[0] == digit_char(hour / 10));
        assert(face[1] == digit_char(hour % 10));
        assert(face[3] == digit_char(minute / 10));
        assert(face[4] == digit_char(minute % 10));
        if options.show_seconds {
            assert(face[6] == digit_char(second / 10));
            assert(face[7] == digit_char(second % 10));
        }
    }
    assert forall|i: int| 0 <= i < v.compact.len() implies #[trigger] v.compact[i] != '\x1b' by {
        if i < face.len() {
            assert(v.compact[i] == face[i]);
        }
    }
}

/// The UTC face tells the time of day: read as numbers, its hour, minute and
/// second fields give back the seconds since midnight of `timestamp`
/// (without seconds, the start of that minute). On a 12-hour clock the hour
/// runs from 1 to 12, and with the period (`PM` from noon) it gives back the
/// 24-hour time.
pub proof fn lemma_utc_face_tells_the_time(timestamp: i64, options: Options)
    ensures
        ({
            let v = utc_snapshot(timestamp, options);
            let face = v.face;
            let hour = digits_read(face.subrange(0, 2));
            let minute = digits_read(face.subrange(3, 5));
            let day_second = timestamp as int % 86_400;
            let hour_24 = match options.hour_format {
                HourFormat::H24 => hour as int,
                HourFormat::H12 => hour as int % 12 + if v.meridiem == Some(seq!['P', 'M']) {
                    12int
                } else {
                    0
                },
            };
            &&& minute < 60
            &&& options.hour_format == HourFormat::H12 ==> 1 <= hour <= 12
            &&& options.hour_format == HourFormat::H12 ==> (v.meridiem == Some(seq!['P', 'M'])
                || v.meridiem == Some(seq!['A', 'M']))
            &&& options.show_seconds ==> hour_24 * 3600 + minute * 60 + digits_read(
                face.subrange(6, 8),
            ) == day_second
            &&& !options.show_seconds ==> hour_24 * 3600 + minute * 60 == day_second
                - day_second % 60
        }),
{
    reveal_strlit("AM");
    reveal_strlit("PM");
    assert(seq!['P', 'M'] =~= "PM"@);
    assert(seq!['A', 'M'] =~= "AM"@);
    assert("PM"@ != "AM"@) by {
        assert("PM"@[0] != "AM"@[0]);
    }
    let v = utc_snapshot(timestamp, options);
    let face = v.face;
    let day = seconds_of_day(timestamp);
    let hour_24 = day / 3600;
    let hour = shown_hour(hour_24, options.hour_format);
    let minute = (day % 3600) / 60;
    let second = day % 60;
    lemma_two_digits_read_back(hour as nat);
    lemma_two_digits_read_back(minute as nat);
    lemma_two_digits_read_back(second as nat);
    assert(face.subrange(0, 2) =~= two_digits(hour as nat));
    assert(face.subrange(3, 5) =~= two_digits(minute as nat));
    if options.show_seconds {
        assert(face.subrange(6, 8) =~= two_digits(second as nat));
    }
    assert(hour_24 * 3600 + minute * 60 + second == day);
}

/// The `strftime` pattern for the time of day.
pub open spec fn time_pattern_of(options: Options) -> Seq<char> {
    match (options.hour_format, options.show_seconds) {
        (HourFormat::H12, true) => "%I:%M:%S"@,
        (HourFormat::H12, false) => "%I:%M"@,
        (HourFormat::H24, true) => "%H:%M:%S"@,
        (HourFormat::H24, false) => "%H:%M"@,
    }
}

/// The snapshot built from what `strftime` wrote for the local time: the
/// time (`--:--` when nothing usable was written), the date (`Local time`
/// when nothing usable was written) and, on a 12-hour clock, the period,
/// `PM` exactly when the written period starts with `P`.
pub open spec fn local_snapshot(
    options: Options,
    time: Seq<i8>,
    time_written: int,
    date: Seq<i8>,
    date_written: int,
    period: Seq<i8>,
    period_written: int,
) -> ClockView {
    let meridiem = if options.hour_format == HourFormat::H12 && period_written > 0 {
        Some(
            if period[0] == 80 {
                "PM"@
            } else {
                "AM"@
            },
        )
    } else {
        None
    };
    let face = match written_text(time, time_written) {
        Some(t) => t,
        None => "--:--"@,
    };
    ClockView {
        face: face,
        compact: compact_face(face, meridiem),
        date: match written_text(date, date_written) {
            Some(d) => d,
            None => "Local time"@,
        },
        meridiem: meridiem,
    }
}

/// On a 12-hour clock with a written period, the clock reads `PM` exactly
/// when the period `strftime` wrote starts with `P`, and `AM` otherwise (so
/// a written `AM` reads `AM`); the compact text is the face, a space and the
/// period. With no period written, or on a 24-hour clock, there is none and
/// the compact text is the face alone.
pub proof fn lemma_period_follows_what_was_written(
    options: Options,
    time: Seq<i8>,
    time_written: int,
    date: Seq<i8>,
    date_written: int,
    period: Seq<i8>,
    period_written: int,
)
    requires
        period.len() > 0,
    ensures
        ({
            let v = local_snapshot(
                options,
                time,
                time_written,
                date,
                date_written,
                period,
                period_written,
            );
            &&& (options.hour_format == HourFormat::H24 || period_written <= 0) ==> v.meridiem is None
                && v.compact == v.face
            &&& (options.hour_format == HourFormat::H12 && period_written > 0 && period[0] as int
                == 'P' as int) ==> v.meridiem == Some(seq!['P', 'M']) && v.compact == v.face
                + seq![' ', 'P', 'M']
            &&& (options.hour_format == HourFormat::H12 && period_written > 0 && period[0] as int
                != 'P' as int) ==> v.meridiem == Some(seq!['A', 'M']) && v.compact == v.face
                + seq![' ', 'A', 'M']
        }),
{
    reveal_strlit("AM");
    reveal_strlit("PM");
    let v = local_snapshot(options, time, time_written, date, date_written, period, period_written);
    assert(seq!['P', 'M'] =~= "PM"@);
    assert(seq!['A', 'M'] =~= "AM"@);
    assert(v.face + seq![' '] + "PM"@ =~= v.face + seq![' ', 'P', 'M']);
    assert(v.face + seq![' '] + "AM"@ =~= v.face + seq![' ', 'A', 'M']);
}

/// The face is the text `strftime` wrote for the time, or `--:--` when it
/// wrote nothing (or claims more than the buffer holds); the date likewise
/// is the written date, or `Local time`. Neither depends on the other
/// buffers, nor on the period.
pub proof fn lemma_texts_are_what_was_written(
    options: Options,
    time: Seq<i8>,
    time_written: int,
    date: Seq<i8>,
    date_written: int,
    period: Seq<i8>,
    period_written: int,
)
    ensures
        ({
            let v = local_snapshot(
                options,
                time,
                time_written,
                date,
                date_written,
                period,
                period_written,
            );
            &&& 0 < time_written <= time.len() ==> v.face == utf8_lossy(
                time.take(time_written).map_values(|b: i8| b as u8),
            )
            &&& !(0 < time_written <= time.len()) ==> v.face == seq!['-', '-', ':', '-', '-']
            &&& 0 < date_written <= date.len() ==> v.date == utf8_lossy(
                date.take(date_written).map_values(|b: i8| b as u8),
            )
            &&& !(0 < date_written <= date.len()) ==> v.date == seq![
                'L',
                'o',
                'c',
                'a',
                'l',
                ' ',
                't',
                'i',
                'm',
                'e',
            ]
        }),
{
    reveal_strlit("--:--");
    reveal_strlit("Local time");
    assert(seq!['-', '-', ':', '-', '-'] =~= "--:--"@);
    assert(seq!['L', 'o', 'c', 'a', 'l', ' ', 't', 'i', 'm', 'e'] =~= "Local time"@);
}

impl ClockSnapshot {
    /// The clock for `timestamp` (seconds since the Unix epoch) in UTC, used
    /// when the local time zone cannot be read.
    pub fn utc_fallback(timestamp: i64, options: Options) -> (snapshot: Self)
        ensures
            snapshot@ == utc_snapshot(timestamp, options),
    {
        let day_seconds: i64 = match timestamp.checked_rem_euclid(86_400) {
            Some(d) => d,
            None => 0,
        };
        let hour_24 = day_seconds / 3_600;
        let minute = (day_seconds % 3_600) / 60;
        let second = day_seconds % 60;
        let (hour, meridiem): (i64, Option<&'static str>) = match options.hour_format {
            HourFormat::H24 => (hour_24, None),
            HourFormat::H12 => {
                let period = if hour_24 >= 12 {
                    "PM"
                } else {
                    "AM"
                };
                (
                    if hour_24 % 12 == 0 {
                        12
                    } else {
                        hour_24 % 12
                    },
                    Some(period),
                )
            },
        };
        let mut face_text = String::new();
        push_two_digits(&mut face_text, hour as u64);
        push_char(&mut face_text, ':');
        push_two_digits(&mut face_text, minute as u64);
        if options.show_seconds {
            push_char(&mut face_text, ':');
            push_two_digits(&mut face_text, second as u64);
        }
        let compact_text = with_period(&face_text, meridiem);
        let snapshot = Self {
            face_text,
            compact_text,
            date_text: String::from_str("UTC (local time unavailable)"),
            meridiem,
        };
        assert(snapshot@.face =~= utc_snapshot(timestamp, options).face);
        assert(snapshot@ == utc_snapshot(timestamp, options));
        snapshot
    }

    /// Assembles the clock from the buffers the local-time formatting calls
    /// filled: `time` with `time_pattern`, `date` with `date_pattern`, and
    /// `period` with `period_pattern`, each with the count of bytes written.
    pub fn from_local_time(
        options: Options,
        time: &[i8; 32],
        time_written: usize,
        date: &[i8; 64],
        date_written: usize,
        period: &[i8; 4],
        period_written: usize,
    ) -> (snapshot: Self)
        ensures
            snapshot@ == local_snapshot(
                options,
                time@,
                time_written as int,
                date@,
                date_written as int,
                period@,
                period_written as int,
            ),
            wrote_valid_text(time@, time_written as int) ==> snapshot.face_text@ == decode_utf8(
                written_bytes(time@, time_written as int),
            ),
            wrote_valid_text(date@, date_written as int) ==> snapshot.date_text@ == decode_utf8(
                written_bytes(date@, date_written as int),
            ),
    {
        let meridiem: Option<&'static str> = if options.hour_format == HourFormat::H12
            && period_written > 0 {
            Some(
                if period[0] == 80 {
                    "PM"
                } else {
                    "AM"
                },
            )
        } else {
            None
        };
        let face_text = match written(time.as_slice(), time_written) {
            Some(t) => t,
            None => String::from_str("--:--"),
        };
        let compact_text = with_period(&face_text, meridiem);
        let date_text = match written(date.as_slice(), date_written) {
            Some(d) => d,
            None => String::from_str("Local time"),
        };
        Self { face_text, compact_text, date_text, meridiem }
    }
}

/// The `strftime` pattern for the date: day, month and four-digit year,
/// `DD/MM/YYYY`.
pub open spec fn date_pattern_of() -> Seq<char> {
    "%d/%m/%Y"@
}

/// The `strftime` pattern for the period (`AM`/`PM`), which only a 12-hour
/// clock shows.
pub open spec fn period_pattern_of(options: Options) -> Option<Seq<char>> {
    match options.hour_format {
        HourFormat::H12 => Some("%p"@),
        HourFormat::H24 => None,
    }
}

/// The `strftime` pattern for the date (see `date_pattern_of`).
pub fn date_pattern() -> (pattern: &'static str)
    ensures
        pattern@ == date_pattern_of(),
{
    "%d/%m/%Y"
}

/// The `strftime` pattern for the period under `options`, if the clock shows
/// one (see `period_pattern_of`).
pub fn period_pattern(options: Options) -> (pattern: Option<&'static str>)
    ensures
        match pattern {
            Some(p) => period_pattern_of(options) == Some(p@),
            None => period_pattern_of(options) is None,
        },
{
    match options.hour_format {
        HourFormat::H12 => Some("%p"),
        HourFormat::H24 => None,
    }
}

/// The `strftime` pattern for the time of day under `options`.
pub fn time_pattern(options: Options) -> (pattern: &'static str)
    ensures
        pattern@ == time_pattern_of(options),
{
    if options.hour_format == HourFormat::H12 {
        if options.show_seconds {
            "%I:%M:%S"
        } else {
            "%I:%M"
        }
    } else if options.show_seconds {
        "%H:%M:%S"
    } else {
        "%H:%M"
    }
}

/// The face followed by a space and the period, when there is one.
fn with_period(face: &String, period: Option<&'static str>) -> (compact: String)
    ensures
        compact@ == compact_face(
            face@,
            match period {
                Some(p) => Some(p@),
                None => None,
            },
        ),
{
    let mut compact = face.clone();
    if let Some(p) = period {
        push_char(&mut compact, ' ');
        compact.append(p);
    }
    compact
}

/// The text in the first `length` bytes of `buffer` (see `written_text`).
fn written(buffer: &[i8], length: usize) -> (text: Option<String>)
    ensures
        match text {
            Some(t) => written_text(buffer@, length as int) == Some(t@),
            None => written_text(buffer@, length as int) is None,
        },
        wrote_valid_text(buffer@, length as int) ==> (text matches Some(t) && t@ == decode_utf8(
            written_bytes(buffer@, length as int),
        )),
{
    if length > 0 && length <= buffer.len() {
        let mut bytes: Vec<u8> = Vec::new();
        let mut i: usize = 0;
        while i < length
            invariant
                length <= buffer@.len(),
                i <= length,
                bytes@ == written_bytes(buffer@, i as int),
            decreases length - i,
        {
            bytes.push(buffer[i] as u8);
            i = i + 1;
            assert(bytes@ =~= written_bytes(buffer@, i as int));
        }
        Some(decode_lossy(bytes.as_slice()))
    } else {
        None
    }
}

#[verifier::external_type_specification]
#[verifier::external_body]
pub struct ExSystemTime(std::time::SystemTime);

#[verifier::external_type_specification]
#[verifier::external_body]
pub struct ExSystemTimeError(std::time::SystemTimeError);

/// The current wall-clock time.
///
/// Trusted: `SystemTime::now`. Nothing is stated of the result, which is the
/// time at the call.
#[verifier::external_body]
fn system_time_now() -> SystemTime {
    SystemTime::now()
}

/// The time elapsed since the Unix epoch, or an error for an earlier time.
///
/// Trusted: `SystemTime::duration_since` with `UNIX_EPOCH`. Nothing is
/// stated of the result: `Duration` is opaque here.
#[verifier::external_body]
fn since_unix_epoch(time: &SystemTime) -> Result<Duration, SystemTimeError> {
    time.duration_since(UNIX_EPOCH)
}

/// The fractional part of a duration, in nanoseconds.
///
/// Trusted: `Duration::subsec_nanos`, which the standard library documents
/// as always less than one billion.
#[verifier::external_body]
fn subsec_nanos(duration: &Duration) -> (nanos: u32)
    ensures
        nanos < 1_000_000_000,
{
    duration.subsec_nanos()
}

/// The nanoseconds from `subsec_nanos` into a second to the start of the
/// next one: one second less the fraction, held at zero.
pub open spec fn nanos_to_next_second(subsec_nanos: nat) -> nat {
    if subsec_nanos >= 1_000_000_000 {
        0
    } else {
        (1_000_000_000 - subsec_nanos) as nat
    }
}

/// The wait, in nanoseconds, from `subsec_nanos` into a second until the
/// next whole second.
pub fn nanos_until_next_second(subsec_nanos: u32) -> (nanos: u64)
    ensures
        nanos == nanos_to_next_second(subsec_nanos as nat),
        nanos <= 1_000_000_000,
        subsec_nanos < 1_000_000_000 ==> nanos > 0,
{
    if subsec_nanos >= 1_000_000_000 {
        0
    } else {
        1_000_000_000 - subsec_nanos as u64
    }
}

/// How long to wait, in nanoseconds, until the wall clock reaches its next
/// whole second: one second less the current fraction of a second (the whole
/// second when the clock reads before the Unix epoch). The fraction is read
/// from the clock, so what is stated is that the delay is one second less
/// some fraction below one second: more than nothing and at most a second.
pub fn next_second_delay() -> (delay: u64)
    ensures
        exists|fraction: nat|
            fraction < 1_000_000_000 && delay == #[trigger] nanos_to_next_second(fraction),
        0 < delay <= 1_000_000_000,
{
    let now = system_time_now();
    let fraction = match since_unix_epoch(&now) {
        Ok(elapsed) => subsec_nanos(&elapsed),
        Err(_) => 0,
    };
    let delay = nanos_until_next_second(fraction);
    assert(fraction < 1_000_000_000 && delay == nanos_to_next_second(fraction as nat));
    delay
}

} // verus!
