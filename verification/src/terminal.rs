//! Reading what the terminal reports about its size.
use vstd::prelude::*;

use crate::text::{all_decimal_digits, decimal, digits_read, lemma_decimal_reads_back};
use vstd::utf8::{is_leading_byte_width_1, partial_valid_utf8, partial_valid_utf8_extend_ascii_block, valid_utf8};

verus! {

/// Whether `bytes` are valid UTF-8.
///
/// Trusted: `std::str::from_utf8`, which the standard library documents as
/// failing exactly when the bytes are not valid UTF-8; vstd's `valid_utf8`
/// states that encoding.
#[verifier::external_body]
fn is_utf8(bytes: &[u8]) -> (valid: bool)
    ensures
        valid == valid_utf8(bytes@),
{
    std::str::from_utf8(bytes).is_ok()
}

/// The pixel size the window size call reported, when both dimensions are
/// known (non-zero).
pub open spec fn usable_pixels(window: Option<(u16, u16)>) -> Option<(u16, u16)> {
    match window {
        Some((x, y)) => if x > 0 && y > 0 {
            Some((x, y))
        } else {
            None
        },
        None => None,
    }
}

/// The pixel size (width, height) from the window size call, when both
/// dimensions are known; otherwise the terminal has to be asked.
pub fn reported_pixel_size(window: Option<(u16, u16)>) -> (pixels: Option<(u16, u16)>)
    ensures
        pixels == usable_pixels(window),
{
    match window {
        Some((x, y)) => if x > 0 && y > 0 {
            Some((x, y))
        } else {
            None
        },
        None => None,
    }
}

/// The first index at or after `from` where `pattern` occurs in `s`.
pub open spec fn find_from(s: Seq<u8>, pattern: Seq<u8>, from: int) -> Option<int>
    decreases s.len() + 1 - from,
{
    if from < 0 || from + pattern.len() > s.len() {
        None
    } else if s.subrange(from, from + pattern.len()) == pattern {
        Some(from)
    } else {
        find_from(s, pattern, from + 1)
    }
}

/// The value of a run of decimal digits.
pub open spec fn digits_value(d: Seq<u8>) -> nat
    decreases d.len(),
{
    if d.len() == 0 {
        0
    } else {
        digits_value(d.drop_last()) * 10 + (d.last() - 48) as nat
    }
}

/// Whether every byte is an ASCII decimal digit.
pub open spec fn all_digits(d: Seq<u8>) -> bool {
    forall|i: int| 0 <= i < d.len() ==> 48 <= #[trigger] d[i] <= 57
}

/// A field read as a `u16` the way `str::parse::<u16>` reads it: an
/// optional `+`, then one or more digits, with a value that fits.
pub open spec fn parsed_u16(field: Seq<u8>) -> Option<u16> {
    let digits = if field.len() > 0 && field[0] == 43 {
        field.drop_first()
    } else {
        field
    };
    if digits.len() == 0 || !all_digits(digits) || digits_value(digits) > u16::MAX {
        None
    } else {
        Some(digits_value(digits) as u16)
    }
}

/// The reply `CSI 4 ; height ; width t` that a terminal gives to the
/// window-pixel query, read from the first `ESC [ 4 ;` in `bytes` up to the
/// first `t` after it, the fields being split at `;`: (width, height) when
/// the bytes are valid UTF-8 and both fields are positive numbers.
pub open spec fn pixel_reply(bytes: Seq<u8>) -> Option<(u16, u16)> {
    if !valid_utf8(bytes) {
        None
    } else {
        match find_from(bytes, seq![27u8, 91, 52, 59], 0) {
            None => None,
            Some(i) => {
                let start = i + 4;
                match find_from(bytes, seq![116u8], start) {
                    None => None,
                    Some(end) => {
                        let fields = bytes.subrange(0, end);
                        match find_from(fields, seq![59u8], start) {
                            None => None,
                            Some(p) => {
                                let second_end = match find_from(fields, seq![59u8], p + 1) {
                                    Some(q) => q,
                                    None => end,
                                };
                                match (
                                    parsed_u16(bytes.subrange(start, p)),
                                    parsed_u16(bytes.subrange(p + 1, second_end)),
                                ) {
                                    (Some(height), Some(width)) => if width > 0 && height > 0 {
                                        Some((width, height))
                                    } else {
                                        None
                                    },
                                    _ => None,
                                }
                            },
                        }
                    },
                }
            },
        }
    }
}

/// The bytes of an ASCII text.
pub open spec fn ascii_bytes(s: Seq<char>) -> Seq<u8> {
    s.map_values(|c: char| c as u8)
}

/// The reply a terminal sends for a window of `width` by `height` pixels:
/// `ESC [ 4 ; height ; width t`, the numbers in decimal.
pub open spec fn pixel_reply_for(width: u16, height: u16) -> Seq<u8> {
    seq![27u8, 91, 52, 59] + ascii_bytes(decimal(height as nat)) + seq![59u8] + ascii_bytes(
        decimal(width as nat),
    ) + seq![116u8]
}

/// A search for one byte finds its first occurrence at or after `from`.
proof fn lemma_find_byte_at(s: Seq<u8>, b: u8, from: int, at: int)
    requires
        0 <= from <= at < s.len(),
        s[at] == b,
        forall|k: int| from <= k < at ==> s[k] != b,
    ensures
        find_from(s, seq![b], from) == Some(at),
    decreases at - from,
{
    if from < at {
        assert(s.subrange(from, from + 1) != seq![b]) by {
            assert(s.subrange(from, from + 1)[0] == s[from]);
        }
        lemma_find_byte_at(s, b, from + 1, at);
    } else {
        assert(s.subrange(from, from + 1) =~= seq![b]);
    }
}

/// A search for a byte that does not occur at or after `from` finds none.
proof fn lemma_find_byte_absent(s: Seq<u8>, b: u8, from: int)
    requires
        0 <= from <= s.len(),
        forall|k: int| from <= k < s.len() ==> s[k] != b,
    ensures
        find_from(s, seq![b], from) is None,
    decreases s.len() - from,
{
    if from < s.len() {
        assert(s.subrange(from, from + 1) != seq![b]) by {
            assert(s.subrange(from, from + 1)[0] == s[from]);
        }
        lemma_find_byte_absent(s, b, from + 1);
    }
}

/// Decimal digits, as bytes, read as the number they spell.
proof fn lemma_ascii_digits_value(d: Seq<char>)
    requires
        all_decimal_digits(d),
    ensures
        all_digits(ascii_bytes(d)),
        digits_value(ascii_bytes(d)) == digits_read(d),
    decreases d.len(),
{
    if d.len() > 0 {
        lemma_ascii_digits_value(d.drop_last());
        assert(ascii_bytes(d).drop_last() =~= ascii_bytes(d.drop_last()));
        assert(ascii_bytes(d).last() == d.last() as u8);
    }
}

/// The pixel-size reply reads back as the size it reports: for any
/// positive width and height, the reply `ESC [ 4 ; height ; width t` gives
/// (width, height).
pub proof fn lemma_pixel_reply_reads_back(width: u16, height: u16)
    requires
        width > 0,
        height > 0,
    ensures
        pixel_reply(pixel_reply_for(width, height)) == Some((width, height)),
{
    let h = decimal(height as nat);
    let w = decimal(width as nat);
    lemma_decimal_reads_back(height as nat);
    lemma_decimal_reads_back(width as nat);
    lemma_ascii_digits_value(h);
    lemma_ascii_digits_value(w);
    let hb = ascii_bytes(h);
    let wb = ascii_bytes(w);
    let bytes = pixel_reply_for(width, height);
    let p: int = 4 + hb.len() as int;
    let end: int = p + 1 + wb.len() as int;
    assert(bytes.len() == end + 1);
    assert forall|k: int| 4 <= k < p implies bytes[k] == hb[k - 4] && 48 <= #[trigger] bytes[k]
        <= 57 by {
        assert(48 <= hb[k - 4] <= 57);
    }
    assert forall|k: int| p + 1 <= k < end implies bytes[k] == wb[k - p - 1] && 48
        <= #[trigger] bytes[k] <= 57 by {
        assert(48 <= wb[k - p - 1] <= 57);
    }
    assert(bytes[p] == 59);
    assert(bytes[end] == 116);
    assert forall|k: int| 0 <= k < bytes.len() implies is_leading_byte_width_1(
        #[trigger] bytes[k],
    ) by {
        if 4 <= k < p {
        } else if p + 1 <= k < end {
        }
    }
    assert(bytes.subrange(0, 0) =~= Seq::<u8>::empty());
    assert(partial_valid_utf8(bytes, 0));
    partial_valid_utf8_extend_ascii_block(bytes, 0, bytes.len() as int);
    assert(bytes.subrange(0, bytes.len() as int) =~= bytes);
    assert(bytes.subrange(0, 4) =~= seq![27u8, 91, 52, 59]);
    lemma_find_byte_at(bytes, 116, 4, end);
    let fields = bytes.subrange(0, end);
    lemma_find_byte_at(fields, 59, 4, p);
    lemma_find_byte_absent(fields, 59, p + 1);
    assert(bytes.subrange(4, p) =~= hb);
    assert(bytes.subrange(p + 1, end) =~= wb);
    assert(hb[0] != 43);
    assert(wb[0] != 43);
}

/// The first index at or after `from` where `s[..end]` holds `byte`.
fn find_byte(s: &[u8], byte: u8, from: usize, end: usize) -> (found: Option<usize>)
    requires
        from <= end <= s@.len(),
    ensures
        match found {
            Some(i) => find_from(s@.subrange(0, end as int), seq![byte], from as int) == Some(
                i as int,
            ) && from <= i < end,
            None => find_from(s@.subrange(0, end as int), seq![byte], from as int) is None,
        },
{
    let ghost t = s@.subrange(0, end as int);
    let mut i = from;
    while i < end
        invariant
            from <= i <= end <= s@.len(),
            t == s@.subrange(0, end as int),
            find_from(t, seq![byte], from as int) == find_from(t, seq![byte], i as int),
        decreases end - i,
    {
        if s[i] == byte {
            assert(t.subrange(i as int, i + 1) =~= seq![byte]);
            return Some(i);
        }
        assert(t.subrange(i as int, i + 1) != seq![byte]) by {
            assert(t.subrange(i as int, i + 1)[0] == s@[i as int]);
        }
        i = i + 1;
    }
    None
}

/// The first index where `ESC [ 4 ;` starts in `s`.
fn find_reply_start(s: &[u8]) -> (found: Option<usize>)
    ensures
        match found {
            Some(i) => find_from(s@, seq![27u8, 91, 52, 59], 0) == Some(i as int) && i + 4
                <= s@.len(),
            None => find_from(s@, seq![27u8, 91, 52, 59], 0) is None,
        },
{
    let ghost pattern = seq![27u8, 91, 52, 59];
    let n = s.len();
    let mut i: usize = 0;
    while i < n && n - i >= 4
        invariant
            i <= n == s@.len(),
            pattern == seq![27u8, 91, 52, 59],
            find_from(s@, pattern, 0) == find_from(s@, pattern, i as int),
        decreases n - i,
    {
        if s[i] == 27 && s[i + 1] == 91 && s[i + 2] == 52 && s[i + 3] == 59 {
            assert(pattern[0] == 27 && pattern[1] == 91 && pattern[2] == 52 && pattern[3] == 59);
            assert(s@.subrange(i as int, i + 4) =~= pattern);
            return Some(i);
        }
        assert(s@.subrange(i as int, i + 4) != pattern) by {
            if s@.subrange(i as int, i + 4) == pattern {
                assert(s@.subrange(i as int, i + 4)[0] == s@[i as int]);
                assert(s@.subrange(i as int, i + 4)[1] == s@[i + 1]);
                assert(s@.subrange(i as int, i + 4)[2] == s@[i + 2]);
                assert(s@.subrange(i as int, i + 4)[3] == s@[i + 3]);
            }
        }
        i = i + 1;
    }
    None
}

/// Reads `s[begin..end]` as a `u16` (see `parsed_u16`).
fn parse_u16_field(s: &[u8], begin: usize, end: usize) -> (value: Option<u16>)
    requires
        begin <= end <= s@.len(),
    ensures
        value == parsed_u16(s@.subrange(begin as int, end as int)),
{
    let ghost field = s@.subrange(begin as int, end as int);
    let first = if begin < end && s[begin] == 43 {
        begin + 1
    } else {
        begin
    };
    let ghost digits = s@.subrange(first as int, end as int);
    assert(digits =~= if field.len() > 0 && field[0] == 43 {
        field.drop_first()
    } else {
        field
    });
    if first == end {
        return None;
    }
    let mut value: u32 = 0;
    let mut i = first;
    while i < end
        invariant
            begin <= first <= i <= end <= s@.len(),
            field == s@.subrange(begin as int, end as int),
            digits == s@.subrange(first as int, end as int),
            digits == if field.len() > 0 && field[0] == 43 {
                field.drop_first()
            } else {
                field
            },
            all_digits(s@.subrange(first as int, i as int)),
            value == if digits_value(s@.subrange(first as int, i as int)) > 65536 {
                65536
            } else {
                digits_value(s@.subrange(first as int, i as int))
            },
        decreases end - i,
    {
        let b = s[i];
        assert(s@.subrange(first as int, i + 1).drop_last() =~= s@.subrange(
            first as int,
            i as int,
        ));
        if b < 48 || b > 57 {
            assert(!all_digits(digits)) by {
                assert(digits[i - first] == b);
            }
            return None;
        }
        let next = value * 10 + (b - 48) as u32;
        value = if next > 65536 {
            65536
        } else {
            next
        };
        i = i + 1;
        assert(all_digits(s@.subrange(first as int, i as int))) by {
            assert forall|k: int| 0 <= k < i - first implies 48 <= #[trigger] s@.subrange(
                first as int,
                i as int,
            )[k] <= 57 by {
                if k < i - 1 - first {
                    assert(s@.subrange(first as int, i as int)[k] == s@.subrange(
                        first as int,
                        i - 1,
                    )[k]);
                }
            }
        }
    }
    if value > 65535 {
        None
    } else {
        Some(value as u16)
    }
}

/// Reads the terminal's reply to the window-pixel query (see
/// `pixel_reply`): (width, height) in pixels.
pub fn parse_pixel_response(bytes: &[u8]) -> (size: Option<(u16, u16)>)
    ensures
        size == pixel_reply(bytes@),
{
    if !is_utf8(bytes) {
        return None;
    }
    let n = bytes.len();
    let start = match find_reply_start(bytes) {
        Some(i) => i + 4,
        None => return None,
    };
    assert(bytes@.subrange(0, n as int) =~= bytes@);
    let end = match find_byte(bytes, 116, start, n) {
        Some(j) => j,
        None => return None,
    };
    let split = match find_byte(bytes, 59, start, end) {
        Some(p) => p,
        None => return None,
    };
    let second_end = match find_byte(bytes, 59, split + 1, end) {
        Some(q) => q,
        None => end,
    };
    let height = parse_u16_field(bytes, start, split);
    let width = parse_u16_field(bytes, split + 1, second_end);
    match (height, width) {
        (Some(height), Some(width)) => if width > 0 && height > 0 {
            Some((width, height))
        } else {
            None
        },
        _ => None,
    }
}

} // verus!
