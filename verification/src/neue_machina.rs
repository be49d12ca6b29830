//! The large clock face drawn as an image through the Kitty graphics
//! protocol: where the image goes, how its pixels are sent, and the date
//! line beneath it. Drawing the glyphs themselves is the platform's job.
use vstd::prelude::*;

use crate::clock::ClockSnapshot;
use crate::layout::{
    last_colon, last_index_of, lemma_last_index_of, saturating_add_u16, TerminalSize,
};
use crate::render::{cursor_to, foreground_sgr, push_cursor_to, push_foreground, reset_attributes};
use crate::text::{chars_of, decimal, push_char, push_decimal, string_of};
use crate::{Gradient, Rgb};

verus! {

/// The image id under which the face is placed, so that each frame
/// replaces the previous image.
pub const IMAGE_ID: u32 = 1_624_011;

/// Below this many columns the large face leaves out the seconds.
pub const FULL_TIME_MIN_COLUMNS: u16 = 52;

/// How many characters of the encoded image go into one transmission.
pub const CHUNK_CHARS: usize = 4096;

/// The character for a six-bit value in the standard base64 alphabet.
pub open spec fn base64_char(v: int) -> char {
    if v < 26 {
        (65 + v) as char
    } else if v < 52 {
        (97 + v - 26) as char
    } else if v < 62 {
        (48 + v - 52) as char
    } else if v == 62 {
        '+'
    } else {
        '/'
    }
}

/// The four characters encoding one group of up to three bytes, with `=`
/// padding for a short final group.
pub open spec fn base64_group(b: Seq<u8>) -> Seq<char> {
    let b0 = b[0] as int;
    let b1 = if b.len() > 1 {
        b[1] as int
    } else {
        0
    };
    let b2 = if b.len() > 2 {
        b[2] as int
    } else {
        0
    };
    seq![
        base64_char(b0 / 4),
        base64_char((b0 % 4) * 16 + b1 / 16),
        if b.len() > 1 {
            base64_char((b1 % 16) * 4 + b2 / 64)
        } else {
            '='
        },
        if b.len() > 2 {
            base64_char(b2 % 64)
        } else {
            '='
        },
    ]
}

/// The standard, padded base64 encoding of `bytes`.
pub open spec fn base64(bytes: Seq<u8>) -> Seq<char>
    decreases bytes.len(),
{
    if bytes.len() == 0 {
        seq![]
    } else if bytes.len() <= 3 {
        base64_group(bytes)
    } else {
        base64_group(bytes.take(3)) + base64(bytes.skip(3))
    }
}

/// The base64 encoding takes four characters for every three bytes or part.
pub proof fn lemma_base64_len(bytes: Seq<u8>)
    ensures
        base64(bytes).len() == 4 * ((bytes.len() + 2) / 3),
    decreases bytes.len(),
{
    if bytes.len() > 3 {
        lemma_base64_len(bytes.skip(3));
    }
}

/// The six-bit value a base64 character stands for.
pub open spec fn base64_value(c: char) -> int {
    if 'A' <= c <= 'Z' {
        c as int - 65
    } else if 'a' <= c <= 'z' {
        c as int - 97 + 26
    } else if '0' <= c <= '9' {
        c as int - 48 + 52
    } else if c == '+' {
        62
    } else {
        63
    }
}

/// The bytes one group of four base64 characters decodes to: three, or
/// fewer where the group ends in `=` padding.
pub open spec fn decode_group(g: Seq<char>) -> Seq<u8> {
    let v0 = base64_value(g[0]);
    let v1 = base64_value(g[1]);
    let v2 = base64_value(g[2]);
    let v3 = base64_value(g[3]);
    let b0 = (v0 * 4 + v1 / 16) as u8;
    let b1 = ((v1 % 16) * 16 + v2 / 4) as u8;
    let b2 = ((v2 % 4) * 64 + v3) as u8;
    if g[2] == '=' {
        seq![b0]
    } else if g[3] == '=' {
        seq![b0, b1]
    } else {
        seq![b0, b1, b2]
    }
}

/// A standard base64 decoder, group by group.
pub open spec fn base64_decode(chars: Seq<char>) -> Seq<u8>
    decreases chars.len(),
{
    if chars.len() < 4 {
        seq![]
    } else {
        decode_group(chars.take(4)) + base64_decode(chars.skip(4))
    }
}

/// How many `=` end the encoding of `n` bytes.
pub open spec fn base64_padding(n: nat) -> nat {
    ((3 - n % 3) % 3) as nat
}

/// Every six-bit value has its own character, never the padding `=`.
proof fn lemma_base64_char_value(v: int)
    requires
        0 <= v < 64,
    ensures
        base64_value(base64_char(v)) == v,
        base64_char(v) != '=',
{
}

/// One group decodes to the bytes it encodes.
proof fn lemma_group_round_trip(b: Seq<u8>)
    requires
        1 <= b.len() <= 3,
    ensures
        decode_group(base64_group(b)) == b,
{
    let b0 = b[0] as int;
    let b1 = if b.len() > 1 {
        b[1] as int
    } else {
        0
    };
    let b2 = if b.len() > 2 {
        b[2] as int
    } else {
        0
    };
    lemma_base64_char_value(b0 / 4);
    lemma_base64_char_value((b0 % 4) * 16 + b1 / 16);
    lemma_base64_char_value((b1 % 16) * 4 + b2 / 64);
    lemma_base64_char_value(b2 % 64);
    assert(decode_group(base64_group(b)) =~= b);
}

/// The encoding is decodable: a standard base64 decoder gives the bytes
/// back.
pub proof fn lemma_base64_round_trip(bytes: Seq<u8>)
    ensures
        base64_decode(base64(bytes)) == bytes,
    decreases bytes.len(),
{
    if bytes.len() == 0 {
        assert(bytes =~= seq![]);
    } else if bytes.len() <= 3 {
        lemma_group_round_trip(bytes);
        let e = base64_group(bytes);
        assert(e.take(4) =~= e);
        assert(e.skip(4) =~= seq![]);
        assert(base64_decode(e.skip(4)) == Seq::<u8>::empty());
        assert(base64_decode(e) == decode_group(e.take(4)) + base64_decode(e.skip(4)));
        assert(decode_group(e) + Seq::<u8>::empty() =~= bytes);
        assert(base64_decode(base64(bytes)) == bytes);
    } else {
        let g = base64_group(bytes.take(3));
        let rest = base64(bytes.skip(3));
        lemma_group_round_trip(bytes.take(3));
        lemma_base64_round_trip(bytes.skip(3));
        assert((g + rest).take(4) =~= g);
        assert((g + rest).skip(4) =~= rest);
        assert(base64(bytes) == g + rest);
        assert(base64_decode(g + rest) == decode_group(g) + base64_decode(rest));
        assert(bytes.take(3) + bytes.skip(3) =~= bytes);
        assert(base64_decode(base64(bytes)) == bytes);
    }
}

/// The encoding of `n` bytes ends in exactly `(3 - n % 3) % 3` padding
/// characters, and `=` occurs nowhere else.
pub proof fn lemma_base64_padding(bytes: Seq<u8>)
    ensures
        forall|i: int|
            0 <= i < base64(bytes).len() ==> (#[trigger] base64(bytes)[i] == '=' <==> i
                >= base64(bytes).len() - base64_padding(bytes.len())),
    decreases bytes.len(),
{
    lemma_base64_len(bytes);
    if bytes.len() == 0 {
    } else if bytes.len() <= 3 {
        let b = bytes;
        let b0 = b[0] as int;
        let b1 = if b.len() > 1 {
            b[1] as int
        } else {
            0
        };
        let b2 = if b.len() > 2 {
            b[2] as int
        } else {
            0
        };
        lemma_base64_char_value(b0 / 4);
        lemma_base64_char_value((b0 % 4) * 16 + b1 / 16);
        lemma_base64_char_value((b1 % 16) * 4 + b2 / 64);
        lemma_base64_char_value(b2 % 64);
    } else {
        let b = bytes.take(3);
        lemma_base64_char_value(b[0] as int / 4);
        lemma_base64_char_value((b[0] as int % 4) * 16 + b[1] as int / 16);
        lemma_base64_char_value((b[1] as int % 16) * 4 + b[2] as int / 64);
        lemma_base64_char_value(b[2] as int % 64);
        lemma_base64_padding(bytes.skip(3));
        lemma_base64_len(bytes.skip(3));
        let g = base64_group(b);
        let rest = base64(bytes.skip(3));
        assert forall|i: int| 0 <= i < base64(bytes).len() implies (#[trigger] base64(bytes)[i]
            == '=' <==> i >= base64(bytes).len() - base64_padding(bytes.len())) by {
            if i < 4 {
                assert(base64(bytes)[i] == g[i]);
            } else {
                assert(base64(bytes)[i] == rest[i - 4]);
            }
        }
    }
}

/// The base64 character for a six-bit value.
fn sextet_char(v: u8) -> (c: char)
    requires
        v < 64,
    ensures
        c == base64_char(v as int),
{
    if v < 26 {
        (65u8 + v) as char
    } else if v < 52 {
        (97u8 + v - 26) as char
    } else if v < 62 {
        (48u8 + v - 52) as char
    } else if v == 62 {
        '+'
    } else {
        '/'
    }
}

/// The base64 encoding of `bytes`, as characters.
fn base64_chars(bytes: &[u8]) -> (encoded: Vec<char>)
    ensures
        encoded@ == base64(bytes@),
{
    let n = bytes.len();
    let mut encoded: Vec<char> = Vec::new();
    let mut i: usize = 0;
    assert(bytes@.skip(0) =~= bytes@);
    while i < n
        invariant
            n == bytes@.len(),
            i <= n,
            base64(bytes@) == encoded@ + base64(bytes@.skip(i as int)),
        decreases n - i,
    {
        let ghost rest = bytes@.skip(i as int);
        let b0 = bytes[i];
        let b1: u8 = if n - i > 1 {
            bytes[i + 1]
        } else {
            0
        };
        let b2: u8 = if n - i > 2 {
            bytes[i + 2]
        } else {
            0
        };
        let ghost before = encoded@;
        encoded.push(sextet_char(b0 / 4));
        encoded.push(sextet_char((b0 % 4) * 16 + b1 / 16));
        encoded.push(
            if n - i > 1 {
                sextet_char((b1 % 16) * 4 + b2 / 64)
            } else {
                '='
            },
        );
        encoded.push(
            if n - i > 2 {
                sextet_char(b2 % 64)
            } else {
                '='
            },
        );
        if n - i <= 3 {
            assert(encoded@ =~= before + base64_group(rest));
            assert(base64(rest) == base64_group(rest));
            i = n;
            assert(bytes@.skip(i as int) =~= seq![]);
        } else {
            assert(encoded@ =~= before + base64_group(rest.take(3)));
            assert(rest.skip(3) =~= bytes@.skip(i + 3));
            i = i + 3;
            assert(base64(bytes@) == encoded@ + base64(bytes@.skip(i as int)));
        }
    }
    assert(bytes@.skip(n as int) =~= seq![]);
    assert(encoded@ =~= encoded@ + seq![]);
    encoded
}

/// The standard, padded base64 encoding of `bytes`.
pub fn encode_base64(bytes: &[u8]) -> (encoded: String)
    ensures
        encoded@ == base64(bytes@),
        encoded@.len() == 4 * ((bytes@.len() + 2) / 3),
        base64_decode(encoded@) == bytes@,
{
    proof {
        lemma_base64_len(bytes@);
        lemma_base64_round_trip(bytes@);
    }
    string_of(base64_chars(bytes).as_slice())
}

/// How many transmissions `n` encoded characters take.
pub open spec fn chunk_count(n: nat) -> nat {
    ((n + 4095) / 4096) as nat
}

/// The `k`-th slice of the encoded image.
pub open spec fn chunk_of(encoded: Seq<char>, k: int) -> Seq<char> {
    let start = k * CHUNK_CHARS;
    let end = if (k + 1) * CHUNK_CHARS < encoded.len() {
        (k + 1) * CHUNK_CHARS
    } else {
        encoded.len() as int
    };
    encoded.subrange(start, end)
}

/// The first `k` slices of the encoded image, one after another.
pub open spec fn joined_chunks(encoded: Seq<char>, k: int) -> Seq<char>
    decreases k,
{
    if k <= 0 {
        seq![]
    } else {
        joined_chunks(encoded, k - 1) + chunk_of(encoded, k - 1)
    }
}

/// The first `k` slices hold the first `4096 k` characters (or all of them).
proof fn lemma_joined_chunks_prefix(encoded: Seq<char>, k: int)
    requires
        0 <= k,
        (k - 1) * 4096 < encoded.len() || k == 0,
    ensures
        joined_chunks(encoded, k) == encoded.take(
            if k * 4096 < encoded.len() {
                k * 4096
            } else {
                encoded.len() as int
            },
        ),
    decreases k,
{
    if k > 0 {
        assert((k - 2) * 4096 < (k - 1) * 4096);
        lemma_joined_chunks_prefix(encoded, k - 1);
        let prev = joined_chunks(encoded, k - 1);
        assert(prev == encoded.take((k - 1) * 4096));
        assert(prev + chunk_of(encoded, k - 1) =~= encoded.take(
            if k * 4096 < encoded.len() {
                k * 4096
            } else {
                encoded.len() as int
            },
        ));
    }
}

/// The slices the frame sends carry the whole encoded image and nothing
/// else: joined in order they are the encoding itself, so the receiver
/// decodes the pixels back. Every slice but the last holds exactly 4096
/// characters, and none is empty.
pub proof fn lemma_chunks_carry_the_encoding(encoded: Seq<char>)
    ensures
        joined_chunks(encoded, chunk_count(encoded.len()) as int) == encoded,
        forall|k: int|
            0 <= k < chunk_count(encoded.len()) ==> {
                &&& 1 <= #[trigger] chunk_of(encoded, k).len() <= 4096
                &&& k + 1 < chunk_count(encoded.len()) ==> chunk_of(encoded, k).len() == 4096
            },
{
    let n = encoded.len() as int;
    let count = chunk_count(encoded.len()) as int;
    assert(count * 4096 >= n && (count - 1) * 4096 < n || count == 0) by (nonlinear_arith)
        requires
            count == (n + 4095) / 4096,
            n >= 0,
    ;
    if count == 0 {
        assert(n == 0);
        assert(encoded =~= seq![]);
    } else {
        lemma_joined_chunks_prefix(encoded, count);
        assert(encoded.take(n) =~= encoded);
    }
    assert forall|k: int| 0 <= k < count implies {
        &&& 1 <= #[trigger] chunk_of(encoded, k).len() <= 4096
        &&& k + 1 < count ==> chunk_of(encoded, k).len() == 4096
    } by {
        assert(k * 4096 < n && (k + 1 < count ==> (k + 1) * 4096 < n)) by (nonlinear_arith)
            requires
                0 <= k < count,
                count == (n + 4095) / 4096,
        ;
    }
}

/// The control data before the `k`-th slice: the first carries the whole
/// placement (`a=T`, 32-bit RGBA, its pixel size, the image id and the cell
/// rectangle); each says with `m` whether more slices follow.
pub open spec fn chunk_header(
    k: int,
    count: int,
    columns: u16,
    rows: u16,
    width: usize,
    height: usize,
) -> Seq<char> {
    let more: nat = if k + 1 < count {
        1
    } else {
        0
    };
    if k == 0 {
        "\x1b_Ga=T,f=32,s="@ + decimal(width as nat) + ",v="@ + decimal(height as nat) + ",i="@
            + decimal(IMAGE_ID as nat) + ",c="@ + decimal(columns as nat) + ",r="@ + decimal(
            rows as nat,
        ) + ",C=1,q=2,m="@ + decimal(more) + ";"@
    } else {
        "\x1b_Gm="@ + decimal(more) + ";"@
    }
}

/// The first `k` transmissions of the encoded image.
pub open spec fn image_chunks(
    encoded: Seq<char>,
    k: int,
    columns: u16,
    rows: u16,
    width: usize,
    height: usize,
) -> Seq<char>
    decreases k,
{
    if k <= 0 {
        seq![]
    } else {
        image_chunks(encoded, k - 1, columns, rows, width, height) + chunk_header(
            k - 1,
            chunk_count(encoded.len()) as int,
            columns,
            rows,
            width,
            height,
        ) + chunk_of(encoded, k - 1) + "\x1b\\"@
    }
}

/// The whole image frame: begin a synchronized update, delete the previous
/// image, clear the screen, move to the image's cell, send the RGBA pixels
/// in base64 slices, and end the synchronized update.
pub open spec fn kitty_output(
    row: u16,
    column: u16,
    columns: u16,
    rows: u16,
    width: usize,
    height: usize,
    rgba: Seq<u8>,
) -> Seq<char> {
    let encoded = base64(rgba);
    "\x1b[?2026h\x1b_Ga=d,d=i,i="@ + decimal(IMAGE_ID as nat) + ",q=2;\x1b\\\x1b[2J\x1b[H"@
        + cursor_to(row as nat, column as nat) + image_chunks(
        encoded,
        chunk_count(encoded.len()) as int,
        columns,
        rows,
        width,
        height,
    ) + "\x1b[?2026l"@
}

/// The transmission of slice `k` of `count`: its control data, then the
/// characters `4096 k` up to `4096 (k + 1)` of the encoding (or to its end),
/// then the string terminator.
pub open spec fn transmission(
    encoded: Seq<char>,
    k: int,
    count: int,
    columns: u16,
    rows: u16,
    width: usize,
    height: usize,
) -> Seq<char> {
    chunk_header(k, count, columns, rows, width, height) + encoded.subrange(
        4096 * k,
        if 4096 * (k + 1) < encoded.len() {
            4096 * (k + 1)
        } else {
            encoded.len() as int
        },
    ) + "\x1b\\"@
}

/// The first `k` transmissions are those of slices `0` to `k - 1`, in order.
proof fn lemma_image_chunks_in_order(
    encoded: Seq<char>,
    k: nat,
    columns: u16,
    rows: u16,
    width: usize,
    height: usize,
)
    ensures
        image_chunks(encoded, k as int, columns, rows, width, height) == Seq::new(
            k,
            |j: int|
                transmission(
                    encoded,
                    j,
                    chunk_count(encoded.len()) as int,
                    columns,
                    rows,
                    width,
                    height,
                ),
        ).flatten(),
    decreases k,
{
    let count = chunk_count(encoded.len()) as int;
    let all = Seq::new(
        k,
        |j: int| transmission(encoded, j, count, columns, rows, width, height),
    );
    all.lemma_flatten_and_flatten_alt_are_equivalent();
    if k > 0 {
        lemma_image_chunks_in_order(encoded, (k - 1) as nat, columns, rows, width, height);
        let fewer = Seq::new(
            (k - 1) as nat,
            |j: int| transmission(encoded, j, count, columns, rows, width, height),
        );
        assert(all.drop_last() =~= fewer);
        fewer.lemma_flatten_and_flatten_alt_are_equivalent();
        assert(k * 4096 == 4096 * k && (k - 1) * 4096 == 4096 * (k - 1));
        assert(chunk_of(encoded, k - 1) == encoded.subrange(
            4096 * (k - 1),
            if 4096 * k < encoded.len() {
                4096 * (k as int)
            } else {
                encoded.len() as int
            },
        ));
        assert(image_chunks(encoded, k as int, columns, rows, width, height) =~= fewer.flatten()
            + all.last());
    } else {
        assert(all =~= Seq::<Seq<char>>::empty());
    }
}

/// The frame begins a synchronized update, deletes the previous image,
/// clears the screen and moves to the image's cell; then it sends the
/// encoded pixels as consecutive transmissions, slice `k` carrying the
/// characters from `4096 k` to `4096 (k + 1)` of the encoding (the last one
/// up to its end), one after the other in order, as many as the encoding
/// needs; and it ends the synchronized update.
pub proof fn lemma_frame_sends_the_slices_in_order(
    row: u16,
    column: u16,
    columns: u16,
    rows: u16,
    width: usize,
    height: usize,
    rgba: Seq<u8>,
)
    ensures
        ({
            let encoded = base64(rgba);
            let count = chunk_count(encoded.len());
            kitty_output(row, column, columns, rows, width, height, rgba)
                == "\x1b[?2026h\x1b_Ga=d,d=i,i="@ + decimal(IMAGE_ID as nat)
                + ",q=2;\x1b\\\x1b[2J\x1b[H"@ + cursor_to(row as nat, column as nat) + Seq::new(
                count,
                |k: int| transmission(encoded, k, count as int, columns, rows, width, height),
            ).flatten() + "\x1b[?2026l"@
        }),
{
    let encoded = base64(rgba);
    lemma_image_chunks_in_order(
        encoded,
        chunk_count(encoded.len()),
        columns,
        rows,
        width,
        height,
    );
}

/// Each transmission ends its control data with `m=1;` when more slices
/// follow and with `m=0;` for the last one; after the first, the control
/// data is that flag alone, while the first one opens with the placement
/// (`a=T`, 32-bit RGBA, the pixel width and height).
pub proof fn lemma_headers_say_whether_more_follow(
    k: int,
    count: int,
    columns: u16,
    rows: u16,
    width: usize,
    height: usize,
)
    requires
        0 <= k < count,
    ensures
        ({
            let header = chunk_header(k, count, columns, rows, width, height);
            let more = if k + 1 < count {
                '1'
            } else {
                '0'
            };
            &&& header.len() >= 4
            &&& header.skip(header.len() - 4) == seq!['m', '=', more, ';']
            &&& k > 0 ==> header == seq!['\x1b', '_', 'G', 'm', '=', more, ';']
            &&& k == 0 ==> header.take((14 + decimal(width as nat).len() + 3 + decimal(
                height as nat,
            ).len()) as int) == "\x1b_Ga=T,f=32,s="@ + decimal(width as nat) + ",v="@ + decimal(
                height as nat,
            )
        }),
{
    reveal_strlit("\x1b_Ga=T,f=32,s=");
    reveal_strlit(",v=");
    reveal_strlit(",i=");
    reveal_strlit(",c=");
    reveal_strlit(",r=");
    reveal_strlit(",C=1,q=2,m=");
    reveal_strlit(";");
    reveal_strlit("\x1b_Gm=");
    let header = chunk_header(k, count, columns, rows, width, height);
    let more: nat = if k + 1 < count {
        1
    } else {
        0
    };
    let m = if k + 1 < count {
        '1'
    } else {
        '0'
    };
    assert(decimal(more) == seq![m]);
    if k == 0 {
        let front = "\x1b_Ga=T,f=32,s="@ + decimal(width as nat) + ",v="@ + decimal(height as nat);
        let back = ",i="@ + decimal(IMAGE_ID as nat) + ",c="@ + decimal(columns as nat) + ",r="@
            + decimal(rows as nat) + ",C=1,q=2,m="@ + decimal(more) + ";"@;
        assert(header =~= front + back);
        assert(header.take(front.len() as int) =~= front);
        assert(header.skip(header.len() - 4) =~= seq!['m', '=', m, ';']);
    } else {
        assert(header =~= seq!['\x1b', '_', 'G', 'm', '=', m, ';']);
        assert(header.skip(header.len() - 4) =~= seq!['m', '=', m, ';']);
    }
}

/// Appends the control data before slice `k` of `count`.
#[verifier::spinoff_prover]
fn push_chunk_header(
    frame: &mut String,
    k: usize,
    count: usize,
    columns: u16,
    rows: u16,
    width: usize,
    height: usize,
)
    ensures
        final(frame)@ == old(frame)@ + chunk_header(
            k as int,
            count as int,
            columns,
            rows,
            width,
            height,
        ),
{
    let more: u64 = if k < count && count - k > 1 {
        1
    } else {
        0
    };
    if k == 0 {
        frame.append("\x1b_Ga=T,f=32,s=");
        push_decimal(frame, width as u64);
        frame.append(",v=");
        push_decimal(frame, height as u64);
        frame.append(",i=");
        push_decimal(frame, IMAGE_ID as u64);
        frame.append(",c=");
        push_decimal(frame, columns as u64);
        frame.append(",r=");
        push_decimal(frame, rows as u64);
        frame.append(",C=1,q=2,m=");
        push_decimal(frame, more);
        frame.append(";");
    } else {
        frame.append("\x1b_Gm=");
        push_decimal(frame, more);
        frame.append(";");
    }
    assert(frame@ =~= old(frame)@ + chunk_header(
        k as int,
        count as int,
        columns,
        rows,
        width,
        height,
    ));
}

/// The Kitty graphics frame placing `rgba` (`width` by `height` pixels) over
/// `columns` by `rows` cells whose top-left cell is at `row`, `column`.
pub fn kitty_frame(
    row: u16,
    column: u16,
    columns: u16,
    rows: u16,
    width: usize,
    height: usize,
    rgba: &[u8],
) -> (frame: String)
    ensures
        frame@ == kitty_output(row, column, columns, rows, width, height, rgba@),
{
    let encoded = base64_chars(rgba);
    let n = encoded.len();
    let count = n / CHUNK_CHARS + if n % CHUNK_CHARS == 0 {
        0
    } else {
        1
    };
    assert(count == chunk_count(n as nat));
    let mut frame = String::new();
    frame.append("\x1b[?2026h\x1b_Ga=d,d=i,i=");
    push_decimal(&mut frame, IMAGE_ID as u64);
    frame.append(",q=2;\x1b\\\x1b[2J\x1b[H");
    push_cursor_to(&mut frame, row as u64, column as u64);
    let ghost start = frame@;
    let mut k: usize = 0;
    while k < count
        invariant
            n == encoded@.len(),
            count == chunk_count(n as nat),
            k <= count,
            frame@ == start + image_chunks(encoded@, k as int, columns, rows, width, height),
        decreases count - k,
    {
        push_chunk_header(&mut frame, k, count, columns, rows, width, height);
        assert(k * 4096 < n) by (nonlinear_arith)
            requires
                k < count,
                count == (n + 4095) / 4096,
        ;
        let begin = k * CHUNK_CHARS;
        let end = if n - begin > CHUNK_CHARS {
            begin + CHUNK_CHARS
        } else {
            n
        };
        push_slice(&mut frame, &encoded, begin, end);
        frame.append("\x1b\\");
        k = k + 1;
        assert(frame@ =~= start + image_chunks(encoded@, k as int, columns, rows, width, height));
    }
    frame.append("\x1b[?2026l");
    assert(frame@ =~= kitty_output(row, column, columns, rows, width, height, rgba@));
    frame
}

/// Appends `chars[begin..end]`.
fn push_slice(s: &mut String, chars: &Vec<char>, begin: usize, end: usize)
    requires
        begin <= end <= chars@.len(),
    ensures
        final(s)@ == old(s)@ + chars@.subrange(begin as int, end as int),
{
    let mut i = begin;
    while i < end
        invariant
            begin <= i <= end <= chars@.len(),
            s@ == old(s)@ + chars@.subrange(begin as int, i as int),
        decreases end - i,
    {
        push_char(s, chars[i]);
        i = i + 1;
        assert(s@ =~= old(s)@ + chars@.subrange(begin as int, i as int));
    }
}

/// How many times `c` occurs in `s`.
pub open spec fn count_char(s: Seq<char>, c: char) -> nat
    decreases s.len(),
{
    if s.len() == 0 {
        0
    } else {
        count_char(s.drop_last(), c) + if s.last() == c {
            1nat
        } else {
            0nat
        }
    }
}

/// The time the large face shows: in a pane narrower than
/// `FULL_TIME_MIN_COLUMNS`, a time with two or more `:` loses its last
/// field (`12:34:56` becomes `12:34`); otherwise the whole time.
pub open spec fn displayed_time(size: TerminalSize, time: Seq<char>) -> Seq<char> {
    if size.columns < FULL_TIME_MIN_COLUMNS && count_char(time, ':') >= 2 {
        match last_index_of(time, ':') {
            Some(i) => time.take(i as int),
            None => time,
        }
    } else {
        time
    }
}

/// The large face shows the whole time, or, in a pane narrower than
/// `FULL_TIME_MIN_COLUMNS`, the time up to its last `:` when that part
/// still holds a `:` (the seconds go, the hours and minutes stay).
pub proof fn lemma_displayed_time_drops_only_the_last_field(size: TerminalSize, time: Seq<char>)
    ensures
        ({
            let shown = displayed_time(size, time);
            &&& shown == time.take(shown.len() as int)
            &&& size.columns >= FULL_TIME_MIN_COLUMNS ==> shown == time
            &&& shown.len() < time.len() ==> {
                &&& time[shown.len() as int] == ':'
                &&& !time.skip(shown.len() as int + 1).contains(':')
                &&& shown.contains(':')
            }
        }),
{
    lemma_last_index_of(time, ':');
    let shown = displayed_time(size, time);
    if shown.len() < time.len() {
        let i = last_index_of(time, ':')->0 as int;
        lemma_count_char_positions(time, ':', i);
        assert forall|k: int| 0 <= k < time.skip(i + 1).len() implies #[trigger] time.skip(i + 1)[k]
            != ':' by {
            lemma_no_colon_after_last(time, i, i + 1 + k);
        }
    }
    assert(time.take(time.len() as int) =~= time);
}

/// No `:` comes after the last one.
proof fn lemma_no_colon_after_last(s: Seq<char>, i: int, k: int)
    requires
        0 <= i,
        last_index_of(s, ':') == Some(i as nat),
        i < k < s.len(),
    ensures
        s[k] != ':',
    decreases s.len(),
{
    if s.last() == ':' {
        assert(s.len() - 1 == i);
    } else if k < s.len() - 1 {
        lemma_no_colon_after_last(s.drop_last(), i, k);
        assert(s.drop_last()[k] == s[k]);
    } else {
        assert(s[k] == s.last());
    }
}

/// With two `:` or more, one comes before the last.
proof fn lemma_count_char_positions(s: Seq<char>, c: char, i: int)
    requires
        0 <= i,
        last_index_of(s, c) == Some(i as nat),
        count_char(s, c) >= 2,
    ensures
        s.take(i).contains(c),
    decreases s.len(),
{
    if s.last() == c {
        assert(i == s.len() - 1);
        assert(s.take(i) =~= s.drop_last());
        lemma_count_positive_contains(s.drop_last(), c);
    } else {
        lemma_last_index_of(s.drop_last(), c);
        lemma_count_char_positions(s.drop_last(), c, i);
        assert(s.drop_last().take(i) =~= s.take(i));
    }
}

/// A character counted at least once occurs.
proof fn lemma_count_positive_contains(s: Seq<char>, c: char)
    requires
        count_char(s, c) >= 1,
    ensures
        s.contains(c),
    decreases s.len(),
{
    if s.last() == c {
        assert(s[s.len() - 1] == c);
    } else {
        lemma_count_positive_contains(s.drop_last(), c);
        assert(s.drop_last().contains(c));
        let j = choose|j: int| 0 <= j < s.drop_last().len() && s.drop_last()[j] == c;
        assert(s[j] == c);
    }
}

/// The number of `:` in `chars`.
fn count_colons(chars: &Vec<char>) -> (count: usize)
    ensures
        count == count_char(chars@, ':'),
{
    let mut count: usize = 0;
    let mut i: usize = 0;
    while i < chars.len()
        invariant
            i <= chars@.len(),
            count == count_char(chars@.take(i as int), ':'),
            count <= i,
        decreases chars@.len() - i,
    {
        assert(chars@.take(i + 1).drop_last() =~= chars@.take(i as int));
        if chars[i] == ':' {
            count = count + 1;
        }
        i = i + 1;
    }
    assert(chars@.take(chars@.len() as int) =~= chars@);
    count
}

/// The time the large face shows in a pane of `size` (see `displayed_time`).
pub fn display_time<'a>(size: TerminalSize, time: &'a str) -> (shown: &'a str)
    ensures
        shown@ == displayed_time(size, time@),
{
    let chars = chars_of(time);
    if size.columns < FULL_TIME_MIN_COLUMNS && count_colons(&chars) >= 2 {
        match last_colon(&chars) {
            Some(i) => time.substring_char(0, i),
            None => time,
        }
    } else {
        time
    }
}

/// Where and how large the face image is drawn, and the time it shows.
#[derive(Debug, Clone, PartialEq, Eq)]
pub struct FacePlan {
    /// The one-based row of the image's top-left cell.
    pub row: u16,
    /// The one-based column of the image's top-left cell.
    pub column: u16,
    /// The width of the image in cells.
    pub columns: u16,
    /// The height of the image in cells.
    pub rows: u16,
    /// The width of the image in pixels.
    pub width: usize,
    /// The height of the image in pixels.
    pub height: usize,
    /// The text to draw.
    pub time: String,
}

/// The values of a face plan.
pub struct FacePlanView {
    pub row: u16,
    pub column: u16,
    pub columns: u16,
    pub rows: u16,
    pub width: usize,
    pub height: usize,
    pub time: Seq<char>,
}

impl View for FacePlan {
    type V = FacePlanView;

    open spec fn view(&self) -> FacePlanView {
        FacePlanView {
            row: self.row,
            column: self.column,
            columns: self.columns,
            rows: self.rows,
            width: self.width,
            height: self.height,
            time: self.time@,
        }
    }
}

/// The pixel size of one cell: the pane's pixel size shared among its cells
/// when both pixel dimensions are known, else ten by twenty.
pub open spec fn cell_pixels(size: TerminalSize, pixels: Option<(u16, u16)>) -> (nat, nat) {
    match pixels {
        Some((w, h)) => if w > 0 && h > 0 {
            ((w / size.columns) as nat, (h / size.rows) as nat)
        } else {
            (10, 20)
        },
        None => (10, 20),
    }
}

/// The face image for a pane of `size` cells (and `pixels`, when known)
/// showing `face`: four columns narrower than the pane and seven rows tall
/// in a pane of ten rows or more (else one row less than the pane),
/// centred. None for a pane under twelve columns or four rows, or when the
/// image would be empty or its size would not fit a `usize`.
pub open spec fn face_plan_of(
    size: TerminalSize,
    pixels: Option<(u16, u16)>,
    face: Seq<char>,
) -> Option<FacePlanView> {
    if size.columns < 12 || size.rows < 4 {
        None
    } else {
        let columns = (size.columns - 4) as u16;
        let rows = if size.rows >= 10 {
            7u16
        } else {
            (size.rows - 1) as u16
        };
        let cell = cell_pixels(size, pixels);
        let width = columns * cell.0;
        let height = rows * cell.1;
        if width > usize::MAX || height > usize::MAX || width == 0 || height == 0 {
            None
        } else {
            Some(
                FacePlanView {
                    row: ((size.rows - rows) / 2 + 1) as u16,
                    column: ((size.columns - columns) / 2 + 1) as u16,
                    columns: columns,
                    rows: rows,
                    width: width as usize,
                    height: height as usize,
                    time: displayed_time(size, face),
                },
            )
        }
    }
}

/// The face image lies inside the pane, centred with a margin of two
/// columns on either side, and in a pane of ten rows or more the date line
/// below it does too.
pub proof fn lemma_face_fits(size: TerminalSize, pixels: Option<(u16, u16)>, face: Seq<char>)
    ensures
        face_plan_of(size, pixels, face) matches Some(plan) ==> {
            &&& 1 <= plan.row
            &&& plan.row + plan.rows - 1 <= size.rows
            &&& plan.column == 3
            &&& plan.column + plan.columns - 1 == size.columns - 2
            &&& size.rows >= 10 ==> saturating_add_u16(plan.row, plan.rows) <= size.rows
        },
{
}

/// Plans the face image for a pane (see `face_plan_of`).
pub fn face_plan(size: TerminalSize, pixels: Option<(u16, u16)>, clock: &ClockSnapshot) -> (plan:
    Option<FacePlan>)
    ensures
        match plan {
            Some(p) => face_plan_of(size, pixels, clock@.face) == Some(p@),
            None => face_plan_of(size, pixels, clock@.face) is None,
        },
{
    if size.columns < 12 || size.rows < 4 {
        return None;
    }
    let columns = size.columns - 4;
    let rows: u16 = if size.rows >= 10 {
        7
    } else {
        size.rows - 1
    };
    let (cell_width, cell_height): (usize, usize) = match pixels {
        Some((w, h)) => if w > 0 && h > 0 {
            (w as usize / size.columns as usize, h as usize / size.rows as usize)
        } else {
            (10, 20)
        },
        None => (10, 20),
    };
    let width = match (columns as usize).checked_mul(cell_width) {
        Some(w) => w,
        None => return None,
    };
    let height = match (rows as usize).checked_mul(cell_height) {
        Some(h) => h,
        None => return None,
    };
    if width == 0 || height == 0 {
        return None;
    }
    let time = display_time(size, clock.face_text.as_str());
    let plan = FacePlan {
        row: (size.rows - rows) / 2 + 1,
        column: (size.columns - columns) / 2 + 1,
        columns,
        rows,
        width,
        height,
        time: string_of(chars_of(time).as_slice()),
    };
    assert(face_plan_of(size, pixels, clock@.face) == Some(plan@));
    Some(plan)
}

/// The colour of the date line: the gradient's darker end, else the
/// foreground colour, else none.
pub open spec fn date_color_of(foreground: Option<Rgb>, gradient: Option<Gradient>) -> Option<Rgb> {
    match gradient {
        Some(g) => Some(g.bottom),
        None => foreground,
    }
}

/// The date line drawn below the image, in a pane of ten rows or more when
/// the row below the image is inside the pane; centred (its width counted
/// in a `u16`, as the cell arithmetic is), in the date colour, with the
/// attributes reset afterwards when a colour was set.
pub open spec fn date_output(
    size: TerminalSize,
    plan: FacePlanView,
    date: Seq<char>,
    color: Option<Rgb>,
) -> Seq<char> {
    let date_row = saturating_add_u16(plan.row, plan.rows);
    if size.rows >= 10 && date_row <= size.rows {
        let date_width = date.len() as u16;
        let shown = if date_width < size.columns {
            date_width
        } else {
            size.columns
        };
        let date_column = (size.columns - shown) / 2 + 1;
        let line = cursor_to(date_row as nat, date_column as nat) + date;
        match color {
            Some(c) => foreground_sgr(c) + line + reset_attributes(),
            None => line,
        }
    } else {
        seq![]
    }
}

/// The whole face frame: the image, then the date line.
pub open spec fn face_output(
    size: TerminalSize,
    plan: FacePlanView,
    rgba: Seq<u8>,
    foreground: Option<Rgb>,
    gradient: Option<Gradient>,
    date: Seq<char>,
) -> Seq<char> {
    kitty_output(plan.row, plan.column, plan.columns, plan.rows, plan.width, plan.height, rgba)
        + date_output(size, plan, date, date_color_of(foreground, gradient))
}

/// Builds the frame that shows `rgba`, the rendered face of `plan`, with the
/// date line beneath it.
pub fn face_frame(
    size: TerminalSize,
    plan: &FacePlan,
    rgba: &[u8],
    foreground: Option<Rgb>,
    gradient: Option<Gradient>,
    clock: &ClockSnapshot,
) -> (frame: String)
    ensures
        frame@ == face_output(size, plan@, rgba@, foreground, gradient, clock@.date),
{
    let mut frame = kitty_frame(
        plan.row,
        plan.column,
        plan.columns,
        plan.rows,
        plan.width,
        plan.height,
        rgba,
    );
    if size.rows >= 10 {
        let date_row = plan.row.saturating_add(plan.rows);
        if date_row <= size.rows {
            let date_width = clock.date_text.as_str().unicode_len() as u16;
            let shown = if date_width < size.columns {
                date_width
            } else {
                size.columns
            };
            let date_column = (size.columns - shown) / 2 + 1;
            let date_color = match gradient {
                Some(g) => Some(g.bottom),
                None => foreground,
            };
            if let Some(color) = date_color {
                push_foreground(&mut frame, color);
            }
            push_cursor_to(&mut frame, date_row as u64, date_column as u64);
            frame.append(clock.date_text.as_str());
            if date_color.is_some() {
                frame.append("\x1b[0m");
            }
        }
    }
    assert(frame@ =~= face_output(size, plan@, rgba@, foreground, gradient, clock@.date));
    frame
}

} // verus!
