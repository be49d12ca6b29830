//! Character-level helpers for building terminal output.
use vstd::prelude::*;

verus! {

/// Appends one character to a `String`.
///
/// Trusted: `String::push`, which the standard library documents as appending
/// the given `char` to the end of the string.
#[verifier::external_body]
pub(crate) fn push_char(s: &mut String, c: char)
    ensures
        final(s)@ == old(s)@.push(c),
{
    s.push(c);
}

/// The characters of a `&str`, as a vector.
pub fn chars_of(s: &str) -> (chars: Vec<char>)
    ensures
        chars@ == s@,
{
    let n = s.unicode_len();
    let mut chars: Vec<char> = Vec::new();
    let mut i: usize = 0;
    while i < n
        invariant
            n == s@.len(),
            i <= n,
            chars@ == s@.take(i as int),
        decreases n - i,
    {
        chars.push(s.get_char(i));
        i = i + 1;
        assert(chars@ =~= s@.take(i as int));
    }
    assert(s@.take(n as int) =~= s@);
    chars
}

/// Whether two texts hold the same characters.
pub fn same_text(a: &str, b: &str) -> (same: bool)
    ensures
        same == (a@ == b@),
{
    let n = a.unicode_len();
    if n != b.unicode_len() {
        return false;
    }
    let mut i: usize = 0;
    while i < n
        invariant
            n == a@.len() == b@.len(),
            i <= n,
            a@.take(i as int) == b@.take(i as int),
        decreases n - i,
    {
        if a.get_char(i) != b.get_char(i) {
            return false;
        }
        assert(a@.take(i + 1) =~= a@.take(i as int).push(a@[i as int]));
        assert(b@.take(i + 1) =~= b@.take(i as int).push(b@[i as int]));
        i = i + 1;
    }
    assert(a@.take(n as int) =~= a@);
    assert(b@.take(n as int) =~= b@);
    true
}

/// The character of a decimal digit.
pub open spec fn digit_char(d: int) -> char {
    (48 + d) as char
}

/// The decimal representation of a natural number, without leading zeros.
pub open spec fn decimal(n: nat) -> Seq<char>
    decreases n,
{
    if n < 10 {
        seq![digit_char(n as int)]
    } else {
        decimal(n / 10).push(digit_char((n % 10) as int))
    }
}

/// The number a run of decimal digit characters reads as.
pub open spec fn digits_read(s: Seq<char>) -> nat
    decreases s.len(),
{
    if s.len() == 0 {
        0
    } else {
        digits_read(s.drop_last()) * 10 + (s.last() as int - '0' as int) as nat
    }
}

/// Whether every character is a decimal digit.
pub open spec fn all_decimal_digits(s: Seq<char>) -> bool {
    forall|i: int| 0 <= i < s.len() ==> '0' <= #[trigger] s[i] <= '9'
}

/// The decimal form of a number is made of digits, reads back as the
/// number, and starts with `0` only for zero itself.
pub proof fn lemma_decimal_reads_back(n: nat)
    ensures
        all_decimal_digits(decimal(n)),
        digits_read(decimal(n)) == n,
        decimal(n).len() >= 1,
        decimal(n)[0] == '0' ==> n == 0,
    decreases n,
{
    let last = digit_char((n % 10) as int);
    assert(last as int == 48 + n % 10);
    if n >= 10 {
        lemma_decimal_reads_back(n / 10);
        let d = decimal(n);
        assert(d.drop_last() =~= decimal(n / 10));
        assert(d.last() == last);
        assert(d[0] == decimal(n / 10)[0]);
        assert(digits_read(d) == digits_read(decimal(n / 10)) * 10 + (n % 10));
    } else {
        let d = decimal(n);
        assert(d.drop_last() =~= seq![]);
        assert(digits_read(d.drop_last()) == 0);
    }
}

/// A number below one hundred written with exactly two digits.
pub open spec fn two_digits(n: nat) -> Seq<char> {
    seq![digit_char((n / 10) as int), digit_char((n % 10) as int)]
}

/// A number below one hundred, written with two digits, reads back as
/// itself.
pub proof fn lemma_two_digits_read_back(n: nat)
    requires
        n < 100,
    ensures
        digits_read(two_digits(n)) == n,
        all_decimal_digits(two_digits(n)),
{
    let t = two_digits(n);
    assert(digit_char((n / 10) as int) as int == 48 + n / 10);
    assert(digit_char((n % 10) as int) as int == 48 + n % 10);
    assert(t.drop_last().drop_last() =~= seq![]);
    assert(t.drop_last() =~= seq![digit_char((n / 10) as int)]);
    assert(digits_read(t.drop_last().drop_last()) == 0);
    assert(digits_read(t.drop_last()) == n / 10);
    assert(t.last() == digit_char((n % 10) as int));
    assert(digits_read(t) == (n / 10) * 10 + n % 10);
}

/// The character of the decimal digit `d`.
pub fn digit(d: u8) -> (c: char)
    requires
        d < 10,
    ensures
        c == digit_char(d as int),
{
    (48u8 + d) as char
}

/// Appends the decimal representation of `n`.
pub fn push_decimal(s: &mut String, n: u64)
    ensures
        final(s)@ == old(s)@ + decimal(n as nat),
    decreases n,
{
    if n >= 10 {
        push_decimal(s, n / 10);
    }
    push_char(s, digit((n % 10) as u8));
    assert(n < 10 ==> n % 10 == n);
}

/// Appends `n`, which must be below one hundred, as two digits.
pub fn push_two_digits(s: &mut String, n: u64)
    requires
        n < 100,
    ensures
        final(s)@ == old(s)@ + two_digits(n as nat),
{
    push_char(s, digit((n / 10) as u8));
    push_char(s, digit((n % 10) as u8));
    assert(final(s)@ =~= old(s)@ + two_digits(n as nat));
}

/// Appends the first `n` characters of `chars`.
pub fn push_prefix(s: &mut String, chars: &[char], n: usize)
    requires
        n <= chars@.len(),
    ensures
        final(s)@ == old(s)@ + chars@.take(n as int),
{
    let mut i: usize = 0;
    while i < n
        invariant
            n <= chars@.len(),
            i <= n,
            s@ == old(s)@ + chars@.take(i as int),
        decreases n - i,
    {
        push_char(s, chars[i]);
        i = i + 1;
        assert(s@ =~= old(s)@ + chars@.take(i as int));
    }
}

/// Appends every character of `chars`.
pub fn push_chars(s: &mut String, chars: &[char])
    ensures
        final(s)@ == old(s)@ + chars@,
{
    push_prefix(s, chars, chars.len());
    assert(chars@.take(chars@.len() as int) =~= chars@);
}

/// A `String` holding exactly `chars`.
pub fn string_of(chars: &[char]) -> (s: String)
    ensures
        s@ == chars@,
{
    let mut s = String::new();
    push_chars(&mut s, chars);
    assert(s@ =~= chars@);
    s
}

} // verus!
