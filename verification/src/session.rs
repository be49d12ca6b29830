//! The decisions of the redraw loop: whether to run interactively at all,
//! which kind of frame to draw, and how long to wait before the next one.
use vstd::prelude::*;

use crate::clock::{nanos_to_next_second, nanos_until_next_second};
use crate::text::same_text;

verus! {

/// How the program starts.
#[derive(Debug, Clone, PartialEq, Eq)]
pub enum Startup {
    /// Standard output is not a terminal: print one plain timestamp.
    PrintTimestamp,
    /// Run the full-screen clock.
    Interactive,
    /// Stop with this error.
    Fail(String),
}

/// The error for a terminal that cannot show the full-screen clock.
pub open spec fn unsupported_term_message() -> Seq<char> {
    "interactive mode requires an xterm-compatible TERM value"@
}

/// Whether `TERM` names a terminal the full-screen clock can drive: it is
/// set, not empty and not `dumb`.
pub open spec fn term_allows_interactive(term: Option<Seq<char>>) -> bool {
    match term {
        Some(t) => t.len() > 0 && t != "dumb"@,
        None => false,
    }
}

/// Chooses how to start: a plain timestamp when standard output is not a
/// terminal (whatever `TERM` says); otherwise the full-screen clock when
/// `term` allows it, and else the error that says it does not.
pub fn startup(stdout_is_terminal: bool, term: Option<&str>) -> (s: Startup)
    ensures
        !stdout_is_terminal ==> s == Startup::PrintTimestamp,
        stdout_is_terminal && term_allows_interactive(
            match term {
                Some(t) => Some(t@),
                None => None,
            },
        ) ==> s == Startup::Interactive,
        stdout_is_terminal && !term_allows_interactive(
            match term {
                Some(t) => Some(t@),
                None => None,
            },
        ) ==> (s matches Startup::Fail(message) && message@ == unsupported_term_message()),
{
    if !stdout_is_terminal {
        return Startup::PrintTimestamp;
    }
    let allowed = match term {
        Some(t) => t.unicode_len() > 0 && !same_text(t, "dumb"),
        None => false,
    };
    if allowed {
        Startup::Interactive
    } else {
        Startup::Fail(String::from_str("interactive mode requires an xterm-compatible TERM value"))
    }
}

/// `c` with an ASCII capital letter made small; every other character as
/// it is.
pub open spec fn ascii_lowercase(c: char) -> char {
    if 'A' <= c <= 'Z' {
        ((c as int) + 32) as char
    } else {
        c
    }
}

/// Whether `name` is `ghostty` in any mix of ASCII case.
pub open spec fn names_ghostty(name: Seq<char>) -> bool {
    &&& name.len() == "ghostty"@.len()
    &&& forall|i: int| 0 <= i < name.len() ==> ascii_lowercase(#[trigger] name[i]) == "ghostty"@[i]
}

/// `TERM_PROGRAM` picks the face exactly when it spells g-h-o-s-t-t-y, each
/// letter in either case; and `TERM` allows the full-screen clock exactly
/// when it is set, not empty and not `dumb`.
pub proof fn lemma_what_the_environment_selects(name: Seq<char>, term: Option<Seq<char>>)
    ensures
        names_ghostty(name) <==> (name.len() == 7 && (name[0] == 'g' || name[0] == 'G') && (
        name[1] == 'h' || name[1] == 'H') && (name[2] == 'o' || name[2] == 'O') && (name[3] == 's'
            || name[3] == 'S') && (name[4] == 't' || name[4] == 'T') && (name[5] == 't' || name[5]
            == 'T') && (name[6] == 'y' || name[6] == 'Y')),
        term_allows_interactive(term) <==> (term matches Some(t) && t.len() > 0 && t != seq![
            'd',
            'u',
            'm',
            'b',
        ]),
{
    reveal_strlit("ghostty");
    reveal_strlit("dumb");
    assert("dumb"@ =~= seq!['d', 'u', 'm', 'b']);
    if name.len() == 7 {
        assert(ascii_lowercase(name[0]) == 'g' <==> (name[0] == 'g' || name[0] == 'G'));
        assert(ascii_lowercase(name[1]) == 'h' <==> (name[1] == 'h' || name[1] == 'H'));
        assert(ascii_lowercase(name[2]) == 'o' <==> (name[2] == 'o' || name[2] == 'O'));
        assert(ascii_lowercase(name[3]) == 's' <==> (name[3] == 's' || name[3] == 'S'));
        assert(ascii_lowercase(name[4]) == 't' <==> (name[4] == 't' || name[4] == 'T'));
        assert(ascii_lowercase(name[5]) == 't' <==> (name[5] == 't' || name[5] == 'T'));
        assert(ascii_lowercase(name[6]) == 'y' <==> (name[6] == 'y' || name[6] == 'Y'));
        if (name[0] == 'g' || name[0] == 'G') && (name[1] == 'h' || name[1] == 'H') && (name[2]
            == 'o' || name[2] == 'O') && (name[3] == 's' || name[3] == 'S') && (name[4] == 't'
            || name[4] == 'T') && (name[5] == 't' || name[5] == 'T') && (name[6] == 'y' || name[6]
            == 'Y') {
            assert forall|i: int| 0 <= i < name.len() implies ascii_lowercase(#[trigger] name[i])
                == "ghostty"@[i] by {}
        }
    }
}

/// After a resize the next frame is drawn at once; otherwise the wait and
/// the fraction already gone make up exactly one second.
pub proof fn lemma_redraw_waits_for_the_next_second(resize_pending: bool, subsec_nanos: u32)
    requires
        subsec_nanos < 1_000_000_000,
    ensures
        resize_pending ==> nanos_to_next_second_or_now(resize_pending, subsec_nanos) == 0,
        !resize_pending ==> nanos_to_next_second_or_now(resize_pending, subsec_nanos)
            + subsec_nanos == 1_000_000_000,
{
}

/// The wait `redraw_delay_nanos` gives.
pub open spec fn nanos_to_next_second_or_now(resize_pending: bool, subsec_nanos: u32) -> nat {
    if resize_pending {
        0
    } else {
        nanos_to_next_second(subsec_nanos as nat)
    }
}

/// The character with an ASCII capital letter made small.
fn to_ascii_lowercase(c: char) -> (lower: char)
    ensures
        lower == ascii_lowercase(c),
{
    if 'A' <= c && c <= 'Z' {
        ((c as u8) + 32) as char
    } else {
        c
    }
}

/// Whether to draw the large face as an image: exactly when `TERM_PROGRAM`
/// is set and names Ghostty, in any ASCII case.
pub fn uses_face(term_program: Option<&str>) -> (b: bool)
    ensures
        b == (term_program matches Some(name) && names_ghostty(name@)),
{
    let name = match term_program {
        Some(name) => name,
        None => return false,
    };
    let target = "ghostty";
    let n = target.unicode_len();
    if name.unicode_len() != n {
        return false;
    }
    let mut i: usize = 0;
    while i < n
        invariant
            n == target@.len() == name@.len(),
            target@ == "ghostty"@,
            term_program == Some(name),
            i <= n,
            forall|k: int| 0 <= k < i ==> ascii_lowercase(#[trigger] name@[k]) == target@[k],
        decreases n - i,
    {
        if to_ascii_lowercase(name.get_char(i)) != target.get_char(i) {
            assert(ascii_lowercase(name@[i as int]) != "ghostty"@[i as int]);
            return false;
        }
        i = i + 1;
    }
    true
}

/// How long to wait before the next frame, in nanoseconds: not at all after
/// a resize, else until the next whole second, `subsec_nanos` into the
/// current one.
pub fn redraw_delay_nanos(resize_pending: bool, subsec_nanos: u32) -> (n: u64)
    ensures
        n == nanos_to_next_second_or_now(resize_pending, subsec_nanos),
{
    if resize_pending {
        0
    } else {
        nanos_until_next_second(subsec_nanos)
    }
}

} // verus!
