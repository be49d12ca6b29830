//! Choosing what to draw, and where, for a terminal of a given size.
use vstd::prelude::*;

use crate::clock::{ClockSnapshot, ClockView};
use crate::text::{chars_of, push_chars, push_prefix, string_of};

verus! {

/// The size of a terminal pane, in character cells.
#[derive(Debug, Clone, Copy, PartialEq, Eq, Structural)]
pub struct TerminalSize {
    pub columns: u16,
    pub rows: u16,
}

/// The presentation chosen for a pane.
#[derive(Debug, Clone, Copy, PartialEq, Eq, Structural)]
pub enum LayoutMode {
    Hero,
    Standard,
    Compact,
    Minimal,
    Hidden,
}

/// A piece of text placed at a one-based row and column.
#[derive(Debug, Clone, PartialEq, Eq)]
pub struct PositionedLine {
    pub row: u16,
    pub column: u16,
    pub text: String,
}

/// What a line holds: its row, its column and its characters.
pub type LineView = (u16, u16, Seq<char>);

impl View for PositionedLine {
    type V = LineView;

    open spec fn view(&self) -> LineView {
        (self.row, self.column, self.text@)
    }
}

/// A complete frame layout.
#[derive(Debug, Clone, PartialEq, Eq)]
pub struct Layout {
    pub mode: LayoutMode,
    pub lines: Vec<PositionedLine>,
}

impl View for Layout {
    type V = (LayoutMode, Seq<LineView>);

    open spec fn view(&self) -> (LayoutMode, Seq<LineView>) {
        (self.mode, self.lines@.map_values(|line: PositionedLine| line@))
    }
}

/// The first `limit` characters of `text` (all of it when it is shorter).
pub open spec fn truncated(text: Seq<char>, limit: int) -> Seq<char> {
    if text.len() <= limit {
        text
    } else {
        text.take(limit)
    }
}

/// The one-based column at which text `width` cells wide is centred in
/// `columns` cells; text wider than the pane starts at column one.
pub open spec fn centered_column_of(columns: u16, width: int) -> u16 {
    let shown = if width < columns { width } else { columns as int };
    ((columns - shown) / 2 + 1) as u16
}

/// The line that centres `text`, cut to the pane's width, at `row`; no line
/// when `row` lies below the pane.
pub open spec fn centered_line(size: TerminalSize, row: u16, text: Seq<char>) -> Seq<LineView> {
    if row <= size.rows {
        let shown = truncated(text, size.columns as int);
        seq![(row, centered_column_of(size.columns, shown.len() as int), shown)]
    } else {
        seq![]
    }
}

/// The index of the last occurrence of `c` in `s`.
pub open spec fn last_index_of(s: Seq<char>, c: char) -> Option<nat>
    decreases s.len(),
{
    if s.len() == 0 {
        None
    } else if s.last() == c {
        Some((s.len() - 1) as nat)
    } else {
        last_index_of(s.drop_last(), c)
    }
}

/// Where `last_index_of` finds a character, the character is there.
pub proof fn lemma_last_index_of(s: Seq<char>, c: char)
    ensures
        last_index_of(s, c) matches Some(i) ==> i < s.len() && s[i as int] == c,
    decreases s.len(),
{
    if s.len() > 0 && s.last() != c {
        lemma_last_index_of(s.drop_last(), c);
    }
}

/// The largest form of `full` that leaves a cell of margin on either side:
/// `full` itself, else `full` without its last `:`-separated field when what
/// remains still holds a `:`.
pub open spec fn fitting_time(size: TerminalSize, full: Seq<char>) -> Option<Seq<char>> {
    if size.columns >= full.len() + 2 {
        Some(full)
    } else {
        match last_index_of(full, ':') {
            Some(i) => {
                let head = full.take(i as int);
                if head.contains(':') && size.columns >= head.len() + 2 {
                    Some(head)
                } else {
                    None
                }
            },
            None => None,
        }
    }
}

/// The row halfway down the pane, and never above the first.
pub open spec fn middle_row(rows: u16) -> u16 {
    if rows / 2 >= 1 {
        (rows / 2) as u16
    } else {
        1
    }
}

/// `a + b`, held at `u16::MAX`.
pub open spec fn saturating_add_u16(a: u16, b: u16) -> u16 {
    if a + b > u16::MAX {
        u16::MAX
    } else {
        (a + b) as u16
    }
}

/// The layout chosen for `size` and `clock`.
pub open spec fn layout_for(size: TerminalSize, clock: ClockView) -> (LayoutMode, Seq<LineView>) {
    let time_row = middle_row(size.rows);
    if size.columns == 0 || size.rows == 0 {
        (LayoutMode::Hidden, seq![])
    } else if fitting_time(size, clock.face) is Some && size.rows >= 10 {
        let time = fitting_time(size, clock.face)->0;
        let period = match clock.meridiem {
            Some(p) => centered_line(size, 1, p),
            None => seq![],
        };
        (
            LayoutMode::Hero,
            centered_line(size, time_row, time) + centered_line(
                size,
                saturating_add_u16(time_row, 2),
                clock.date,
            ) + period,
        )
    } else if fitting_time(size, clock.face) is Some && size.rows >= 7 {
        let time = fitting_time(size, clock.face)->0;
        (
            LayoutMode::Standard,
            seq![(time_row, centered_column_of(size.columns, time.len() as int), time)],
        )
    } else if size.columns >= 5 {
        let date = if size.rows >= 3 {
            centered_line(size, saturating_add_u16(time_row, 1), clock.date)
        } else {
            seq![]
        };
        (LayoutMode::Compact, centered_line(size, time_row, clock.compact) + date)
    } else {
        (
            LayoutMode::Minimal,
            centered_line(size, time_row, truncated(clock.compact, size.columns as int)),
        )
    }
}

/// Every line of `lines` lies inside the pane and is no wider than it.
pub open spec fn lines_fit(size: TerminalSize, lines: Seq<LineView>) -> bool {
    forall|i: int|
        0 <= i < lines.len() ==> {
            let line = #[trigger] lines[i];
            &&& 1 <= line.0 <= size.rows
            &&& 1 <= line.1 <= size.columns
            &&& line.2.len() <= size.columns
        }
}

/// A centred line starting on a row of a non-empty pane lies inside it.
proof fn lemma_centered_line_fits(size: TerminalSize, row: u16, text: Seq<char>)
    requires
        1 <= row,
        1 <= size.columns,
    ensures
        lines_fit(size, centered_line(size, row, text)),
{
}

/// Lines that fit, joined, still fit.
proof fn lemma_lines_fit_concat(size: TerminalSize, a: Seq<LineView>, b: Seq<LineView>)
    requires
        lines_fit(size, a),
        lines_fit(size, b),
    ensures
        lines_fit(size, a + b),
{
    assert forall|i: int| 0 <= i < (a + b).len() implies {
        let line = #[trigger] (a + b)[i];
        &&& 1 <= line.0 <= size.rows
        &&& 1 <= line.1 <= size.columns
        &&& line.2.len() <= size.columns
    } by {
        if i < a.len() {
            assert((a + b)[i] == a[i]);
        } else {
            assert((a + b)[i] == b[i - a.len()]);
        }
    }
}

/// A time that `fitting_time` picks leaves a cell free on either side.
proof fn lemma_fitting_time_fits(size: TerminalSize, full: Seq<char>)
    ensures
        fitting_time(size, full) matches Some(t) ==> t.len() + 2 <= size.columns,
{
    if size.columns < full.len() + 2 {
        lemma_last_index_of(full, ':');
    }
}

/// Whatever the pane's size and the clock's text, every line of the chosen
/// layout starts inside the pane (rows and columns are one-based) and is no
/// wider than the pane.
pub proof fn lemma_every_line_fits(size: TerminalSize, clock: ClockView)
    ensures
        lines_fit(size, layout_for(size, clock).1),
{
    let time_row = middle_row(size.rows);
    if size.columns == 0 || size.rows == 0 {
    } else {
        lemma_fitting_time_fits(size, clock.face);
        let fit = fitting_time(size, clock.face);
        if fit is Some && size.rows >= 10 {
            let time = fit->0;
            let period = match clock.meridiem {
                Some(p) => centered_line(size, 1, p),
                None => seq![],
            };
            lemma_centered_line_fits(size, time_row, time);
            lemma_centered_line_fits(size, saturating_add_u16(time_row, 2), clock.date);
            if let Some(p) = clock.meridiem {
                lemma_centered_line_fits(size, 1, p);
            }
            lemma_lines_fit_concat(
                size,
                centered_line(size, time_row, time),
                centered_line(size, saturating_add_u16(time_row, 2), clock.date),
            );
            lemma_lines_fit_concat(
                size,
                centered_line(size, time_row, time) + centered_line(
                    size,
                    saturating_add_u16(time_row, 2),
                    clock.date,
                ),
                period,
            );
        } else if fit is Some && size.rows >= 7 {
        } else if size.columns >= 5 {
            lemma_centered_line_fits(size, time_row, clock.compact);
            lemma_centered_line_fits(size, saturating_add_u16(time_row, 1), clock.date);
            let date = if size.rows >= 3 {
                centered_line(size, saturating_add_u16(time_row, 1), clock.date)
            } else {
                seq![]
            };
            lemma_lines_fit_concat(size, centered_line(size, time_row, clock.compact), date);
        } else {
            lemma_centered_line_fits(
                size,
                time_row,
                truncated(clock.compact, size.columns as int),
            );
        }
    }
}

/// A pane at least seven rows tall keeps the large face by dropping the
/// seconds before it falls back to the compact text: when the face without
/// its last `:`-separated field still holds a `:` and fits with a cell of
/// margin on either side, the layout is `Hero` or `Standard`.
pub proof fn lemma_seconds_go_before_the_large_face(size: TerminalSize, clock: ClockView, i: nat)
    requires
        size.rows >= 7,
        last_index_of(clock.face, ':') == Some(i),
        clock.face.take(i as int).contains(':'),
        size.columns >= i + 2,
    ensures
        layout_for(size, clock).0 == LayoutMode::Hero || layout_for(size, clock).0
            == LayoutMode::Standard,
{
    lemma_last_index_of(clock.face, ':');
}

/// Whether `line` sits in the middle of the pane's width: the columns left
/// free before it and after it differ by at most one, with any odd column
/// after it.
pub open spec fn is_centred(size: TerminalSize, line: LineView) -> bool {
    let before = line.1 - 1;
    let after = size.columns - before - line.2.len();
    &&& before >= 0
    &&& after == before || after == before + 1
}

/// Whether every line of `lines` is centred.
pub open spec fn all_centred(size: TerminalSize, lines: Seq<LineView>) -> bool {
    forall|i: int| 0 <= i < lines.len() ==> is_centred(size, #[trigger] lines[i])
}

/// A centred line of a non-empty pane is centred.
proof fn lemma_centered_line_centred(size: TerminalSize, row: u16, text: Seq<char>)
    requires
        1 <= size.columns,
    ensures
        all_centred(size, centered_line(size, row, text)),
{
}

/// Centred lines, joined, are still centred.
proof fn lemma_all_centred_concat(size: TerminalSize, a: Seq<LineView>, b: Seq<LineView>)
    requires
        all_centred(size, a),
        all_centred(size, b),
    ensures
        all_centred(size, a + b),
{
    assert forall|i: int| 0 <= i < (a + b).len() implies is_centred(size, #[trigger] (a + b)[i]) by {
        if i < a.len() {
            assert((a + b)[i] == a[i]);
        } else {
            assert((a + b)[i] == b[i - a.len()]);
        }
    }
}

/// Every line of every layout is centred across the pane: the columns free
/// before it and after it differ by at most one.
pub proof fn lemma_every_line_is_centred(size: TerminalSize, clock: ClockView)
    ensures
        all_centred(size, layout_for(size, clock).1),
{
    let time_row = middle_row(size.rows);
    if size.columns == 0 || size.rows == 0 {
    } else {
        lemma_fitting_time_fits(size, clock.face);
        let fit = fitting_time(size, clock.face);
        if fit is Some && size.rows >= 10 {
            let time = fit->0;
            let period = match clock.meridiem {
                Some(p) => centered_line(size, 1, p),
                None => seq![],
            };
            lemma_centered_line_centred(size, time_row, time);
            lemma_centered_line_centred(size, saturating_add_u16(time_row, 2), clock.date);
            if let Some(p) = clock.meridiem {
                lemma_centered_line_centred(size, 1, p);
            }
            lemma_all_centred_concat(
                size,
                centered_line(size, time_row, time),
                centered_line(size, saturating_add_u16(time_row, 2), clock.date),
            );
            lemma_all_centred_concat(
                size,
                centered_line(size, time_row, time) + centered_line(
                    size,
                    saturating_add_u16(time_row, 2),
                    clock.date,
                ),
                period,
            );
        } else if fit is Some && size.rows >= 7 {
            let lines = layout_for(size, clock).1;
            assert(is_centred(size, lines[0]));
        } else if size.columns >= 5 {
            lemma_centered_line_centred(size, time_row, clock.compact);
            lemma_centered_line_centred(size, saturating_add_u16(time_row, 1), clock.date);
            let date = if size.rows >= 3 {
                centered_line(size, saturating_add_u16(time_row, 1), clock.date)
            } else {
                seq![]
            };
            lemma_all_centred_concat(size, centered_line(size, time_row, clock.compact), date);
        } else {
            lemma_centered_line_centred(
                size,
                time_row,
                truncated(clock.compact, size.columns as int),
            );
        }
    }
}

/// The rows the lines take: the time (or compact text) on the middle row of
/// the pane (row 1 in a one-row pane); in `Hero` the date two rows below it
/// and the period, if any, on the top row; in `Compact` the date on the row
/// below it.
pub proof fn lemma_rows_of_the_lines(size: TerminalSize, clock: ClockView)
    ensures
        ({
            let (mode, lines) = layout_for(size, clock);
            let middle = if size.rows >= 2 {
                size.rows / 2
            } else {
                1
            };
            &&& lines.len() > 0 ==> lines[0].0 == middle
            &&& mode == LayoutMode::Hero && lines.len() >= 2 && middle + 2 <= size.rows ==> lines[1].0
                == middle + 2
            &&& mode == LayoutMode::Hero && clock.meridiem is Some ==> lines.last().0 == 1
            &&& mode == LayoutMode::Compact && lines.len() == 2 ==> lines[1].0 == middle + 1
        }),
{
}

/// Whether `i` is the position of the last `:` of `s`.
pub open spec fn is_last_colon(s: Seq<char>, i: int) -> bool {
    &&& 0 <= i < s.len()
    &&& s[i] == ':'
    &&& forall|j: int| i < j < s.len() ==> s[j] != ':'
}

/// Whether the large face fits the pane with a cell of margin on either
/// side: the whole face, or the face cut before its last `:` when what
/// remains still holds a `:`.
pub open spec fn large_face_fits(size: TerminalSize, face: Seq<char>) -> bool {
    ||| face.len() + 2 <= size.columns
    ||| exists|i: int|
        is_last_colon(face, i) && face.take(i).contains(':') && i + 2 <= size.columns
}

/// `last_index_of` finds the last occurrence, and finds none only where
/// there is none.
proof fn lemma_last_index_of_is_last(s: Seq<char>)
    ensures
        last_index_of(s, ':') matches Some(i) ==> is_last_colon(s, i as int),
        last_index_of(s, ':') is None ==> !s.contains(':'),
        forall|i: int| is_last_colon(s, i) ==> last_index_of(s, ':') == Some(i as nat),
    decreases s.len(),
{
    if s.len() > 0 {
        lemma_last_index_of_is_last(s.drop_last());
        let t = s.drop_last();
        if s.last() != ':' {
            assert forall|i: int| is_last_colon(s, i) implies is_last_colon(t, i) by {
                assert(i != s.len() - 1);
            }
            if let Some(i) = last_index_of(s, ':') {
                assert(last_index_of(t, ':') == Some(i));
                assert forall|j: int| i < j < s.len() implies s[j] != ':' by {
                    if j < s.len() - 1 {
                        assert(t[j] == s[j]);
                    }
                }
            }
            if last_index_of(s, ':') is None {
                assert forall|j: int| 0 <= j < s.len() implies s[j] != ':' by {
                    if j < s.len() - 1 {
                        assert(t[j] == s[j]);
                        assert(!t.contains(':'));
                    }
                }
            }
        } else {
            assert forall|i: int| is_last_colon(s, i) implies i == s.len() - 1 by {
                if i < s.len() - 1 {
                    assert(s[s.len() - 1] == ':');
                }
            }
        }
    }
}

/// What `fitting_time` finds is the large face's largest fitting form.
proof fn lemma_fitting_time_is_largest_fit(size: TerminalSize, face: Seq<char>)
    ensures
        fitting_time(size, face) is Some <==> large_face_fits(size, face),
        fitting_time(size, face) matches Some(t) ==> (face.len() + 2 <= size.columns ==> t == face)
            && (face.len() + 2 > size.columns ==> exists|i: int|
            is_last_colon(face, i) && t == face.take(i) && t.contains(':')),
{
    lemma_last_index_of_is_last(face);
    if face.len() + 2 > size.columns {
        if let Some(i) = last_index_of(face, ':') {
            assert(is_last_colon(face, i as int));
        }
        if large_face_fits(size, face) {
            let i = choose|i: int|
                is_last_colon(face, i) && face.take(i).contains(':') && i + 2 <= size.columns;
            assert(last_index_of(face, ':') == Some(i as nat));
        }
    }
}

/// The pane alone decides the presentation: nothing in an empty pane;
/// `Hero` from ten rows and `Standard` from seven where the large face fits;
/// otherwise `Compact` from five columns and `Minimal` below that.
pub proof fn lemma_when_each_layout_is_chosen(size: TerminalSize, clock: ClockView)
    ensures
        ({
            let mode = layout_for(size, clock).0;
            let empty = size.columns == 0 || size.rows == 0;
            let large = large_face_fits(size, clock.face);
            &&& mode == LayoutMode::Hidden <==> empty
            &&& mode == LayoutMode::Hero <==> !empty && large && size.rows >= 10
            &&& mode == LayoutMode::Standard <==> !empty && large && 7 <= size.rows < 10
            &&& mode == LayoutMode::Compact <==> !empty && !(large && size.rows >= 7)
                && size.columns >= 5
            &&& mode == LayoutMode::Minimal <==> !empty && !(large && size.rows >= 7)
                && size.columns < 5
        }),
{
    lemma_fitting_time_is_largest_fit(size, clock.face);
}

/// What each line shows. In `Hero` and `Standard` the first line is the
/// large face, whole when it fits with a cell of margin on either side and
/// else cut before its last `:`; `Standard` shows nothing else, while `Hero`
/// adds the date and then the period, if there is one. `Compact` shows the
/// compact text and, from three rows, the date; `Minimal` the compact text
/// alone; `Hidden` nothing. Every text is cut to the pane's width.
pub proof fn lemma_what_the_lines_show(size: TerminalSize, clock: ClockView)
    ensures
        ({
            let (mode, lines) = layout_for(size, clock);
            let w = size.columns as int;
            let date = if clock.date.len() <= w {
                clock.date
            } else {
                clock.date.take(w)
            };
            let compact = if clock.compact.len() <= w {
                clock.compact
            } else {
                clock.compact.take(w)
            };
            &&& mode == LayoutMode::Hero || mode == LayoutMode::Standard ==> {
                &&& lines.len() >= 1
                &&& clock.face.len() + 2 <= w ==> lines[0].2 == clock.face
                &&& clock.face.len() + 2 > w ==> exists|i: int|
                    is_last_colon(clock.face, i) && lines[0].2 == clock.face.take(i)
                        && lines[0].2.contains(':')
            }
            &&& mode == LayoutMode::Standard ==> lines.len() == 1
            &&& mode == LayoutMode::Hero ==> {
                &&& lines.len() == if clock.meridiem is Some {
                    3int
                } else {
                    2int
                }
                &&& lines[1].2 == date
                &&& clock.meridiem matches Some(p) ==> lines[2].2 == (if p.len() <= w {
                    p
                } else {
                    p.take(w)
                })
            }
            &&& mode == LayoutMode::Compact ==> {
                &&& lines.len() == if size.rows >= 3 {
                    2int
                } else {
                    1int
                }
                &&& lines[0].2 == compact
                &&& size.rows >= 3 ==> lines[1].2 == date
            }
            &&& mode == LayoutMode::Minimal ==> lines.len() == 1 && lines[0].2 == compact
            &&& mode == LayoutMode::Hidden ==> lines.len() == 0
        }),
{
    lemma_fitting_time_is_largest_fit(size, clock.face);
    lemma_fitting_time_fits(size, clock.face);
    let (mode, lines) = layout_for(size, clock);
    let w = size.columns as int;
    let time_row = middle_row(size.rows);
    if mode == LayoutMode::Hero {
        assert(saturating_add_u16(time_row, 2) <= size.rows);
        let t = fitting_time(size, clock.face)->0;
        assert(truncated(t, w) == t);
    } else if mode == LayoutMode::Compact {
        if size.rows >= 3 {
            assert(saturating_add_u16(time_row, 1) <= size.rows);
        }
    } else if mode == LayoutMode::Minimal {
        let c = truncated(clock.compact, w);
        assert(truncated(c, w) == c);
    }
}

/// The order of the modes, from the smallest presentation to the largest.
pub open spec fn mode_rank(mode: LayoutMode) -> int {
    match mode {
        LayoutMode::Hidden => 0,
        LayoutMode::Minimal => 1,
        LayoutMode::Compact => 2,
        LayoutMode::Standard => 3,
        LayoutMode::Hero => 4,
    }
}

/// A time that fits a pane still fits a wider one.
proof fn lemma_fitting_time_grows(small: TerminalSize, large: TerminalSize, full: Seq<char>)
    requires
        small.columns <= large.columns,
        fitting_time(small, full) is Some,
    ensures
        fitting_time(large, full) is Some,
{
}

/// Growing a pane, in width or height, never makes the presentation
/// smaller.
pub proof fn lemma_larger_panes_never_shrink_the_layout(
    small: TerminalSize,
    large: TerminalSize,
    clock: ClockView,
)
    requires
        small.columns <= large.columns,
        small.rows <= large.rows,
    ensures
        mode_rank(layout_for(small, clock).0) <= mode_rank(layout_for(large, clock).0),
{
    if fitting_time(small, clock.face) is Some {
        lemma_fitting_time_grows(small, large, clock.face);
    }
}

/// Chooses the presentation for a pane of `size` showing `clock`.
pub fn select_layout(size: TerminalSize, clock: &ClockSnapshot) -> (layout: Layout)
    ensures
        layout@ == layout_for(size, clock@),
{
    if size.columns == 0 || size.rows == 0 {
        let layout = Layout { mode: LayoutMode::Hidden, lines: Vec::new() };
        assert(layout@.1 =~= seq![]);
        return layout;
    }
    let time_row = if size.rows / 2 >= 1 {
        size.rows / 2
    } else {
        1
    };
    if let Some(time) = largest_fitting_time(size, clock.face_text.as_str()) {
        if size.rows >= 10 {
            let mut lines: Vec<PositionedLine> = Vec::new();
            push_centered(&mut lines, size, time_row, time);
            push_centered(&mut lines, size, time_row.saturating_add(2), clock.date_text.as_str());
            if let Some(period) = clock.meridiem {
                push_centered(&mut lines, size, 1, period);
            }
            let layout = Layout { mode: LayoutMode::Hero, lines };
            proof {
                let f = |line: PositionedLine| line@;
                let v = layout_for(size, clock@);
                assert(layout.lines@.map_values(f) =~= v.1);
            }
            return layout;
        }
        if size.rows >= 7 {
            let mut lines: Vec<PositionedLine> = Vec::new();
            let text = string_of(chars_of(time).as_slice());
            lines.push(
                PositionedLine {
                    row: time_row,
                    column: centered_column(size.columns, cell_width(time)),
                    text,
                },
            );
            let layout = Layout { mode: LayoutMode::Standard, lines };
            assert(layout@.1 =~= layout_for(size, clock@).1);
            return layout;
        }
    }
    if size.columns >= 5 {
        let mut lines: Vec<PositionedLine> = Vec::new();
        push_centered(&mut lines, size, time_row, clock.compact_text.as_str());
        if size.rows >= 3 {
            push_centered(&mut lines, size, time_row.saturating_add(1), clock.date_text.as_str());
        }
        let layout = Layout { mode: LayoutMode::Compact, lines };
        assert(layout@.1 =~= layout_for(size, clock@).1);
        return layout;
    }
    let mut lines: Vec<PositionedLine> = Vec::new();
    let text = truncate_cells(clock.compact_text.as_str(), size.columns as usize);
    push_centered(&mut lines, size, time_row, text.as_str());
    let layout = Layout { mode: LayoutMode::Minimal, lines };
    assert(layout@.1 =~= layout_for(size, clock@).1);
    layout
}

/// The largest form of `full_time` that fits the pane (see `fitting_time`).
fn largest_fitting_time<'a>(size: TerminalSize, full_time: &'a str) -> (time: Option<&'a str>)
    ensures
        match time {
            Some(t) => fitting_time(size, full_time@) == Some(t@),
            None => fitting_time(size, full_time@) is None,
        },
{
    let columns = size.columns as usize;
    let chars = chars_of(full_time);
    let width = chars.len();
    if columns >= 2 && width <= columns - 2 {
        return Some(full_time);
    }
    let last = last_colon(&chars);
    match last {
        Some(i) => {
            let head_has_colon = has_colon_before(&chars, i);
            if head_has_colon && columns >= 2 && i <= columns - 2 {
                let head = full_time.substring_char(0, i);
                Some(head)
            } else {
                None
            }
        },
        None => None,
    }
}

/// The index of the last `:` in `chars`.
pub(crate) fn last_colon(chars: &Vec<char>) -> (index: Option<usize>)
    ensures
        match index {
            Some(i) => last_index_of(chars@, ':') == Some(i as nat) && i < chars@.len(),
            None => last_index_of(chars@, ':') is None,
        },
{
    let mut n = chars.len();
    assert(chars@.take(n as int) =~= chars@);
    while n > 0
        invariant
            n <= chars@.len(),
            last_index_of(chars@, ':') == last_index_of(chars@.take(n as int), ':'),
        decreases n,
    {
        assert(chars@.take(n as int).drop_last() =~= chars@.take(n - 1));
        if chars[n - 1] == ':' {
            proof {
                lemma_last_index_of(chars@, ':');
            }
            return Some(n - 1);
        }
        n = n - 1;
    }
    None
}

/// Whether a `:` occurs among the first `end` characters.
fn has_colon_before(chars: &Vec<char>, end: usize) -> (found: bool)
    requires
        end <= chars@.len(),
    ensures
        found == chars@.take(end as int).contains(':'),
{
    let mut i: usize = 0;
    while i < end
        invariant
            end <= chars@.len(),
            i <= end,
            forall|k: int| 0 <= k < i ==> chars@[k] != ':',
        decreases end - i,
    {
        if chars[i] == ':' {
            assert(chars@.take(end as int)[i as int] == ':');
            return true;
        }
        i = i + 1;
    }
    assert forall|k: int| 0 <= k < chars@.take(end as int).len() implies chars@.take(
        end as int,
    )[k] != ':' by {}
    false
}

/// Adds a line centring `text`, cut to the pane's width, at `row`; adds
/// nothing when `row` lies below the pane.
fn push_centered(lines: &mut Vec<PositionedLine>, size: TerminalSize, row: u16, text: &str)
    ensures
        final(lines)@.map_values(|line: PositionedLine| line@) == old(lines)@.map_values(
            |line: PositionedLine| line@,
        ) + centered_line(size, row, text@),
{
    let ghost f = |line: PositionedLine| line@;
    if row <= size.rows {
        let text = truncate_cells(text, size.columns as usize);
        let column = centered_column(size.columns, cell_width(text.as_str()));
        lines.push(PositionedLine { row, column, text });
    }
    assert(lines@.map_values(f) =~= old(lines)@.map_values(f) + centered_line(size, row, text@));
}

/// The one-based column that centres text `width` cells wide.
fn centered_column(columns: u16, width: usize) -> (column: u16)
    ensures
        column == centered_column_of(columns, width as int),
{
    let shown = if width < columns as usize {
        width
    } else {
        columns as usize
    };
    ((columns as usize - shown) / 2 + 1) as u16
}

/// The number of terminal cells `text` takes: one per character.
pub fn cell_width(text: &str) -> (width: usize)
    ensures
        width == text@.len(),
{
    text.unicode_len()
}

/// The first `limit` characters of `text`.
fn truncate_cells(text: &str, limit: usize) -> (cut: String)
    ensures
        cut@ == truncated(text@, limit as int),
{
    let chars = chars_of(text);
    let mut cut = String::new();
    if chars.len() <= limit {
        push_chars(&mut cut, chars.as_slice());
    } else {
        push_prefix(&mut cut, chars.as_slice(), limit);
    }
    assert(cut@ =~= truncated(text@, limit as int));
    cut
}

} // verus!
