//! Turning a layout into the bytes of one terminal frame.
use vstd::prelude::*;

use crate::layout::{Layout, LineView, PositionedLine};
use crate::text::{
    all_decimal_digits, decimal, digits_read, lemma_decimal_reads_back, push_char, push_decimal,
};
use crate::Rgb;

verus! {

/// The sequence that clears the screen and homes the cursor.
pub open spec fn clear_and_home() -> Seq<char> {
    "\x1b[2J\x1b[H"@
}

/// The sequence that resets all character attributes.
pub open spec fn reset_attributes() -> Seq<char> {
    "\x1b[0m"@
}

/// The truecolour SGR sequence that selects `color` as the foreground.
pub open spec fn foreground_sgr(color: Rgb) -> Seq<char> {
    "\x1b[38;2;"@ + decimal(color.red as nat) + ";"@ + decimal(color.green as nat) + ";"@
        + decimal(color.blue as nat) + "m"@
}

/// The sequence that moves the cursor to a one-based `row` and `column`.
pub open spec fn cursor_to(row: nat, column: nat) -> Seq<char> {
    "\x1b["@ + decimal(row) + ";"@ + decimal(column) + "H"@
}

/// A line drawn at its position.
pub open spec fn line_output(line: LineView) -> Seq<char> {
    cursor_to(line.0 as nat, line.1 as nat) + line.2
}

/// All lines drawn, in order.
pub open spec fn lines_output(lines: Seq<LineView>) -> Seq<char>
    decreases lines.len(),
{
    if lines.len() == 0 {
        seq![]
    } else {
        lines_output(lines.drop_last()) + line_output(lines.last())
    }
}

/// The frame for `layout`: clear and home, the optional colour, every line,
/// and an attribute reset when a colour was set.
pub open spec fn frame_output(layout: (crate::layout::LayoutMode, Seq<LineView>), color: Option<Rgb>) -> Seq<char> {
    match color {
        Some(c) => clear_and_home() + foreground_sgr(c) + lines_output(layout.1) + reset_attributes(),
        None => clear_and_home() + lines_output(layout.1),
    }
}

/// Every frame starts by clearing the screen and homing the cursor, so no
/// glyph of an earlier frame survives a resize; a frame that sets a colour
/// ends by resetting the attributes, so the terminal's own colour returns.
pub proof fn lemma_frame_clears_first_and_resets_last(
    layout: (crate::layout::LayoutMode, Seq<LineView>),
    color: Option<Rgb>,
)
    ensures
        frame_output(layout, color).take(clear_and_home().len() as int) == clear_and_home(),
        color is Some ==> frame_output(layout, color).skip(
            frame_output(layout, color).len() - reset_attributes().len(),
        ) == reset_attributes(),
{
    let frame = frame_output(layout, color);
    assert(frame.take(clear_and_home().len() as int) =~= clear_and_home());
    if color is Some {
        assert(frame.skip(frame.len() - reset_attributes().len()) =~= reset_attributes());
    }
}

/// A drawn line moves the cursor to the line's own row and column, written
/// in decimal, and then writes the line's text.
pub proof fn lemma_line_goes_where_it_says(line: LineView)
    ensures
        exists|row: Seq<char>, column: Seq<char>|
            #![trigger digits_read(row), digits_read(column)]
            all_decimal_digits(row) && all_decimal_digits(column) && digits_read(row)
                == line.0 && digits_read(column) == line.1 && line_output(line) == "\x1b["@
                + row + ";"@ + column + "H"@ + line.2,
{
    lemma_decimal_reads_back(line.0 as nat);
    lemma_decimal_reads_back(line.1 as nat);
    assert(digits_read(decimal(line.0 as nat)) == line.0);
    assert(digits_read(decimal(line.1 as nat)) == line.1);
    assert(line_output(line) == "\x1b["@ + decimal(line.0 as nat) + ";"@ + decimal(line.1 as nat)
        + "H"@ + line.2);
}

/// The colour code names the colour's own red, green and blue values, in
/// decimal and in that order.
pub proof fn lemma_colour_code_says_the_colour(color: Rgb)
    ensures
        exists|r: Seq<char>, g: Seq<char>, b: Seq<char>|
            #![trigger digits_read(r), digits_read(g), digits_read(b)]
            all_decimal_digits(r) && all_decimal_digits(g) && all_decimal_digits(b) && digits_read(r)
                == color.red && digits_read(g) == color.green && digits_read(b) == color.blue
                && foreground_sgr(color) == "\x1b[38;2;"@ + r + ";"@ + g + ";"@ + b
                + "m"@,
{
    lemma_decimal_reads_back(color.red as nat);
    lemma_decimal_reads_back(color.green as nat);
    lemma_decimal_reads_back(color.blue as nat);
    assert(digits_read(decimal(color.red as nat)) == color.red);
    assert(digits_read(decimal(color.green as nat)) == color.green);
    assert(digits_read(decimal(color.blue as nat)) == color.blue);
}

/// Appends the SGR sequence selecting `color` as the foreground.
pub(crate) fn push_foreground(frame: &mut String, color: Rgb)
    ensures
        final(frame)@ == old(frame)@ + foreground_sgr(color),
{
    frame.append("\x1b[38;2;");
    push_decimal(frame, color.red as u64);
    push_char(frame, ';');
    push_decimal(frame, color.green as u64);
    push_char(frame, ';');
    push_decimal(frame, color.blue as u64);
    push_char(frame, 'm');
    proof {
        reveal_strlit(";");
        reveal_strlit("m");
    }
    assert(frame@ =~= old(frame)@ + foreground_sgr(color));
}

/// Appends the sequence moving the cursor to `row` and `column`.
pub(crate) fn push_cursor_to(frame: &mut String, row: u64, column: u64)
    ensures
        final(frame)@ == old(frame)@ + cursor_to(row as nat, column as nat),
{
    frame.append("\x1b[");
    push_decimal(frame, row);
    push_char(frame, ';');
    push_decimal(frame, column);
    push_char(frame, 'H');
    proof {
        reveal_strlit(";");
        reveal_strlit("H");
    }
    assert(frame@ =~= old(frame)@ + cursor_to(row as nat, column as nat));
}

/// Builds the full frame for `layout`: it always starts by clearing the
/// screen, so nothing of an earlier, larger frame survives a resize.
pub fn render_frame(layout: &Layout, color: Option<Rgb>) -> (frame: String)
    ensures
        frame@ == frame_output(layout@, color),
{
    let mut frame = String::new();
    frame.append("\x1b[2J\x1b[H");
    if let Some(color) = color {
        push_foreground(&mut frame, color);
    }
    let ghost start = frame@;
    let ghost lines = layout@.1;
    let mut i: usize = 0;
    while i < layout.lines.len()
        invariant
            i <= layout.lines@.len(),
            lines == layout.lines@.map_values(|line: PositionedLine| line@),
            frame@ == start + lines_output(lines.take(i as int)),
        decreases layout.lines@.len() - i,
    {
        render_line(&mut frame, &layout.lines[i]);
        assert(lines.take(i + 1).drop_last() =~= lines.take(i as int));
        i = i + 1;
        assert(frame@ =~= start + lines_output(lines.take(i as int)));
    }
    assert(lines.take(lines.len() as int) =~= lines);
    if color.is_some() {
        frame.append("\x1b[0m");
    }
    assert(frame@ =~= frame_output(layout@, color));
    frame
}

/// Appends one positioned line.
fn render_line(frame: &mut String, line: &PositionedLine)
    ensures
        final(frame)@ == old(frame)@ + line_output(line@),
{
    push_cursor_to(frame, line.row as u64, line.column as u64);
    frame.append(line.text.as_str());
    assert(frame@ =~= old(frame)@ + line_output(line@));
}

} // verus!
