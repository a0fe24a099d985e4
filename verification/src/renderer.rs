//! What each screen row shows: the computing part of drawing the editor.
//! Drawing itself happens outside the library.

use vstd::prelude::*;

use crate::buffer::Buffer;
use crate::text::{chars_of, lines, push_char, string_of};
use crate::viewport::Viewport;

verus! {

/// `t` cut to `width` characters, or filled up to `width` with spaces.
pub open spec fn padded(t: Seq<char>, width: nat) -> Seq<char> {
    if t.len() >= width {
        t.take(width as int)
    } else {
        t + Seq::new((width - t.len()) as nat, |i: int| ' ')
    }
}

/// The part of `line` in the columns from `left`, at most `width` of them.
pub open spec fn window(line: Seq<char>, left: nat, width: nat) -> Seq<char> {
    if left >= line.len() {
        Seq::empty()
    } else if line.len() - left > width {
        line.subrange(left as int, (left + width) as int)
    } else {
        line.subrange(left as int, line.len() as int)
    }
}

/// Line `n` of `text`, or the empty line past the last.
pub open spec fn line_or_empty(text: Seq<char>, n: nat) -> Seq<char> {
    if n < lines(text).len() {
        lines(text)[n as int]
    } else {
        Seq::empty()
    }
}

/// Fills `text` with spaces up to `width` characters, or cuts it to
/// `width` when it is longer, so that a row is painted in full and never
/// spills into the next.
pub fn pad_to_width(text: &str, width: usize) -> (res: String)
    ensures
        res@ == padded(text@, width as nat),
{
    let chars = chars_of(text);
    let count = chars.len();
    if count >= width {
        return string_of(&chars, 0, width);
    }
    let mut s = string_of(&chars, 0, count);
    let mut i = count;
    while i < width
        invariant
            count <= i <= width,
            count == text@.len(),
            s@ == text@ + Seq::new((i - count) as nat, |k: int| ' '),
        decreases width - i,
    {
        push_char(&mut s, ' ');
        assert(s@ =~= text@ + Seq::new((i + 1 - count) as nat, |k: int| ' '));
        i = i + 1;
    }
    assert(text@.subrange(0, count as int) =~= text@);
    s
}

/// The text of the screen row that shows line `line_num` of the buffer:
/// the line's characters in the window's columns, filled with spaces to
/// the window's width. Rows past the last line come out blank.
pub fn row_text(buffer: &Buffer, viewport: &Viewport, line_num: usize) -> (res: String)
    ensures
        res@ == padded(
            window(
                line_or_empty(buffer.spec_rope().text(), line_num as nat),
                viewport.spec_left(),
                viewport.spec_width(),
            ),
            viewport.spec_width(),
        ),
{
    let line = if line_num < buffer.line_count() { buffer.line(line_num) } else { String::new() };
    proof {
        let text = buffer.spec_rope().text();
        if !(line_num < lines(text).len()) {
            assert(line@ =~= Seq::<char>::empty());
        }
    }
    let chars = chars_of(line.as_str());
    let left = viewport.left_col();
    let width = viewport.width();
    let len = chars.len();
    let visible = if left >= len {
        String::new()
    } else if len - left > width {
        string_of(&chars, left, left + width)
    } else {
        string_of(&chars, left, len)
    };
    pad_to_width(visible.as_str(), width)
}

} // verus!
