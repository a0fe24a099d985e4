//! The window onto the text: which lines and columns are shown.

use std::ops::Range;
use vstd::prelude::*;

verus! {

/// The part of the text on screen: from line `top_line` and column
/// `left_col`, `width` columns by `height` lines.
pub struct Viewport {
    top_line: usize,
    left_col: usize,
    width: usize,
    height: usize,
}

impl Viewport {
    /// The first line shown.
    pub closed spec fn spec_top(&self) -> nat {
        self.top_line as nat
    }

    /// The first column shown.
    pub closed spec fn spec_left(&self) -> nat {
        self.left_col as nat
    }

    /// The first line shown.
    pub fn top_line(&self) -> (res: usize)
        ensures
            res == self.spec_top(),
    {
        self.top_line
    }

    /// How many lines are shown.
    pub fn height(&self) -> (res: usize)
        ensures
            res == self.spec_height(),
    {
        self.height
    }

    /// How many columns are shown.
    pub closed spec fn spec_width(&self) -> nat {
        self.width as nat
    }

    /// How many lines are shown.
    pub closed spec fn spec_height(&self) -> nat {
        self.height as nat
    }

    /// A `width` by `height` window at the start of the text.
    pub fn new(width: usize, height: usize) -> (res: Self)
        ensures
            res.spec_top() == 0,
            res.spec_left() == 0,
            res.spec_width() == width,
            res.spec_height() == height,
    {
        Viewport { top_line: 0, left_col: 0, width, height }
    }

    /// Moves the window `delta` lines down (up when negative), stopping at
    /// the first line.
    pub fn scroll(&mut self, delta: isize)
        requires
            isize::MIN <= (old(self).spec_top() as isize) + delta <= isize::MAX,
        ensures
            final(self).spec_top() == if (old(self).spec_top() as isize) + delta < 0 {
                0
            } else {
                ((old(self).spec_top() as isize) + delta) as nat
            },
            final(self).spec_left() == old(self).spec_left(),
            final(self).spec_width() == old(self).spec_width(),
            final(self).spec_height() == old(self).spec_height(),
    {
        let new_top = self.top_line as isize + delta;
        self.top_line = if new_top > 0 { new_top as usize } else { 0 };
    }

    /// Changes the window's size.
    pub fn resize(&mut self, w: usize, h: usize)
        ensures
            final(self).spec_top() == old(self).spec_top(),
            final(self).spec_left() == old(self).spec_left(),
            final(self).spec_width() == w,
            final(self).spec_height() == h,
    {
        self.width = w;
        self.height = h;
    }

    /// The lines shown: from the top line, `height` of them.
    pub fn visible_lines(&self) -> (res: Range<usize>)
        requires
            self.spec_top() + self.spec_height() <= usize::MAX,
        ensures
            res.start == self.spec_top(),
            res.end == self.spec_top() + self.spec_height(),
    {
        self.top_line..(self.top_line + self.height)
    }

    /// How many columns are shown.
    pub fn width(&self) -> (res: usize)
        ensures
            res == self.spec_width(),
    {
        self.width
    }

    /// The first column shown.
    pub fn left_col(&self) -> (res: usize)
        ensures
            res == self.spec_left(),
    {
        self.left_col
    }

    /// Whether `ensure_visible(line)` can move the window without leaving
    /// the range of a `usize`.
    pub fn can_show(&self, line: usize) -> (res: bool)
        ensures
            res == ((line >= self.spec_top() && self.spec_height() > 0
                ==> self.spec_top() + self.spec_height() <= usize::MAX)
                && (line >= self.spec_top() + self.spec_height() && self.spec_height() > 0
                ==> line < usize::MAX)),
    {
        if self.height == 0 || line < self.top_line {
            return true;
        }
        if self.height > usize::MAX - self.top_line {
            return false;
        }
        line < self.top_line + self.height || line < usize::MAX
    }

    /// Moves the window as little as needed for `line` to be shown: up to
    /// it when it lies above, down until it is the last line shown when it
    /// lies below. A window of no lines is moved only upwards.
    pub fn ensure_visible(&mut self, line: usize)
        requires
            line >= old(self).spec_top() && old(self).spec_height() > 0
                ==> old(self).spec_top() + old(self).spec_height() <= usize::MAX,
            line >= old(self).spec_top() + old(self).spec_height() && old(self).spec_height() > 0
                ==> line < usize::MAX,
        ensures
            final(self).spec_top() == if line < old(self).spec_top() {
                line as nat
            } else if old(self).spec_height() > 0 && line >= old(self).spec_top() + old(self).spec_height() {
                (line + 1 - old(self).spec_height()) as nat
            } else {
                old(self).spec_top()
            },
            final(self).spec_left() == old(self).spec_left(),
            final(self).spec_width() == old(self).spec_width(),
            final(self).spec_height() == old(self).spec_height(),
            final(self).spec_height() > 0 ==> final(self).spec_top() <= line < final(self).spec_top()
                + final(self).spec_height(),
    {
        if line < self.top_line {
            self.top_line = line;
        } else if self.height > 0 && line >= self.top_line + self.height {
            self.top_line = line + 1 - self.height;
        }
    }
}

} // verus!
