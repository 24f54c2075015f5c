//! A blank block, which fills the last row of a grid of calendars.

use crate::calendar::BlockView;
use crate::calendar::Calendar;
use crate::calendar::Change;
use crate::date::Date;
use crate::date::Day;
use crate::text::blank;
use crate::text::join_lines;
use crate::text::joined;
use crate::text::line_views;
use crate::text::spaces;
use vstd::prelude::*;

verus! {

/// A block of blank lines, as wide as a month with days of the same width.
#[derive(Debug)]
pub struct EmptyCalendar {
    height: usize,
    day_width: usize,
}

/// The view of a blank block of `height` lines for days of `day_width`
/// characters: every line is a run of `7 * day_width` spaces, and no day
/// belongs to it.
pub open spec fn blank_block(height: nat, day_width: nat) -> BlockView {
    BlockView {
        width: 7 * day_width,
        height,
        day_width,
        lines: Seq::new(height, |i: int| spaces(7 * day_width)),
        owned: Set::empty(),
        marked: Set::empty(),
    }
}

impl EmptyCalendar {
    /// The blank block of `height` lines for days of `day_width` characters.
    pub closed spec fn spec_new(height: nat, day_width: nat) -> EmptyCalendar {
        EmptyCalendar { height: height as usize, day_width: day_width as usize }
    }

    /// The number of lines.
    pub closed spec fn spec_height(&self) -> nat {
        self.height as nat
    }

    /// The number of characters of one day.
    pub closed spec fn spec_day_width(&self) -> nat {
        self.day_width as nat
    }

    /// A blank block is what `spec_new` makes of its height and day width.
    pub proof fn lemma_spec_new(height: nat, day_width: nat)
        requires
            height <= usize::MAX,
            day_width * 7 <= usize::MAX,
        ensures
            Self::spec_new(height, day_width).wf(),
            Self::spec_new(height, day_width).block_view() == blank_block(height, day_width),
    {
    }

    /// In a well-formed blank block the width of seven days is a `usize`.
    pub proof fn lemma_wf(&self)
        requires
            self.wf(),
        ensures
            7 * self.block_view().day_width <= usize::MAX,
            self.block_view().height <= usize::MAX,
            self.block_view().aligned(),
    {
    }

    /// A blank block of `height` lines for days of `day_width` characters.
    pub fn new(height: usize, day_width: usize) -> (r: Self)
        requires
            day_width * 7 <= usize::MAX,
        ensures
            r == Self::spec_new(height as nat, day_width as nat),
            r.wf(),
            r.block_view() == blank_block(height as nat, day_width as nat),
    {
        Self { height, day_width }
    }

    /// The rendered text: the blank lines joined by line feeds.
    pub fn to_string(&self) -> (r: String)
        requires
            self.wf(),
        ensures
            r@ == join_lines(self.block_view().lines),
    {
        let lines = self.lines();
        joined(&lines)
    }
}

impl Default for EmptyCalendar {
    /// The blank block without lines or width.
    fn default() -> (r: Self)
        ensures
            r == Self::spec_new(0, 0),
            r.wf(),
    {
        Self { height: 0, day_width: 0 }
    }
}

impl Calendar for EmptyCalendar {
    /// The width of seven days is a `usize`.
    closed spec fn wf(&self) -> bool {
        self.day_width * 7 <= usize::MAX
    }

    open spec fn block_view(&self) -> BlockView {
        blank_block(self.spec_height(), self.spec_day_width())
    }

    open spec fn view_after(&self, change: Change) -> BlockView {
        self.block_view()
    }

    proof fn lemma_consistent(&self) {
    }

    /// Does nothing: no day belongs to a blank block.
    fn mark(&mut self, date: Date)
        ensures
            *final(self) == *old(self),
    {
    }

    /// Does nothing.
    fn unmark(&mut self, date: Date)
        ensures
            *final(self) == *old(self),
    {
        proof {
            assert(self.block_view().marked =~= Set::new(
                |e: Day| self.block_view().marked.contains(e) && e.day != date@.day,
            ));
        }
    }

    /// Always false.
    fn is_marked(&self, date: Date) -> (r: bool)
        ensures
            !r,
    {
        false
    }

    fn width(&self) -> (r: usize) {
        self.day_width * 7
    }

    fn height(&self) -> (r: usize) {
        self.height
    }

    fn day_width(&self) -> (r: usize) {
        self.day_width
    }

    fn lines(&self) -> (r: Vec<String>) {
        let mut out: Vec<String> = Vec::new();
        let mut i: usize = 0;
        while i < self.height
            invariant
                i <= self.height,
                self.wf(),
                out@.len() == i,
                forall|j: int|
                    0 <= j < i ==> (#[trigger] out@[j])@ == spaces(7 * self.spec_day_width()),
            decreases self.height - i,
        {
            out.push(blank(self.day_width * 7));
            i = i + 1;
        }
        proof {
            assert(line_views(out@) =~= self.block_view().lines);
        }
        out
    }

    fn render(&self) -> (r: String) {
        self.to_string()
    }
}

} // verus!
