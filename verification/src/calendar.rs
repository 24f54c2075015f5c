//! What every block of a calendar can do: be marked, be measured and be
//! rendered as lines of text.

use crate::date::Date;
use crate::date::Day;
use crate::text::join_lines;
use crate::text::line_views;
use vstd::prelude::*;

verus! {

/// What a block is, as far as laying it out and marking it goes.
pub struct BlockView {
    /// The number of characters that a line of the block is meant to have.
    pub width: nat,
    /// The number of lines.
    pub height: nat,
    /// The number of characters of one day.
    pub day_width: nat,
    /// The rendered lines, top to bottom.
    pub lines: Seq<Seq<char>>,
    /// The days that belong to the block: those of its month, or of the
    /// months of its parts.
    pub owned: Set<Day>,
    /// The days that are marked.
    pub marked: Set<Day>,
}

impl BlockView {
    /// There are as many lines as the height says, and only days of the block
    /// are marked.
    pub open spec fn consistent(self) -> bool {
        &&& self.lines.len() == self.height
        &&& self.marked.subset_of(self.owned)
    }

    /// Every line has exactly `width` characters.
    pub open spec fn aligned(self) -> bool {
        forall|i: int| 0 <= i < self.lines.len() ==> (#[trigger] self.lines[i]).len() == self.width
    }

    /// Line `i`, or a blank run of the block's width below its last line.
    pub open spec fn line_or_blank(self, i: int) -> Seq<char> {
        if 0 <= i < self.lines.len() {
            self.lines[i]
        } else {
            crate::text::spaces(self.width)
        }
    }

    /// Whether some marked day has the day-of-month number `n`.
    pub open spec fn marks_number(self, n: int) -> bool {
        exists|e: Day| #[trigger] self.marked.contains(e) && e.day == n
    }
}

/// A change to the marks of a block.
pub enum Change {
    /// Marking a day.
    Mark(Day),
    /// Removing the mark from a day-of-month number.
    Unmark(Day),
}

/// How marking `day` changes a block: the day becomes marked where the block
/// owns it, nothing else about the marks changes, the measures stay, and a
/// day that the block does not own leaves the lines as they were.
pub open spec fn marked_from(before: BlockView, day: Day, after: BlockView) -> bool {
    &&& after.width == before.width
    &&& after.height == before.height
    &&& after.day_width == before.day_width
    &&& after.owned == before.owned
    &&& after.marked == if before.owned.contains(day) {
        before.marked.insert(day)
    } else {
        before.marked
    }
    &&& !before.owned.contains(day) ==> after.lines == before.lines
}

/// How unmarking `day` changes a block: every mark on that day-of-month
/// number goes, whatever its month and year, the other marks and the measures
/// stay, and where no mark had that number the lines stay as they were.
pub open spec fn unmarked_from(before: BlockView, day: Day, after: BlockView) -> bool {
    &&& after.width == before.width
    &&& after.height == before.height
    &&& after.day_width == before.day_width
    &&& after.owned == before.owned
    &&& after.marked == Set::new(|e: Day| before.marked.contains(e) && e.day != day.day)
    &&& !before.marks_number(day.day) ==> after.lines == before.lines
}

/// A block of a calendar: a month, a blank filler, a grid of blocks.
pub trait Calendar {
    /// The block's internal invariant.
    spec fn wf(&self) -> bool;

    /// The block as the layout sees it.
    spec fn block_view(&self) -> BlockView;

    /// The block as the layout sees it once `change` is made.
    spec fn view_after(&self, change: Change) -> BlockView;

    /// A well-formed block has as many lines as its height, and marks only
    /// days of its own.
    proof fn lemma_consistent(&self)
        requires
            self.wf(),
        ensures
            self.block_view().consistent(),
    ;

    /// Marks `date` if it is a day of this block; otherwise does nothing.
    /// Afterwards `date` is marked exactly if the block owns it.
    fn mark(&mut self, date: Date)
        requires
            old(self).wf(),
        ensures
            final(self).wf(),
            final(self).block_view() == old(self).view_after(Change::Mark(date@)),
            marked_from(old(self).block_view(), date@, final(self).block_view()),
            final(self).block_view().marked.contains(date@) == old(
                self,
            ).block_view().owned.contains(date@),
    ;

    /// Removes the mark from the day-of-month number of `date`. Afterwards
    /// `date` is not marked.
    fn unmark(&mut self, date: Date)
        requires
            old(self).wf(),
        ensures
            final(self).wf(),
            final(self).block_view() == old(self).view_after(Change::Unmark(date@)),
            unmarked_from(old(self).block_view(), date@, final(self).block_view()),
            !final(self).block_view().marked.contains(date@),
    ;

    /// Whether `date` is marked: a day of another month or year never is.
    fn is_marked(&self, date: Date) -> (r: bool)
        requires
            self.wf(),
        ensures
            r == self.block_view().marked.contains(date@),
    ;

    /// The number of characters of a rendered line.
    fn width(&self) -> (r: usize)
        requires
            self.wf(),
        ensures
            r == self.block_view().width,
    ;

    /// The number of rendered lines.
    fn height(&self) -> (r: usize)
        requires
            self.wf(),
        ensures
            r == self.block_view().height,
    ;

    /// The number of characters of one day.
    fn day_width(&self) -> (r: usize)
        requires
            self.wf(),
        ensures
            r == self.block_view().day_width,
    ;

    /// The rendered lines, top to bottom: as many as the height.
    fn lines(&self) -> (r: Vec<String>)
        requires
            self.wf(),
        ensures
            line_views(r@) == self.block_view().lines,
            r@.len() == self.block_view().height,
    ;

    /// The rendered text: the lines joined by line feeds, with none after the
    /// last line.
    fn render(&self) -> (r: String)
        requires
            self.wf(),
        ensures
            r@ == join_lines(self.block_view().lines),
    ;
}

} // verus!
