//! Grids of calendars: blocks laid out in rows under a title. A block is a
//! month, a blank filler, a year or again a grid.

use crate::calendar::BlockView;
use crate::calendar::Calendar;
use crate::calendar::Change;
use crate::calendar::marked_from;
use crate::calendar::unmarked_from;
use crate::date::Date;
use crate::empty_calendar::EmptyCalendar;
use crate::empty_calendar::blank_block;
use crate::layout::all_aligned;
use crate::layout::all_consistent;
use crate::layout::body_height;
use crate::layout::body_lines;
use crate::layout::fills_rows;
use crate::layout::grid_height;
use crate::layout::grid_lines;
use crate::layout::grid_padding;
use crate::layout::grid_view;
use crate::layout::grid_width;
use crate::layout::heights_total;
use crate::layout::lemma_body_height_total;
use crate::layout::lemma_fills_rows_step;
use crate::layout::lemma_grid_aligned;
use crate::layout::lemma_grid_consistent;
use crate::layout::lemma_grid_lines_len;
use crate::layout::lemma_grid_marked;
use crate::layout::lemma_grid_unmarked;
use crate::layout::lemma_heights_total_take;
use crate::layout::lemma_padded_len;
use crate::layout::lemma_rows_grow;
use crate::layout::lemma_run_grows;
use crate::layout::lemma_same_grid;
use crate::layout::lemma_tallest_bound;
use crate::layout::lemma_widest_day_bound;
use crate::layout::padding_count;
use crate::layout::row_heights;
use crate::layout::row_line;
use crate::layout::row_lines;
use crate::layout::rows_as_wide;
use crate::layout::tallest;
use crate::layout::widest_day;
use crate::layout::widest_row;
use crate::layout::widths_sum;
use crate::marker::Marker;
use crate::month_calendar::MonthCalendar;
use crate::text::blank;
use crate::text::center;
use crate::text::centered;
use crate::text::join_lines;
use crate::text::joined;
use crate::text::lemma_line_views_push;
use crate::text::line_views;
use crate::text::spaces;
use crate::year_calendar::YearCalendar;
use vstd::prelude::*;
use vstd::string::StringExecFns;

verus! {

/// A block of a grid.
pub enum Block<M: Marker> {
    /// The calendar of a month.
    Month(MonthCalendar<M>),
    /// A blank filler.
    Empty(EmptyCalendar),
    /// A grid of blocks.
    Grid(Calendars<M>),
    /// The calendar of a year.
    Year(YearCalendar<M>),
}

/// A grid of calendars: blocks in rows of `cols` blocks, under a title.
pub struct Calendars<M: Marker> {
    calendars: Vec<Block<M>>,
    title: String,
    cols: usize,
    width: usize,
    padding: usize,
}

/// The views of blocks, block by block.
pub open spec fn block_views<M: Marker>(blocks: Seq<Block<M>>) -> Seq<BlockView> {
    Seq::new(blocks.len(), |i: int| blocks[i].layout())
}

/// The views of blocks once `change` is made in each of them.
pub open spec fn block_views_after<M: Marker>(blocks: Seq<Block<M>>, change: Change) -> Seq<
    BlockView,
> {
    Seq::new(blocks.len(), |i: int| blocks[i].layout_after(change))
}

/// The blank block that fills the last row of `blocks`: as high as the
/// tallest block of that row, with days as wide as those of the last block.
pub open spec fn filler<M: Marker>(blocks: Seq<Block<M>>, cols: nat) -> EmptyCalendar {
    let rest = (blocks.len() % cols) as nat;
    EmptyCalendar::spec_new(
        tallest(block_views(blocks), blocks.len() - rest, rest),
        blocks.last().layout().day_width,
    )
}

/// `blocks` and the blank blocks that fill its last row.
pub open spec fn padded_blocks<M: Marker>(blocks: Seq<Block<M>>, cols: nat) -> Seq<Block<M>> {
    blocks + Seq::new(
        padding_count(blocks.len(), cols),
        |i: int| Block::Empty(filler(blocks, cols)),
    )
}

impl<M: Marker> Block<M> {
    /// The block as the layout sees it.
    pub open spec fn layout(&self) -> BlockView
        decreases self, 0nat,
    {
        match self {
            Block::Month(c) => c.block_view(),
            Block::Empty(c) => c.block_view(),
            Block::Grid(c) => c.layout(),
            Block::Year(c) => c.layout(),
        }
    }

    /// The block as the layout sees it once `change` is made in it and in
    /// every block inside it.
    pub open spec fn layout_after(&self, change: Change) -> BlockView
        decreases self, 0nat,
    {
        match self {
            Block::Month(c) => c.view_after(change),
            Block::Empty(c) => c.view_after(change),
            Block::Grid(c) => c.layout_after(change),
            Block::Year(c) => c.layout_after(change),
        }
    }

    /// The invariant of the block: that of what it holds.
    pub open spec fn well_formed(&self) -> bool
        decreases self, 0nat,
    {
        match self {
            Block::Month(c) => c.wf(),
            Block::Empty(c) => c.wf(),
            Block::Grid(c) => c.well_formed(),
            Block::Year(c) => c.well_formed(),
        }
    }

    /// A well-formed block has as many lines as its height, marks only days
    /// of its own, and the width of seven days is a `usize`.
    pub proof fn lemma_layout_ok(&self)
        requires
            self.well_formed(),
        ensures
            self.layout().consistent(),
            7 * self.layout().day_width <= usize::MAX,
            self.layout().height <= usize::MAX,
            self.layout().width <= usize::MAX,
        decreases self, 0nat,
    {
        match self {
            Block::Month(c) => {
                c.lemma_consistent();
                c.lemma_wf();
            },
            Block::Empty(c) => {
                c.lemma_consistent();
                c.lemma_wf();
            },
            Block::Grid(c) => {
                c.lemma_layout_ok();
            },
            Block::Year(c) => {
                c.lemma_layout_ok();
            },
        }
    }

    /// Marks `date` where the block owns it.
    pub fn mark(&mut self, date: Date)
        requires
            old(self).well_formed(),
        ensures
            final(self).well_formed(),
            final(self).layout() == old(self).layout_after(Change::Mark(date@)),
            marked_from(old(self).layout(), date@, final(self).layout()),
            final(self).layout().marked.contains(date@) == old(self).layout().owned.contains(date@),
        decreases *old(self), 0nat,
    {
        match self {
            Block::Month(c) => c.mark(date),
            Block::Empty(c) => c.mark(date),
            Block::Grid(c) => c.mark(date),
            Block::Year(c) => c.mark(date),
        }
    }

    /// Removes the mark from the day-of-month number of `date`.
    pub fn unmark(&mut self, date: Date)
        requires
            old(self).well_formed(),
        ensures
            final(self).well_formed(),
            final(self).layout() == old(self).layout_after(Change::Unmark(date@)),
            unmarked_from(old(self).layout(), date@, final(self).layout()),
            !final(self).layout().marked.contains(date@),
        decreases *old(self), 0nat,
    {
        match self {
            Block::Month(c) => c.unmark(date),
            Block::Empty(c) => c.unmark(date),
            Block::Grid(c) => c.unmark(date),
            Block::Year(c) => c.unmark(date),
        }
    }

    /// Whether `date` is marked.
    pub fn is_marked(&self, date: Date) -> (r: bool)
        requires
            self.well_formed(),
        ensures
            r == self.layout().marked.contains(date@),
        decreases self, 0nat,
    {
        match self {
            Block::Month(c) => c.is_marked(date),
            Block::Empty(c) => c.is_marked(date),
            Block::Grid(c) => c.is_marked(date),
            Block::Year(c) => c.is_marked(date),
        }
    }

    /// The number of characters of a rendered line.
    pub fn width(&self) -> (r: usize)
        requires
            self.well_formed(),
        ensures
            r == self.layout().width,
    {
        match self {
            Block::Month(c) => c.width(),
            Block::Empty(c) => c.width(),
            Block::Grid(c) => c.width(),
            Block::Year(c) => c.width(),
        }
    }

    /// The number of rendered lines.
    pub fn height(&self) -> (r: usize)
        requires
            self.well_formed(),
        ensures
            r == self.layout().height,
        decreases self, 0nat,
    {
        match self {
            Block::Month(c) => c.height(),
            Block::Empty(c) => c.height(),
            Block::Grid(c) => c.height(),
            Block::Year(c) => c.height(),
        }
    }

    /// The number of characters of one day.
    pub fn day_width(&self) -> (r: usize)
        requires
            self.well_formed(),
        ensures
            r == self.layout().day_width,
        decreases self, 0nat,
    {
        match self {
            Block::Month(c) => c.day_width(),
            Block::Empty(c) => c.day_width(),
            Block::Grid(c) => c.day_width(),
            Block::Year(c) => c.day_width(),
        }
    }

    /// The rendered lines of the block.
    pub fn lines(&self) -> (r: Vec<String>)
        requires
            self.well_formed(),
        ensures
            line_views(r@) == self.layout().lines,
            r@.len() == self.layout().height,
        decreases self, 0nat,
    {
        match self {
            Block::Month(c) => c.lines(),
            Block::Empty(c) => c.lines(),
            Block::Grid(c) => c.lines(),
            Block::Year(c) => c.lines(),
        }
    }

    /// The rendered text: the lines joined by line feeds, with none after the
    /// last line.
    pub fn to_string(&self) -> (r: String)
        requires
            self.well_formed(),
        ensures
            r@ == join_lines(self.layout().lines),
    {
        let lines = self.lines();
        joined(&lines)
    }
}

impl<M: Marker> Calendars<M> {
    /// The blocks, those that fill the last row included.
    pub closed spec fn spec_blocks(&self) -> Seq<Block<M>> {
        self.calendars@
    }

    /// The title.
    pub closed spec fn spec_title(&self) -> Seq<char> {
        self.title@
    }

    /// The number of blocks in a row.
    pub closed spec fn spec_cols(&self) -> nat {
        self.cols as nat
    }

    /// The views of the blocks.
    pub closed spec fn views(&self) -> Seq<BlockView>
        decreases self, 0nat,
    {
        Seq::new(
            self.calendars@.len(),
            |i: int|
                if 0 <= i < self.calendars@.len() {
                    self.calendars@[i].layout()
                } else {
                    arbitrary()
                },
        )
    }

    /// The grid as the layout sees it.
    pub closed spec fn layout(&self) -> BlockView
        decreases self, 1nat,
    {
        grid_view(self.title@, self.views(), self.cols as nat)
    }

    /// The views of the blocks once `change` is made in every block.
    pub closed spec fn views_after(&self, change: Change) -> Seq<BlockView>
        decreases self, 0nat,
    {
        Seq::new(
            self.calendars@.len(),
            |i: int|
                if 0 <= i < self.calendars@.len() {
                    self.calendars@[i].layout_after(change)
                } else {
                    arbitrary()
                },
        )
    }

    /// The grid as the layout sees it once `change` is made in every block.
    pub closed spec fn layout_after(&self, change: Change) -> BlockView
        decreases self, 1nat,
    {
        grid_view(self.title@, self.views_after(change), self.cols as nat)
    }

    /// The invariant of a grid: there is at least one block in a row, the
    /// blocks fill the rows, every block is well-formed, the width and the
    /// padding are those of the layout, and the height and the width of seven
    /// days are each a `usize`.
    pub closed spec fn well_formed(&self) -> bool
        decreases self, 1nat,
    {
        &&& self.cols >= 1
        &&& fills_rows(self.calendars@.len() as int, self.cols as int)
        &&& forall|i: int|
            0 <= i < self.calendars@.len() ==> (#[trigger] self.calendars@[i]).well_formed()
        &&& self.width == grid_width(self.views(), self.cols as nat)
        &&& self.padding == grid_padding(self.views(), self.cols as nat)
        &&& grid_height(self.views(), self.cols as nat) <= usize::MAX
        &&& 7 * widest_day(self.views(), 0, self.calendars@.len()) <= usize::MAX
    }

    /// What a grid is made of: its view is the layout of its title and of the
    /// views of its blocks, and in a well-formed grid the blocks fill the
    /// rows and are well-formed.
    pub proof fn lemma_layout(&self)
        ensures
            self.views() == block_views(self.spec_blocks()),
            self.layout() == grid_view(self.spec_title(), self.views(), self.spec_cols()),
            forall|change: Change| #[trigger]
                self.views_after(change) == block_views_after(self.spec_blocks(), change),
            forall|change: Change| #[trigger]
                self.layout_after(change) == grid_view(
                    self.spec_title(),
                    self.views_after(change),
                    self.spec_cols(),
                ),
            self.well_formed() ==> self.spec_cols() >= 1 && fills_rows(
                self.spec_blocks().len() as int,
                self.spec_cols() as int,
            ) && forall|i: int|
                0 <= i < self.spec_blocks().len() ==> (
                #[trigger] self.spec_blocks()[i]).well_formed(),
    {
        assert(self.views() =~= block_views(self.spec_blocks()));
        assert forall|change: Change| #[trigger]
            self.views_after(change) == block_views_after(self.spec_blocks(), change) by {
            assert(self.views_after(change) =~= block_views_after(self.spec_blocks(), change));
        }
    }

    /// A well-formed grid has as many lines as its height, marks only days
    /// of its blocks, and the width of seven days is a `usize`.
    pub proof fn lemma_layout_ok(&self)
        requires
            self.well_formed(),
        ensures
            self.layout().consistent(),
            7 * self.layout().day_width <= usize::MAX,
            self.layout().height <= usize::MAX,
            self.layout().width <= usize::MAX,
        decreases self, 1nat,
    {
        self.lemma_views_consistent();
        lemma_grid_consistent(self.title@, self.views(), self.cols as nat);
    }

    /// The blocks of a well-formed grid are consistent.
    proof fn lemma_views_consistent(&self)
        requires
            self.well_formed(),
        ensures
            all_consistent(self.views()),
        decreases self, 0nat,
    {
        let views = self.views();
        assert forall|i: int| 0 <= i < views.len() implies (#[trigger] views[i]).consistent() by {
            assert(self.calendars@[i].well_formed());
            self.calendars@[i].lemma_layout_ok();
        }
    }

    /// Every line of a well-formed grid has the width of the grid, provided
    /// that every block is aligned, that the rows are all as wide as the
    /// widest of them, and that the title is not wider than the grid.
    pub proof fn lemma_aligned(&self)
        requires
            self.well_formed(),
            all_aligned(block_views(self.spec_blocks())),
            rows_as_wide(
                block_views(self.spec_blocks()),
                self.spec_cols(),
                self.spec_blocks().len() as int,
                widest_row(
                    block_views(self.spec_blocks()),
                    self.spec_cols(),
                    self.spec_blocks().len() as int,
                ),
            ),
            self.spec_title().len() <= self.layout().width,
        ensures
            self.layout().aligned(),
    {
        self.lemma_layout();
        lemma_grid_aligned(self.title@, self.views(), self.cols as nat);
    }

    /// The grid of `calendars` under `title`, `cols` blocks in a row. Where
    /// the last row is not full, blank blocks fill it.
    pub fn new(calendars: Vec<Block<M>>, title: String, cols: usize) -> (r: Self)
        requires
            cols >= 1,
            forall|i: int| 0 <= i < calendars@.len() ==> (#[trigger] calendars@[i]).well_formed(),
            grid_width(block_views(padded_blocks(calendars@, cols as nat)), cols as nat)
                <= usize::MAX,
            grid_height(block_views(padded_blocks(calendars@, cols as nat)), cols as nat)
                <= usize::MAX,
        ensures
            r.well_formed(),
            r.spec_title() == title@,
            r.spec_cols() == cols,
            r.spec_blocks() == padded_blocks(calendars@, cols as nat),
            r.layout() == grid_view(
                title@,
                block_views(padded_blocks(calendars@, cols as nat)),
                cols as nat,
            ),
    {
        match Self::try_new(calendars, title, cols) {
            Some(r) => r,
            None => vstd::pervasive::unreached(),
        }
    }

    /// The grid that `new` makes, or `None` where there would be no block in
    /// a row, or where the width or the height of the grid is no `usize`.
    pub fn try_new(calendars: Vec<Block<M>>, title: String, cols: usize) -> (r: Option<Self>)
        requires
            forall|i: int| 0 <= i < calendars@.len() ==> (#[trigger] calendars@[i]).well_formed(),
        ensures
            r is Some <==> cols >= 1 && grid_width(
                block_views(padded_blocks(calendars@, cols as nat)),
                cols as nat,
            ) <= usize::MAX && grid_height(
                block_views(padded_blocks(calendars@, cols as nat)),
                cols as nat,
            ) <= usize::MAX,
            r matches Some(grid) ==> grid.well_formed() && grid.spec_title() == title@
                && grid.spec_cols() == cols && grid.spec_blocks() == padded_blocks(
                calendars@,
                cols as nat,
            ) && grid.layout() == grid_view(
                title@,
                block_views(padded_blocks(calendars@, cols as nat)),
                cols as nat,
            ),
    {
        if cols == 0 {
            return None;
        }
        let ghost given = calendars@;
        let mut list = calendars;
        let ghost blank = Block::<M>::Empty(filler(given, cols as nat));
        let count = list.len();
        let rest = count % cols;
        proof {
            vstd::arithmetic::div_mod::lemma_mod_decreases(count as nat, cols as nat);
        }
        if rest != 0 {
            let mut last_height: usize = 0;
            let mut j: usize = 0;
            while j < rest
                invariant
                    j <= rest,
                    rest <= count,
                    count == list@.len(),
                    list@ == given,
                    forall|i: int| 0 <= i < given.len() ==> (#[trigger] given[i]).well_formed(),
                    last_height == tallest(block_views(given), count - rest, j as nat),
                decreases rest - j,
            {
                let height = list[count - rest + j].height();
                if height > last_height {
                    last_height = height;
                }
                j = j + 1;
            }
            let day_width = list[count - 1].day_width();
            proof {
                given[count - 1].lemma_layout_ok();
                EmptyCalendar::lemma_spec_new(last_height as nat, day_width as nat);
            }
            let mut k: usize = 0;
            while k < cols - rest
                invariant
                    k <= cols - rest,
                    0 < rest < cols,
                    day_width * 7 <= usize::MAX,
                    blank == Block::<M>::Empty(
                        EmptyCalendar::spec_new(last_height as nat, day_width as nat),
                    ),
                    list@ == given + Seq::new(k as nat, |i: int| blank),
                decreases cols - rest - k,
            {
                list.push(Block::Empty(EmptyCalendar::new(last_height, day_width)));
                proof {
                    assert(list@ =~= given + Seq::new((k + 1) as nat, |i: int| blank));
                }
                k = k + 1;
            }
        }
        let ghost blocks = padded_blocks(given, cols as nat);
        let ghost views = block_views(blocks);
        proof {
            assert(list@ =~= blocks);
            lemma_padded_len(given.len(), cols as nat);
            assert forall|i: int| 0 <= i < blocks.len() implies (#[trigger] blocks[i]).well_formed()
                && 7 * views[i].day_width <= usize::MAX by {
                if i < given.len() {
                    assert(blocks[i] == given[i]);
                } else {
                    assert(blocks[i] == blank);
                    given[count - 1].lemma_layout_ok();
                    EmptyCalendar::lemma_spec_new(
                        tallest(block_views(given), count - rest, rest as nat),
                        given.last().layout().day_width,
                    );
                }
                blocks[i].lemma_layout_ok();
            }
            lemma_widest_day_bound(views, 0, views.len(), (usize::MAX / 7) as nat);
        }
        let n = list.len();
        let ghost widest_of_all = widest_row(views, cols as nat, n as int);
        proof {
            assert(grid_padding(views, cols as nat) * (cols - 1) >= 0) by (nonlinear_arith)
                requires
                    grid_padding(views, cols as nat) >= 0,
                    cols >= 1,
            ;
            assert(grid_width(views, cols as nat) >= widest_of_all);
        }
        let mut widest: usize = 0;
        let mut body: usize = 0;
        let mut base: usize = 0;
        while base < n
            invariant
                cols >= 1,
                n == list@.len(),
                list@ == blocks,
                views == block_views(blocks),
                blocks == padded_blocks(calendars@, cols as nat),
                forall|i: int| 0 <= i < blocks.len() ==> (#[trigger] blocks[i]).well_formed(),
                base <= n,
                fills_rows(n - base, cols as int),
                base == 0 || base >= cols,
                widest == widest_row(views, cols as nat, base as int),
                body == body_height(views, cols as nat, base as int),
                widest_of_all == widest_row(views, cols as nat, n as int),
                grid_width(views, cols as nat) >= widest_of_all,
            decreases n - base,
        {
            proof {
                lemma_fills_rows_step(n - base, cols as int);
                lemma_rows_grow(views, cols as nat, base + cols, n as int);
            }
            let mut sum: usize = 0;
            let mut height: usize = 0;
            let mut j: usize = 0;
            while j < cols
                invariant
                    j <= cols,
                    base + cols <= n,
                    n == list@.len(),
                    list@ == blocks,
                    views == block_views(blocks),
                    blocks == padded_blocks(calendars@, cols as nat),
                    forall|i: int| 0 <= i < blocks.len() ==> (#[trigger] blocks[i]).well_formed(),
                    sum == widths_sum(views, base as int, j as nat),
                    height == tallest(views, base as int, j as nat),
                    widths_sum(views, base as int, cols as nat) <= widest_of_all,
                    grid_width(views, cols as nat) >= widest_of_all,
                decreases cols - j,
            {
                proof {
                    lemma_run_grows(views, base as int, (j + 1) as nat, cols as nat);
                }
                let block = &list[base + j];
                match sum.checked_add(block.width()) {
                    Some(more) => {
                        sum = more;
                    },
                    None => {
                        return None;
                    },
                }
                let block_height = block.height();
                if block_height > height {
                    height = block_height;
                }
                j = j + 1;
            }
            if sum > widest {
                widest = sum;
            }
            let ghost taller = body_height(views, cols as nat, base + cols);
            proof {
                assert(taller <= body_height(views, cols as nat, n as int));
                assert(grid_height(views, cols as nat) == 1 + body_height(
                    views,
                    cols as nat,
                    n as int,
                ));
                if base > 0 {
                    assert(taller == body + 1 + height);
                }
            }
            if base == 0 {
                body = height;
            } else {
                match body.checked_add(1) {
                    Some(separated) => match separated.checked_add(height) {
                        Some(more) => {
                            body = more;
                        },
                        None => {
                            return None;
                        },
                    },
                    None => {
                        return None;
                    },
                }
            }
            base = base + cols;
        }
        if n > 0 && body == usize::MAX {
            return None;
        }
        let padding = widest / cols / 7;
        let gaps = match padding.checked_mul(cols - 1) {
            Some(gaps) => gaps,
            None => {
                return None;
            },
        };
        let width = match widest.checked_add(gaps) {
            Some(width) => width,
            None => {
                return None;
            },
        };
        let r = Calendars { calendars: list, title, cols, width, padding };
        proof {
            assert(r.views() =~= views);
        }
        Some(r)
    }

    /// Marks `date` in every block that owns it.
    pub fn mark(&mut self, date: Date)
        requires
            old(self).well_formed(),
        ensures
            final(self).well_formed(),
            final(self).layout() == old(self).layout_after(Change::Mark(date@)),
            marked_from(old(self).layout(), date@, final(self).layout()),
            final(self).layout().marked.contains(date@) == old(self).layout().owned.contains(date@),
            final(self).spec_title() == old(self).spec_title(),
            final(self).spec_cols() == old(self).spec_cols(),
            final(self).spec_blocks().len() == old(self).spec_blocks().len(),
            forall|i: int|
                0 <= i < old(self).spec_blocks().len() ==> marked_from(
                    (#[trigger] old(self).spec_blocks()[i]).layout(),
                    date@,
                    final(self).spec_blocks()[i].layout(),
                ),
        decreases *old(self), 1nat,
    {
        let n = self.calendars.len();
        let ghost before = self.views();
        proof {
            self.lemma_views_consistent();
        }
        let mut i: usize = 0;
        while i < n
            invariant
                i <= n,
                n == self.calendars@.len(),
                n == old(self).calendars@.len(),
                self.title == old(self).title,
                self.cols == old(self).cols,
                self.width == old(self).width,
                self.padding == old(self).padding,
                old(self).well_formed(),
                forall|j: int|
                    0 <= j < i ==> (#[trigger] self.calendars@[j]).well_formed() && marked_from(
                        old(self).calendars@[j].layout(),
                        date@,
                        self.calendars@[j].layout(),
                    ) && self.calendars@[j].layout() == old(self).calendars@[j].layout_after(
                        Change::Mark(date@),
                    ),
                forall|j: int|
                    i <= j < n ==> (#[trigger] self.calendars@[j]) == old(self).calendars@[j],
            decreases n - i,
        {
            assert(old(self).calendars@[i as int].well_formed());
            self.calendars[i].mark(date);
            i = i + 1;
        }
        proof {
            let after = self.views();
            assert forall|j: int| 0 <= j < before.len() implies marked_from(
                #[trigger] before[j],
                date@,
                after[j],
            ) by {
                assert(self.calendars@[j].well_formed());
            }
            lemma_grid_marked(self.title@, before, after, self.cols as nat, date@);
            lemma_same_grid(before, after, self.cols as nat);
            assert(after =~= old(self).views_after(Change::Mark(date@))) by {
                assert forall|j: int| 0 <= j < after.len() implies after[j] == old(
                    self,
                ).calendars@[j].layout_after(Change::Mark(date@)) by {
                    assert(self.calendars@[j].well_formed());
                }
            }
        }
    }

    /// Removes the mark from the day-of-month number of `date` in every
    /// block.
    pub fn unmark(&mut self, date: Date)
        requires
            old(self).well_formed(),
        ensures
            final(self).well_formed(),
            final(self).layout() == old(self).layout_after(Change::Unmark(date@)),
            unmarked_from(old(self).layout(), date@, final(self).layout()),
            !final(self).layout().marked.contains(date@),
            final(self).spec_title() == old(self).spec_title(),
            final(self).spec_cols() == old(self).spec_cols(),
            final(self).spec_blocks().len() == old(self).spec_blocks().len(),
            forall|i: int|
                0 <= i < old(self).spec_blocks().len() ==> unmarked_from(
                    (#[trigger] old(self).spec_blocks()[i]).layout(),
                    date@,
                    final(self).spec_blocks()[i].layout(),
                ),
        decreases *old(self), 1nat,
    {
        let n = self.calendars.len();
        let ghost before = self.views();
        let mut i: usize = 0;
        while i < n
            invariant
                i <= n,
                n == self.calendars@.len(),
                n == old(self).calendars@.len(),
                self.title == old(self).title,
                self.cols == old(self).cols,
                self.width == old(self).width,
                self.padding == old(self).padding,
                old(self).well_formed(),
                forall|j: int|
                    0 <= j < i ==> (#[trigger] self.calendars@[j]).well_formed() && unmarked_from(
                        old(self).calendars@[j].layout(),
                        date@,
                        self.calendars@[j].layout(),
                    ) && self.calendars@[j].layout() == old(self).calendars@[j].layout_after(
                        Change::Unmark(date@),
                    ),
                forall|j: int|
                    i <= j < n ==> (#[trigger] self.calendars@[j]) == old(self).calendars@[j],
            decreases n - i,
        {
            assert(old(self).calendars@[i as int].well_formed());
            self.calendars[i].unmark(date);
            i = i + 1;
        }
        proof {
            let after = self.views();
            assert forall|j: int| 0 <= j < before.len() implies unmarked_from(
                #[trigger] before[j],
                date@,
                after[j],
            ) by {
                assert(self.calendars@[j].well_formed());
            }
            lemma_grid_unmarked(self.title@, before, after, self.cols as nat, date@);
            lemma_same_grid(before, after, self.cols as nat);
            assert(after =~= old(self).views_after(Change::Unmark(date@))) by {
                assert forall|j: int| 0 <= j < after.len() implies after[j] == old(
                    self,
                ).calendars@[j].layout_after(Change::Unmark(date@)) by {
                    assert(self.calendars@[j].well_formed());
                }
            }
        }
    }

    /// Whether some block has `date` marked.
    pub fn is_marked(&self, date: Date) -> (r: bool)
        requires
            self.well_formed(),
        ensures
            r == self.layout().marked.contains(date@),
        decreases self, 1nat,
    {
        let n = self.calendars.len();
        let ghost views = self.views();
        let mut i: usize = 0;
        while i < n
            invariant
                self.well_formed(),
                n == self.calendars@.len(),
                views == self.views(),
                i <= n,
                forall|j: int| 0 <= j < i ==> !(#[trigger] views[j]).marked.contains(date@),
            decreases n - i,
        {
            if self.calendars[i].is_marked(date) {
                proof {
                    assert(views[i as int].marked.contains(date@));
                }
                return true;
            }
            i = i + 1;
        }
        false
    }

    /// The width of the grid: that of its widest row and of the spaces
    /// between the blocks of a row.
    pub fn width(&self) -> (r: usize)
        requires
            self.well_formed(),
        ensures
            r == self.layout().width,
    {
        self.width
    }

    /// The height of each row, from the top row down: that of its tallest
    /// block.
    pub fn height_list(&self) -> (r: Vec<usize>)
        requires
            self.well_formed(),
        ensures
            r@.len() == row_heights(
                self.views(),
                self.spec_cols(),
                self.spec_blocks().len() as int,
            ).len(),
            forall|g: int|
                0 <= g < r@.len() ==> (#[trigger] r@[g]) == row_heights(
                    self.views(),
                    self.spec_cols(),
                    self.spec_blocks().len() as int,
                )[g],
        decreases self, 1nat,
    {
        let n = self.calendars.len();
        let ghost views = self.views();
        let mut list: Vec<usize> = Vec::new();
        let mut base: usize = 0;
        while base < n
            invariant
                self.well_formed(),
                n == self.calendars@.len(),
                views == self.views(),
                views.len() == n,
                base <= n,
                fills_rows(n - base, self.cols as int),
                list@.len() == row_heights(views, self.cols as nat, base as int).len(),
                forall|g: int|
                    0 <= g < list@.len() ==> (#[trigger] list@[g]) == row_heights(
                        views,
                        self.cols as nat,
                        base as int,
                    )[g],
            decreases n - base,
        {
            let mut height: usize = 0;
            let mut j: usize = 0;
            while j < self.cols
                invariant
                    self.well_formed(),
                    n == self.calendars@.len(),
                    views == self.views(),
                    views.len() == n,
                    j <= self.cols,
                    base + self.cols <= n,
                    height == tallest(views, base as int, j as nat),
                decreases self.cols - j,
            {
                let block_height = self.calendars[base + j].height();
                if block_height > height {
                    height = block_height;
                }
                j = j + 1;
            }
            list.push(height);
            base = base + self.cols;
        }
        list
    }

    /// The number of lines of the grid: the title, the rows, and one line
    /// between each two rows; none for a grid without blocks.
    pub fn height(&self) -> (r: usize)
        requires
            self.well_formed(),
        ensures
            r == self.layout().height,
        decreases self, 2nat,
    {
        let list = self.height_list();
        let ghost views = self.views();
        let ghost heights = row_heights(views, self.cols as nat, self.calendars@.len() as int);
        if list.len() == 0 {
            return 0;
        }
        proof {
            lemma_body_height_total(views, self.cols as nat, self.calendars@.len() as int);
        }
        let mut total: usize = list.len();
        let mut i: usize = 0;
        while i < list.len()
            invariant
                i <= list@.len(),
                list@.len() == heights.len(),
                forall|g: int| 0 <= g < list@.len() ==> (#[trigger] list@[g]) == heights[g],
                heights_total(heights) + heights.len() <= usize::MAX,
                total == heights.len() + heights_total(heights.take(i as int)),
            decreases list@.len() - i,
        {
            proof {
                lemma_heights_total_take(heights, i as int);
                lemma_heights_total_take(heights, i as int + 1);
            }
            total = total + list[i];
            i = i + 1;
        }
        proof {
            assert(heights.take(list@.len() as int) =~= heights);
        }
        total
    }

    /// The number of characters of one day: that of the block with the
    /// widest days.
    pub fn day_width(&self) -> (r: usize)
        requires
            self.well_formed(),
        ensures
            r == self.layout().day_width,
        decreases self, 1nat,
    {
        let n = self.calendars.len();
        let ghost views = self.views();
        let mut widest: usize = 0;
        let mut i: usize = 0;
        while i < n
            invariant
                self.well_formed(),
                n == self.calendars@.len(),
                views == self.views(),
                i <= n,
                widest == widest_day(views, 0, i as nat),
            decreases n - i,
        {
            let day_width = self.calendars[i].day_width();
            if day_width > widest {
                widest = day_width;
            }
            i = i + 1;
        }
        widest
    }

    /// The rendered lines: the title, centred, then row by row the lines of
    /// the blocks side by side, with a blank line between two rows.
    pub fn lines(&self) -> (r: Vec<String>)
        requires
            self.well_formed(),
        ensures
            line_views(r@) == self.layout().lines,
            r@.len() == self.layout().height,
        decreases self, 1nat,
    {
        let n = self.calendars.len();
        let mut out: Vec<String> = Vec::new();
        let ghost views = self.views();
        let ghost cols = self.cols as nat;
        let ghost top = seq![centered(self.title@, self.width as nat)];
        proof {
            lemma_grid_lines_len(self.title@, views, cols);
        }
        if n == 0 {
            proof {
                assert(line_views(out@) =~= grid_lines(self.title@, views, cols));
            }
            return out;
        }
        out.push(center(self.title.as_str(), self.width));
        proof {
            assert(line_views(out@) =~= top + body_lines(
                views,
                cols,
                self.padding as nat,
                self.width as nat,
                0,
            ));
        }
        let mut base: usize = 0;
        while base < n
            invariant
                self.well_formed(),
                n == self.calendars@.len(),
                views == self.views(),
                views.len() == n,
                cols == self.cols,
                top == seq![centered(self.title@, self.width as nat)],
                base <= n,
                fills_rows(n - base, self.cols as int),
                base == 0 || base >= self.cols,
                line_views(out@) == top + body_lines(
                    views,
                    cols,
                    self.padding as nat,
                    self.width as nat,
                    base as int,
                ),
            decreases n - base,
        {
            let ghost before = line_views(out@);
            if base > 0 {
                let separator = blank(self.width);
                proof {
                    lemma_line_views_push(out@, separator);
                }
                out.push(separator);
            }
            let ghost separated = line_views(out@);
            let mut lines_list: Vec<Vec<String>> = Vec::new();
            let mut widths: Vec<usize> = Vec::new();
            let mut height: usize = 0;
            let mut j: usize = 0;
            while j < self.cols
                invariant
                    self.well_formed(),
                    n == self.calendars@.len(),
                    views == self.views(),
                    views.len() == n,
                    j <= self.cols,
                    base + self.cols <= n,
                    lines_list@.len() == j,
                    widths@.len() == j,
                    height == tallest(views, base as int, j as nat),
                    forall|t: int|
                        0 <= t < j ==> line_views((#[trigger] lines_list@[t])@) == views[base
                            + t].lines && widths@[t] == views[base + t].width,
                decreases self.cols - j,
            {
                let block = &self.calendars[base + j];
                let block_lines = block.lines();
                let block_width = block.width();
                if block_lines.len() > height {
                    height = block_lines.len();
                }
                widths.push(block_width);
                lines_list.push(block_lines);
                j = j + 1;
            }
            assert(holds_row(lines_list@, widths@, views, base as int));
            push_row(
                &mut out,
                &lines_list,
                &widths,
                self.padding,
                height,
                Ghost(views),
                Ghost(base as int),
            );
            proof {
                let next = base + self.cols;
                let rows = row_lines(views, base as int, cols, self.padding as nat);
                let body = body_lines(
                    views,
                    cols,
                    self.padding as nat,
                    self.width as nat,
                    base as int,
                );
                if base == 0 {
                    assert(body =~= Seq::<Seq<char>>::empty());
                    assert(line_views(out@) =~= top + rows);
                } else {
                    assert(separated == before.push(spaces(self.width as nat)));
                    assert(line_views(out@) =~= top + (body + seq![spaces(self.width as nat)]
                        + rows));
                }
            }
            base = base + self.cols;
        }
        out
    }

    /// The rendered text: the lines joined by line feeds, with none after the
    /// last line.
    pub fn to_string(&self) -> (r: String)
        requires
            self.well_formed(),
        ensures
            r@ == join_lines(self.layout().lines),
    {
        let lines = self.lines();
        joined(&lines)
    }
}

/// `lines_list` holds the lines and `widths` the widths of the blocks that
/// `views` has from block `from` on.
spec fn holds_row(
    lines_list: Seq<Vec<String>>,
    widths: Seq<usize>,
    views: Seq<BlockView>,
    from: int,
) -> bool {
    &&& lines_list.len() == widths.len()
    &&& 0 <= from
    &&& from + lines_list.len() <= views.len()
    &&& forall|t: int|
        0 <= t < lines_list.len() ==> line_views((#[trigger] lines_list[t])@) == views[from
            + t].lines && widths[t] == views[from + t].width
}

/// Line `i` of one row of blocks: the blocks side by side with `padding`
/// spaces between them, and a blank run of its width for a block whose lines
/// have ended.
fn row_text(
    lines_list: &Vec<Vec<String>>,
    widths: &Vec<usize>,
    padding: usize,
    i: usize,
    Ghost(views): Ghost<Seq<BlockView>>,
    Ghost(from): Ghost<int>,
) -> (line: String)
    requires
        holds_row(lines_list@, widths@, views, from),
    ensures
        line@ == row_line(views, from, lines_list@.len(), padding as nat, i as int),
{
    let cols = lines_list.len();
    let mut line = String::new();
    let mut t: usize = 0;
    while t < cols
        invariant
            t <= cols,
            cols == lines_list@.len(),
            holds_row(lines_list@, widths@, views, from),
            line@ == row_line(views, from, t as nat, padding as nat, i as int),
        decreases cols - t,
    {
        if t > 0 {
            let gap = blank(padding);
            line.append(gap.as_str());
        }
        let block_lines = &lines_list[t];
        proof {
            assert(line_views(lines_list@[t as int]@) == views[from + t].lines);
            assert(line_views(block_lines@).len() == block_lines@.len());
            if i < block_lines@.len() {
                assert(line_views(block_lines@)[i as int] == block_lines@[i as int]@);
            }
        }
        if i < block_lines.len() {
            line.append(block_lines[i].as_str());
        } else {
            let run = blank(widths[t]);
            line.append(run.as_str());
        }
        proof {
            if t == 0 {
                assert(line@ =~= views[from].line_or_blank(i as int));
            }
        }
        t = t + 1;
    }
    line
}

/// Adds to `out` the lines of one row of blocks, which is as high as
/// `height`.
fn push_row(
    out: &mut Vec<String>,
    lines_list: &Vec<Vec<String>>,
    widths: &Vec<usize>,
    padding: usize,
    height: usize,
    Ghost(views): Ghost<Seq<BlockView>>,
    Ghost(from): Ghost<int>,
)
    requires
        holds_row(lines_list@, widths@, views, from),
        height == tallest(views, from, lines_list@.len()),
    ensures
        line_views(final(out)@) == line_views(old(out)@) + row_lines(
            views,
            from,
            lines_list@.len(),
            padding as nat,
        ),
{
    let ghost rows = row_lines(views, from, lines_list@.len(), padding as nat);
    let mut i: usize = 0;
    while i < height
        invariant
            i <= height,
            holds_row(lines_list@, widths@, views, from),
            height == rows.len(),
            rows == row_lines(views, from, lines_list@.len(), padding as nat),
            line_views(out@) == line_views(old(out)@) + rows.take(i as int),
        decreases height - i,
    {
        let line = row_text(lines_list, widths, padding, i, Ghost(views), Ghost(from));
        proof {
            lemma_line_views_push(out@, line);
            assert(rows.take(i as int + 1) =~= rows.take(i as int).push(rows[i as int]));
            assert(line_views(old(out)@) + rows.take(i as int + 1) =~= (line_views(old(out)@)
                + rows.take(i as int)).push(rows[i as int]));
        }
        out.push(line);
        i = i + 1;
    }
    proof {
        assert(rows.take(height as int) =~= rows);
    }
}

/// The blocks that fill the last row are blank: each is a blank block as
/// high as the tallest block of the row it fills, with days as wide as those
/// of the last block, and every one of its lines is a run of spaces.
pub proof fn lemma_padding_is_blank<M: Marker>(blocks: Seq<Block<M>>, cols: nat, i: int)
    requires
        cols >= 1,
        forall|j: int| 0 <= j < blocks.len() ==> (#[trigger] blocks[j]).well_formed(),
        blocks.len() <= i < padded_blocks(blocks, cols).len(),
    ensures
        padded_blocks(blocks, cols).len() == blocks.len() + padding_count(blocks.len(), cols),
        blocks.len() >= 1,
        padded_blocks(blocks, cols)[i] is Empty,
        padded_blocks(blocks, cols)[i].well_formed(),
        padded_blocks(blocks, cols)[i].layout() == blank_block(
            tallest(
                block_views(blocks),
                blocks.len() - blocks.len() % cols,
                (blocks.len() % cols) as nat,
            ),
            blocks.last().layout().day_width,
        ),
        forall|k: int|
            0 <= k < padded_blocks(blocks, cols)[i].layout().lines.len() ==> (
            #[trigger] padded_blocks(blocks, cols)[i].layout().lines[k]) == spaces(
                7 * blocks.last().layout().day_width,
            ),
{
    let rest = (blocks.len() % cols) as nat;
    let views = block_views(blocks);
    vstd::arithmetic::div_mod::lemma_mod_decreases(blocks.len(), cols);
    assert(blocks.len() >= 1) by {
        if blocks.len() == 0 {
            vstd::arithmetic::div_mod::lemma_small_mod(0, cols);
        }
    }
    assert forall|j: int| 0 <= j < views.len() implies (#[trigger] views[j]).height
        <= usize::MAX by {
        assert(blocks[j].well_formed());
        blocks[j].lemma_layout_ok();
    }
    lemma_tallest_bound(views, blocks.len() - rest, rest, usize::MAX as nat);
    assert(blocks[blocks.len() - 1].well_formed());
    blocks.last().lemma_layout_ok();
    EmptyCalendar::lemma_spec_new(
        tallest(views, blocks.len() - rest, rest),
        blocks.last().layout().day_width,
    );
}

impl<M: Marker> Calendar for Block<M> {
    open spec fn wf(&self) -> bool {
        self.well_formed()
    }

    open spec fn block_view(&self) -> BlockView {
        self.layout()
    }

    open spec fn view_after(&self, change: Change) -> BlockView {
        self.layout_after(change)
    }

    proof fn lemma_consistent(&self) {
        self.lemma_layout_ok();
    }

    fn mark(&mut self, date: Date) {
        self.mark(date)
    }

    fn unmark(&mut self, date: Date) {
        self.unmark(date)
    }

    fn is_marked(&self, date: Date) -> (r: bool) {
        self.is_marked(date)
    }

    fn width(&self) -> (r: usize) {
        self.width()
    }

    fn height(&self) -> (r: usize) {
        self.height()
    }

    fn day_width(&self) -> (r: usize) {
        self.day_width()
    }

    fn lines(&self) -> (r: Vec<String>) {
        self.lines()
    }

    fn render(&self) -> (r: String) {
        self.to_string()
    }
}

impl<M: Marker> Calendar for Calendars<M> {
    open spec fn wf(&self) -> bool {
        self.well_formed()
    }

    open spec fn block_view(&self) -> BlockView {
        self.layout()
    }

    open spec fn view_after(&self, change: Change) -> BlockView {
        self.layout_after(change)
    }

    proof fn lemma_consistent(&self) {
        self.lemma_layout_ok();
    }

    fn mark(&mut self, date: Date) {
        self.mark(date)
    }

    fn unmark(&mut self, date: Date) {
        self.unmark(date)
    }

    fn is_marked(&self, date: Date) -> (r: bool) {
        self.is_marked(date)
    }

    fn width(&self) -> (r: usize) {
        self.width()
    }

    fn height(&self) -> (r: usize) {
        self.height()
    }

    fn day_width(&self) -> (r: usize) {
        self.day_width()
    }

    fn lines(&self) -> (r: Vec<String>) {
        self.lines()
    }

    fn render(&self) -> (r: String) {
        self.to_string()
    }
}

} // verus!
