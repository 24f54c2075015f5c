//! The twelve months of a year, three in a row, under the number of the year.

use crate::calendar::BlockView;
use crate::calendar::Calendar;
use crate::calendar::Change;
use crate::calendar::marked_from;
use crate::calendar::unmarked_from;
use crate::calendars::Block;
use crate::calendars::Calendars;
use crate::calendars::block_views;
use crate::calendars::padded_blocks;
use crate::date::Weekday;
use crate::date::days_in_month;
use crate::date::month_length;
use crate::date::month_start;
use crate::layout::body_height;
use crate::layout::fills_rows;
use crate::layout::grid_height;
use crate::layout::lemma_equal_grid_aligned;
use crate::layout::grid_view;
use crate::layout::grid_padding;
use crate::layout::grid_width;
use crate::layout::tallest;
use crate::layout::widest_row;
use crate::layout::widths_sum;
use crate::month_calendar::MonthCalendar;
use crate::month_calendar::MonthView;
use crate::text::centered;
use crate::text::lemma_signed_decimal_len;
use crate::text::signed_decimal;
use crate::text::signed_decimal_string;
use crate::date::Date;
use crate::marker::Marker;
use crate::text::join_lines;
use crate::text::line_views;
use vstd::prelude::*;

verus! {

/// The calendar of a year.
pub struct YearCalendar<M: Marker> {
    year: i32,
    calendars: Calendars<M>,
}

impl<M: Marker> YearCalendar<M> {
    /// The grid of the twelve months.
    pub closed spec fn spec_calendars(&self) -> Calendars<M> {
        self.calendars
    }

    /// The year.
    pub closed spec fn spec_year(&self) -> int {
        self.year as int
    }

    /// The invariant of the calendar: that of its grid.
    pub closed spec fn well_formed(&self) -> bool
        decreases self,
    {
        self.calendars.well_formed()
    }

    /// The year as the layout sees it: the grid of its months.
    pub closed spec fn layout(&self) -> BlockView
        decreases self,
    {
        self.calendars.layout()
    }

    /// The year as the layout sees it once `change` is made in its months.
    pub closed spec fn layout_after(&self, change: Change) -> BlockView
        decreases self,
    {
        self.calendars.layout_after(change)
    }

    /// A year is laid out as the grid of its months, before and after a
    /// change, and is well-formed exactly if that grid is.
    pub proof fn lemma_layout(&self)
        ensures
            self.layout() == self.spec_calendars().layout(),
            self.well_formed() == self.spec_calendars().well_formed(),
            forall|change: Change| #[trigger]
                self.layout_after(change) == self.spec_calendars().layout_after(change),
    {
    }

    /// A well-formed year has as many lines as its height, marks only days of
    /// its own, and the width of seven days is a `usize`.
    pub proof fn lemma_layout_ok(&self)
        requires
            self.well_formed(),
        ensures
            self.layout().consistent(),
            7 * self.layout().day_width <= usize::MAX,
            self.layout().height <= usize::MAX,
            self.layout().width <= usize::MAX,
        decreases self,
    {
        self.calendars.lemma_layout_ok();
    }

    /// Marks `date` in the months that own it.
    pub fn mark(&mut self, date: Date)
        requires
            old(self).well_formed(),
        ensures
            final(self).well_formed(),
            final(self).layout() == old(self).layout_after(Change::Mark(date@)),
            marked_from(old(self).layout(), date@, final(self).layout()),
            final(self).layout().marked.contains(date@) == old(self).layout().owned.contains(date@),
            final(self).spec_year() == old(self).spec_year(),
        decreases *old(self),
    {
        self.calendars.mark(date)
    }

    /// Removes the mark from the day-of-month number of `date` in every
    /// month.
    pub fn unmark(&mut self, date: Date)
        requires
            old(self).well_formed(),
        ensures
            final(self).well_formed(),
            final(self).layout() == old(self).layout_after(Change::Unmark(date@)),
            unmarked_from(old(self).layout(), date@, final(self).layout()),
            !final(self).layout().marked.contains(date@),
            final(self).spec_year() == old(self).spec_year(),
        decreases *old(self),
    {
        self.calendars.unmark(date)
    }

    /// The rendered lines: those of the grid of the months.
    pub fn lines(&self) -> (r: Vec<String>)
        requires
            self.well_formed(),
        ensures
            line_views(r@) == self.layout().lines,
            r@.len() == self.layout().height,
        decreases self,
    {
        self.calendars.lines()
    }

    /// The number of lines of the grid of the months.
    pub fn height(&self) -> (r: usize)
        requires
            self.well_formed(),
        ensures
            r == self.layout().height,
        decreases self,
    {
        self.calendars.height()
    }

    /// The number of characters of one day.
    pub fn day_width(&self) -> (r: usize)
        requires
            self.well_formed(),
        ensures
            r == self.layout().day_width,
        decreases self,
    {
        self.calendars.day_width()
    }

    /// Whether `date` is marked in one of the months.
    pub fn is_marked(&self, date: Date) -> (r: bool)
        requires
            self.well_formed(),
        ensures
            r == self.layout().marked.contains(date@),
        decreases self,
    {
        self.calendars.is_marked(date)
    }

    /// The rendered text: the lines joined by line feeds.
    pub fn to_string(&self) -> (r: String)
        requires
            self.well_formed(),
        ensures
            r@ == join_lines(self.layout().lines),
    {
        self.calendars.to_string()
    }

    /// The year.
    pub fn year(&self) -> (r: i32)
        ensures
            r == self.spec_year(),
    {
        self.year
    }

    /// The width of the grid of the months.
    pub fn width(&self) -> (r: usize)
        requires
            self.well_formed(),
        ensures
            r == self.layout().width,
    {
        self.calendars.width()
    }
}

/// `block` is the calendar of month `month` of year `year` as
/// `YearCalendar::new` makes it: nothing is marked, and its marker is a clone
/// of `marker`.
pub open spec fn is_month_of<M: Marker + Clone>(
    block: Block<M>,
    year: int,
    month: int,
    begin: Weekday,
    day_width: nat,
    marker: M,
) -> bool {
    &&& month_length(year, month) is Some
    &&& month_start(year, month) is Some
    &&& block matches Block::Month(c)
    &&& c.wf()
    &&& cloned(marker, c@.marker)
    &&& c@ == (MonthView {
        year,
        month,
        days: month_length(year, month).unwrap(),
        first: month_start(year, month).unwrap(),
        begin,
        day_width,
        marked: Set::empty(),
        marker: c@.marker,
    })
}

/// Whether the calendar has all twelve months of year `year`.
pub open spec fn year_exists(year: int) -> bool {
    forall|month: int| 1 <= month <= 12 ==> (#[trigger] month_length(year, month)) is Some
}

/// The width of three months side by side and of the spaces between them is
/// 23 times the width of a day, and four rows of months are a `usize` high.
proof fn lemma_year_grid<M: Marker>(blocks: Seq<Block<M>>, day_width: nat)
    requires
        blocks.len() == 12,
        forall|i: int|
            0 <= i < 12 ==> (#[trigger] blocks[i]).layout().width == 7 * day_width
                && blocks[i].layout().height <= 8,
    ensures
        padded_blocks(blocks, 3) == blocks,
        grid_width(block_views(blocks), 3) == 23 * day_width,
        grid_padding(block_views(blocks), 3) == day_width,
        grid_height(block_views(blocks), 3) <= 36,
{
    let views = block_views(blocks);
    assert(padded_blocks(blocks, 3) =~= blocks);
    assert forall|i: int| 0 <= i < 12 implies (#[trigger] views[i]).width == 7 * day_width
        && views[i].height <= 8 by {
        assert(views[i] == blocks[i].layout());
    }
    reveal_with_fuel(widths_sum, 4);
    reveal_with_fuel(tallest, 4);
    assert(widths_sum(views, 0, 3) == 21 * day_width);
    assert(widths_sum(views, 3, 3) == 21 * day_width);
    assert(widths_sum(views, 6, 3) == 21 * day_width);
    assert(widths_sum(views, 9, 3) == 21 * day_width);
    assert(tallest(views, 0, 3) <= 8);
    assert(tallest(views, 3, 3) <= 8);
    assert(tallest(views, 6, 3) <= 8);
    assert(tallest(views, 9, 3) <= 8);
    assert(widest_row(views, 3, 0) == 0);
    assert(widest_row(views, 3, 3) == 21 * day_width);
    assert(widest_row(views, 3, 6) == 21 * day_width);
    assert(widest_row(views, 3, 9) == 21 * day_width);
    assert(widest_row(views, 3, 12) == 21 * day_width);
    assert(body_height(views, 3, 3) <= 8);
    assert(body_height(views, 3, 6) <= 17);
    assert(body_height(views, 3, 9) <= 26);
    assert(body_height(views, 3, 12) <= 35);
    assert((21 * day_width) / 3 / 7 == day_width);
}

impl<M: Marker + Clone> YearCalendar<M> {
    /// The calendar of year `year`: the twelve months, each with rows that
    /// start on `begin_weekday`, days of `day_width` characters and a clone
    /// of `marker`, three months in a row under the number of the year.
    pub fn new(year: i32, begin_weekday: Weekday, day_width: usize, marker: M) -> (r: Self)
        requires
            year_exists(year as int),
            day_width * 23 <= usize::MAX,
        ensures
            r.well_formed(),
            r.spec_year() == year,
            r.spec_calendars().spec_title() == signed_decimal(year as int),
            r.spec_calendars().spec_cols() == 3,
            r.spec_calendars().spec_blocks().len() == 12,
            forall|i: int|
                0 <= i < 12 ==> is_month_of(
                    #[trigger] r.spec_calendars().spec_blocks()[i],
                    year as int,
                    i + 1,
                    begin_weekday,
                    day_width as nat,
                    marker,
                ),
            r.layout() == grid_view(
                signed_decimal(year as int),
                block_views(r.spec_calendars().spec_blocks()),
                3,
            ),
            r.layout().width == 23 * day_width,
            r.layout().lines.len() >= 1,
            r.layout().lines[0] == centered(signed_decimal(year as int), (23 * day_width) as nat),
            day_width >= 2 ==> r.layout().aligned(),
    {
        let mut calendar_list: Vec<Block<M>> = Vec::new();
        let mut month: u32 = 1;
        while month < 13
            invariant
                1 <= month <= 13,
                year_exists(year as int),
                day_width * 23 <= usize::MAX,
                calendar_list@.len() == month - 1,
                forall|i: int|
                    0 <= i < month - 1 ==> is_month_of(
                        #[trigger] calendar_list@[i],
                        year as int,
                        i + 1,
                        begin_weekday,
                        day_width as nat,
                        marker,
                    ),
            decreases 13 - month,
        {
            assert(month_length(year as int, month as int) is Some);
            match MonthCalendar::new(year, month, begin_weekday, day_width, marker.clone()) {
                Some(calendar) => {
                    calendar_list.push(Block::Month(calendar));
                },
                None => {},
            }
            month = month + 1;
        }
        let title = signed_decimal_string(year);
        proof {
            assert forall|i: int| 0 <= i < 12 implies (#[trigger] calendar_list@[i]).well_formed()
                && calendar_list@[i].layout().width == 7 * day_width
                && calendar_list@[i].layout().height <= 8 by {
                assert(is_month_of(
                    calendar_list@[i],
                    year as int,
                    i + 1,
                    begin_weekday,
                    day_width as nat,
                    marker,
                ));
                let c = calendar_list@[i]->Month_0;
                c.lemma_wf();
                assert(c@.weeks() <= 6);
            }
            lemma_year_grid(calendar_list@, day_width as nat);
            if day_width >= 2 {
                let views = block_views(calendar_list@);
                assert forall|i: int| 0 <= i < views.len() implies (#[trigger] views[i]).aligned()
                    && views[i].width == 7 * day_width by {
                    assert(is_month_of(
                        calendar_list@[i],
                        year as int,
                        i + 1,
                        begin_weekday,
                        day_width as nat,
                        marker,
                    ));
                    let c = calendar_list@[i]->Month_0;
                    c.lemma_aligned();
                }
                lemma_signed_decimal_len(year as int);
                assert(fills_rows(12, 3)) by {
                    reveal_with_fuel(fills_rows, 5);
                }
                lemma_equal_grid_aligned(
                    signed_decimal(year as int),
                    views,
                    3,
                    (7 * day_width) as nat,
                );
            }
        }
        let calendars = Calendars::new(calendar_list, title, 3);
        Self { year, calendars }
    }

    /// The calendar of year `year` as `new` makes it, or `None` where the
    /// calendar does not have all twelve months of that year.
    pub fn try_new(year: i32, begin_weekday: Weekday, day_width: usize, marker: M) -> (r: Option<
        Self,
    >)
        requires
            day_width * 23 <= usize::MAX,
        ensures
            r is Some <==> year_exists(year as int),
            r matches Some(y) ==> y.well_formed() && y.spec_year() == year
                && y.spec_calendars().spec_title() == signed_decimal(year as int)
                && y.spec_calendars().spec_cols() == 3 && y.spec_calendars().spec_blocks().len()
                == 12 && y.layout() == grid_view(
                signed_decimal(year as int),
                block_views(y.spec_calendars().spec_blocks()),
                3,
            ) && y.layout().width == 23 * day_width && y.layout().lines.len() >= 1
                && y.layout().lines[0] == centered(
                signed_decimal(year as int),
                (23 * day_width) as nat,
            ) && (day_width >= 2 ==> y.layout().aligned()) && forall|i: int|
                0 <= i < 12 ==> is_month_of(
                    #[trigger] y.spec_calendars().spec_blocks()[i],
                    year as int,
                    i + 1,
                    begin_weekday,
                    day_width as nat,
                    marker,
                ),
    {
        let mut month: u32 = 1;
        while month < 13
            invariant
                1 <= month <= 13,
                forall|m: int| 1 <= m < month ==> (#[trigger] month_length(year as int, m)) is Some,
            decreases 13 - month,
        {
            if days_in_month(year, month).is_none() {
                return None;
            }
            month = month + 1;
        }
        Some(Self::new(year, begin_weekday, day_width, marker))
    }
}

impl<M: Marker> Calendar for YearCalendar<M> {
    open spec fn wf(&self) -> bool {
        self.well_formed()
    }

    open spec fn block_view(&self) -> BlockView {
        self.layout()
    }

    open spec fn view_after(&self, change: Change) -> BlockView {
        self.layout_after(change)
    }

    proof fn lemma_consistent(&self) {
        self.lemma_layout_ok();
    }

    fn mark(&mut self, date: Date) {
        self.mark(date)
    }

    fn unmark(&mut self, date: Date) {
        self.unmark(date)
    }

    fn is_marked(&self, date: Date) -> (r: bool) {
        self.is_marked(date)
    }

    fn width(&self) -> (r: usize) {
        self.width()
    }

    fn height(&self) -> (r: usize) {
        self.height()
    }

    fn day_width(&self) -> (r: usize) {
        self.day_width()
    }

    fn lines(&self) -> (r: Vec<String>) {
        self.lines()
    }

    fn render(&self) -> (r: String) {
        self.to_string()
    }
}

} // verus!
