//! One month as a block of text: the name of the month, the days of the week
//! and one row for each week.

use crate::calendar::BlockView;
use crate::calendar::Calendar;
use crate::calendar::Change;
use crate::date::Date;
use crate::date::Day;
use crate::date::Weekday;
use crate::date::days_in_month;
use crate::date::first_weekday;
use crate::date::month_length;
use crate::date::month_name;
use crate::date::month_start;
use crate::date::month_text;
use crate::date::weekday_name;
use crate::date::weekday_text;
use crate::marker::BasicMarker;
use crate::marker::Marker;
use crate::text::blank;
use crate::text::center;
use crate::text::centered;
use crate::text::decimal;
use crate::text::decimal_string;
use crate::text::join_lines;
use crate::text::joined;
use crate::text::line_views;
use crate::text::spaces;
use std::collections::HashSet;
use vstd::prelude::*;
use vstd::string::StrSliceExecFns;
use vstd::string::StringExecFns;

verus! {

/// The number of rows that a month of `days` days takes when `lead` cells
/// stay empty before its first day.
pub open spec fn week_count(days: int, lead: int) -> int {
    (days + lead + 6) / 7
}

/// The first day of row `k`.
pub open spec fn week_start(k: int, lead: int) -> int {
    if k == 0 {
        1
    } else {
        7 * k - lead + 1
    }
}

/// The last day of row `k`.
pub open spec fn week_end(k: int, lead: int, days: int) -> int {
    if 7 * k - lead + 7 < days {
        7 * k - lead + 7
    } else {
        days
    }
}

/// `weeks` holds, row by row, the first and the last day of each row of a
/// month of `days` days with `lead` empty cells before its first day.
pub open spec fn is_week_partition(weeks: Seq<(u32, u32)>, days: int, lead: int) -> bool {
    &&& weeks.len() == week_count(days, lead)
    &&& forall|k: int|
        0 <= k < weeks.len() ==> (#[trigger] weeks[k]).0 == week_start(k, lead) && weeks[k].1
            == week_end(k, lead, days)
}

/// The row in which day `d` lies when `lead` cells stay empty before day 1.
pub open spec fn week_of(d: int, lead: int) -> int {
    (d + lead - 1) / 7
}

/// Whether day `d` lies in the row `week`, given by its first and last day.
pub open spec fn in_week(week: (u32, u32), d: int) -> bool {
    week.0 <= d <= week.1
}

/// The rows of a month partition its days: the first row starts on day 1,
/// each row starts on the day after the row before it ended, no row is empty
/// or longer than seven days, and the last row ends on the last day.
pub proof fn lemma_weeks_partition(days: int, lead: int)
    requires
        1 <= days,
        0 <= lead < 7,
    ensures
        week_count(days, lead) >= 1,
        week_start(0, lead) == 1,
        week_end(week_count(days, lead) - 1, lead, days) == days,
        forall|k: int|
            0 <= k < week_count(days, lead) ==> week_start(k, lead) <= #[trigger] week_end(
                k,
                lead,
                days,
            ) < week_start(k, lead) + 7,
        forall|k: int|
            0 <= k < week_count(days, lead) - 1 ==> week_start(k + 1, lead) == #[trigger] week_end(
                k,
                lead,
                days,
            ) + 1,
{
}

/// Every day of the month lies in exactly one row: row `week_of(d, lead)`.
pub proof fn lemma_day_in_one_week(days: int, lead: int, d: int, k: int)
    requires
        1 <= days,
        0 <= lead < 7,
        1 <= d <= days,
        0 <= k < week_count(days, lead),
    ensures
        (week_start(k, lead) <= d <= week_end(k, lead, days)) <==> k == week_of(d, lead),
        0 <= week_of(d, lead) < week_count(days, lead),
{
}

/// Day `day` of a month is the last of its row exactly if `day` and the
/// empty cells before the first day fill whole rows.
proof fn lemma_row_end(first: Weekday, begin: Weekday, day: int)
    ensures
        (first.plus(day - 1) == begin.plus(6)) <==> (day + first.spec_days_since(begin)) % 7 == 0,
{
    crate::date::lemma_weekday_index(first);
    crate::date::lemma_weekday_index(begin);
    crate::date::lemma_from_index_eq(first.index() + day - 1, begin.index() + 6);
    let fi = first.index();
    let bi = begin.index();
    assert(((fi + day - 1) % 7 == (bi + 6) % 7) <==> (day + (fi - bi + 7) % 7) % 7 == 0);
}

/// One step of the walk through a month: where day `day` stands in row `k`.
proof fn lemma_walk(days: int, lead: int, k: int, day: int)
    requires
        0 <= lead < 7,
        0 <= k,
        week_start(k, lead) <= day <= days,
        day <= 7 * k - lead + 7,
    ensures
        ((day + lead) % 7 == 0) <==> day == 7 * k - lead + 7,
        day == days ==> week_count(days, lead) == k + 1 && week_end(k, lead, days) == day,
        day == 7 * k - lead + 7 && day < days ==> week_end(k, lead, days) == day && week_start(
            k + 1,
            lead,
        ) == day + 1,
{
    if k == 0 {
        assert(1 <= day + lead <= 7);
    } else {
        assert(7 * k + 1 <= day + lead <= 7 * k + 7);
    }
}

/// Every day stands under the heading of its day of the week: day `d` of a
/// month that starts on `first` stands in column `(d - 1 + lead) % 7` of its
/// row, and the heading of that column is the day of the week of day `d`.
pub proof fn lemma_day_under_its_weekday(first: Weekday, begin: Weekday, d: int)
    requires
        1 <= d,
    ensures
        begin.plus((d - 1 + first.spec_days_since(begin)) % 7) == first.plus(d - 1),
{
    crate::date::lemma_weekday_index(first);
    crate::date::lemma_weekday_index(begin);
    let lead = first.spec_days_since(begin);
    let column = (d - 1 + lead) % 7;
    crate::date::lemma_from_index_eq(begin.index() + column, first.index() + d - 1);
    let fi = first.index();
    let bi = begin.index();
    assert((bi + (d - 1 + (fi - bi + 7) % 7) % 7) % 7 == (fi + d - 1) % 7);
}

/// Every row but the first starts on `begin`, and every row but the last ends
/// on the day before `begin`.
pub proof fn lemma_rows_start_on_begin(first: Weekday, begin: Weekday, days: int, k: int)
    requires
        1 <= days,
        0 <= k < week_count(days, first.spec_days_since(begin)),
    ensures
        k > 0 ==> first.plus(week_start(k, first.spec_days_since(begin)) - 1) == begin,
        k < week_count(days, first.spec_days_since(begin)) - 1 ==> first.plus(
            week_end(k, first.spec_days_since(begin), days) - 1,
        ) == begin.plus(6),
{
    let lead = first.spec_days_since(begin);
    crate::date::lemma_weekday_index(begin);
    if k > 0 {
        lemma_day_under_its_weekday(first, begin, week_start(k, lead));
        assert((week_start(k, lead) - 1 + lead) % 7 == 0);
    }
    if k < week_count(days, lead) - 1 {
        lemma_row_end(first, begin, week_end(k, lead, days));
    }
}

/// Walks through a month of `days` days that starts on `first_weekday` and
/// cuts it into rows that start on `begin_weekday`: a row ends on the day
/// before `begin_weekday`, and on the last day of the month.
pub fn week_ranges(days: u32, first_weekday: Weekday, begin_weekday: Weekday) -> (weeks: Vec<
    (u32, u32),
>)
    requires
        1 <= days <= 31,
    ensures
        is_week_partition(weeks@, days as int, first_weekday.spec_days_since(begin_weekday)),
{
    let end_weekday = begin_weekday.pred();
    let ghost lead = first_weekday.spec_days_since(begin_weekday);
    let mut weeks: Vec<(u32, u32)> = Vec::new();
    let mut start: u32 = 1;
    let mut day: u32 = 1;
    let mut weekday = first_weekday;
    loop
        invariant_except_break
            1 <= start <= day <= days <= 31,
            0 <= lead < 7,
            lead == first_weekday.spec_days_since(begin_weekday),
            end_weekday == begin_weekday.plus(6),
            weekday == first_weekday.plus(day - 1),
            start == week_start(weeks@.len() as int, lead),
            day <= 7 * weeks@.len() - lead + 7,
            forall|k: int|
                0 <= k < weeks@.len() ==> (#[trigger] weeks@[k]).0 == week_start(k, lead)
                    && weeks@[k].1 == week_end(k, lead, days as int),
        ensures
            is_week_partition(weeks@, days as int, lead),
        decreases days - day,
    {
        let ghost k = weeks@.len() as int;
        proof {
            lemma_walk(days as int, lead, k, day as int);
            lemma_row_end(first_weekday, begin_weekday, day as int);
            crate::date::lemma_plus_plus(first_weekday, day - 1, 1);
        }
        if day == days {
            weeks.push((start, day));
            break ;
        }
        if weekday == end_weekday {
            weeks.push((start, day));
            start = day + 1;
        }
        day = day + 1;
        weekday = weekday.succ();
    }
    weeks
}

/// What a month calendar is: which month it shows and how, and which of its
/// days are marked.
pub struct MonthView<M> {
    /// The year; zero and negative years lie before the common era.
    pub year: int,
    /// The month, January being 1.
    pub month: int,
    /// The number of days of the month.
    pub days: int,
    /// The day of the week of the first day of the month.
    pub first: Weekday,
    /// The day of the week that every row starts on.
    pub begin: Weekday,
    /// The number of characters of one day.
    pub day_width: nat,
    /// The marked days of the month.
    pub marked: Set<int>,
    /// The marker that decorates the marked days.
    pub marker: M,
}

/// The heading of one day of the week: the first two letters of its name, or
/// the first three where a day is wider than four characters.
pub open spec fn weekday_heading(day: Weekday, day_width: nat) -> Seq<char> {
    weekday_text(day).take(
        if day_width > 4 {
            3
        } else {
            2
        },
    )
}

impl<M: Marker> MonthView<M> {
    /// The number of empty cells before the first day of the month.
    pub open spec fn lead(self) -> int {
        self.first.spec_days_since(self.begin)
    }

    /// The number of rows of days.
    pub open spec fn weeks(self) -> int {
        week_count(self.days, self.lead())
    }

    /// The cell of day `d`: blank where the month has no such day; the
    /// numeral, centred; for a marked day the numeral in a field of two
    /// characters, decorated by the marker and then centred.
    pub open spec fn cell(self, d: int) -> Seq<char> {
        if 1 <= d <= self.days {
            if self.marked.contains(d) {
                centered(self.marker.decorated(centered(decimal(d as nat), 2)), self.day_width)
            } else {
                centered(decimal(d as nat), self.day_width)
            }
        } else {
            spaces(self.day_width)
        }
    }

    /// The cells of the `count` days from `from` on, side by side.
    pub open spec fn cells(self, from: int, count: nat) -> Seq<char>
        decreases count,
    {
        if count == 0 {
            Seq::empty()
        } else {
            self.cells(from, (count - 1) as nat) + self.cell(from + count - 1)
        }
    }

    /// Row `k` of the days: seven cells, of which the first is that of day
    /// `7 * k + 1 - lead`.
    pub open spec fn week_row(self, k: int) -> Seq<char> {
        self.cells(7 * k + 1 - self.lead(), 7)
    }

    /// The first line: the name of the month, centred over the seven days.
    pub open spec fn title_row(self) -> Seq<char> {
        centered(month_text(self.month), 7 * self.day_width)
    }

    /// The headings of the first `count` days of a row, side by side.
    pub open spec fn heading(self, count: nat) -> Seq<char>
        decreases count,
    {
        if count == 0 {
            Seq::empty()
        } else {
            self.heading((count - 1) as nat) + centered(
                weekday_heading(self.begin.plus(count - 1), self.day_width),
                self.day_width,
            )
        }
    }

    /// The rendered lines: the name of the month, the days of the week, and
    /// the rows of days.
    pub open spec fn lines(self) -> Seq<Seq<char>> {
        Seq::new(
            (self.weeks() + 2) as nat,
            |i: int|
                if i == 0 {
                    self.title_row()
                } else if i == 1 {
                    self.heading(7)
                } else {
                    self.week_row(i - 2)
                },
        )
    }

    /// The days of the month.
    pub open spec fn owned(self) -> Set<Day> {
        Set::new(
            |e: Day| e.year == self.year && e.month == self.month && 1 <= e.day <= self.days,
        )
    }

    /// The marked days of the month.
    pub open spec fn marked_days(self) -> Set<Day> {
        Set::new(|e: Day| self.owned().contains(e) && self.marked.contains(e.day))
    }

    /// The month as the layout sees it.
    pub open spec fn block(self) -> BlockView {
        BlockView {
            width: 7 * self.day_width,
            height: (self.weeks() + 2) as nat,
            day_width: self.day_width,
            lines: self.lines(),
            owned: self.owned(),
            marked: self.marked_days(),
        }
    }

    /// The calendar once `change` is made: marking a day of the month adds
    /// it to the marked days, marking any other day changes nothing, and
    /// unmarking removes the day-of-month number, whatever the month and the
    /// year of the day.
    pub open spec fn after(self, change: Change) -> MonthView<M> {
        MonthView {
            marked: match change {
                Change::Mark(day) => if self.owned().contains(day) {
                    self.marked.insert(day.day)
                } else {
                    self.marked
                },
                Change::Unmark(day) => self.marked.remove(day.day),
            },
            ..self
        }
    }

    /// A day has room for two characters and for the decoration of every
    /// marked day.
    pub open spec fn fits(self) -> bool {
        &&& self.day_width >= 2
        &&& forall|d: int|
            1 <= d <= self.days && self.marked.contains(d) ==> (#[trigger] self.marker.decorated(
                centered(decimal(d as nat), 2),
            )).len() <= self.day_width
    }
}

impl<M: Marker> MonthView<M> {
    /// Where the decorations fit, every cell is as wide as a day.
    pub proof fn lemma_cell_len(self, d: int)
        requires
            self.days <= 31,
            self.fits(),
        ensures
            self.cell(d).len() == self.day_width,
    {
        if 1 <= d <= self.days {
            crate::text::lemma_decimal_len(d as nat);
            if self.marked.contains(d) {
                assert(self.marker.decorated(centered(decimal(d as nat), 2)).len()
                    <= self.day_width);
            }
        }
    }

    /// Where the decorations fit, `count` cells are `count` days wide.
    pub proof fn lemma_cells_len(self, from: int, count: nat)
        requires
            self.days <= 31,
            self.fits(),
        ensures
            self.cells(from, count).len() == count * self.day_width,
        decreases count,
    {
        if count > 0 {
            self.lemma_cells_len(from, (count - 1) as nat);
            self.lemma_cell_len(from + count - 1);
            assert(count * self.day_width == (count - 1) * self.day_width + self.day_width)
                by (nonlinear_arith);
        } else {
            assert(count * self.day_width == 0) by (nonlinear_arith)
                requires
                    count == 0,
            ;
        }
    }

    /// Where a day has room for two characters, the headings of `count` days
    /// are `count` days wide.
    pub proof fn lemma_heading_len(self, count: nat)
        requires
            self.day_width >= 2,
        ensures
            self.heading(count).len() == count * self.day_width,
        decreases count,
    {
        if count > 0 {
            self.lemma_heading_len((count - 1) as nat);
            lemma_weekday_text_len(self.begin.plus(count - 1));
            assert(count * self.day_width == (count - 1) * self.day_width + self.day_width)
                by (nonlinear_arith);
        } else {
            assert(count * self.day_width == 0) by (nonlinear_arith)
                requires
                    count == 0,
            ;
        }
    }

    /// Every line of a month is seven days wide, provided that a day has
    /// room for two characters and for the decoration of every marked day.
    pub proof fn lemma_aligned(self)
        requires
            1 <= self.month <= 12,
            self.days <= 31,
            self.fits(),
        ensures
            self.block().aligned(),
            self.block().consistent(),
    {
        let lines = self.lines();
        assert forall|i: int| 0 <= i < lines.len() implies (#[trigger] lines[i]).len() == 7
            * self.day_width by {
            if i == 0 {
                lemma_month_text_len(self.month);
            } else if i == 1 {
                self.lemma_heading_len(7);
            } else {
                self.lemma_cells_len(7 * (i - 2) + 1 - self.lead(), 7);
            }
        }
    }
}

/// With a built-in marker the decorations fit where a day has room for four
/// characters, and without decoration where it has room for two.
pub proof fn lemma_basic_marker_fits(view: MonthView<BasicMarker>)
    requires
        view.days <= 31,
        view.day_width >= 4 || (view.marker is Plain && view.day_width >= 2),
    ensures
        view.fits(),
{
    assert forall|d: int| 1 <= d <= view.days && view.marked.contains(d) implies (
    #[trigger] view.marker.decorated(centered(decimal(d as nat), 2))).len()
        <= view.day_width by {
        crate::text::lemma_decimal_len(d as nat);
        crate::marker::lemma_basic_decorated_len(view.marker, centered(decimal(d as nat), 2));
    }
}

/// The calendar of one month.
pub struct MonthCalendar<M: Marker> {
    year: i32,
    month: u32,
    weeks: Vec<(u32, u32)>,
    days: u32,
    first_weekday: Weekday,
    begin_weekday: Weekday,
    day_width: usize,
    marker: M,
    marked: HashSet<u32>,
}

impl<M: Marker> View for MonthCalendar<M> {
    type V = MonthView<M>;

    closed spec fn view(&self) -> MonthView<M> {
        MonthView {
            year: self.year as int,
            month: self.month as int,
            days: self.days as int,
            first: self.first_weekday,
            begin: self.begin_weekday,
            day_width: self.day_width as nat,
            marked: Set::new(|d: int| 0 <= d <= u32::MAX && self.marked@.contains(d as u32)),
            marker: self.marker,
        }
    }
}

/// Every name of a day of the week has three letters.
proof fn lemma_weekday_text_len(day: Weekday)
    ensures
        weekday_text(day).len() == 3,
{
    reveal_strlit("Mon");
    reveal_strlit("Tue");
    reveal_strlit("Wed");
    reveal_strlit("Thu");
    reveal_strlit("Fri");
    reveal_strlit("Sat");
    reveal_strlit("Sun");
}

/// No name of a month has more than nine letters.
proof fn lemma_month_text_len(month: int)
    ensures
        month_text(month).len() <= 9,
{
    reveal_strlit("January");
    reveal_strlit("February");
    reveal_strlit("March");
    reveal_strlit("April");
    reveal_strlit("May");
    reveal_strlit("June");
    reveal_strlit("July");
    reveal_strlit("August");
    reveal_strlit("September");
    reveal_strlit("October");
    reveal_strlit("November");
    reveal_strlit("December");
}

impl<M: Marker> MonthCalendar<M> {
    /// The first and the last day of each row.
    pub closed spec fn spec_weeks(&self) -> Seq<(u32, u32)> {
        self.weeks@
    }

    /// The rows of a well-formed calendar are those of its month, and only
    /// days of the month are marked.
    pub proof fn lemma_wf(&self)
        requires
            self.wf(),
        ensures
            1 <= self@.month <= 12,
            1 <= self@.days <= 31,
            0 <= self@.lead() < 7,
            1 <= self@.weeks() <= 6,
            7 * self@.day_width <= usize::MAX,
            is_week_partition(self.spec_weeks(), self@.days, self@.lead()),
            forall|d: int| self@.marked.contains(d) ==> 1 <= d <= self@.days,
    {
    }

    /// Every line of a calendar is seven days wide, provided that a day has
    /// room for two characters and for the decoration of every marked day.
    pub proof fn lemma_aligned(&self)
        requires
            self.wf(),
            self@.fits(),
        ensures
            self.block_view().aligned(),
    {
        self.lemma_wf();
        self@.lemma_aligned();
    }

    /// A calendar that has the days that the month has in its year owns
    /// every date of that month and year, and no other date.
    pub proof fn lemma_owns_its_month(&self, date: Date)
        requires
            self.wf(),
        ensures
            date.valid() && month_length(self@.year, self@.month) == Some(self@.days) ==> (
            self.block_view().owned.contains(date@) <==> date@.year == self@.year && date@.month
                == self@.month),
    {
    }

    /// The rows of a calendar cover the days of its month exactly once,
    /// contiguously and in ascending order: the first row starts on day 1,
    /// every row starts on the day after the row before it ended and holds
    /// between one and seven days, the last row ends on the last day of the
    /// month, and every day lies in exactly one row.
    pub proof fn lemma_weeks_cover(&self)
        requires
            self.wf(),
        ensures
            self.spec_weeks().len() >= 1,
            self.spec_weeks()[0].0 == 1,
            self.spec_weeks().last().1 == self@.days,
            forall|k: int|
                0 <= k < self.spec_weeks().len() ==> (#[trigger] self.spec_weeks()[k]).0
                    <= self.spec_weeks()[k].1 < self.spec_weeks()[k].0 + 7,
            forall|k: int|
                0 <= k < self.spec_weeks().len() - 1 ==> (#[trigger] self.spec_weeks()[k + 1]).0
                    == self.spec_weeks()[k].1 + 1,
            forall|d: int, k: int|
                1 <= d <= self@.days && 0 <= k < self.spec_weeks().len() ==> (#[trigger] in_week(
                    self.spec_weeks()[k],
                    d,
                ) <==> k == week_of(d, self@.lead())),
            forall|d: int|
                1 <= d <= self@.days ==> 0 <= #[trigger] week_of(d, self@.lead())
                    < self.spec_weeks().len(),
    {
        self.lemma_wf();
        let weeks = self.spec_weeks();
        let days = self@.days;
        let lead = self@.lead();
        lemma_weeks_partition(days, lead);
        assert forall|k: int| 0 <= k < weeks.len() implies (#[trigger] weeks[k]).0 <= weeks[k].1
            < weeks[k].0 + 7 by {
            assert(week_start(k, lead) <= week_end(k, lead, days) < week_start(k, lead) + 7);
        }
        assert forall|k: int| 0 <= k < weeks.len() - 1 implies (#[trigger] weeks[k + 1]).0
            == weeks[k].1 + 1 by {
            assert(week_start(k + 1, lead) == week_end(k, lead, days) + 1);
            assert(weeks[k].1 == week_end(k, lead, days));
        }
        assert forall|d: int, k: int| 1 <= d <= days && 0 <= k < weeks.len() implies (
        #[trigger] in_week(weeks[k], d) <==> k == week_of(d, lead)) by {
            lemma_day_in_one_week(days, lead, d, k);
        }
        assert forall|d: int| 1 <= d <= days implies 0 <= #[trigger] week_of(d, lead)
            < weeks.len() by {
            lemma_day_in_one_week(days, lead, d, 0);
        }
    }

    /// The calendar of a month of `days` days of which the first is a
    /// `first_weekday`, with rows that start on `begin_weekday`, days of
    /// `day_width` characters, and no day marked.
    pub fn with_shape(
        year: i32,
        month: u32,
        days: u32,
        first_weekday: Weekday,
        begin_weekday: Weekday,
        day_width: usize,
        marker: M,
    ) -> (r: Self)
        requires
            1 <= month <= 12,
            1 <= days <= 31,
            day_width * 7 <= usize::MAX,
        ensures
            r.wf(),
            r@ == (MonthView {
                year: year as int,
                month: month as int,
                days: days as int,
                first: first_weekday,
                begin: begin_weekday,
                day_width: day_width as nat,
                marked: Set::empty(),
                marker,
            }),
    {
        let weeks = week_ranges(days, first_weekday, begin_weekday);
        let r = MonthCalendar {
            year,
            month,
            weeks,
            days,
            first_weekday,
            begin_weekday,
            day_width,
            marker,
            marked: HashSet::new(),
        };
        assert(r@.marked =~= Set::<int>::empty());
        r
    }

    /// The calendar of month `month` of year `year`, with rows that start on
    /// `begin_weekday` and days of `day_width` characters, and no day marked;
    /// `None` where the calendar has no such month.
    pub fn new(year: i32, month: u32, begin_weekday: Weekday, day_width: usize, marker: M) -> (r:
        Option<Self>)
        requires
            day_width * 7 <= usize::MAX,
        ensures
            r is Some <==> month_length(year as int, month as int) is Some,
            r matches Some(c) ==> c.wf() && month_start(year as int, month as int) is Some && c@
                == (MonthView {
                year: year as int,
                month: month as int,
                days: month_length(year as int, month as int).unwrap(),
                first: month_start(year as int, month as int).unwrap(),
                begin: begin_weekday,
                day_width: day_width as nat,
                marked: Set::empty(),
                marker,
            }),
    {
        match days_in_month(year, month) {
            Some(days) => match first_weekday(year, month) {
                Some(first) => Some(
                    Self::with_shape(year, month, days, first, begin_weekday, day_width, marker),
                ),
                None => None,
            },
            None => None,
        }
    }

    /// The number of rendered lines: two more than the rows of days.
    pub fn rows(&self) -> (r: usize)
        requires
            self.wf(),
        ensures
            r == self@.weeks() + 2,
            r == self.spec_weeks().len() + 2,
    {
        self.weeks.len() + 2
    }

    /// The year of the month.
    pub fn year(&self) -> (r: i32)
        ensures
            r == self@.year,
    {
        self.year
    }

    /// The month, January being 1.
    pub fn month(&self) -> (r: u32)
        ensures
            r == self@.month,
    {
        self.month
    }

    /// The first and the last day of each row.
    pub fn weeks(&self) -> (r: &Vec<(u32, u32)>)
        ensures
            r@ == self.spec_weeks(),
    {
        &self.weeks
    }

    /// The text of the cell of day `d` of the month.
    fn day_cell(&self, d: u32) -> (r: String)
        requires
            self.wf(),
            1 <= d <= self@.days,
        ensures
            r@ == self@.cell(d as int),
    {
        let numeral = decimal_string(d);
        if self.marked.contains(&d) {
            let field = center(numeral.as_str(), 2);
            let decorated = self.marker.decorate(field.as_str());
            center(decorated.as_str(), self.day_width)
        } else {
            center(numeral.as_str(), self.day_width)
        }
    }

    /// The line of the days of the week.
    fn heading_line(&self) -> (r: String)
        requires
            self.wf(),
        ensures
            r@ == self@.heading(7),
    {
        let mut line = String::new();
        let mut weekday = self.begin_weekday;
        let letters: usize = if self.day_width > 4 {
            3
        } else {
            2
        };
        let mut i: usize = 0;
        while i < 7
            invariant
                i <= 7,
                self.wf(),
                weekday == self@.begin.plus(i as int),
                letters == if self@.day_width > 4 {
                    3int
                } else {
                    2int
                },
                line@ == self@.heading(i as nat),
            decreases 7 - i,
        {
            let name = weekday_name(weekday);
            proof {
                lemma_weekday_text_len(weekday);
                crate::date::lemma_plus_plus(self@.begin, i as int, 1);
            }
            let short = name.as_str().substring_char(0, letters);
            let cell = center(short, self.day_width);
            line.append(cell.as_str());
            weekday = weekday.succ();
            i = i + 1;
        }
        line
    }

    /// The line of row `k` of the days.
    fn week_line(&self, k: usize) -> (r: String)
        requires
            self.wf(),
            k < self@.weeks(),
        ensures
            r@ == self@.week_row(k as int),
    {
        let lead = self.first_weekday.days_since(self.begin_weekday);
        let (start, end) = self.weeks[k];
        let mut line = String::new();
        let mut column: u32 = 0;
        while column < 7
            invariant
                column <= 7,
                self.wf(),
                k < self@.weeks(),
                lead == self@.lead(),
                start == week_start(k as int, lead as int),
                end == week_end(k as int, lead as int, self@.days),
                line@ == self@.cells(7 * k + 1 - lead, column as nat),
            decreases 7 - column,
        {
            let position: u32 = 7 * (k as u32) + column + 1;
            if position >= lead + start && position <= lead + end {
                let cell = self.day_cell(position - lead);
                line.append(cell.as_str());
            } else {
                let cell = blank(self.day_width);
                line.append(cell.as_str());
            }
            column = column + 1;
        }
        line
    }

    /// The rendered lines: the name of the month, the days of the week, and
    /// one line for each row of days.
    fn month_lines(&self) -> (r: Vec<String>)
        requires
            self.wf(),
        ensures
            line_views(r@) == self@.lines(),
            r@.len() == self@.weeks() + 2,
    {
        let mut out: Vec<String> = Vec::new();
        let title = match month_name(self.month) {
            Some(name) => center(name.as_str(), self.day_width * 7),
            None => String::new(),
        };
        out.push(title);
        out.push(self.heading_line());
        let n = self.weeks.len();
        let mut k: usize = 0;
        while k < n
            invariant
                k <= n,
                n == self@.weeks(),
                self.wf(),
                out@.len() == k + 2,
                out@[0]@ == self@.title_row(),
                out@[1]@ == self@.heading(7),
                forall|j: int| 0 <= j < k ==> (#[trigger] out@[j + 2])@ == self@.week_row(j),
            decreases n - k,
        {
            let line = self.week_line(k);
            let ghost before = out@;
            out.push(line);
            proof {
                assert forall|j: int| 0 <= j < k + 1 implies (#[trigger] out@[j + 2])@
                    == self@.week_row(j) by {
                    if j < k {
                        assert(out@[j + 2] == before[j + 2]);
                    }
                }
            }
            k = k + 1;
        }
        proof {
            assert forall|i: int| 0 <= i < out@.len() implies line_views(out@)[i]
                == self@.lines()[i] by {
                if i >= 2 {
                    assert(out@[(i - 2) + 2]@ == self@.week_row(i - 2));
                }
            }
            assert(line_views(out@) =~= self@.lines());
        }
        out
    }

    /// The rendered text: the lines joined by line feeds.
    pub fn to_string(&self) -> (r: String)
        requires
            self.wf(),
        ensures
            r@ == join_lines(self@.lines()),
    {
        let lines = self.month_lines();
        joined(&lines)
    }
}

impl<M: Marker> Calendar for MonthCalendar<M> {
    /// The calendar's invariant: the month is one of the twelve, it has
    /// between 1 and 31 days, the rows are those of the month, only days of
    /// the month are marked, and the width of seven days is a `usize`.
    closed spec fn wf(&self) -> bool {
        &&& 1 <= self.month <= 12
        &&& 1 <= self.days <= 31
        &&& is_week_partition(
            self.weeks@,
            self.days as int,
            self.first_weekday.spec_days_since(self.begin_weekday),
        )
        &&& self.day_width * 7 <= usize::MAX
        &&& forall|d: u32| self.marked@.contains(d) ==> 1 <= d <= self.days
    }

    open spec fn block_view(&self) -> BlockView {
        self@.block()
    }

    open spec fn view_after(&self, change: Change) -> BlockView {
        self@.after(change).block()
    }

    proof fn lemma_consistent(&self) {
    }

    /// Marks the day of `date` if `date` is a day of this month.
    fn mark(&mut self, date: Date)
        ensures
            final(self)@ == old(self)@.after(Change::Mark(date@)),
    {
        let ghost before = self@;
        if date.year() == self.year && date.month() == self.month && 1 <= date.day() && date.day()
            <= self.days {
            self.marked.insert(date.day());
            proof {
                assert(self@.marked =~= before.marked.insert(date@.day));
                assert(self@.block().marked =~= before.block().marked.insert(date@));
            }
        } else {
            proof {
                assert(self@.marked =~= before.marked);
            }
        }
    }

    /// Removes the mark from the day of `date`, whatever its month and year.
    fn unmark(&mut self, date: Date)
        ensures
            final(self)@ == old(self)@.after(Change::Unmark(date@)),
    {
        let ghost before = self@;
        let day = date.day();
        self.marked.remove(&day);
        proof {
            assert(self@.marked =~= before.marked.remove(date@.day));
            assert(self@.block().marked =~= Set::new(
                |e: Day| before.block().marked.contains(e) && e.day != date@.day,
            ));
            if !before.block().marks_number(date@.day) {
                if before.marked.contains(date@.day) {
                    let e = Day { year: before.year, month: before.month, day: date@.day };
                    assert(before.block().marked.contains(e));
                }
                assert(self@.marked =~= before.marked);
            }
        }
    }

    /// Whether `date` is a marked day of this month.
    fn is_marked(&self, date: Date) -> (r: bool) {
        let day = date.day();
        date.year() == self.year && date.month() == self.month && 1 <= day && day <= self.days
            && self.marked.contains(&day)
    }

    /// The width of seven days.
    fn width(&self) -> (r: usize) {
        self.day_width * 7
    }

    /// Two more than the rows of days.
    fn height(&self) -> (r: usize) {
        self.weeks.len() + 2
    }

    fn day_width(&self) -> (r: usize) {
        self.day_width
    }

    fn lines(&self) -> (r: Vec<String>) {
        self.month_lines()
    }

    fn render(&self) -> (r: String) {
        self.to_string()
    }
}

impl MonthCalendar<BasicMarker> {
    /// The calendar of a month with rows that start on Sunday, days of four
    /// characters and square brackets round the marked days.
    pub fn from_ym(year: i32, month: u32) -> (r: Option<Self>)
        ensures
            r is Some <==> month_length(year as int, month as int) is Some,
            r matches Some(c) ==> c.wf() && month_start(year as int, month as int) is Some && c@
                == (MonthView {
                year: year as int,
                month: month as int,
                days: month_length(year as int, month as int).unwrap(),
                first: month_start(year as int, month as int).unwrap(),
                begin: Weekday::Sun,
                day_width: 4,
                marked: Set::empty(),
                marker: BasicMarker::SquareBrackets,
            }),
    {
        Self::new(year, month, Weekday::Sun, 4, BasicMarker::SquareBrackets)
    }
}

/// The text of the calendar of a month, as `MonthCalendar::from_ym` lays it
/// out; `None` where the calendar has no such month.
pub fn str_month_calendar(year: i32, month: u32) -> (r: Option<String>)
    ensures
        r is Some <==> month_length(year as int, month as int) is Some,
        r matches Some(text) ==> month_start(year as int, month as int) is Some && text@
            == join_lines(
            (MonthView {
                year: year as int,
                month: month as int,
                days: month_length(year as int, month as int).unwrap(),
                first: month_start(year as int, month as int).unwrap(),
                begin: Weekday::Sun,
                day_width: 4,
                marked: Set::empty(),
                marker: BasicMarker::SquareBrackets,
            }).lines(),
        ),
{
    match MonthCalendar::from_ym(year, month) {
        Some(calendar) => Some(calendar.to_string()),
        None => None,
    }
}

} // verus!
