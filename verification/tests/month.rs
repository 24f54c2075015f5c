use text_calendar::{
    str_month_calendar, week_ranges, BasicMarker, Calendar, Date, Marker, MonthCalendar, Weekday,
};

fn date(year: i32, month: u32, day: u32) -> Date {
    Date::from_ymd_opt(year, month, day).expect("Invalid date")
}

#[test]
fn month_calendar_test() {
    const ROWS_LIST_2024: [usize; 12] = [5, 5, 6, 5, 5, 6, 5, 5, 5, 5, 5, 5];

    for i in 0..12 {
        let cal = MonthCalendar::new(2024, i + 1, Weekday::Sun, 2, BasicMarker::SquareBrackets)
            .unwrap();
        assert_eq!(cal.rows() - 2, ROWS_LIST_2024[i as usize], "{}", cal.to_string());
    }

    let display_test =
        MonthCalendar::new(2024, 6, Weekday::Sun, 4, BasicMarker::SquareBrackets).unwrap();
    println!("{}", display_test.to_string());
}

#[test]
fn february_2024_renders_as_laid_out() {
    let calendar =
        MonthCalendar::new(2024, 2, Weekday::Sun, 4, BasicMarker::SquareBrackets).unwrap();
    let expected = [
        "          February          ",
        " Su  Mo  Tu  We  Th  Fr  Sa ",
        "                 1   2   3  ",
        " 4   5   6   7   8   9   10 ",
        " 11  12  13  14  15  16  17 ",
        " 18  19  20  21  22  23  24 ",
        " 25  26  27  28  29         ",
    ];
    assert_eq!(calendar.lines(), expected);
    assert_eq!(calendar.to_string(), expected.join("\n"));
    assert_eq!(calendar.render(), expected.join("\n"));
}

#[test]
fn february_2024_first_and_last_row() {
    let calendar =
        MonthCalendar::new(2024, 2, Weekday::Sun, 4, BasicMarker::SquareBrackets).unwrap();
    let lines = calendar.lines();
    assert_eq!(lines[2], "                 1   2   3  ");
    assert_eq!(lines[6], " 25  26  27  28  29         ");
    assert!(lines[6].ends_with("25  26  27  28  29         "));
    assert!(!calendar.to_string().ends_with('\n'));
}

#[test]
fn february_2024_marked_first_day() {
    let mut calendar =
        MonthCalendar::new(2024, 2, Weekday::Sun, 4, BasicMarker::SquareBrackets).unwrap();
    calendar.mark(date(2024, 2, 1));
    let lines = calendar.lines();
    assert_eq!(lines[2], "                [1 ] 2   3  ");
    assert_eq!(lines[3], " 4   5   6   7   8   9   10 ");
    calendar.mark(date(2024, 2, 10));
    assert_eq!(calendar.lines()[3], " 4   5   6   7   8   9  [10]");
    calendar.unmark(date(2024, 2, 1));
    assert_eq!(calendar.lines()[2], "                 1   2   3  ");
}

#[test]
fn underscore_marks_in_june_2024() {
    let mut calendar = MonthCalendar::new(2024, 6, Weekday::Sun, 4, BasicMarker::UnderScore).unwrap();
    for day in [1, 3, 9, 14, 21, 29] {
        calendar.mark(date(2024, 6, day));
    }
    let expected = [
        "            June            ",
        " Su  Mo  Tu  We  Th  Fr  Sa ",
        "                        _1 _",
        " 2  _3 _ 4   5   6   7   8  ",
        "_9 _ 10  11  12  13 _14_ 15 ",
        " 16  17  18  19  20 _21_ 22 ",
        " 23  24  25  26  27  28 _29_",
        " 30                         ",
    ];
    assert_eq!(calendar.lines(), expected);
}

#[derive(Clone)]
struct BracketsMarker {
    day_width: usize,
    chars: Vec<char>,
}

impl Marker for BracketsMarker {
    fn decorate(&self, day: &str) -> String {
        let count = self.day_width - 2;
        let mut result = String::new();
        for _ in (0..count / 2).step_by(2) {
            result.push(self.chars[0]);
        }
        result.push_str(day);
        for _ in (0..count / 2).step_by(2) {
            result.push(self.chars[1]);
        }
        if self.day_width % 2 == 1 {
            result.push(' ');
        }
        result
    }
}

#[test]
fn custom_marker_in_june_2024() {
    let marker = BracketsMarker { day_width: 6, chars: vec!['<', '>'] };
    let mut calendar = MonthCalendar::new(2024, 6, Weekday::Mon, 6, marker).unwrap();
    for day in [1, 3, 9, 14, 21, 29] {
        calendar.mark(date(2024, 6, day));
    }
    let expected = [
        "                   June                   ",
        " Mon   Tue   Wed   Thu   Fri   Sat   Sun  ",
        "                               <1 >   2   ",
        " <3 >   4     5     6     7     8    <9 > ",
        "  10    11    12    13   <14>   15    16  ",
        "  17    18    19    20   <21>   22    23  ",
        "  24    25    26    27    28   <29>   30  ",
    ];
    assert_eq!(calendar.lines(), expected);
}

#[test]
fn basic_markers_decorate() {
    assert_eq!(BasicMarker::Plain.decorate("7 "), "7 ");
    assert_eq!(BasicMarker::SquareBrackets.decorate("7 "), "[7 ]");
    assert_eq!(BasicMarker::UnderScore.decorate("12"), "_12_");
    assert_eq!(BasicMarker::Char('*').decorate("12"), "*12*");
    assert_eq!(BasicMarker::Char('*').decorate(""), "**");
}

#[test]
fn plain_and_char_markers_render() {
    let mut plain = MonthCalendar::new(2024, 2, Weekday::Sun, 4, BasicMarker::Plain).unwrap();
    plain.mark(date(2024, 2, 1));
    assert_eq!(plain.lines()[2], "                 1   2   3  ");
    let mut starred = MonthCalendar::new(2024, 2, Weekday::Sun, 4, BasicMarker::Char('*')).unwrap();
    starred.mark(date(2024, 2, 29));
    assert_eq!(starred.lines()[6], " 25  26  27  28 *29*        ");
}

#[test]
fn weeks_of_february_2024_partition_the_month() {
    let calendar = MonthCalendar::from_ym(2024, 2).unwrap();
    assert_eq!(calendar.weeks(), &vec![(1, 3), (4, 10), (11, 17), (18, 24), (25, 29)]);
    assert_eq!(calendar.rows(), 7);
    assert_eq!(calendar.height(), 7);
    assert_eq!(calendar.lines().len(), 7);
    assert_eq!(calendar.year(), 2024);
    assert_eq!(calendar.month(), 2);
    assert_eq!(calendar.day_width(), 4);
    assert_eq!(calendar.width(), 28);
}

#[test]
fn weeks_cover_every_month_of_some_years() {
    let lengths = [31u32, 28, 31, 30, 31, 30, 31, 31, 30, 31, 30, 31];
    for year in [-400, -1, 0, 1, 1900, 2000, 2023, 2024, 2100] {
        let leap = year % 4 == 0 && (year % 100 != 0 || year % 400 == 0);
        for month in 1..=12u32 {
            for begin in [Weekday::Sun, Weekday::Mon, Weekday::Thu] {
                let calendar =
                    MonthCalendar::new(year, month, begin, 4, BasicMarker::Plain).unwrap();
                let weeks = calendar.weeks();
                let days = if month == 2 && leap { 29 } else { lengths[month as usize - 1] };
                assert!(4 <= weeks.len() && weeks.len() <= 6);
                assert_eq!(weeks[0].0, 1);
                assert_eq!(weeks[weeks.len() - 1].1, days);
                for k in 0..weeks.len() {
                    assert!(weeks[k].0 <= weeks[k].1);
                    assert!(weeks[k].1 - weeks[k].0 < 7);
                    if k + 1 < weeks.len() {
                        assert_eq!(weeks[k + 1].0, weeks[k].1 + 1);
                        if k > 0 {
                            assert_eq!(weeks[k].1 - weeks[k].0, 6);
                        }
                    }
                }
                assert_eq!(calendar.rows(), weeks.len() + 2);
                assert_eq!(calendar.lines().len(), calendar.rows());
            }
        }
    }
}

#[test]
fn week_ranges_of_a_given_shape() {
    assert_eq!(
        week_ranges(29, Weekday::Thu, Weekday::Sun),
        vec![(1, 3), (4, 10), (11, 17), (18, 24), (25, 29)]
    );
    assert_eq!(
        week_ranges(28, Weekday::Sun, Weekday::Sun),
        vec![(1, 7), (8, 14), (15, 21), (22, 28)]
    );
    assert_eq!(
        week_ranges(31, Weekday::Sat, Weekday::Sun),
        vec![(1, 1), (2, 8), (9, 15), (16, 22), (23, 29), (30, 31)]
    );
    assert_eq!(
        week_ranges(30, Weekday::Sat, Weekday::Mon),
        vec![(1, 2), (3, 9), (10, 16), (17, 23), (24, 30)]
    );
    assert_eq!(week_ranges(1, Weekday::Wed, Weekday::Mon), vec![(1, 1)]);
}

#[test]
fn with_shape_lays_out_the_given_month() {
    let calendar =
        MonthCalendar::with_shape(2024, 2, 29, Weekday::Thu, Weekday::Sun, 4, BasicMarker::Plain);
    let expected = [
        "          February          ",
        " Su  Mo  Tu  We  Th  Fr  Sa ",
        "                 1   2   3  ",
        " 4   5   6   7   8   9   10 ",
        " 11  12  13  14  15  16  17 ",
        " 18  19  20  21  22  23  24 ",
        " 25  26  27  28  29         ",
    ];
    assert_eq!(calendar.lines(), expected);
    let other =
        MonthCalendar::with_shape(1, 9, 30, Weekday::Mon, Weekday::Mon, 5, BasicMarker::Plain);
    let lines = other.lines();
    assert_eq!(lines[0], "             September             ");
    assert_eq!(lines[1], " Mon  Tue  Wed  Thu  Fri  Sat  Sun ");
    assert_eq!(lines[2], "  1    2    3    4    5    6    7  ");
    assert_eq!(lines[6], " 29   30                           ");
}

#[test]
fn monday_start_and_wide_days() {
    let calendar = MonthCalendar::new(2024, 6, Weekday::Mon, 6, BasicMarker::Plain).unwrap();
    let lines = calendar.lines();
    assert_eq!(lines[0], "                   June                   ");
    assert_eq!(lines[1], " Mon   Tue   Wed   Thu   Fri   Sat   Sun  ");
    assert_eq!(lines[2], format!("{}  1     2   ", " ".repeat(30)));
}

#[test]
fn narrow_days_do_not_panic() {
    for width in [0usize, 1] {
        let calendar = MonthCalendar::new(2024, 9, Weekday::Sun, width, BasicMarker::Plain).unwrap();
        let lines = calendar.lines();
        assert_eq!(lines.len(), 7);
        assert_eq!(lines[0], "September");
        assert_eq!(lines[1], "SuMoTuWeThFrSa");
    }
    let one = MonthCalendar::new(2024, 9, Weekday::Sun, 1, BasicMarker::Plain).unwrap();
    assert_eq!(one.lines()[2], "1234567");
    assert_eq!(one.lines()[3], "891011121314");
}

#[test]
fn every_line_of_a_month_is_seven_days_wide() {
    for width in [2usize, 3, 4, 5, 8] {
        for month in 1..=12u32 {
            let calendar =
                MonthCalendar::new(2024, month, Weekday::Sun, width, BasicMarker::Plain).unwrap();
            assert_eq!(calendar.width(), 7 * width);
            for line in calendar.lines() {
                assert_eq!(line.chars().count(), 7 * width);
            }
        }
    }
    let mut marked = MonthCalendar::from_ym(2024, 2).unwrap();
    marked.mark(date(2024, 2, 1));
    marked.mark(date(2024, 2, 29));
    for line in marked.lines() {
        assert_eq!(line.chars().count(), 28);
    }
}

#[test]
fn a_decoration_wider_than_a_day_widens_its_line() {
    let mut calendar =
        MonthCalendar::new(2024, 2, Weekday::Sun, 2, BasicMarker::SquareBrackets).unwrap();
    calendar.mark(date(2024, 2, 1));
    let lines = calendar.lines();
    assert_eq!(lines[2], "        [1 ]2 3 ");
    assert_eq!(lines[2].chars().count(), 16);
    assert_eq!(lines[3].chars().count(), 14);
}

#[test]
fn marks_keep_to_their_month() {
    let mut calendar = MonthCalendar::from_ym(2024, 2).unwrap();
    assert!(!calendar.is_marked(date(2024, 2, 10)));
    calendar.mark(date(2024, 2, 10));
    assert!(calendar.is_marked(date(2024, 2, 10)));
    assert!(!calendar.is_marked(date(2024, 3, 10)));
    assert!(!calendar.is_marked(date(2023, 2, 10)));
    calendar.mark(date(2024, 3, 11));
    assert!(!calendar.is_marked(date(2024, 3, 11)));
    assert!(!calendar.is_marked(date(2024, 2, 11)));
    calendar.mark(date(2023, 2, 12));
    assert!(!calendar.is_marked(date(2024, 2, 12)));
    calendar.unmark(date(2024, 2, 10));
    assert!(!calendar.is_marked(date(2024, 2, 10)));
    calendar.unmark(date(2024, 2, 10));
    assert!(!calendar.is_marked(date(2024, 2, 10)));
}

#[test]
fn unmark_goes_by_the_day_number() {
    let mut calendar = MonthCalendar::from_ym(2024, 2).unwrap();
    calendar.mark(date(2024, 2, 10));
    calendar.mark(date(2024, 2, 11));
    calendar.unmark(date(2025, 7, 10));
    assert!(!calendar.is_marked(date(2024, 2, 10)));
    assert!(calendar.is_marked(date(2024, 2, 11)));
}

#[test]
fn years_before_the_common_era() {
    let calendar = MonthCalendar::new(-4, 2, Weekday::Sun, 4, BasicMarker::Plain).unwrap();
    assert_eq!(calendar.weeks()[calendar.weeks().len() - 1].1, 29);
    let mut zero = MonthCalendar::from_ym(0, 1).unwrap();
    zero.mark(date(0, 1, 5));
    assert!(zero.is_marked(date(0, 1, 5)));
    assert!(!zero.is_marked(date(-1, 1, 5)));
}

#[test]
fn months_that_do_not_exist() {
    assert!(MonthCalendar::from_ym(2024, 0).is_none());
    assert!(MonthCalendar::from_ym(2024, 13).is_none());
    assert!(MonthCalendar::from_ym(400000, 1).is_none());
    assert!(MonthCalendar::from_ym(-400000, 1).is_none());
    assert!(MonthCalendar::new(2024, 13, Weekday::Mon, 4, BasicMarker::Plain).is_none());
    assert!(str_month_calendar(2024, 13).is_none());
    assert!(str_month_calendar(2024, 0).is_none());
}

#[test]
fn str_month_calendar_is_the_default_layout() {
    let expected = [
        "          February          ",
        " Su  Mo  Tu  We  Th  Fr  Sa ",
        "                 1   2   3  ",
        " 4   5   6   7   8   9   10 ",
        " 11  12  13  14  15  16  17 ",
        " 18  19  20  21  22  23  24 ",
        " 25  26  27  28  29         ",
    ];
    assert_eq!(str_month_calendar(2024, 2).unwrap(), expected.join("\n"));
    assert_eq!(
        str_month_calendar(2024, 6).unwrap(),
        MonthCalendar::from_ym(2024, 6).unwrap().to_string()
    );
}

#[test]
fn names_of_all_months_and_days() {
    let names = [
        "January", "February", "March", "April", "May", "June", "July", "August", "September",
        "October", "November", "December",
    ];
    for month in 1..=12u32 {
        let calendar = MonthCalendar::new(2024, month, Weekday::Mon, 5, BasicMarker::Plain).unwrap();
        let lines = calendar.lines();
        assert_eq!(lines[0].trim(), names[month as usize - 1]);
        assert_eq!(lines[1], " Mon  Tue  Wed  Thu  Fri  Sat  Sun ");
    }
    let thursday = MonthCalendar::new(2024, 1, Weekday::Thu, 4, BasicMarker::Plain).unwrap();
    assert_eq!(thursday.lines()[1], " Th  Fr  Sa  Su  Mo  Tu  We ");
}
