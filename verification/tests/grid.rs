use text_calendar::{
    BasicMarker, Block, Calendar, Calendars, Date, EmptyCalendar, MonthCalendar, Weekday,
    YearCalendar,
};

fn date(year: i32, month: u32, day: u32) -> Date {
    Date::from_ymd_opt(year, month, day).expect("Invalid date")
}

fn months_of_2024(day_width: usize) -> Vec<Block<BasicMarker>> {
    let mut list = vec![];
    for month in 1..13 {
        list.push(Block::Month(
            MonthCalendar::new(2024, month, Weekday::Sun, day_width, BasicMarker::SquareBrackets)
                .unwrap(),
        ));
    }
    list
}

#[test]
fn calendars_test() {
    let mut c2024: Vec<Block<BasicMarker>> = vec![];

    for month in 1..13 {
        c2024.push(Block::Month(MonthCalendar::from_ym(2024, month).unwrap()));
    }

    c2024[1 - 1].mark(date(2024, 1, 1));
    c2024[2 - 1].mark(date(2024, 2, 10));
    c2024[2 - 1].mark(date(2024, 2, 13));
    c2024[6 - 1].mark(date(2024, 6, 27));
    c2024[8 - 1].mark(date(2024, 8, 10));
    c2024[8 - 1].mark(date(2024, 8, 11));

    let cals = Calendars::new(c2024, "2024".to_string(), 5);
    println!("{}", cals.to_string());
}

#[test]
fn marked_months_in_five_columns() {
    let mut c2024 = months_of_2024(4);
    c2024[0].mark(date(2024, 1, 1));
    c2024[1].mark(date(2024, 2, 10));
    c2024[1].mark(date(2024, 2, 13));
    c2024[5].mark(date(2024, 6, 27));
    c2024[7].mark(date(2024, 8, 10));
    c2024[7].mark(date(2024, 8, 11));
    let cals = Calendars::new(c2024, "2024".to_string(), 5);
    let lines = cals.lines();
    assert_eq!(cals.width(), 5 * 28 + 4 * 4);
    assert_eq!(cals.height(), 1 + (8 + 8 + 7) + 2);
    assert_eq!(lines.len(), cals.height());
    for line in &lines {
        assert_eq!(line.chars().count(), 156);
    }
    assert_eq!(lines[0].trim(), "2024");
    let gap = " ".repeat(4);
    assert!(lines[3].starts_with(&format!(
        "    [1 ] 2   3   4   5   6  {}                 1   2   3  {}",
        gap, gap
    )));
    assert!(lines[4].starts_with(&format!(
        " 7   8   9   10  11  12  13 {} 4   5   6   7   8   9  [10]{}",
        gap, gap
    )));
    assert!(cals.is_marked(date(2024, 6, 27)));
    assert!(!cals.is_marked(date(2024, 6, 28)));
    let last = &lines[lines.len() - 1];
    assert_eq!(last.trim_end(), " 24  25  26  27  28  29  30      29  30  31");
    assert_eq!(lines[lines.len() - 8].trim_end(), "");
}

#[test]
fn reversed_months_in_five_columns() {
    let mut list: Vec<Block<BasicMarker>> = vec![];
    for month in (1..=12).rev() {
        list.push(Block::Month(
            MonthCalendar::new(2024, month, Weekday::Sun, 8, BasicMarker::SquareBrackets).unwrap(),
        ));
    }
    let calendars = Calendars::new(list, "Reversed Calendar".to_string(), 5);
    let expected = [
        "                                                                                                                                                   Reversed Calendar                                                                                                                                                    ",
        "                        December                                                        November                                                        October                                                        September                                                         August                         ",
        "  Sun     Mon     Tue     Wed     Thu     Fri     Sat             Sun     Mon     Tue     Wed     Thu     Fri     Sat             Sun     Mon     Tue     Wed     Thu     Fri     Sat             Sun     Mon     Tue     Wed     Thu     Fri     Sat             Sun     Mon     Tue     Wed     Thu     Fri     Sat   ",
        "   1       2       3       4       5       6       7                                                       1       2                               1       2       3       4       5               1       2       3       4       5       6       7                                               1       2       3    ",
        "   8       9       10      11      12      13      14              3       4       5       6       7       8       9               6       7       8       9       10      11      12              8       9       10      11      12      13      14              4       5       6       7       8       9       10   ",
        "   15      16      17      18      19      20      21              10      11      12      13      14      15      16              13      14      15      16      17      18      19              15      16      17      18      19      20      21              11      12      13      14      15      16      17   ",
        "   22      23      24      25      26      27      28              17      18      19      20      21      22      23              20      21      22      23      24      25      26              22      23      24      25      26      27      28              18      19      20      21      22      23      24   ",
        "   29      30      31                                              24      25      26      27      28      29      30              27      28      29      30      31                              29      30                                                      25      26      27      28      29      30      31   ",
        "                                                                                                                                                                                                                                                                                                                        ",
        "                          July                                                            June                                                            May                                                            April                                                           March                          ",
        "  Sun     Mon     Tue     Wed     Thu     Fri     Sat             Sun     Mon     Tue     Wed     Thu     Fri     Sat             Sun     Mon     Tue     Wed     Thu     Fri     Sat             Sun     Mon     Tue     Wed     Thu     Fri     Sat             Sun     Mon     Tue     Wed     Thu     Fri     Sat   ",
        "           1       2       3       4       5       6                                                               1                                       1       2       3       4                       1       2       3       4       5       6                                                       1       2    ",
        "   7       8       9       10      11      12      13              2       3       4       5       6       7       8               5       6       7       8       9       10      11              7       8       9       10      11      12      13              3       4       5       6       7       8       9    ",
        "   14      15      16      17      18      19      20              9       10      11      12      13      14      15              12      13      14      15      16      17      18              14      15      16      17      18      19      20              10      11      12      13      14      15      16   ",
        "   21      22      23      24      25      26      27              16      17      18      19      20      21      22              19      20      21      22      23      24      25              21      22      23      24      25      26      27              17      18      19      20      21      22      23   ",
        "   28      29      30      31                                      23      24      25      26      27      28      29              26      27      28      29      30      31                      28      29      30                                              24      25      26      27      28      29      30   ",
        "                                                                   30                                                                                                                                                                                              31                                                   ",
        "                                                                                                                                                                                                                                                                                                                        ",
        "                        February                                                        January                                                                                                                                                                                                                         ",
        "  Sun     Mon     Tue     Wed     Thu     Fri     Sat             Sun     Mon     Tue     Wed     Thu     Fri     Sat                                                                                                                                                                                                   ",
        "                                   1       2       3                       1       2       3       4       5       6                                                                                                                                                                                                    ",
        "   4       5       6       7       8       9       10              7       8       9       10      11      12      13                                                                                                                                                                                                   ",
        "   11      12      13      14      15      16      17              14      15      16      17      18      19      20                                                                                                                                                                                                   ",
        "   18      19      20      21      22      23      24              21      22      23      24      25      26      27                                                                                                                                                                                                   ",
        "   25      26      27      28      29                              28      29      30      31                                                                                                                                                                                                                           ",
    ];
    assert_eq!(calendars.lines(), expected);
    assert_eq!(calendars.to_string(), expected.join("\n"));
    assert_eq!(calendars.render(), expected.join("\n"));
    assert_eq!(calendars.width(), 312);
    assert_eq!(calendars.height(), 25);
    assert_eq!(calendars.day_width(), 8);
    assert_eq!(calendars.height_list(), vec![7, 8, 7]);
}

#[test]
fn years_side_by_side() {
    let cal2024 = YearCalendar::new(2024, Weekday::Sun, 4, BasicMarker::SquareBrackets);
    let cal2025 = YearCalendar::new(2025, Weekday::Sun, 4, BasicMarker::SquareBrackets);
    let cal2026 = YearCalendar::new(2026, Weekday::Sun, 4, BasicMarker::SquareBrackets);
    let calendars = Calendars::new(
        vec![Block::Year(cal2024), Block::Year(cal2025), Block::Year(cal2026)],
        String::from("24,25,26 Calendar"),
        3,
    );
    let expected = [
        "                                                                                                                                              24,25,26 Calendar                                                                                                                                               ",
        "                                            2024                                                                                                     2025                                                                                                     2026                                            ",
        "          January                         February                         March                                   January                         February                         March                                   January                         February                         March            ",
        " Su  Mo  Tu  We  Th  Fr  Sa      Su  Mo  Tu  We  Th  Fr  Sa      Su  Mo  Tu  We  Th  Fr  Sa               Su  Mo  Tu  We  Th  Fr  Sa      Su  Mo  Tu  We  Th  Fr  Sa      Su  Mo  Tu  We  Th  Fr  Sa               Su  Mo  Tu  We  Th  Fr  Sa      Su  Mo  Tu  We  Th  Fr  Sa      Su  Mo  Tu  We  Th  Fr  Sa ",
        "     1   2   3   4   5   6                       1   2   3                           1   2                            1   2   3   4                               1                               1                                1   2   3       1   2   3   4   5   6   7       1   2   3   4   5   6   7  ",
        " 7   8   9   10  11  12  13      4   5   6   7   8   9   10      3   4   5   6   7   8   9                5   6   7   8   9   10  11      2   3   4   5   6   7   8       2   3   4   5   6   7   8                4   5   6   7   8   9   10      8   9   10  11  12  13  14      8   9   10  11  12  13  14 ",
        " 14  15  16  17  18  19  20      11  12  13  14  15  16  17      10  11  12  13  14  15  16               12  13  14  15  16  17  18      9   10  11  12  13  14  15      9   10  11  12  13  14  15               11  12  13  14  15  16  17      15  16  17  18  19  20  21      15  16  17  18  19  20  21 ",
        " 21  22  23  24  25  26  27      18  19  20  21  22  23  24      17  18  19  20  21  22  23               19  20  21  22  23  24  25      16  17  18  19  20  21  22      16  17  18  19  20  21  22               18  19  20  21  22  23  24      22  23  24  25  26  27  28      22  23  24  25  26  27  28 ",
        " 28  29  30  31                  25  26  27  28  29              24  25  26  27  28  29  30               26  27  28  29  30  31          23  24  25  26  27  28          23  24  25  26  27  28  29               25  26  27  28  29  30  31                                      29  30  31                 ",
        "                                                                 31                                                                                                       30  31                                                                                                                              ",
        "                                                                                                                                                                                                                             April                            May                             June            ",
        "           April                            May                             June                                    April                            May                             June                          Su  Mo  Tu  We  Th  Fr  Sa      Su  Mo  Tu  We  Th  Fr  Sa      Su  Mo  Tu  We  Th  Fr  Sa ",
        " Su  Mo  Tu  We  Th  Fr  Sa      Su  Mo  Tu  We  Th  Fr  Sa      Su  Mo  Tu  We  Th  Fr  Sa               Su  Mo  Tu  We  Th  Fr  Sa      Su  Mo  Tu  We  Th  Fr  Sa      Su  Mo  Tu  We  Th  Fr  Sa                           1   2   3   4                           1   2           1   2   3   4   5   6  ",
        "     1   2   3   4   5   6                   1   2   3   4                               1                        1   2   3   4   5                       1   2   3       1   2   3   4   5   6   7                5   6   7   8   9   10  11      3   4   5   6   7   8   9       7   8   9   10  11  12  13 ",
        " 7   8   9   10  11  12  13      5   6   7   8   9   10  11      2   3   4   5   6   7   8                6   7   8   9   10  11  12      4   5   6   7   8   9   10      8   9   10  11  12  13  14               12  13  14  15  16  17  18      10  11  12  13  14  15  16      14  15  16  17  18  19  20 ",
        " 14  15  16  17  18  19  20      12  13  14  15  16  17  18      9   10  11  12  13  14  15               13  14  15  16  17  18  19      11  12  13  14  15  16  17      15  16  17  18  19  20  21               19  20  21  22  23  24  25      17  18  19  20  21  22  23      21  22  23  24  25  26  27 ",
        " 21  22  23  24  25  26  27      19  20  21  22  23  24  25      16  17  18  19  20  21  22               20  21  22  23  24  25  26      18  19  20  21  22  23  24      22  23  24  25  26  27  28               26  27  28  29  30              24  25  26  27  28  29  30      28  29  30                 ",
        " 28  29  30                      26  27  28  29  30  31          23  24  25  26  27  28  29               27  28  29  30                  25  26  27  28  29  30  31      29  30                                                                   31                                                         ",
        "                                                                 30                                                                                                                                                                                                                                           ",
        "                                                                                                                     July                           August                        September                                   July                           August                        September          ",
        "            July                           August                        September                        Su  Mo  Tu  We  Th  Fr  Sa      Su  Mo  Tu  We  Th  Fr  Sa      Su  Mo  Tu  We  Th  Fr  Sa               Su  Mo  Tu  We  Th  Fr  Sa      Su  Mo  Tu  We  Th  Fr  Sa      Su  Mo  Tu  We  Th  Fr  Sa ",
        " Su  Mo  Tu  We  Th  Fr  Sa      Su  Mo  Tu  We  Th  Fr  Sa      Su  Mo  Tu  We  Th  Fr  Sa                       1   2   3   4   5                           1   2           1   2   3   4   5   6                            1   2   3   4                               1               1   2   3   4   5  ",
        "     1   2   3   4   5   6                       1   2   3       1   2   3   4   5   6   7                6   7   8   9   10  11  12      3   4   5   6   7   8   9       7   8   9   10  11  12  13               5   6   7   8   9   10  11      2   3   4   5   6   7   8       6   7   8   9   10  11  12 ",
        " 7   8   9   10  11  12  13      4   5   6   7   8   9   10      8   9   10  11  12  13  14               13  14  15  16  17  18  19      10  11  12  13  14  15  16      14  15  16  17  18  19  20               12  13  14  15  16  17  18      9   10  11  12  13  14  15      13  14  15  16  17  18  19 ",
        " 14  15  16  17  18  19  20      11  12  13  14  15  16  17      15  16  17  18  19  20  21               20  21  22  23  24  25  26      17  18  19  20  21  22  23      21  22  23  24  25  26  27               19  20  21  22  23  24  25      16  17  18  19  20  21  22      20  21  22  23  24  25  26 ",
        " 21  22  23  24  25  26  27      18  19  20  21  22  23  24      22  23  24  25  26  27  28               27  28  29  30  31              24  25  26  27  28  29  30      28  29  30                               26  27  28  29  30  31          23  24  25  26  27  28  29      27  28  29  30             ",
        " 28  29  30  31                  25  26  27  28  29  30  31      29  30                                                                   31                                                                                                       30  31                                                     ",
        "                                                                                                                                                                                                                                                                                                              ",
        "          October                         November                        December                                 October                         November                        December                                 October                         November                        December          ",
        " Su  Mo  Tu  We  Th  Fr  Sa      Su  Mo  Tu  We  Th  Fr  Sa      Su  Mo  Tu  We  Th  Fr  Sa               Su  Mo  Tu  We  Th  Fr  Sa      Su  Mo  Tu  We  Th  Fr  Sa      Su  Mo  Tu  We  Th  Fr  Sa               Su  Mo  Tu  We  Th  Fr  Sa      Su  Mo  Tu  We  Th  Fr  Sa      Su  Mo  Tu  We  Th  Fr  Sa ",
        "         1   2   3   4   5                           1   2       1   2   3   4   5   6   7                            1   2   3   4                               1           1   2   3   4   5   6                                1   2   3       1   2   3   4   5   6   7               1   2   3   4   5  ",
        " 6   7   8   9   10  11  12      3   4   5   6   7   8   9       8   9   10  11  12  13  14               5   6   7   8   9   10  11      2   3   4   5   6   7   8       7   8   9   10  11  12  13               4   5   6   7   8   9   10      8   9   10  11  12  13  14      6   7   8   9   10  11  12 ",
        " 13  14  15  16  17  18  19      10  11  12  13  14  15  16      15  16  17  18  19  20  21               12  13  14  15  16  17  18      9   10  11  12  13  14  15      14  15  16  17  18  19  20               11  12  13  14  15  16  17      15  16  17  18  19  20  21      13  14  15  16  17  18  19 ",
        " 20  21  22  23  24  25  26      17  18  19  20  21  22  23      22  23  24  25  26  27  28               19  20  21  22  23  24  25      16  17  18  19  20  21  22      21  22  23  24  25  26  27               18  19  20  21  22  23  24      22  23  24  25  26  27  28      20  21  22  23  24  25  26 ",
        " 27  28  29  30  31              24  25  26  27  28  29  30      29  30  31                               26  27  28  29  30  31          23  24  25  26  27  28  29      28  29  30  31                           25  26  27  28  29  30  31      29  30                          27  28  29  30  31         ",
        "                                                                                                                                          30                                                                                                                                                                  ",
    ];
    assert_eq!(calendars.lines(), expected);
    assert_eq!(calendars.width(), 302);
}

#[test]
fn padding_fills_the_last_row() {
    for (count, cols, padded) in
        [(12usize, 5usize, 15usize), (12, 3, 12), (12, 7, 14), (1, 4, 4), (5, 1, 5), (7, 12, 12)]
    {
        let mut list = months_of_2024(4);
        list.truncate(count);
        let calendars = Calendars::new(list, "t".to_string(), cols);
        let rows = padded / cols;
        assert_eq!(calendars.height_list().len(), rows);
        assert_eq!(calendars.width(), cols * 28 + (cols - 1) * 4);
        let lines = calendars.lines();
        assert_eq!(lines.len(), calendars.height());
        let last_row = calendars.height_list()[rows - 1];
        for line in &lines[lines.len() - last_row..] {
            assert_eq!(line.chars().count(), calendars.width());
            let filled = count - (rows - 1) * cols;
            let blank: String = line.chars().skip(filled * 32).collect();
            assert_eq!(blank.trim(), "");
        }
    }
}

#[test]
fn blank_blocks_render_as_spaces() {
    let empty = EmptyCalendar::new(3, 4);
    assert_eq!(empty.lines(), vec![" ".repeat(28), " ".repeat(28), " ".repeat(28)]);
    assert_eq!(empty.to_string(), format!("{0}\n{0}\n{0}", " ".repeat(28)));
    assert_eq!(empty.render(), empty.to_string());
    assert_eq!(empty.height(), 3);
    assert_eq!(empty.width(), 28);
    assert_eq!(empty.day_width(), 4);
    let none = EmptyCalendar::default();
    assert_eq!(none.lines().len(), 0);
    assert_eq!(none.to_string(), "");
    assert_eq!(none.width(), 0);
}

#[test]
fn blank_blocks_are_never_marked() {
    let mut empty = EmptyCalendar::new(2, 3);
    empty.mark(date(2024, 2, 1));
    assert!(!empty.is_marked(date(2024, 2, 1)));
    empty.unmark(date(2024, 2, 1));
    assert!(!empty.is_marked(date(2024, 2, 1)));
    assert_eq!(empty.lines(), vec![" ".repeat(21), " ".repeat(21)]);
}

#[test]
fn every_line_of_a_grid_has_its_width() {
    for cols in 1..=13usize {
        let calendars = Calendars::new(months_of_2024(4), "2024".to_string(), cols);
        let lines = calendars.lines();
        assert_eq!(lines.len(), calendars.height());
        for line in &lines {
            assert_eq!(line.chars().count(), calendars.width(), "{} columns", cols);
        }
    }
}

#[test]
fn a_grid_without_blocks_has_no_lines() {
    let calendars: Calendars<BasicMarker> = Calendars::new(vec![], "nothing".to_string(), 3);
    assert_eq!(calendars.lines().len(), 0);
    assert_eq!(calendars.to_string(), "");
    assert_eq!(calendars.height(), 0);
    assert_eq!(calendars.width(), 0);
    assert_eq!(calendars.day_width(), 0);
    assert!(!calendars.is_marked(date(2024, 1, 1)));
}

#[test]
fn marks_go_to_every_block() {
    let mut calendars = Calendars::new(months_of_2024(4), "2024".to_string(), 4);
    let before = calendars.lines();
    calendars.mark(date(2024, 2, 10));
    assert!(calendars.is_marked(date(2024, 2, 10)));
    assert!(!calendars.is_marked(date(2024, 3, 10)));
    assert!(!calendars.is_marked(date(2025, 2, 10)));
    assert_ne!(calendars.lines(), before);
    calendars.mark(date(2025, 2, 11));
    assert!(!calendars.is_marked(date(2025, 2, 11)));
    assert!(!calendars.is_marked(date(2024, 2, 11)));
    calendars.mark(date(2024, 7, 10));
    calendars.unmark(date(2024, 2, 10));
    assert!(!calendars.is_marked(date(2024, 2, 10)));
    assert!(!calendars.is_marked(date(2024, 7, 10)));
    assert_eq!(calendars.lines(), before);
}

#[test]
fn blocks_of_different_heights_share_a_row() {
    let list: Vec<Block<BasicMarker>> = vec![
        Block::Month(MonthCalendar::from_ym(2024, 2).unwrap()),
        Block::Empty(EmptyCalendar::new(2, 1)),
        Block::Month(MonthCalendar::from_ym(2024, 3).unwrap()),
    ];
    let calendars = Calendars::new(list, "mixed".to_string(), 3);
    assert_eq!(calendars.width(), 28 + 7 + 28 + 2 * 3);
    assert_eq!(calendars.height(), 1 + 8);
    let lines = calendars.lines();
    assert_eq!(lines[0], format!("{}mixed{}", " ".repeat(32), " ".repeat(32)));
    assert_eq!(
        lines[1],
        format!("          February          {}           March            ", " ".repeat(13))
    );
    assert_eq!(lines[2], format!("{0}{1}{0}", " Su  Mo  Tu  We  Th  Fr  Sa ", " ".repeat(13)));
    assert_eq!(lines[8], format!("{} 31                         ", " ".repeat(41)));
}

#[test]
fn a_title_wider_than_the_grid_is_kept() {
    let list: Vec<Block<BasicMarker>> = vec![Block::Empty(EmptyCalendar::new(1, 1))];
    let calendars = Calendars::new(list, "a long title".to_string(), 1);
    assert_eq!(calendars.lines(), vec!["a long title".to_string(), " ".repeat(7)]);
    assert_eq!(calendars.width(), 7);
}

#[test]
fn grids_in_grids() {
    let inner = Calendars::new(months_of_2024(2), "in".to_string(), 6);
    let width = inner.width();
    let height = inner.height();
    assert_eq!(width, 6 * 14 + 5 * 2);
    let outer = Calendars::new(
        vec![Block::Grid(inner), Block::Month(MonthCalendar::from_ym(2024, 1).unwrap())],
        "out".to_string(),
        2,
    );
    assert_eq!(outer.height(), 1 + height);
    assert_eq!(outer.day_width(), 4);
    let padding = (width + 28) / 2 / 7;
    assert_eq!(outer.width(), width + 28 + padding);
    for line in outer.lines() {
        assert_eq!(line.chars().count(), outer.width());
    }
}

#[test]
fn grids_that_cannot_be() {
    assert!(Calendars::try_new(months_of_2024(4), "none".to_string(), 0).is_none());
    let grid = Calendars::try_new(months_of_2024(4), "2024".to_string(), 5).unwrap();
    assert_eq!(grid.lines(), Calendars::new(months_of_2024(4), "2024".to_string(), 5).lines());
    let wide: Vec<Block<BasicMarker>> = vec![
        Block::Empty(EmptyCalendar::new(1, usize::MAX / 7)),
        Block::Empty(EmptyCalendar::new(1, usize::MAX / 7)),
    ];
    assert!(Calendars::try_new(wide, "wide".to_string(), 2).is_none());
    let high: Vec<Block<BasicMarker>> = vec![
        Block::Empty(EmptyCalendar::new(usize::MAX - 1, 0)),
        Block::Empty(EmptyCalendar::new(1, 0)),
    ];
    assert!(Calendars::try_new(high, "high".to_string(), 1).is_none());
    let fits: Vec<Block<BasicMarker>> = vec![Block::Empty(EmptyCalendar::new(usize::MAX - 1, 0))];
    assert_eq!(Calendars::try_new(fits, "fits".to_string(), 1).unwrap().height(), usize::MAX);
}
