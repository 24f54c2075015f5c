use text_calendar::text::{
    blank, center, decimal_string, joined, signed_decimal_string,
};
use text_calendar::{Date, Weekday};

#[test]
fn centring_puts_the_odd_space_on_the_right() {
    assert_eq!(center("1", 4), " 1  ");
    assert_eq!(center("10", 4), " 10 ");
    assert_eq!(center("1", 2), "1 ");
    assert_eq!(center("abc", 8), "  abc   ");
    assert_eq!(center("abc", 3), "abc");
    assert_eq!(center("abcd", 3), "abcd");
    assert_eq!(center("", 3), "   ");
    assert_eq!(center("", 0), "");
    assert_eq!(center("é", 3), " é ");
    assert_eq!(center("February", 28), format!("{: ^28}", "February"));
    for width in 0..12usize {
        for text in ["", "a", "ab", "abc", "abcdefg"] {
            assert_eq!(center(text, width), format!("{: ^width$}", text, width = width));
        }
    }
}

#[test]
fn blank_runs() {
    assert_eq!(blank(0), "");
    assert_eq!(blank(5), "     ");
}

#[test]
fn decimal_numerals() {
    assert_eq!(decimal_string(0), "0");
    assert_eq!(decimal_string(7), "7");
    assert_eq!(decimal_string(10), "10");
    assert_eq!(decimal_string(31), "31");
    assert_eq!(decimal_string(2024), "2024");
    assert_eq!(decimal_string(u32::MAX), "4294967295");
    assert_eq!(signed_decimal_string(2024), "2024");
    assert_eq!(signed_decimal_string(0), "0");
    assert_eq!(signed_decimal_string(-1), "-1");
    assert_eq!(signed_decimal_string(i32::MIN), "-2147483648");
    assert_eq!(signed_decimal_string(i32::MAX), "2147483647");
    for n in [1, 9, 10, 99, 100, 12345, 262142] {
        assert_eq!(decimal_string(n), n.to_string());
        assert_eq!(signed_decimal_string(-(n as i32)), (-(n as i32)).to_string());
    }
}

#[test]
fn joining_lines() {
    assert_eq!(joined(&vec![]), "");
    assert_eq!(joined(&vec!["a".to_string()]), "a");
    assert_eq!(joined(&vec!["a".to_string(), "".to_string(), "b".to_string()]), "a\n\nb");
}

#[test]
fn dates_of_the_calendar() {
    let date = Date::from_ymd_opt(2024, 2, 29).unwrap();
    assert_eq!((date.year(), date.month(), date.day()), (2024, 2, 29));
    assert!(Date::from_ymd_opt(2023, 2, 29).is_none());
    assert!(Date::from_ymd_opt(2024, 2, 30).is_none());
    assert!(Date::from_ymd_opt(2024, 4, 31).is_none());
    assert!(Date::from_ymd_opt(2024, 4, 30).is_some());
    assert!(Date::from_ymd_opt(2024, 1, 0).is_none());
    assert!(Date::from_ymd_opt(2024, 0, 1).is_none());
    assert!(Date::from_ymd_opt(2024, 13, 1).is_none());
    assert!(Date::from_ymd_opt(1900, 2, 29).is_none());
    assert!(Date::from_ymd_opt(2000, 2, 29).is_some());
    assert!(Date::from_ymd_opt(-4, 2, 29).is_some());
    assert!(Date::from_ymd_opt(400000, 1, 1).is_none());
    assert_eq!(Date::from_ymd_opt(2024, 1, 1), Date::from_ymd_opt(2024, 1, 1));
    assert_ne!(Date::from_ymd_opt(2024, 1, 1), Date::from_ymd_opt(2024, 1, 2));
}

#[test]
fn days_of_the_week() {
    let days = [
        Weekday::Mon,
        Weekday::Tue,
        Weekday::Wed,
        Weekday::Thu,
        Weekday::Fri,
        Weekday::Sat,
        Weekday::Sun,
    ];
    for (i, day) in days.iter().enumerate() {
        assert_eq!(day.num_days_from_monday(), i as u32);
        assert_eq!(day.succ(), days[(i + 1) % 7]);
        assert_eq!(day.pred(), days[(i + 6) % 7]);
        for (j, other) in days.iter().enumerate() {
            assert_eq!(day.days_since(*other), ((i + 7 - j) % 7) as u32);
        }
    }
    assert_eq!(Weekday::Sun.days_since(Weekday::Tue), 5);
    assert_eq!(Weekday::Wed.days_since(Weekday::Sun), 3);
}
