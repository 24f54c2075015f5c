//! Calendars rendered as fixed-width text: single months, whole years and
//! grids of calendars, with individual dates marked and decorated.

pub mod calendar;
pub mod calendars;
pub mod date;
pub mod empty_calendar;
pub mod layout;
pub mod marker;
pub mod month_calendar;
pub mod text;
pub mod year_calendar;

pub use calendar::{BlockView, Calendar, Change};
pub use calendars::{Block, Calendars};
pub use date::{Date, Day, Weekday};
pub use empty_calendar::EmptyCalendar;
pub use marker::{BasicMarker, Marker};
pub use month_calendar::{str_month_calendar, week_ranges, MonthCalendar, MonthView};
pub use year_calendar::YearCalendar;
