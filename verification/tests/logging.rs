use chrono::{Datelike, Local, NaiveDate, Timelike};
use refdata::logging::{
    format_line, level_color, log_file_name, log_line, logger_setting_at, timestamp, Color, Level,
    LocalTime,
};
use refdata::logger_setting;

fn at(year: i32, month: u32, day: u32, hour: u32, minute: u32, second: u32) -> LocalTime {
    LocalTime { year, month, day, hour, minute, second }
}

#[test]
fn file_name_of_a_day() {
    assert_eq!(log_file_name(&at(2026, 10, 28, 13, 5, 9)), "20261028.log");
    assert_eq!(log_file_name(&at(2024, 1, 2, 0, 0, 0)), "20240102.log");
    assert_eq!(log_file_name(&at(999, 12, 31, 23, 59, 59)), "09991231.log");
    assert_eq!(log_file_name(&at(0, 1, 1, 0, 0, 0)), "00000101.log");
}

#[test]
fn file_name_of_a_far_year() {
    assert_eq!(log_file_name(&at(10000, 1, 1, 0, 0, 0)), "+100000101.log");
    assert_eq!(log_file_name(&at(-1, 3, 4, 0, 0, 0)), "-00010304.log");
    assert_eq!(log_file_name(&at(-12345, 3, 4, 0, 0, 0)), "-123450304.log");
    assert_eq!(log_file_name(&at(i32::MIN, 1, 1, 0, 0, 0)), "-21474836480101.log");
    assert_eq!(log_file_name(&at(i32::MAX, 1, 1, 0, 0, 0)), "+21474836470101.log");
}

#[test]
fn stamps_agree_with_chrono() {
    let days = [
        (2026, 10, 28),
        (1, 1, 1),
        (0, 2, 29),
        (999, 9, 9),
        (9999, 12, 31),
        (10000, 1, 1),
        (-1, 12, 31),
        (-9999, 6, 15),
        (262142, 12, 31),
        (-262143, 1, 1),
    ];
    for (year, month, day) in days {
        let date = NaiveDate::from_ymd_opt(year, month, day).unwrap();
        let moment = date.and_hms_opt(7, 8, 9).unwrap();
        let time = at(year, month, day, 7, 8, 9);
        assert_eq!(log_file_name(&time), format!("{}.log", moment.format("%Y%m%d")));
        assert_eq!(timestamp(&time), moment.format("%Y-%m-%d %H:%M:%S").to_string());
    }
}

#[test]
fn timestamp_of_a_moment() {
    assert_eq!(timestamp(&at(2026, 10, 28, 13, 5, 9)), "2026-10-28 13:05:09");
    assert_eq!(timestamp(&at(2000, 1, 1, 0, 0, 0)), "2000-01-01 00:00:00");
    assert_eq!(timestamp(&at(1999, 12, 31, 23, 59, 59)), "1999-12-31 23:59:59");
}

#[test]
fn line_of_each_severity() {
    let time = at(2026, 10, 28, 13, 5, 9);
    assert_eq!(
        format_line(&time, Level::Info, "app::lib", "Loading CSV file: data.csv"),
        "2026-10-28 13:05:09 [INFO] app::lib - Loading CSV file: data.csv\n"
    );
    assert_eq!(format_line(&time, Level::Error, "t", "m"), "2026-10-28 13:05:09 [ERROR] t - m\n");
    assert_eq!(format_line(&time, Level::Warn, "t", "m"), "2026-10-28 13:05:09 [WARN] t - m\n");
    assert_eq!(format_line(&time, Level::Debug, "t", "m"), "2026-10-28 13:05:09 [DEBUG] t - m\n");
    assert_eq!(format_line(&time, Level::Trace, "", ""), "2026-10-28 13:05:09 [TRACE]  - \n");
}

#[test]
fn line_is_one_line() {
    let line = format_line(&at(2026, 1, 1, 1, 1, 1), Level::Info, "target", "a message");
    assert!(line.ends_with('\n'));
    assert_eq!(line.matches('\n').count(), 1);
}

#[test]
fn each_severity_has_its_colour() {
    assert_eq!(level_color(Level::Error), Color::Red);
    assert_eq!(level_color(Level::Warn), Color::Yellow);
    assert_eq!(level_color(Level::Info), Color::Green);
    assert_eq!(level_color(Level::Debug), Color::Blue);
    assert_eq!(level_color(Level::Trace), Color::Cyan);
    let all = [Level::Error, Level::Warn, Level::Info, Level::Debug, Level::Trace];
    for a in all {
        for b in all {
            assert_eq!(a == b, level_color(a) == level_color(b));
        }
    }
}

#[test]
fn words_of_the_severities() {
    assert_eq!(Level::Error.as_str(), "ERROR");
    assert_eq!(Level::Warn.as_str(), "WARN");
    assert_eq!(Level::Info.as_str(), "INFO");
    assert_eq!(Level::Debug.as_str(), "DEBUG");
    assert_eq!(Level::Trace.as_str(), "TRACE");
}

#[test]
fn setting_for_a_moment() {
    let setting = logger_setting_at(&at(2026, 10, 28, 13, 5, 9));
    assert_eq!(setting.folder, "logs");
    assert_eq!(setting.file_name, "20261028.log");
    assert!(setting.create);
    assert!(setting.append);
    assert_eq!(setting.default_filter, "debug");
}

#[test]
fn setting_for_now_names_todays_file() {
    let before = Local::now();
    let setting = logger_setting();
    let after = Local::now();
    let names = [
        format!("{}.log", before.format("%Y%m%d")),
        format!("{}.log", after.format("%Y%m%d")),
    ];
    assert!(names.contains(&setting.file_name), "{}", setting.file_name);
    assert_eq!(setting.folder, "logs");
    assert_eq!(setting.default_filter, "debug");
    assert!(setting.create && setting.append);
    assert_ne!(setting.file_name, "00000000.log");
}

#[test]
fn line_for_now_is_stamped_with_the_clock() {
    let before = Local::now();
    let line = log_line(Level::Warn, "here", "something");
    let after = Local::now();
    assert!(line.ends_with(" [WARN] here - something\n"));
    let stamp = &line[..line.len() - " [WARN] here - something\n".len()];
    let low = before.format("%Y-%m-%d %H:%M:%S").to_string();
    let high = after.format("%Y-%m-%d %H:%M:%S").to_string();
    assert!(low.as_str() <= stamp && stamp <= high.as_str(), "{} {} {}", low, stamp, high);
    assert_eq!(stamp.len(), 19);
    assert!(before.year() > 2000 && before.month() >= 1 && before.hour() < 24);
}
