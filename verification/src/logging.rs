//! The log sink's settings: which file of which folder takes the lines, how
//! a line is laid out, and how each severity is shown on a terminal.
//!
//! Nothing here touches a file. [`logger_setting`] says what is to be opened
//! and how; [`format_line`] gives the text of one line.

use vstd::prelude::*;
use vstd::string::StringExecFns;
use chrono::Datelike;
use chrono::Timelike;
use crate::text::{
    decimal, lemma_decimal, lemma_zero_padded, push_char, push_zero_padded, zero_padded,
};

verus! {

/// The five severities of a log line, the gravest first.
#[derive(Clone, Copy, Debug, PartialEq, Eq, Structural)]
pub enum Level {
    Error,
    Warn,
    Info,
    Debug,
    Trace,
}

/// The colour in which a terminal shows a severity.
#[derive(Clone, Copy, Debug, PartialEq, Eq, Structural)]
pub enum Color {
    Red,
    Yellow,
    Green,
    Blue,
    Cyan,
}

/// A moment of the local clock, to the second.
#[derive(Clone, Copy, Debug, PartialEq, Eq, Structural)]
pub struct LocalTime {
    pub year: i32,
    pub month: u32,
    pub day: u32,
    pub hour: u32,
    pub minute: u32,
    pub second: u32,
}

/// How the log sink is to be set up.
pub struct LoggerSetting {
    /// The folder below the resource root that holds the log files.
    pub folder: String,
    /// The name of the day's log file in that folder.
    pub file_name: String,
    /// The file is created where it does not exist yet.
    pub create: bool,
    /// Lines are added at the end of the file; what it holds is never cut.
    pub append: bool,
    /// The filter that applies unless the environment names another.
    pub default_filter: String,
}

impl LocalTime {
    /// The fields are in the ranges of a clock and a calendar.
    pub open spec fn wf(self) -> bool {
        &&& 1 <= self.month <= 12
        &&& 1 <= self.day <= 31
        &&& self.hour <= 23
        &&& self.minute <= 59
        &&& self.second <= 59
    }
}

/// A year as a date writes it: four digits from 0 to 9999, and outside of
/// that a sign and at least four digits.
pub open spec fn year_text(year: int) -> Seq<char> {
    if 0 <= year <= 9999 {
        zero_padded(year as nat, 4)
    } else if year < 0 {
        seq!['-'] + zero_padded((-year) as nat, 4)
    } else {
        seq!['+'] + zero_padded(year as nat, 4)
    }
}

/// The day of `time` as `YYYYMMDD`.
pub open spec fn date_stamp(time: LocalTime) -> Seq<char> {
    year_text(time.year as int) + zero_padded(time.month as nat, 2) + zero_padded(
        time.day as nat,
        2,
    )
}

/// The name of the log file of the day of `time`: `YYYYMMDD.log`.
pub open spec fn file_name_of(time: LocalTime) -> Seq<char> {
    date_stamp(time) + ".log"@
}

/// `time` as `YYYY-MM-DD HH:MM:SS`.
pub open spec fn timestamp_of(time: LocalTime) -> Seq<char> {
    year_text(time.year as int) + seq!['-'] + zero_padded(time.month as nat, 2) + seq!['-']
        + zero_padded(time.day as nat, 2) + seq![' '] + zero_padded(time.hour as nat, 2)
        + seq![':'] + zero_padded(time.minute as nat, 2) + seq![':'] + zero_padded(
        time.second as nat,
        2,
    )
}

/// The word that a line shows for a severity.
pub open spec fn level_text(level: Level) -> Seq<char> {
    match level {
        Level::Error => "ERROR"@,
        Level::Warn => "WARN"@,
        Level::Info => "INFO"@,
        Level::Debug => "DEBUG"@,
        Level::Trace => "TRACE"@,
    }
}

/// One line of the log: the time, the severity in brackets, the target, a
/// dash and the message, closed by a line feed.
pub open spec fn line_of(
    time: LocalTime,
    level: Level,
    target: Seq<char>,
    message: Seq<char>,
) -> Seq<char> {
    timestamp_of(time) + " ["@ + level_text(level) + "] "@ + target + " - "@ + message + "\n"@
}

/// The colour of each severity.
pub open spec fn color_of(level: Level) -> Color {
    match level {
        Level::Error => Color::Red,
        Level::Warn => Color::Yellow,
        Level::Info => Color::Green,
        Level::Debug => Color::Blue,
        Level::Trace => Color::Cyan,
    }
}

/// What [`logger_setting`] answers for the moment `now`.
pub open spec fn is_setting_of(setting: LoggerSetting, now: LocalTime) -> bool {
    &&& setting.folder@ == "logs"@
    &&& setting.file_name@ == file_name_of(now)
    &&& setting.create
    &&& setting.append
    &&& setting.default_filter@ == "debug"@
}

/// No two severities share a colour.
pub proof fn lemma_colors_distinct(a: Level, b: Level)
    requires
        a != b,
    ensures
        color_of(a) != color_of(b),
{
}

/// For a moment of the years 0 to 9999 the name of the log file is eight
/// digits and the ending `.log`.
pub proof fn lemma_file_name_shape(time: LocalTime)
    requires
        time.wf(),
        0 <= time.year <= 9999,
    ensures
        file_name_of(time).len() == 12,
        forall|i: int| 0 <= i < 8 ==> '0' <= #[trigger] file_name_of(time)[i] <= '9',
        file_name_of(time).subrange(8, 12) == seq!['.', 'l', 'o', 'g'],
{
    reveal_strlit(".log");
    lemma_decimal(time.year as nat);
    lemma_decimal(time.month as nat);
    lemma_decimal(time.day as nat);
    lemma_zero_padded(time.year as nat, 4);
    lemma_zero_padded(time.month as nat, 2);
    lemma_zero_padded(time.day as nat, 2);
    assert(file_name_of(time).subrange(8, 12) =~= seq!['.', 'l', 'o', 'g']);
}

/// A line ends with a line feed, and where neither the target nor the
/// message holds one it holds no other.
pub proof fn lemma_line_is_one_line(
    time: LocalTime,
    level: Level,
    target: Seq<char>,
    message: Seq<char>,
)
    requires
        !target.contains('\n'),
        !message.contains('\n'),
    ensures
        line_of(time, level, target, message).len() >= 1,
        line_of(time, level, target, message).last() == '\n',
        forall|i: int|
            0 <= i < line_of(time, level, target, message).len() - 1 ==> line_of(
                time,
                level,
                target,
                message,
            )[i] != '\n',
{
    reveal_strlit(" [");
    reveal_strlit("] ");
    reveal_strlit(" - ");
    reveal_strlit("\n");
    reveal_strlit("ERROR");
    reveal_strlit("WARN");
    reveal_strlit("INFO");
    reveal_strlit("DEBUG");
    reveal_strlit("TRACE");
    let stamp = timestamp_of(time);
    lemma_year_text(time.year as int);
    lemma_decimal(time.month as nat);
    lemma_decimal(time.day as nat);
    lemma_decimal(time.hour as nat);
    lemma_decimal(time.minute as nat);
    lemma_decimal(time.second as nat);
    lemma_no_feed_in_padded(time.month as nat, 2);
    lemma_no_feed_in_padded(time.day as nat, 2);
    lemma_no_feed_in_padded(time.hour as nat, 2);
    lemma_no_feed_in_padded(time.minute as nat, 2);
    lemma_no_feed_in_padded(time.second as nat, 2);
    assert(!stamp.contains('\n'));
    let word = level_text(level);
    assert(!word.contains('\n'));
    let head = stamp + " ["@ + word + "] "@ + target + " - "@ + message;
    assert(!head.contains('\n'));
    let line = line_of(time, level, target, message);
    assert(line =~= head.push('\n'));
    assert forall|i: int| 0 <= i < line.len() - 1 implies line[i] != '\n' by {
        assert(line[i] == head[i]);
        assert(head.contains(head[i]));
    }
}

/// A number written with padding holds digits only.
proof fn lemma_no_feed_in_padded(n: nat, width: nat)
    ensures
        !zero_padded(n, width).contains('\n'),
{
    lemma_decimal(n);
}

/// A year is written without a line feed.
proof fn lemma_year_text(year: int)
    ensures
        !year_text(year).contains('\n'),
{
    if 0 <= year <= 9999 {
        lemma_no_feed_in_padded(year as nat, 4);
    } else if year < 0 {
        lemma_no_feed_in_padded((-year) as nat, 4);
    } else {
        lemma_no_feed_in_padded(year as nat, 4);
    }
}

impl Level {
    /// The word that a line shows for this severity.
    pub fn as_str(self) -> (word: &'static str)
        ensures
            word@ == level_text(self),
    {
        match self {
            Level::Error => "ERROR",
            Level::Warn => "WARN",
            Level::Info => "INFO",
            Level::Debug => "DEBUG",
            Level::Trace => "TRACE",
        }
    }
}

/// The colour in which a terminal shows `level`.
pub fn level_color(level: Level) -> (color: Color)
    ensures
        color == color_of(level),
{
    match level {
        Level::Error => Color::Red,
        Level::Warn => Color::Yellow,
        Level::Info => Color::Green,
        Level::Debug => Color::Blue,
        Level::Trace => Color::Cyan,
    }
}

/// Appends `year` to `out` as a date writes it.
pub fn push_year(out: &mut String, year: i32)
    ensures
        final(out)@ == old(out)@ + year_text(year as int),
{
    let ghost before = out@;
    if 0 <= year && year <= 9999 {
        push_zero_padded(out, year as u64, 4);
    } else if year < 0 {
        push_char(out, '-');
        let size: i64 = -(year as i64);
        push_zero_padded(out, size as u64, 4);
        assert(out@ =~= before + year_text(year as int));
    } else {
        push_char(out, '+');
        push_zero_padded(out, year as u64, 4);
        assert(out@ =~= before + year_text(year as int));
    }
}

/// The name of the log file of the day of `time`: `YYYYMMDD.log`.
pub fn log_file_name(time: &LocalTime) -> (name: String)
    ensures
        name@ == file_name_of(*time),
{
    let mut name = String::new();
    push_year(&mut name, time.year);
    push_zero_padded(&mut name, time.month as u64, 2);
    push_zero_padded(&mut name, time.day as u64, 2);
    name.append(".log");
    assert(name@ =~= file_name_of(*time));
    name
}

/// `time` as `YYYY-MM-DD HH:MM:SS`.
pub fn timestamp(time: &LocalTime) -> (stamp: String)
    ensures
        stamp@ == timestamp_of(*time),
{
    let mut stamp = String::new();
    push_year(&mut stamp, time.year);
    push_char(&mut stamp, '-');
    push_zero_padded(&mut stamp, time.month as u64, 2);
    push_char(&mut stamp, '-');
    push_zero_padded(&mut stamp, time.day as u64, 2);
    push_char(&mut stamp, ' ');
    push_zero_padded(&mut stamp, time.hour as u64, 2);
    push_char(&mut stamp, ':');
    push_zero_padded(&mut stamp, time.minute as u64, 2);
    push_char(&mut stamp, ':');
    push_zero_padded(&mut stamp, time.second as u64, 2);
    assert(stamp@ =~= timestamp_of(*time));
    stamp
}

/// The text of one log line written at `time`.
pub fn format_line(time: &LocalTime, level: Level, target: &str, message: &str) -> (line: String)
    ensures
        line@ == line_of(*time, level, target@, message@),
{
    let mut line = timestamp(time);
    line.append(" [");
    line.append(level.as_str());
    line.append("] ");
    line.append(target);
    line.append(" - ");
    line.append(message);
    line.append("\n");
    line
}

/// The settings of the log sink for a process that starts at `now`.
pub fn logger_setting_at(now: &LocalTime) -> (setting: LoggerSetting)
    ensures
        is_setting_of(setting, *now),
{
    LoggerSetting {
        folder: "logs".to_owned(),
        file_name: log_file_name(now),
        create: true,
        append: true,
        default_filter: "debug".to_owned(),
    }
}

/// `chrono::Local::now`, read through `Datelike` and `Timelike`: the local
/// date and time of the machine's clock at the call. Each field is in the
/// range that chrono documents for it; nothing is said of which moment it is.
#[verifier::external_body]
fn local_now() -> (now: LocalTime)
    ensures
        now.wf(),
{
    let now = chrono::Local::now();
    LocalTime {
        year: now.year(),
        month: now.month(),
        day: now.day(),
        hour: now.hour(),
        minute: now.minute(),
        second: now.second(),
    }
}

/// The settings of the log sink for a process that starts now: the file is
/// the one of today's local date.
pub fn logger_setting() -> (setting: LoggerSetting)
    ensures
        exists|now: LocalTime| now.wf() && is_setting_of(setting, now),
{
    let now = local_now();
    logger_setting_at(&now)
}

/// The text of a log line written now.
pub fn log_line(level: Level, target: &str, message: &str) -> (line: String)
    ensures
        exists|now: LocalTime| now.wf() && line@ == line_of(now, level, target@, message@),
{
    let now = local_now();
    format_line(&now, level, target, message)
}

} // verus!
