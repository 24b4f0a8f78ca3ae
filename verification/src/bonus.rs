//! Whether the moment of a task falls in the weekly bonus window.
//!
//! A window is given by a first and a last day of the week, Monday being 1
//! and Sunday 7, and by a first and a last hour of the day. A moment is in
//! the window when its day is one of the window's days and its hour one of
//! the window's hours, the ends included. A window whose first day comes
//! after its last one runs over the end of the week. A timestamp that cannot
//! be read is in no window.

use vstd::prelude::*;

verus! {

/// The day of the week and the hour of the day of a moment.
#[derive(Clone, Copy, Debug, PartialEq, Eq, Structural)]
pub struct WeekMoment {
    /// The day of the week, Monday being 1 and Sunday 7.
    pub weekday: u8,
    /// The hour of the day, from 0 to 23.
    pub hour: u8,
}

/// A weekly bonus window.
#[derive(Clone, Copy, Debug, PartialEq, Eq, Structural)]
pub struct BonusWindow {
    pub start_day: u8,
    pub start_hour: u8,
    pub end_day: u8,
    pub end_hour: u8,
}

/// What `chrono::NaiveDateTime::parse_from_str` makes of a text under a
/// format: nothing where it fails, else the weekday number of the moment it
/// read, as `chrono::Weekday::number_from_monday` gives it, and its hour, as
/// `chrono::Timelike::hour` gives it.
pub uninterp spec fn weekday_and_hour(text: Seq<char>, format: Seq<char>) -> Option<(u32, u32)>;

/// The format of a timestamp: date and time of day, in digits.
pub open spec fn timestamp_format() -> Seq<char> {
    "%Y-%m-%d %H:%M:%S"@
}

/// Calls `chrono::NaiveDateTime::parse_from_str`, and on the moment it
/// returns `chrono::Datelike::weekday`, `chrono::Weekday::number_from_monday`
/// and `chrono::Timelike::hour`. The contract names the result, and claims of
/// it what chrono documents: the weekday number runs from 1 to 7 and the hour
/// from 0 to 23.
#[verifier::external_body]
fn read_weekday_and_hour(text: &str, format: &str) -> (found: Option<(u32, u32)>)
    ensures
        found == weekday_and_hour(text@, format@),
        found matches Some((weekday, hour)) ==> 1 <= weekday <= 7 && hour <= 23,
{
    match chrono::NaiveDateTime::parse_from_str(text, format) {
        Ok(moment) => Some(
            (
                chrono::Datelike::weekday(&moment).number_from_monday(),
                chrono::Timelike::hour(&moment),
            ),
        ),
        Err(_) => None,
    }
}

/// Whether a day of the week is one of the window's days.
pub open spec fn day_in_window(weekday: u8, window: BonusWindow) -> bool {
    if window.start_day <= window.end_day {
        window.start_day <= weekday <= window.end_day
    } else {
        weekday >= window.start_day || weekday <= window.end_day
    }
}

/// Whether a moment is in the window.
pub open spec fn in_window(moment: WeekMoment, window: BonusWindow) -> bool {
    day_in_window(moment.weekday, window) && window.start_hour <= moment.hour <= window.end_hour
}

/// Whether what was read off a timestamp is in the window: nothing read is
/// in no window.
pub open spec fn reading_in_window(found: Option<(u32, u32)>, window: BonusWindow) -> bool {
    match found {
        Some((weekday, hour)) => in_window(
            WeekMoment { weekday: weekday as u8, hour: hour as u8 },
            window,
        ),
        None => false,
    }
}

/// Whether the task with this timestamp earns the bonus.
pub open spec fn eligible(timestamp: Seq<char>, window: BonusWindow) -> bool {
    reading_in_window(weekday_and_hour(timestamp, timestamp_format()), window)
}

/// Tells whether a moment is in the window.
pub fn is_in_window(moment: WeekMoment, window: BonusWindow) -> (inside: bool)
    ensures
        inside == in_window(moment, window),
{
    let day_inside = if window.start_day <= window.end_day {
        moment.weekday >= window.start_day && moment.weekday <= window.end_day
    } else {
        moment.weekday >= window.start_day || moment.weekday <= window.end_day
    };
    day_inside && moment.hour >= window.start_hour && moment.hour <= window.end_hour
}

/// Tells whether the task with this timestamp earns the bonus.
pub fn check_bonus_eligibility(timestamp: &str, window: BonusWindow) -> (inside: bool)
    ensures
        inside == eligible(timestamp@, window),
{
    match read_weekday_and_hour(timestamp, "%Y-%m-%d %H:%M:%S") {
        Some((weekday, hour)) => is_in_window(
            WeekMoment { weekday: weekday as u8, hour: hour as u8 },
            window,
        ),
        None => false,
    }
}

/// Tells for each timestamp of a batch whether its task earns the bonus.
pub fn check_bonus_eligibility_batch(
    task_timestamps: &Vec<String>,
    bonus_start_day: u8,
    bonus_start_hour: u8,
    bonus_end_day: u8,
    bonus_end_hour: u8,
) -> (flags: Vec<bool>)
    ensures
        flags.len() == task_timestamps.len(),
        forall|i: int|
            0 <= i < flags.len() ==> flags[i] == eligible(
                #[trigger] task_timestamps[i]@,
                BonusWindow {
                    start_day: bonus_start_day,
                    start_hour: bonus_start_hour,
                    end_day: bonus_end_day,
                    end_hour: bonus_end_hour,
                },
            ),
{
    let window = BonusWindow {
        start_day: bonus_start_day,
        start_hour: bonus_start_hour,
        end_day: bonus_end_day,
        end_hour: bonus_end_hour,
    };
    let mut flags: Vec<bool> = Vec::new();
    let mut i: usize = 0;
    while i < task_timestamps.len()
        invariant
            i <= task_timestamps.len(),
            flags.len() == i,
            forall|k: int| 0 <= k < i ==> flags[k] == eligible(#[trigger] task_timestamps[k]@, window),
        decreases task_timestamps.len() - i,
    {
        let inside = check_bonus_eligibility(task_timestamps[i].as_str(), window);
        flags.push(inside);
        i += 1;
    }
    flags
}

/// A window that runs over the end of the week holds the days that the
/// window from its last day to its first leaves out, and the two days
/// themselves.
pub proof fn lemma_window_over_week_end(weekday: u8, window: BonusWindow)
    requires
        window.start_day > window.end_day,
    ensures
        day_in_window(weekday, window) <==> !(window.end_day < weekday < window.start_day),
{
}

} // verus!
