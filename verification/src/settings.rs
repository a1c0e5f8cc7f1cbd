//! The settings snapshot that one run of the organizer loop works from.

use vstd::prelude::*;
use vstd::string::StringExecFns;

verus! {

/// An immutable snapshot of the organizer's configuration, taken once per
/// loop start and never re-read while the loop is running.
pub struct SettingsStruct {
    /// Seconds between two scan cycles (one tick per second).
    pub interval_sec: u8,
    /// Day-boundary time of day, in `HH:MM` form.
    pub date_line: String,
    /// Notification policy: `none`, `onSuccess` or `always`.
    pub notification_mode: String,
}

impl SettingsStruct {
    pub fn new(interval_sec: u8, date_line: String, notification_mode: String) -> (s: Self)
        ensures
            s.interval_sec == interval_sec,
            s.date_line == date_line,
            s.notification_mode == notification_mode,
    {
        SettingsStruct { interval_sec, date_line, notification_mode }
    }

    pub fn get_interval_sec(&self) -> (r: u8)
        ensures
            r == self.interval_sec,
    {
        self.interval_sec
    }

    pub fn get_date_line(&self) -> (r: String)
        ensures
            r == self.date_line,
    {
        self.date_line.clone()
    }

    pub fn get_notification_mode(&self) -> (r: String)
        ensures
            r == self.notification_mode,
    {
        self.notification_mode.clone()
    }
}

impl Default for SettingsStruct {
    /// The defaults that stand in for an unreadable or unparsable settings
    /// source: scan every 60 seconds, roll the day over at 12:00, and notify
    /// only when files were moved.
    fn default() -> (s: Self)
        ensures
            s.interval_sec == 60,
            s.date_line@ == "12:00"@,
            s.notification_mode@ == "onSuccess"@,
    {
        SettingsStruct {
            interval_sec: 60,
            date_line: String::from_str("12:00"),
            notification_mode: String::from_str("onSuccess"),
        }
    }
}

} // verus!
