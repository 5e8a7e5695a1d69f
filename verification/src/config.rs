//! The bot's settings, as the configuration file lays them out.

use std::collections::{HashMap, HashSet};
use vstd::prelude::*;

verus! {

/// All settings; each part is optional.
#[derive(Clone, Debug)]
pub struct Config {
    pub live: Option<LiveConfig>,
    pub auto_shutup: Option<Vec<AutoShutUpConfig>>,
    pub timetable: Option<TimeTableConfig>,
}

/// Live-stream reminders: when to poll, and which rooms each group follows.
#[derive(Clone, Debug)]
pub struct LiveConfig {
    /// The cron expression of the polling schedule.
    pub cron: String,
    /// Group id to the ids of the live rooms that the group follows.
    pub reminder: HashMap<i64, HashSet<i64>>,
}

/// A daily mute of a whole group, between two cron times.
#[derive(Clone, Debug)]
pub struct AutoShutUpConfig {
    pub group_id: i64,
    /// The cron expression at which the mute starts.
    pub start: String,
    /// The cron expression at which the mute ends.
    pub end: String,
}

/// The account of the timetable service, and who hears of a failed login.
#[derive(Clone, Debug)]
pub struct TimeTableConfig {
    pub receiver: i64,
    pub username: String,
    pub password: String,
}

/// Mute a member whose message is too long.
#[derive(Clone, Debug)]
pub struct LimitShutupConfig {
    /// The number of characters from which a message is too long.
    pub limit: usize,
    /// How long the member is muted.
    pub shutup_seconds: usize,
    /// What the bot answers, if anything.
    pub reply: Option<String>,
}

impl Default for Config {
    fn default() -> (c: Config)
        ensures
            c.live.is_none(),
            c.auto_shutup.is_none(),
            c.timetable.is_none(),
    {
        Config { live: None, auto_shutup: None, timetable: None }
    }
}

impl Default for LiveConfig {
    fn default() -> (c: LiveConfig)
        ensures
            c.cron@ == Seq::<char>::empty(),
            c.reminder@ == Map::<i64, HashSet<i64>>::empty(),
    {
        LiveConfig { cron: String::new(), reminder: HashMap::new() }
    }
}

impl Default for AutoShutUpConfig {
    fn default() -> (c: AutoShutUpConfig)
        ensures
            c.group_id == 0,
            c.start@ == Seq::<char>::empty(),
            c.end@ == Seq::<char>::empty(),
    {
        AutoShutUpConfig { group_id: 0, start: String::new(), end: String::new() }
    }
}

impl Default for TimeTableConfig {
    fn default() -> (c: TimeTableConfig)
        ensures
            c.receiver == 0,
            c.username@ == Seq::<char>::empty(),
            c.password@ == Seq::<char>::empty(),
    {
        TimeTableConfig { receiver: 0, username: String::new(), password: String::new() }
    }
}

} // verus!
