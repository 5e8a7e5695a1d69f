use std::collections::HashMap;

use baro_bot::config::{AutoShutUpConfig, Config, LimitShutupConfig};
use baro_bot::shutup::{config_shutup_jobs, limit_check, shutup_jobs, CronJob, LimitAction};

#[test]
fn each_timed_mute_makes_a_start_and_an_end_job() {
    let configs = vec![
        AutoShutUpConfig { group_id: 1, start: "0 0 22 * * *".to_string(), end: "0 0 7 * * *".to_string() },
        AutoShutUpConfig { group_id: 2, start: "a".to_string(), end: "b".to_string() },
    ];
    let jobs = shutup_jobs(&configs);
    assert_eq!(
        jobs,
        vec![
            CronJob { cron: "0 0 22 * * *".to_string(), group_id: 1, mute: true },
            CronJob { cron: "0 0 7 * * *".to_string(), group_id: 1, mute: false },
            CronJob { cron: "a".to_string(), group_id: 2, mute: true },
            CronJob { cron: "b".to_string(), group_id: 2, mute: false },
        ]
    );
}

#[test]
fn no_timed_mutes_no_jobs() {
    assert!(config_shutup_jobs(&Config::default()).is_empty());
    let c = Config { live: None, auto_shutup: Some(vec![AutoShutUpConfig::default()]), timetable: None };
    assert_eq!(config_shutup_jobs(&c).len(), 2);
}

#[test]
fn long_messages_get_their_sender_muted() {
    let mut configs = HashMap::new();
    configs.insert(1, LimitShutupConfig { limit: 5, shutup_seconds: 60, reply: Some("太长了".to_string()) });
    configs.insert(2, LimitShutupConfig { limit: 3, shutup_seconds: 10, reply: None });
    assert_eq!(limit_check(&configs, 1, "1234"), None);
    assert_eq!(limit_check(&configs, 1, "12345"), Some(LimitAction { seconds: 60, reply: Some("太长了".to_string()) }));
    assert_eq!(limit_check(&configs, 1, "一二三四五"), Some(LimitAction { seconds: 60, reply: Some("太长了".to_string()) }));
    assert_eq!(limit_check(&configs, 2, "abc"), Some(LimitAction { seconds: 10, reply: None }));
    assert_eq!(limit_check(&configs, 3, "a very long message indeed"), None);
}
