use std::collections::{HashMap, HashSet};

use baro_bot::config::LiveConfig;
use baro_bot::live::{
    live_notice, live_query_error, live_query_reply, offline_notice, LiveChange, LiveReminder, LiveState, Room,
};
use baro_bot::message::Segment;

fn config() -> LiveConfig {
    let mut reminder = HashMap::new();
    reminder.insert(100, HashSet::from([1, 2]));
    reminder.insert(200, HashSet::from([2, 3]));
    reminder.insert(300, HashSet::new());
    LiveConfig { cron: "0 * * * * *".to_string(), reminder }
}

fn room(status: i32) -> Room {
    Room {
        live_url: "https://live/2".to_string(),
        title: "Title".to_string(),
        area_name: "Area".to_string(),
        uname: "Alice".to_string(),
        cover: "https://cover".to_string(),
        live_status: status,
    }
}

#[test]
fn the_rooms_to_poll_are_all_followed_rooms() {
    let r = LiveReminder::new(config());
    assert_eq!(r.room_ids, HashSet::from([1, 2, 3]));
    assert_eq!(r.reminder, config().reminder);
}

#[test]
fn no_groups_means_no_rooms() {
    let r = LiveReminder::new(LiveConfig { cron: String::new(), reminder: HashMap::new() });
    assert!(r.room_ids.is_empty());
}

#[test]
fn the_query_names_each_room_once() {
    let r = LiveReminder::new(config());
    let q = r.status_query();
    assert_eq!(q[0], ("req_biz".to_string(), "web_room_componet".to_string()));
    let mut ids: Vec<String> = q[1..].iter().map(|(k, v)| { assert_eq!(k, "room_ids"); v.clone() }).collect();
    ids.sort();
    assert_eq!(ids, vec!["1", "2", "3"]);
}

#[test]
fn groups_following_a_room() {
    let r = LiveReminder::new(config());
    let mut g = r.groups_following(2);
    g.sort();
    assert_eq!(g, vec![100, 200]);
    assert_eq!(r.groups_following(3), vec![200]);
    assert!(r.groups_following(9).is_empty());
}

#[test]
fn the_first_report_is_only_recorded() {
    let r = LiveReminder::new(config());
    let mut s = LiveState::new();
    let n = r.on_room_status(&mut s, "2".to_string(), &room(1));
    assert!(n.is_empty());
    assert_eq!(s.last_status(&"2".to_string()), Some(1));
    assert_eq!(s.last_status(&"3".to_string()), None);
}

#[test]
fn a_stream_start_is_announced_to_the_followers() {
    let r = LiveReminder::new(config());
    let mut s = LiveState::new();
    r.on_room_status(&mut s, "2".to_string(), &room(0));
    let mut n = r.on_room_status(&mut s, "2".to_string(), &room(1));
    n.sort_by_key(|x| x.0);
    assert_eq!(n.len(), 2);
    assert_eq!(n[0].0, 100);
    assert_eq!(n[1].0, 200);
    assert_eq!(n[0].1, live_notice(&room(1)));
    assert_eq!(
        n[0].1,
        vec![
            Segment::Text("Alice 正在直播\n".to_string()),
            Segment::Text("Area\n".to_string()),
            Segment::Image("https://cover".to_string()),
            Segment::Text("Title\n".to_string()),
            Segment::Text("https://live/2".to_string()),
        ]
    );
}

#[test]
fn a_stream_end_is_announced_and_a_repeat_is_not() {
    let r = LiveReminder::new(config());
    let mut s = LiveState::new();
    r.on_room_status(&mut s, "3".to_string(), &room(1));
    let n = r.on_room_status(&mut s, "3".to_string(), &room(0));
    assert_eq!(n, vec![(200, vec![Segment::Text("Alice 下播了".to_string())])]);
    assert!(r.on_room_status(&mut s, "3".to_string(), &room(0)).is_empty());
    assert_eq!(s.last_status(&"3".to_string()), Some(0));
}

#[test]
fn replays_are_recorded_but_not_announced() {
    let r = LiveReminder::new(config());
    let mut s = LiveState::new();
    r.on_room_status(&mut s, "1".to_string(), &room(1));
    assert!(r.on_room_status(&mut s, "1".to_string(), &room(2)).is_empty());
    assert_eq!(s.last_status(&"1".to_string()), Some(2));
    assert_eq!(r.on_room_status(&mut s, "1".to_string(), &room(1)).len(), 1);
}

#[test]
fn an_unreadable_room_id_stands_for_room_zero() {
    let mut reminder = HashMap::new();
    reminder.insert(5, HashSet::from([0]));
    let r = LiveReminder::new(LiveConfig { cron: String::new(), reminder });
    let mut s = LiveState::new();
    r.on_room_status(&mut s, "x".to_string(), &room(1));
    let n = r.on_room_status(&mut s, "x".to_string(), &room(0));
    assert_eq!(n.len(), 1);
    assert_eq!(n[0].0, 5);
}

#[test]
fn observe_says_what_changed() {
    let mut s = LiveState::new();
    assert_eq!(s.observe("7".to_string(), 2), LiveChange::FirstSeen);
    assert_eq!(s.observe("7".to_string(), 2), LiveChange::Unchanged);
    assert_eq!(s.observe("7".to_string(), 1), LiveChange::WentLive);
    assert_eq!(s.observe("7".to_string(), 0), LiveChange::WentOffline);
    assert_eq!(s.observe("7".to_string(), 2), LiveChange::WentRerun);
    assert_eq!(s.observe("8".to_string(), 9), LiveChange::FirstSeen);
}

#[test]
fn query_answers_name_the_status() {
    let m = live_query_reply(&room(2));
    assert_eq!(m[0], Segment::Text("Alice 轮播中\n".to_string()));
    assert_eq!(live_query_reply(&room(0))[0], Segment::Text("Alice 已下播\n".to_string()));
    assert_eq!(live_query_reply(&room(1))[0], Segment::Text("Alice 正在直播\n".to_string()));
    assert_eq!(m.len(), 5);
    assert_eq!(offline_notice(&room(0)), "Alice 下播了");
    assert_eq!(live_query_error("timeout"), "can not get live status: timeout");
}

#[test]
fn the_first_poll_announces_nothing_and_records_everything() {
    let r = LiveReminder::new(config());
    let mut s = LiveState::new();
    let rooms = vec![("1".to_string(), room(1)), ("2".to_string(), room(0)), ("3".to_string(), room(2))];
    let n = r.on_poll(&mut s, &rooms);
    assert_eq!(n.len(), 3);
    assert!(n.iter().all(|x| x.is_empty()));
    assert_eq!(s.last_status(&"1".to_string()), Some(1));
    assert_eq!(s.last_status(&"2".to_string()), Some(0));
    assert_eq!(s.last_status(&"3".to_string()), Some(2));
    assert_eq!(s.last_status(&"4".to_string()), None);
}

#[test]
fn a_poll_announces_starts_and_ends_only() {
    let r = LiveReminder::new(config());
    let mut s = LiveState::new();
    r.on_poll(&mut s, &vec![("1".to_string(), room(0)), ("2".to_string(), room(1)), ("3".to_string(), room(0))]);
    let n = r.on_poll(&mut s, &vec![("1".to_string(), room(1)), ("2".to_string(), room(0)), ("3".to_string(), room(2))]);
    assert_eq!(n.len(), 3);
    assert_eq!(n[0], vec![(100, live_notice(&room(1)))]);
    let mut ended: Vec<i64> = n[1].iter().map(|x| x.0).collect();
    ended.sort();
    assert_eq!(ended, vec![100, 200]);
    assert!(n[1].iter().all(|x| x.1 == vec![Segment::Text(offline_notice(&room(0)))]));
    assert!(n[2].is_empty());
    assert_eq!(s.last_status(&"3".to_string()), Some(2));
}

#[test]
fn the_same_poll_twice_is_silent_the_second_time() {
    let r = LiveReminder::new(config());
    let mut s = LiveState::new();
    r.on_poll(&mut s, &vec![("1".to_string(), room(0)), ("2".to_string(), room(0))]);
    let rooms = vec![("1".to_string(), room(1)), ("2".to_string(), room(1))];
    let first = r.on_poll(&mut s, &rooms);
    assert!(first.iter().all(|x| !x.is_empty()));
    let second = r.on_poll(&mut s, &rooms);
    assert!(second.iter().all(|x| x.is_empty()));
    assert_eq!(s.last_status(&"1".to_string()), Some(1));
    assert_eq!(s.last_status(&"2".to_string()), Some(1));
}
