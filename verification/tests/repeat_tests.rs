use baro_bot::message::Segment;
use baro_bot::repeat::{list_reply, needs_group_name, outcome_reply, RepeatOutcome, RepeatState};

#[test]
fn a_message_is_repeated_at_the_limit() {
    let mut s = RepeatState::new();
    s.repeat_group(1, None);
    assert!(!s.on_group_message(1, "hi".to_string(), false));
    assert!(s.on_group_message(1, "hi".to_string(), false));
    assert!(!s.on_group_message(1, "hi".to_string(), false));
    assert!(!s.on_group_message(1, "hi".to_string(), false));
}

#[test]
fn a_new_text_starts_the_count_again() {
    let mut s = RepeatState::new();
    s.repeat_group(1, None);
    assert!(!s.on_group_message(1, "a".to_string(), false));
    assert!(!s.on_group_message(1, "b".to_string(), false));
    assert!(s.on_group_message(1, "b".to_string(), false));
    assert_eq!(s.groups.get(&1), Some(&("b".to_string(), 2)));
}

#[test]
fn commands_and_other_groups_are_ignored() {
    let mut s = RepeatState::new();
    s.repeat_group(1, None);
    assert!(!s.on_group_message(2, "x".to_string(), false));
    assert!(!s.on_group_message(1, "x".to_string(), true));
    assert!(!s.on_group_message(1, "x".to_string(), true));
    assert_eq!(s.groups.get(&1), Some(&(String::new(), 0)));
    assert!(s.groups.get(&2).is_none());
}

#[test]
fn continuous_mode_repeats_every_limit_messages() {
    let mut s = RepeatState::new();
    s.repeat_group(1, None);
    assert_eq!(s.set_continuous(true), "已开启连续复读");
    assert_eq!(s.change_limit(3), "复读阈值已更改为 3");
    let mut repeated = 0;
    for _ in 0..10 {
        if s.on_group_message(1, "x".to_string(), false) {
            repeated += 1;
        }
    }
    assert_eq!(repeated, 3);
    assert_eq!(s.groups.get(&1).unwrap().1, 1);
}

#[test]
fn without_continuous_mode_a_run_repeats_once() {
    let mut s = RepeatState::new();
    s.repeat_group(1, None);
    let mut repeated = 0;
    for _ in 0..10 {
        if s.on_group_message(1, "x".to_string(), false) {
            repeated += 1;
        }
    }
    assert_eq!(repeated, 1);
    assert_eq!(s.groups.get(&1).unwrap().1, 10);
}

#[test]
fn a_limit_change_starts_all_counts_again() {
    let mut s = RepeatState::new();
    s.repeat_group(1, None);
    s.repeat_group(2, None);
    s.on_group_message(1, "x".to_string(), false);
    s.on_group_message(2, "y".to_string(), false);
    s.change_limit(5);
    assert_eq!(s.limit, 5);
    assert_eq!(s.groups.get(&1), Some(&("x".to_string(), 0)));
    assert_eq!(s.groups.get(&2), Some(&("y".to_string(), 0)));
    assert_eq!(s.limit_reply(), "当前复读阈值为 5");
}

#[test]
fn status_answers() {
    let mut s = RepeatState::new();
    assert_eq!(s.limit_reply(), "当前复读阈值为 2");
    assert_eq!(s.continuous_reply(), "连续复读: false");
    assert_eq!(s.set_continuous(false), "已关闭连续复读");
    s.set_continuous(true);
    assert_eq!(s.continuous_reply(), "连续复读: true");
    s.change_limit(-1);
    assert_eq!(s.limit_reply(), "当前复读阈值为 -1");
}

#[test]
fn switching_on_and_off_here() {
    let mut s = RepeatState::new();
    assert_eq!(s.repeat_here(None), RepeatOutcome::NoGroup);
    assert_eq!(s.repeat_here(Some(7)), RepeatOutcome::StartedHere);
    assert_eq!(s.repeat_here(Some(7)), RepeatOutcome::AlreadyHere);
    assert_eq!(s.cancel_here(Some(7)), RepeatOutcome::StoppedHere);
    assert_eq!(s.cancel_here(Some(7)), RepeatOutcome::NotRepeating);
    assert_eq!(s.cancel_here(None), RepeatOutcome::NoGroup);
    assert!(s.groups.is_empty());
}

#[test]
fn switching_on_and_off_by_id() {
    let mut s = RepeatState::new();
    assert_eq!(s.repeat_group(7, Some(7)), RepeatOutcome::StartedHere);
    assert_eq!(s.repeat_group(7, Some(8)), RepeatOutcome::AlreadyThere);
    assert_eq!(s.repeat_group(9, None), RepeatOutcome::StartedThere);
    assert_eq!(s.repeat_group(9, Some(9)), RepeatOutcome::AlreadyHere);
    assert_eq!(s.cancel_group(9, None), RepeatOutcome::StoppedThere);
    assert_eq!(s.cancel_group(9, None), RepeatOutcome::NotRepeating);
    assert_eq!(s.cancel_group(7, Some(7)), RepeatOutcome::StoppedHere);
    assert!(s.groups.is_empty());
    let mut a = s.active_groups();
    a.sort();
    assert!(a.is_empty());
}

#[test]
fn on_then_off_restores_the_groups() {
    let mut s = RepeatState::new();
    s.repeat_group(1, None);
    s.on_group_message(1, "x".to_string(), false);
    s.repeat_group(2, None);
    s.cancel_group(2, None);
    assert_eq!(s.groups.len(), 1);
    assert_eq!(s.groups.get(&1), Some(&("x".to_string(), 1)));
}

#[test]
fn answers_to_requests() {
    assert_eq!(outcome_reply(RepeatOutcome::NoGroup, 1, None), "必须在群中发送或指定群ID");
    assert_eq!(outcome_reply(RepeatOutcome::AlreadyHere, 1, None), "已经在本群中复读");
    assert_eq!(outcome_reply(RepeatOutcome::AlreadyThere, 12, Some("G")), "已经在 G(12) 中复读");
    assert_eq!(outcome_reply(RepeatOutcome::AlreadyThere, 12, None), "已经在 12 中复读");
    assert_eq!(outcome_reply(RepeatOutcome::StartedHere, 1, None), "开始在本群中复读");
    assert_eq!(outcome_reply(RepeatOutcome::StartedThere, 12, Some("G")), "开始在 G(12) 中复读");
    assert_eq!(outcome_reply(RepeatOutcome::StartedThere, 12, None), "开始在 12 中复读");
    assert_eq!(outcome_reply(RepeatOutcome::StoppedHere, 1, None), "已停止本群中的复读");
    assert_eq!(outcome_reply(RepeatOutcome::StoppedThere, 12, Some("G")), "已停止在 G(12) 中的复读");
    assert_eq!(outcome_reply(RepeatOutcome::StoppedThere, 12, None), "并没有在 12 中复读");
    assert_eq!(outcome_reply(RepeatOutcome::NotRepeating, 1, None), "并没有在本群中复读");
    assert!(needs_group_name(RepeatOutcome::StoppedThere));
    assert!(!needs_group_name(RepeatOutcome::StoppedHere));
}

#[test]
fn the_list_of_groups() {
    assert_eq!(list_reply(&vec![]), vec![Segment::Text("当前不在任何群里复读".to_string())]);
    assert_eq!(
        list_reply(&vec![(1, Some("One".to_string())), (-2, None)]),
        vec![
            Segment::Text("当前正在以下群里复读:".to_string()),
            Segment::Text("\nOne(1)".to_string()),
            Segment::Text("\n-2".to_string()),
        ]
    );
}
