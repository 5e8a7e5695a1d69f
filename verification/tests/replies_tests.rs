use baro_bot::message::Segment;
use baro_bot::replies::{
    build_timestamp, first_image, self_info_reply, image_error_reply, image_message, self_info_message, send_result_reply, uptime_reply, uptime_text,
};

#[test]
fn uptime_is_written_by_humantime() {
    assert_eq!(uptime_reply(9420, 0), "已运行 2h 37m");
    assert_eq!(uptime_reply(0, 32_000_000), "已运行 32ms");
    assert_eq!(uptime_reply(0, 0), "已运行 0s");
    assert_eq!(uptime_text("1s"), "已运行 1s");
}

#[test]
fn send_results() {
    assert_eq!(send_result_reply(Ok(42)), "发送成功，消息ID: 42");
    assert_eq!(send_result_reply(Err("no such group")), "发送失败: no such group");
}

#[test]
fn self_info() {
    assert_eq!(
        self_info_message("25-01-02 03:04:05"),
        vec![
            Segment::Text("BBGA(Baro Bot Great Again)\n".to_string()),
            Segment::Text("Build at: 25-01-02 03:04:05\n".to_string()),
            Segment::Text("GPL v3.0 license\n".to_string()),
            Segment::Text("Author: peter2500zz".to_string()),
        ]
    );
}

#[test]
fn pictures() {
    assert_eq!(image_message("u"), vec![Segment::Image("u".to_string())]);
    assert_eq!(image_error_reply("404"), "无法获取图片: 404");
    assert_eq!(first_image(&vec!["a".to_string(), "b".to_string()]), Some(vec![Segment::Image("a".to_string())]));
    assert_eq!(first_image(&vec![]), None);
}

#[test]
fn the_recorded_build_time() {
    assert_eq!(build_timestamp(Some("1735700000")), 1735700000);
    assert_eq!(build_timestamp(Some("-5")), -5);
    assert_eq!(build_timestamp(Some("soon")), 0);
    assert_eq!(build_timestamp(Some("")), 0);
    assert_eq!(build_timestamp(None), 0);
}

#[test]
fn self_info_writes_the_build_time_in_china_time() {
    let expected = |when: &str| {
        vec![
            Segment::Text("BBGA(Baro Bot Great Again)\n".to_string()),
            Segment::Text(format!("Build at: {when}\n")),
            Segment::Text("GPL v3.0 license\n".to_string()),
            Segment::Text("Author: peter2500zz".to_string()),
        ]
    };
    assert_eq!(self_info_reply(Some("1735700000")), expected("25-01-01 10:53:20"));
    assert_eq!(self_info_reply(None), expected("70-01-01 08:00:00"));
    assert_eq!(self_info_reply(Some("later")), expected("70-01-01 08:00:00"));
}
