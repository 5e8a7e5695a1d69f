//! The bot's answers to the small commands: how long it has run, what it
//! is, whether a message went out, and random animal pictures.

use vstd::prelude::*;

use crate::clock::{time_text, wall_clock, wall_time, write_time};
use crate::message::{join2, message_view, Segment, SegmentView};
use crate::text::{decimal, decimal_text, parse_i64, parse_i64_text};

verus! {

/// What `humantime::format_duration` writes for a span of `secs` seconds
/// and `nanos` nanoseconds (such as `"2h 37m"`).
pub uninterp spec fn humantime_text(secs: u64, nanos: u32) -> Seq<char>;

/// Calls `humantime::format_duration` on the span of `secs` seconds and
/// `nanos` nanoseconds and writes it out. Claimed: the text depends on the
/// span alone; the crate documents no more of its exact form.
#[verifier::external_body]
fn format_duration(secs: u64, nanos: u32) -> (r: String)
    requires
        nanos < 1_000_000_000,
    ensures
        r@ == humantime_text(secs, nanos),
{
    humantime::format_duration(std::time::Duration::new(secs, nanos)).to_string()
}

/// The answer to "how long have you run?", given the span already written
/// out: `"已运行 <span>"`.
pub fn uptime_text(span: &str) -> (r: String)
    ensures
        r@ == "已运行 "@ + span@,
{
    join2("已运行 ", span)
}

/// The answer to "how long have you run?" after `secs` seconds and `nanos`
/// nanoseconds.
pub fn uptime_reply(secs: u64, nanos: u32) -> (r: String)
    requires
        nanos < 1_000_000_000,
    ensures
        r@ == "已运行 "@ + humantime_text(secs, nanos),
{
    let span = format_duration(secs, nanos);
    uptime_text(span.as_str())
}

/// The answer after the bot sent a message on request: the new message's id,
/// or why it failed.
pub fn send_result_reply(result: Result<i64, &str>) -> (r: String)
    ensures
        r@ == match result {
            Ok(id) => "发送成功，消息ID: "@ + decimal(id as int),
            Err(e) => "发送失败: "@ + e@,
        },
{
    match result {
        Ok(id) => join2("发送成功，消息ID: ", decimal_text(id).as_str()),
        Err(e) => join2("发送失败: ", e),
    }
}

/// The build time, in seconds since the epoch, that the build recorded: the
/// number that the recorded text reads as; 0 when nothing was recorded or
/// the text is no number.
pub open spec fn recorded_timestamp(recorded: Option<Seq<char>>) -> i64 {
    match recorded {
        Some(s) => match parse_i64(s) {
            Ok(v) => v,
            Err(_) => 0,
        },
        None => 0,
    }
}

/// The plain value of an optional text.
pub open spec fn opt_text(t: Option<&str>) -> Option<Seq<char>> {
    match t {
        Some(s) => Some(s@),
        None => None,
    }
}

/// Reads the build time that the build recorded (see `recorded_timestamp`).
pub fn build_timestamp(recorded: Option<&str>) -> (ts: i64)
    ensures
        ts == recorded_timestamp(opt_text(recorded)),
{
    match recorded {
        Some(s) => match parse_i64_text(s) {
            Ok(v) => v,
            Err(_) => 0,
        },
        None => 0,
    }
}

/// The offset of China Standard Time, in which the build time is written.
pub const BUILD_TIME_OFFSET: i32 = 28_800;

/// The answer to "what are you?" for the build time that the build recorded:
/// that time read as a number, as the wall-clock time in China Standard
/// Time, written `%y-%m-%d %H:%M:%S`.
pub fn self_info_reply(recorded: Option<&str>) -> (m: Vec<Segment>)
    ensures
        message_view(m@) == self_info_view(
            time_text(wall_time(recorded_timestamp(opt_text(recorded)), BUILD_TIME_OFFSET as int)),
        ),
{
    let ts = build_timestamp(recorded);
    let local = wall_clock(ts, BUILD_TIME_OFFSET);
    let text = write_time(local);
    self_info_message(text.as_str())
}

/// The answer to "what are you?", given the build time already written out.
pub open spec fn self_info_view(build_time: Seq<char>) -> Seq<SegmentView> {
    seq![
        SegmentView::Text("BBGA(Baro Bot Great Again)\n"@),
        SegmentView::Text("Build at: "@ + build_time + "\n"@),
        SegmentView::Text("GPL v3.0 license\n"@),
        SegmentView::Text("Author: peter2500zz"@),
    ]
}

/// The answer to "what are you?": the bot's name, when it was built, its
/// license and its author.
pub fn self_info_message(build_time: &str) -> (m: Vec<Segment>)
    ensures
        message_view(m@) == self_info_view(build_time@),
{
    let mut m: Vec<Segment> = Vec::new();
    m.push(Segment::Text(String::from_str("BBGA(Baro Bot Great Again)\n")));
    let mut line = join2("Build at: ", build_time);
    line.append("\n");
    m.push(Segment::Text(line));
    m.push(Segment::Text(String::from_str("GPL v3.0 license\n")));
    m.push(Segment::Text(String::from_str("Author: peter2500zz")));
    proof {
        assert(message_view(m@) =~= self_info_view(build_time@));
    }
    m
}

/// A message that is just the image at `url`.
pub fn image_message(url: &str) -> (m: Vec<Segment>)
    ensures
        message_view(m@) == seq![SegmentView::Image(url@)],
{
    let mut m: Vec<Segment> = Vec::new();
    m.push(Segment::Image(url.to_string()));
    proof {
        assert(message_view(m@) =~= seq![SegmentView::Image(url@)]);
    }
    m
}

/// The answer when no picture could be had.
pub fn image_error_reply(error: &str) -> (r: String)
    ensures
        r@ == "无法获取图片: "@ + error@,
{
    join2("无法获取图片: ", error)
}

/// The picture to send out of a list of picture URLs: the first one only;
/// nothing for an empty list.
pub fn first_image(urls: &Vec<String>) -> (m: Option<Vec<Segment>>)
    ensures
        urls@.len() == 0 ==> m is None,
        urls@.len() > 0 ==> (m matches Some(msg) && message_view(msg@) == seq![SegmentView::Image(urls@[0]@)]),
{
    if urls.len() == 0 {
        None
    } else {
        Some(image_message(urls[0].as_str()))
    }
}

} // verus!
