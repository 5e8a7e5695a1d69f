use baro_bot::clock::{shift_time, wall_clock, write_time, CivilTime};
use kovi::chrono::{FixedOffset, TimeZone, Utc};

fn civil(year: i32, month: u32, day: u32, hour: u32, minute: u32, second: u32) -> CivilTime {
    CivilTime { year, month, day, hour, minute, second }
}

fn chrono_text(ts: i64, offset: i32) -> String {
    let utc = Utc.timestamp_opt(ts, 0).single().unwrap_or_default();
    utc.with_timezone(&FixedOffset::east_opt(offset).unwrap()).format("%y-%m-%d %H:%M:%S").to_string()
}

#[test]
fn times_are_written_with_two_digit_fields() {
    assert_eq!(write_time(civil(2025, 1, 2, 3, 4, 5)), "25-01-02 03:04:05");
    assert_eq!(write_time(civil(1999, 12, 31, 23, 59, 59)), "99-12-31 23:59:59");
    assert_eq!(write_time(civil(2000, 10, 10, 10, 10, 10)), "00-10-10 10:10:10");
    assert_eq!(write_time(civil(-1, 6, 15, 0, 0, 0)), "99-06-15 00:00:00");
}

#[test]
fn an_offset_can_cross_into_another_day() {
    assert_eq!(shift_time(civil(2024, 2, 28, 20, 0, 0), 28_800), civil(2024, 2, 29, 4, 0, 0));
    assert_eq!(shift_time(civil(2023, 2, 28, 20, 0, 0), 28_800), civil(2023, 3, 1, 4, 0, 0));
    assert_eq!(shift_time(civil(1999, 12, 31, 23, 30, 0), 3_600), civil(2000, 1, 1, 0, 30, 0));
    assert_eq!(shift_time(civil(2000, 3, 1, 1, 0, 0), -7_200), civil(2000, 2, 29, 23, 0, 0));
    assert_eq!(shift_time(civil(1900, 3, 1, 1, 0, 0), -7_200), civil(1900, 2, 28, 23, 0, 0));
    assert_eq!(shift_time(civil(2021, 1, 1, 0, 0, 0), -1), civil(2020, 12, 31, 23, 59, 59));
    assert_eq!(shift_time(civil(2021, 5, 6, 7, 8, 9), 0), civil(2021, 5, 6, 7, 8, 9));
}

#[test]
fn wall_clock_times_agree_with_chrono() {
    let stamps = [
        0i64,
        1,
        -1,
        57_599,
        57_600,
        951_782_400,
        1_735_700_000,
        -2_208_988_800,
        -62_135_596_800,
        8_210_266_876_799,
        8_210_266_876_800,
        -8_334_601_228_800,
        -8_334_601_228_801,
        i64::MAX,
        i64::MIN,
    ];
    for ts in stamps {
        for offset in [28_800, 0, -86_399, 86_399, 3_600] {
            assert_eq!(write_time(wall_clock(ts, offset)), chrono_text(ts, offset), "{ts} {offset}");
        }
    }
}

#[test]
fn out_of_range_instants_read_as_the_epoch() {
    assert_eq!(wall_clock(i64::MAX, 28_800), civil(1970, 1, 1, 8, 0, 0));
    assert_eq!(wall_clock(i64::MIN, 0), civil(1970, 1, 1, 0, 0, 0));
}
