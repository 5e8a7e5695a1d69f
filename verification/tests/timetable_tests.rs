use baro_bot::text::IntErrorKind;
use baro_bot::timetable::{dot_integer, get_week_day, string_to_i32, TTUnit, Weekday};

#[test]
fn weekday_numbers_name_days() {
    let names = ["Monday", "Tuesday", "Wednesday", "Thursday", "Friday", "Saturday", "Sunday"];
    for (i, name) in names.iter().enumerate() {
        let w = Weekday::from((i + 1).to_string());
        assert_eq!(w.to_string(), *name);
    }
    assert_eq!(Weekday::from("2".to_string()), Weekday::Tue);
}

#[test]
fn other_texts_stay_invalid_and_unchanged() {
    for t in ["0", "8", "", "12", "x", "\0", "一"] {
        let w = Weekday::from(t.to_string());
        assert_eq!(w, Weekday::Invalid(t.to_string()));
        assert_eq!(w.to_string(), t);
    }
}

#[test]
fn dot_integer_reads_lists() {
    assert_eq!(dot_integer("1,2,3"), Ok(vec![1, 2, 3]));
    assert_eq!(dot_integer(" 1 , 2,\t3 "), Ok(vec![1, 2, 3]));
    assert_eq!(dot_integer("17"), Ok(vec![17]));
    assert_eq!(dot_integer("-4,+5"), Ok(vec![-4, 5]));
}

#[test]
fn dot_integer_reports_the_first_bad_piece() {
    assert_eq!(dot_integer(""), Err(IntErrorKind::Empty));
    assert_eq!(dot_integer("1,,2"), Err(IntErrorKind::Empty));
    assert_eq!(dot_integer("1,"), Err(IntErrorKind::Empty));
    assert_eq!(dot_integer("1,a,99999999999"), Err(IntErrorKind::InvalidDigit));
    assert_eq!(dot_integer("1,99999999999,a"), Err(IntErrorKind::PosOverflow));
}

#[test]
fn dot_integer_agrees_with_split_trim_parse() {
    for s in ["1,2", " 3 ,4", "5,", "a", "1, -2 ,+3", "1;2", "1,2,3,4,5,6,7,8,9,10,11,12,13,14,15,16"] {
        let std: Result<Vec<i32>, _> = s.split(',').map(|i| i.trim().parse::<i32>()).collect();
        assert_eq!(dot_integer(s).ok(), std.ok(), "{s}");
    }
}

#[test]
fn string_to_i32_does_not_trim() {
    assert_eq!(string_to_i32("2025"), Ok(2025));
    assert_eq!(string_to_i32(" 2025"), Err(IntErrorKind::InvalidDigit));
}

#[test]
fn the_day_is_the_second_character() {
    assert_eq!(get_week_day("x3"), Weekday::Wed);
    assert_eq!(get_week_day("17"), Weekday::Sun);
    assert_eq!(get_week_day("9"), Weekday::Invalid("\0".to_string()));
    assert_eq!(get_week_day(""), Weekday::Invalid("\0".to_string()));
    assert_eq!(get_week_day("a9b"), Weekday::Invalid("9".to_string()));
}

#[test]
fn a_lesson_reads_from_its_fields() {
    let u = TTUnit::from_fields("2025", "1,2, 3", "x2", "3,4", "Math".to_string()).unwrap();
    assert_eq!(u.term, 2025);
    assert_eq!(u.weeks, vec![1, 2, 3]);
    assert_eq!(u.weekday, Weekday::Tue);
    assert_eq!(u.queues, vec![3, 4]);
    assert_eq!(u.name, "Math");
}

#[test]
fn a_lesson_with_a_bad_field_is_refused() {
    assert_eq!(TTUnit::from_fields("y", "1", "x2", "1", String::new()), Err(IntErrorKind::InvalidDigit));
    assert_eq!(TTUnit::from_fields("1", "", "x2", "1", String::new()), Err(IntErrorKind::Empty));
    assert_eq!(TTUnit::from_fields("1", "1", "x2", "9999999999", String::new()), Err(IntErrorKind::PosOverflow));
    assert_eq!(TTUnit::from_fields("1", "-9999999999", "x2", "", String::new()), Err(IntErrorKind::NegOverflow));
}
