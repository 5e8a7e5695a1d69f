//! The school timetable: the fields of one lesson as the timetable service
//! writes them, and how they are read.

use vstd::prelude::*;

use crate::text::{digit_char, is_digit, parse_i32, parse_i32_text, split_on, trim, trim_text, IntErrorKind};

verus! {

/// A day of the week, or the text that named none.
#[derive(Clone, Debug, PartialEq, Eq, Hash)]
pub enum Weekday {
    Mon,
    Tue,
    Wed,
    Thu,
    Fri,
    Sat,
    Sun,
    /// Holds the raw text that is not a day's number.
    Invalid(String),
}

/// The day that the text `t` numbers: `1` is Monday, ..., `7` is Sunday;
/// 0 for any other text.
pub open spec fn day_number_of(t: Seq<char>) -> int {
    if t.len() == 1 && '1' <= t[0] && t[0] <= '7' {
        (t[0] as int) - ('0' as int)
    } else {
        0
    }
}

/// The number of a day: Monday is 1, ..., Sunday is 7; 0 for `Invalid`.
pub open spec fn day_number(w: Weekday) -> int {
    match w {
        Weekday::Mon => 1,
        Weekday::Tue => 2,
        Weekday::Wed => 3,
        Weekday::Thu => 4,
        Weekday::Fri => 5,
        Weekday::Sat => 6,
        Weekday::Sun => 7,
        Weekday::Invalid(_) => 0,
    }
}

/// The English name of a day; the raw text for `Invalid`.
pub open spec fn weekday_text(w: Weekday) -> Seq<char> {
    match w {
        Weekday::Mon => "Monday"@,
        Weekday::Tue => "Tuesday"@,
        Weekday::Wed => "Wednesday"@,
        Weekday::Thu => "Thursday"@,
        Weekday::Fri => "Friday"@,
        Weekday::Sat => "Saturday"@,
        Weekday::Sun => "Sunday"@,
        Weekday::Invalid(n) => n@,
    }
}

impl Weekday {
    /// The day that `n` numbers (`"1"` is Monday, ..., `"7"` is Sunday),
    /// else `Invalid(n)`.
    pub fn from(n: String) -> (w: Weekday)
        ensures
            day_number(w) == day_number_of(n@),
            day_number_of(n@) == 0 ==> w == Weekday::Invalid(n),
    {
        if n.as_str().unicode_len() == 1 {
            let c = n.as_str().get_char(0);
            if c == '1' {
                return Weekday::Mon;
            } else if c == '2' {
                return Weekday::Tue;
            } else if c == '3' {
                return Weekday::Wed;
            } else if c == '4' {
                return Weekday::Thu;
            } else if c == '5' {
                return Weekday::Fri;
            } else if c == '6' {
                return Weekday::Sat;
            } else if c == '7' {
                return Weekday::Sun;
            }
        }
        Weekday::Invalid(n)
    }

    /// The day's English name (`"Monday"`, ...), or the raw text that
    /// `Invalid` holds.
    pub fn to_string(&self) -> (r: String)
        ensures
            r@ == weekday_text(*self),
    {
        match self {
            Weekday::Mon => String::from_str("Monday"),
            Weekday::Tue => String::from_str("Tuesday"),
            Weekday::Wed => String::from_str("Wednesday"),
            Weekday::Thu => String::from_str("Thursday"),
            Weekday::Fri => String::from_str("Friday"),
            Weekday::Sat => String::from_str("Saturday"),
            Weekday::Sun => String::from_str("Sunday"),
            Weekday::Invalid(n) => n.clone(),
        }
    }
}

/// A text that numbers no day comes back unchanged from `to_string`:
/// `Invalid` keeps the raw input.
pub proof fn law_invalid_weekday_keeps_text(n: String, w: Weekday)
    requires
        day_number_of(n@) == 0,
        w == Weekday::Invalid(n),
    ensures
        weekday_text(w) == n@,
{
}

/// The days are numbered in the week's order, Monday first, and each named
/// by its English name; the single digits 1 to 7 number them, and every
/// other text numbers none.
pub proof fn law_days_in_week_order(w: Weekday, t: Seq<char>)
    ensures
        day_number(w) == 1 ==> weekday_text(w) == "Monday"@,
        day_number(w) == 2 ==> weekday_text(w) == "Tuesday"@,
        day_number(w) == 3 ==> weekday_text(w) == "Wednesday"@,
        day_number(w) == 4 ==> weekday_text(w) == "Thursday"@,
        day_number(w) == 5 ==> weekday_text(w) == "Friday"@,
        day_number(w) == 6 ==> weekday_text(w) == "Saturday"@,
        day_number(w) == 7 ==> weekday_text(w) == "Sunday"@,
        0 <= day_number(w) <= 7,
        forall|d: int| 1 <= d <= 7 ==> #[trigger] day_number_of(seq![digit_char(d)]) == d,
        day_number_of(t) != 0 ==> t.len() == 1 && is_digit(t[0]) && t == seq![digit_char(day_number_of(t))],
{
    assert forall|d: int| 1 <= d <= 7 implies #[trigger] day_number_of(seq![digit_char(d)]) == d by {
        assert(seq![digit_char(d)][0] == digit_char(d));
    }
    if day_number_of(t) != 0 {
        assert(t =~= seq![digit_char(day_number_of(t))]);
    }
}

/// Reads the pieces of a comma-separated list as `i32` numbers, each one
/// trimmed first; the first piece that is no number decides the error.
pub open spec fn parse_i32_list(pieces: Seq<Seq<char>>) -> Result<Seq<i32>, IntErrorKind>
    decreases pieces.len(),
{
    if pieces.len() == 0 {
        Ok(Seq::<i32>::empty())
    } else {
        match parse_i32_list(pieces.drop_last()) {
            Err(e) => Err(e),
            Ok(v) => match parse_i32(trim(pieces.last())) {
                Ok(x) => Ok(v.push(x)),
                Err(e) => Err(e),
            },
        }
    }
}

/// What `dot_integer` gives for the text `s`.
pub open spec fn dot_integer_spec(s: Seq<char>) -> Result<Seq<i32>, IntErrorKind> {
    parse_i32_list(split_on(s, ','))
}

/// Reads one piece of the list and records its number or its error.
fn take_piece(piece: &str, out: &mut Vec<i32>, failure: &mut Option<IntErrorKind>)
    ensures
        old(failure).is_some() ==> *final(failure) == *old(failure) && final(out)@ == old(out)@,
        old(failure).is_none() ==> match parse_i32(trim(piece@)) {
            Ok(x) => final(out)@ == old(out)@.push(x) && final(failure).is_none(),
            Err(e) => final(out)@ == old(out)@ && *final(failure) == Some(e),
        },
{
    if failure.is_none() {
        match parse_i32_text(trim_text(piece)) {
            Ok(x) => out.push(x),
            Err(e) => *failure = Some(e),
        }
    }
}

/// Reads a comma-separated list of numbers such as `"1, 2,3"`: each piece
/// between commas, trimmed, must be an `i32`; else the error of the first
/// piece that is not.
pub fn dot_integer(s: &str) -> (r: Result<Vec<i32>, IntErrorKind>)
    ensures
        match dot_integer_spec(s@) {
            Ok(v) => r matches Ok(out) && out@ == v,
            Err(e) => r == Err::<Vec<i32>, IntErrorKind>(e),
        },
{
    let len = s.unicode_len();
    let ghost chars = s@;
    let mut out: Vec<i32> = Vec::new();
    let mut failure: Option<IntErrorKind> = None;
    let mut start: usize = 0;
    let mut i: usize = 0;
    for c in it: s.chars()
        invariant
            it.seq() == chars,
            chars == s@,
            len == chars.len(),
            i == it.index(),
            start <= i,
            ({
                let pieces = split_on(chars.subrange(0, i as int), ',');
                &&& pieces.len() >= 1
                &&& pieces.last() == chars.subrange(start as int, i as int)
                &&& match failure {
                    None => parse_i32_list(pieces.drop_last()) == Ok::<Seq<i32>, IntErrorKind>(out@),
                    Some(e) => parse_i32_list(pieces.drop_last()) == Err::<Seq<i32>, IntErrorKind>(e),
                }
            }),
    {
        let ghost prefix = chars.subrange(0, i as int);
        let ghost next = chars.subrange(0, i + 1);
        proof {
            assert(next.drop_last() =~= prefix);
            assert(next.last() == c);
        }
        if c == ',' {
            let piece = s.substring_char(start, i);
            take_piece(piece, &mut out, &mut failure);
            start = i + 1;
            proof {
                let pieces = split_on(next, ',');
                assert(pieces.drop_last() =~= split_on(prefix, ','));
                assert(pieces.last() =~= chars.subrange(start as int, i + 1));
            }
        } else {
            proof {
                let before = split_on(prefix, ',');
                let pieces = split_on(next, ',');
                assert(pieces.drop_last() =~= before.drop_last());
                assert(pieces.last() =~= chars.subrange(start as int, i + 1));
            }
        }
        i = i + 1;
    }
    let piece = s.substring_char(start, len);
    take_piece(piece, &mut out, &mut failure);
    proof {
        let pieces = split_on(chars, ',');
        assert(chars.subrange(0, len as int) =~= chars);
        assert(pieces =~= pieces.drop_last().push(pieces.last()));
    }
    match failure {
        None => Ok(out),
        Some(e) => Err(e),
    }
}

/// Reads a whole text as an `i32` (no trimming).
pub fn string_to_i32(s: &str) -> (r: Result<i32, IntErrorKind>)
    ensures
        r == parse_i32(s@),
{
    parse_i32_text(s)
}

/// The day that the second character of `s` numbers (the service writes
/// days as `"x3"` and the like); a missing second character reads as `'\0'`.
pub fn get_week_day(s: &str) -> (w: Weekday)
    ensures
        ({
            let second = if s@.len() > 1 { seq![s@[1]] } else { seq!['\0'] };
            &&& day_number(w) == day_number_of(second)
            &&& w is Invalid ==> w->Invalid_0@ == second
        }),
{
    let text = if s.unicode_len() > 1 {
        s.substring_char(1, 2).to_string()
    } else {
        proof {
            reveal_strlit("\0");
        }
        String::from_str("\0")
    };
    proof {
        if s@.len() > 1 {
            assert(s@.subrange(1, 2) =~= seq![s@[1]]);
        }
    }
    Weekday::from(text)
}

/// One lesson of the timetable.
#[derive(Debug, PartialEq, Eq)]
pub struct TTUnit {
    /// The school year (the service's `XN`).
    pub term: i32,
    /// The weeks in which the lesson is held (`ZCFX`).
    pub weeks: Vec<i32>,
    /// The day of the week (`JCZ`).
    pub weekday: Weekday,
    /// The periods of the day (`JCFX`).
    pub queues: Vec<i32>,
    /// The course's name (`KCMC`).
    pub name: String,
}

impl TTUnit {
    /// Reads a lesson from the service's text fields: the year as a whole
    /// number, the weeks and the periods as comma-separated numbers, the day
    /// from the second character of its field. The first field that does not
    /// read (year, weeks, periods) gives the error.
    pub fn from_fields(term: &str, weeks: &str, weekday: &str, queues: &str, name: String) -> (r: Result<
        TTUnit,
        IntErrorKind,
    >)
        ensures
            match (parse_i32(term@), dot_integer_spec(weeks@), dot_integer_spec(queues@)) {
                (Ok(t), Ok(w), Ok(q)) => r matches Ok(u) && {
                    &&& u.term == t
                    &&& u.weeks@ == w
                    &&& u.queues@ == q
                    &&& u.name == name
                    &&& day_number(u.weekday) == day_number_of(
                        if weekday@.len() > 1 { seq![weekday@[1]] } else { seq!['\0'] },
                    )
                    &&& u.weekday is Invalid ==> u.weekday->Invalid_0@ == (if weekday@.len() > 1 {
                        seq![weekday@[1]]
                    } else {
                        seq!['\0']
                    })
                },
                (Err(e), _, _) => r == Err::<TTUnit, IntErrorKind>(e),
                (Ok(_), Err(e), _) => r == Err::<TTUnit, IntErrorKind>(e),
                (Ok(_), Ok(_), Err(e)) => r == Err::<TTUnit, IntErrorKind>(e),
            },
    {
        let term = match string_to_i32(term) {
            Ok(t) => t,
            Err(e) => {
                return Err(e);
            },
        };
        let weeks = match dot_integer(weeks) {
            Ok(w) => w,
            Err(e) => {
                return Err(e);
            },
        };
        let weekday = get_week_day(weekday);
        let queues = match dot_integer(queues) {
            Ok(q) => q,
            Err(e) => {
                return Err(e);
            },
        };
        Ok(TTUnit { term, weeks, weekday, queues, name })
    }
}

} // verus!
