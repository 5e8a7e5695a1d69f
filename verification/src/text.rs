//! Decimal numbers in text: how the bot reads them and how it writes them,
//! and the trimming and splitting that come before reading.

use vstd::prelude::*;

verus! {

/// Why a text is not a number of the asked-for integer type; the same four
/// kinds that std's integer `FromStr` reports.
#[derive(Debug, Clone, Copy, PartialEq, Eq, Structural)]
pub enum IntErrorKind {
    /// The text is empty.
    Empty,
    /// The text holds a character that is not a digit, or only a sign.
    InvalidDigit,
    /// The number is above the type's maximum.
    PosOverflow,
    /// The number is below the type's minimum.
    NegOverflow,
}

/// `c` is one of the ASCII digits `0`..`9`.
pub open spec fn is_digit(c: char) -> bool {
    '0' <= c && c <= '9'
}

/// The value of an ASCII digit.
pub open spec fn digit_value(c: char) -> int {
    (c as int) - ('0' as int)
}

/// The digit that stands for `d`, for `0 <= d < 10`.
pub open spec fn digit_char(d: int) -> char {
    (d + ('0' as int)) as char
}

/// Reads a run of digits left to right, as std does: `Err(true)` at the
/// first character that is not a digit, `Err(false)` as soon as the value
/// read so far passes `limit`, else the value.
pub open spec fn scan_digits(s: Seq<char>, limit: int) -> Result<int, bool>
    decreases s.len(),
{
    if s.len() == 0 {
        Ok(0)
    } else {
        match scan_digits(s.drop_last(), limit) {
            Err(e) => Err(e),
            Ok(v) => if !is_digit(s.last()) {
                Err(true)
            } else if v * 10 + digit_value(s.last()) > limit {
                Err(false)
            } else {
                Ok(v * 10 + digit_value(s.last()))
            },
        }
    }
}

/// What std's integer `FromStr` gives for `s` and a signed type whose range
/// is `lo..=hi`: an optional `+` or `-`, then one or more ASCII digits.
pub open spec fn parse_integer(s: Seq<char>, lo: int, hi: int) -> Result<int, IntErrorKind> {
    if s.len() == 0 {
        Err(IntErrorKind::Empty)
    } else if (s[0] == '+' || s[0] == '-') && s.len() == 1 {
        Err(IntErrorKind::InvalidDigit)
    } else {
        let negative = s[0] == '-';
        let body = if s[0] == '+' || s[0] == '-' { s.drop_first() } else { s };
        let limit = if negative { -lo } else { hi };
        match scan_digits(body, limit) {
            Ok(v) => Ok(if negative { -v } else { v }),
            Err(invalid) => Err(
                if invalid {
                    IntErrorKind::InvalidDigit
                } else if negative {
                    IntErrorKind::NegOverflow
                } else {
                    IntErrorKind::PosOverflow
                },
            ),
        }
    }
}

/// `s.parse::<i32>()`.
pub open spec fn parse_i32(s: Seq<char>) -> Result<i32, IntErrorKind> {
    match parse_integer(s, i32::MIN as int, i32::MAX as int) {
        Ok(v) => Ok(v as i32),
        Err(e) => Err(e),
    }
}

/// `s.parse::<i64>()`.
pub open spec fn parse_i64(s: Seq<char>) -> Result<i64, IntErrorKind> {
    match parse_integer(s, i64::MIN as int, i64::MAX as int) {
        Ok(v) => Ok(v as i64),
        Err(e) => Err(e),
    }
}

/// The decimal digits of `n`, most significant first, without leading zeros.
pub open spec fn digits_of(n: nat) -> Seq<char>
    decreases n,
{
    if n < 10 {
        seq![digit_char(n as int)]
    } else {
        digits_of(n / 10).push(digit_char((n % 10) as int))
    }
}

/// How std's `Display` writes the integer `n`: a `-` for a negative number,
/// then its decimal digits.
pub open spec fn decimal(n: int) -> Seq<char> {
    if n < 0 {
        seq!['-'] + digits_of((-n) as nat)
    } else {
        digits_of(n as nat)
    }
}

/// `c` has Unicode's White_Space property, which is what `char::is_whitespace`
/// tests.
pub open spec fn is_whitespace(c: char) -> bool {
    let u = c as int;
    ||| 0x09 <= u <= 0x0D
    ||| u == 0x20
    ||| u == 0x85
    ||| u == 0xA0
    ||| u == 0x1680
    ||| 0x2000 <= u <= 0x200A
    ||| u == 0x2028
    ||| u == 0x2029
    ||| u == 0x202F
    ||| u == 0x205F
    ||| u == 0x3000
}

/// `s` without its leading whitespace.
pub open spec fn trim_start(s: Seq<char>) -> Seq<char>
    decreases s.len(),
{
    if s.len() > 0 && is_whitespace(s[0]) {
        trim_start(s.drop_first())
    } else {
        s
    }
}

/// `s` without its trailing whitespace.
pub open spec fn trim_end(s: Seq<char>) -> Seq<char>
    decreases s.len(),
{
    if s.len() > 0 && is_whitespace(s.last()) {
        trim_end(s.drop_last())
    } else {
        s
    }
}

/// `str::trim`: `s` without leading and trailing whitespace.
pub open spec fn trim(s: Seq<char>) -> Seq<char> {
    trim_end(trim_start(s))
}

/// `str::split(sep)`: the pieces of `s` between the separators, in order;
/// there is always one more piece than there are separators.
pub open spec fn split_on(s: Seq<char>, sep: char) -> Seq<Seq<char>>
    decreases s.len(),
{
    if s.len() == 0 {
        seq![Seq::<char>::empty()]
    } else {
        let before = split_on(s.drop_last(), sep);
        if s.last() == sep {
            before.push(Seq::<char>::empty())
        } else {
            before.update(before.len() - 1, before.last().push(s.last()))
        }
    }
}

/// The pieces joined again, with `sep` between each two.
pub open spec fn join_on(pieces: Seq<Seq<char>>, sep: char) -> Seq<char>
    decreases pieces.len(),
{
    if pieces.len() <= 1 {
        if pieces.len() == 0 {
            Seq::<char>::empty()
        } else {
            pieces[0]
        }
    } else {
        join_on(pieces.drop_last(), sep) + seq![sep] + pieces.last()
    }
}

/// Splitting loses nothing and cuts at every separator: the pieces, joined
/// with the separator between each two, give back the text, and no piece
/// holds the separator.
pub proof fn law_split_on_rejoins(s: Seq<char>, sep: char)
    ensures
        split_on(s, sep).len() >= 1,
        join_on(split_on(s, sep), sep) == s,
        forall|i: int| 0 <= i < split_on(s, sep).len() ==> !(#[trigger] split_on(s, sep)[i]).contains(sep),
    decreases s.len(),
{
    if s.len() > 0 {
        let t = s.drop_last();
        law_split_on_rejoins(t, sep);
        let before = split_on(t, sep);
        let pieces = split_on(s, sep);
        if s.last() == sep {
            assert(pieces.drop_last() =~= before);
            assert(join_on(pieces, sep) =~= t + seq![sep]);
            assert forall|i: int| 0 <= i < pieces.len() implies !(#[trigger] pieces[i]).contains(sep) by {
                if i < before.len() {
                    assert(pieces[i] == before[i]);
                } else {
                    assert(pieces[i] =~= Seq::<char>::empty());
                }
            }
        } else {
            let n = before.len() - 1;
            let last = before.last().push(s.last());
            assert(pieces.len() == before.len());
            if before.len() == 1 {
                assert(join_on(before, sep) == before[0]);
                assert(join_on(pieces, sep) == pieces[0]);
                assert(pieces[0] =~= t.push(s.last()));
            } else {
                assert(pieces.drop_last() =~= before.drop_last());
                assert(join_on(pieces, sep) =~= join_on(before.drop_last(), sep) + seq![sep] + last);
                assert(join_on(before, sep) == join_on(before.drop_last(), sep) + seq![sep] + before.last());
            }
            assert(s =~= t.push(s.last()));
            assert forall|i: int| 0 <= i < pieces.len() implies !(#[trigger] pieces[i]).contains(sep) by {
                if i < n {
                    assert(pieces[i] == before[i]);
                } else {
                    assert(pieces[i] == last);
                    assert(!before[n].contains(sep));
                    if last.contains(sep) {
                        let k = choose|k: int| 0 <= k < last.len() && last[k] == sep;
                        if k < before[n].len() {
                            assert(before[n][k] == sep);
                        }
                    }
                }
            }
        }
    }
}

proof fn lemma_scan_digits_range(s: Seq<char>, limit: int)
    requires
        limit >= 0,
    ensures
        scan_digits(s, limit) matches Ok(v) ==> 0 <= v <= limit,
    decreases s.len(),
{
    if s.len() > 0 {
        lemma_scan_digits_range(s.drop_last(), limit);
    }
}

/// Reads `s` as std's integer `FromStr` does for a signed type of range
/// `lo..=hi`.
fn parse_bounded(s: &str, lo: i128, hi: i128) -> (r: Result<i128, IntErrorKind>)
    requires
        -0x1_0000_0000_0000_0000 <= lo <= 0 <= hi <= 0x1_0000_0000_0000_0000,
    ensures
        match parse_integer(s@, lo as int, hi as int) {
            Ok(v) => r == Ok::<i128, IntErrorKind>(v as i128),
            Err(e) => r == Err::<i128, IntErrorKind>(e),
        },
        r matches Ok(v) ==> lo <= v <= hi,
        parse_integer(s@, lo as int, hi as int) matches Ok(v) ==> lo <= v <= hi,
{
    let len = s.unicode_len();
    if len == 0 {
        return Err(IntErrorKind::Empty);
    }
    let ghost chars = s@;
    let first_char = s.get_char(0);
    let signed = first_char == '+' || first_char == '-';
    if signed && len == 1 {
        return Err(IntErrorKind::InvalidDigit);
    }
    let negative = first_char == '-';
    let limit: i128 = if negative { -lo } else { hi };
    let start: usize = if signed { 1 } else { 0 };
    let mut acc: i128 = 0;
    let mut failure: Option<bool> = None;
    let mut i: usize = 0;
    for c in it: s.chars()
        invariant
            it.seq() == chars,
            chars == s@,
            len == chars.len(),
            i == it.index(),
            start == (if signed { 1int } else { 0int }),
            0 <= limit <= 0x1_0000_0000_0000_0000,
            0 <= acc <= limit,
            ({
                let body = chars.subrange(start as int, if i < start { start as int } else { i as int });
                match failure {
                    None => scan_digits(body, limit as int) == Ok::<int, bool>(acc as int),
                    Some(e) => scan_digits(body, limit as int) == Err::<int, bool>(e),
                }
            }),
    {
        if i >= start {
            let ghost old_body = chars.subrange(start as int, i as int);
            let ghost new_body = chars.subrange(start as int, i + 1);
            proof {
                assert(new_body.drop_last() =~= old_body);
                assert(new_body.last() == c);
            }
            if failure.is_none() {
                if '0' <= c && c <= '9' {
                    let d: i128 = ((c as u32) - ('0' as u32)) as i128;
                    let next = acc * 10 + d;
                    if next > limit {
                        failure = Some(false);
                    } else {
                        acc = next;
                    }
                } else {
                    failure = Some(true);
                }
            }
        } else {
            proof {
                assert(chars.subrange(start as int, start as int) =~= Seq::<char>::empty());
            }
        }
        i = i + 1;
    }
    proof {
        let body = chars.subrange(start as int, len as int);
        lemma_scan_digits_range(body, limit as int);
        if signed {
            assert(body =~= chars.drop_first());
        } else {
            assert(body =~= chars);
        }
    }
    match failure {
        None => Ok(if negative { -acc } else { acc }),
        Some(invalid) => Err(
            if invalid {
                IntErrorKind::InvalidDigit
            } else if negative {
                IntErrorKind::NegOverflow
            } else {
                IntErrorKind::PosOverflow
            },
        ),
    }
}

/// `s.parse::<i32>()`.
pub fn parse_i32_text(s: &str) -> (r: Result<i32, IntErrorKind>)
    ensures
        r == parse_i32(s@),
{
    match parse_bounded(s, -0x8000_0000, 0x7fff_ffff) {
        Ok(v) => Ok(v as i32),
        Err(e) => Err(e),
    }
}

/// `s.parse::<i64>()`.
pub fn parse_i64_text(s: &str) -> (r: Result<i64, IntErrorKind>)
    ensures
        r == parse_i64(s@),
{
    match parse_bounded(s, -0x8000_0000_0000_0000, 0x7fff_ffff_ffff_ffff) {
        Ok(v) => Ok(v as i64),
        Err(e) => Err(e),
    }
}

/// The one-character text of the digit `d`.
fn digit_str(d: u64) -> (r: &'static str)
    requires
        d < 10,
    ensures
        r@ == seq![digit_char(d as int)],
{
    proof {
        reveal_strlit("0");
        reveal_strlit("1");
        reveal_strlit("2");
        reveal_strlit("3");
        reveal_strlit("4");
        reveal_strlit("5");
        reveal_strlit("6");
        reveal_strlit("7");
        reveal_strlit("8");
        reveal_strlit("9");
    }
    match d {
        0 => "0",
        1 => "1",
        2 => "2",
        3 => "3",
        4 => "4",
        5 => "5",
        6 => "6",
        7 => "7",
        8 => "8",
        _ => "9",
    }
}

/// Appends the decimal digits of `n` to `out`.
fn push_digits(out: &mut String, n: u64)
    ensures
        final(out)@ == old(out)@ + digits_of(n as nat),
    decreases n,
{
    if n >= 10 {
        push_digits(out, n / 10);
    }
    out.append(digit_str(n % 10));
    proof {
        if n >= 10 {
            assert(old(out)@ + digits_of((n / 10) as nat) + seq![digit_char((n % 10) as int)] =~= old(out)@
                + digits_of(n as nat));
        } else {
            assert(n % 10 == n);
        }
    }
}

/// `n.to_string()`: the decimal text of `n`.
pub fn decimal_text(n: i64) -> (r: String)
    ensures
        r@ == decimal(n as int),
{
    let mut out = String::new();
    if n < 0 {
        proof {
            reveal_strlit("-");
        }
        out.append("-");
        let magnitude: u64 = (0i128 - (n as i128)) as u64;
        push_digits(&mut out, magnitude);
    } else {
        push_digits(&mut out, n as u64);
    }
    out
}

proof fn lemma_digits_of_scan(m: nat, limit: int)
    ensures
        digits_of(m).len() >= 1,
        is_digit(digits_of(m)[0]),
        m <= limit ==> scan_digits(digits_of(m), limit) == Ok::<int, bool>(m as int),
    decreases m,
{
    let c = digit_char((m % 10) as int);
    assert(digit_value(c) == m % 10);
    if m < 10 {
        assert(digits_of(m).drop_last() =~= Seq::<char>::empty());
        assert(m % 10 == m);
        assert(scan_digits(Seq::<char>::empty(), limit) == Ok::<int, bool>(0));
    } else {
        lemma_digits_of_scan(m / 10, limit);
        assert(digits_of(m).drop_last() =~= digits_of(m / 10));
        assert(digits_of(m)[0] == digits_of(m / 10)[0]);
        assert((m / 10) * 10 + m % 10 == m);
        assert(m / 10 <= m);
        assert(digits_of(m).last() == c);
        if m <= limit {
            assert(scan_digits(digits_of(m / 10), limit) == Ok::<int, bool>((m / 10) as int));
            assert(is_digit(c));
        }
    }
}

proof fn lemma_parse_decimal(n: int, lo: int, hi: int)
    requires
        lo <= 0 <= hi,
        lo <= n <= hi,
    ensures
        parse_integer(decimal(n), lo, hi) == Ok::<int, IntErrorKind>(n),
{
    if n < 0 {
        lemma_digits_of_scan((-n) as nat, -lo);
        assert(decimal(n).drop_first() =~= digits_of((-n) as nat));
    } else {
        lemma_digits_of_scan(n as nat, hi);
    }
}

/// Reading back what `decimal_text` writes gives the number again: std's
/// `parse::<i64>` undoes `to_string` on every `i64`.
pub proof fn law_parse_i64_undoes_decimal(n: i64)
    ensures
        parse_i64(decimal(n as int)) == Ok::<i64, IntErrorKind>(n),
{
    lemma_parse_decimal(n as int, i64::MIN as int, i64::MAX as int);
}

/// The same for `i32`: `parse::<i32>` undoes `to_string` on every `i32`.
pub proof fn law_parse_i32_undoes_decimal(n: i32)
    ensures
        parse_i32(decimal(n as int)) == Ok::<i32, IntErrorKind>(n),
{
    lemma_parse_decimal(n as int, i32::MIN as int, i32::MAX as int);
}

/// `char::is_whitespace`.
pub fn char_is_whitespace(c: char) -> (r: bool)
    ensures
        r == is_whitespace(c),
{
    let u = c as u32;
    (0x09 <= u && u <= 0x0D) || u == 0x20 || u == 0x85 || u == 0xA0 || u == 0x1680 || (0x2000 <= u
        && u <= 0x200A) || u == 0x2028 || u == 0x2029 || u == 0x202F || u == 0x205F || u == 0x3000
}

proof fn lemma_trim_start_at(s: Seq<char>, a: int)
    requires
        0 <= a <= s.len(),
        forall|j: int| 0 <= j < a ==> is_whitespace(#[trigger] s[j]),
        a < s.len() ==> !is_whitespace(s[a]),
    ensures
        trim_start(s) == s.subrange(a, s.len() as int),
    decreases a,
{
    if a == 0 {
        assert(s.subrange(0, s.len() as int) =~= s);
    } else {
        let t = s.drop_first();
        assert forall|j: int| 0 <= j < a - 1 implies is_whitespace(#[trigger] t[j]) by {
            assert(t[j] == s[j + 1]);
        }
        if a - 1 < t.len() {
            assert(t[a - 1] == s[a]);
        }
        assert(is_whitespace(s[0]));
        lemma_trim_start_at(t, a - 1);
        assert(t.subrange(a - 1, t.len() as int) =~= s.subrange(a, s.len() as int));
    }
}

proof fn lemma_trim_end_at(s: Seq<char>, b: int)
    requires
        0 <= b <= s.len(),
        forall|j: int| b <= j < s.len() ==> is_whitespace(#[trigger] s[j]),
        b > 0 ==> !is_whitespace(s[b - 1]),
    ensures
        trim_end(s) == s.subrange(0, b),
    decreases s.len() - b,
{
    if b == s.len() {
        assert(s.subrange(0, b) =~= s);
    } else {
        let t = s.drop_last();
        assert forall|j: int| b <= j < t.len() implies is_whitespace(#[trigger] t[j]) by {
            assert(t[j] == s[j]);
        }
        if b > 0 {
            assert(t[b - 1] == s[b - 1]);
        }
        assert(is_whitespace(s[s.len() - 1]));
        lemma_trim_end_at(t, b);
        assert(t.subrange(0, b) =~= s.subrange(0, b));
    }
}

proof fn lemma_trim_start_index(s: Seq<char>) -> (k: int)
    ensures
        0 <= k <= s.len(),
        trim_start(s) == s.subrange(k, s.len() as int),
        forall|j: int| 0 <= j < k ==> is_whitespace(#[trigger] s[j]),
        k < s.len() ==> !is_whitespace(s[k]),
    decreases s.len(),
{
    if s.len() > 0 && is_whitespace(s[0]) {
        let t = s.drop_first();
        let k1 = lemma_trim_start_index(t);
        assert(t.subrange(k1, t.len() as int) =~= s.subrange(k1 + 1, s.len() as int));
        assert forall|j: int| 0 <= j < k1 + 1 implies is_whitespace(#[trigger] s[j]) by {
            if j > 0 {
                assert(s[j] == t[j - 1]);
            }
        }
        if k1 + 1 < s.len() {
            assert(s[k1 + 1] == t[k1]);
        }
        k1 + 1
    } else {
        assert(s.subrange(0, s.len() as int) =~= s);
        0
    }
}

proof fn lemma_trim_end_index(s: Seq<char>) -> (k: int)
    ensures
        0 <= k <= s.len(),
        trim_end(s) == s.subrange(0, k),
        forall|j: int| k <= j < s.len() ==> is_whitespace(#[trigger] s[j]),
        k > 0 ==> !is_whitespace(s[k - 1]),
    decreases s.len(),
{
    if s.len() > 0 && is_whitespace(s.last()) {
        let t = s.drop_last();
        let k1 = lemma_trim_end_index(t);
        assert(t.subrange(0, k1) =~= s.subrange(0, k1));
        assert forall|j: int| k1 <= j < s.len() implies is_whitespace(#[trigger] s[j]) by {
            if j < t.len() {
                assert(s[j] == t[j]);
            }
        }
        if k1 > 0 {
            assert(s[k1 - 1] == t[k1 - 1]);
        }
        k1
    } else {
        assert(s.subrange(0, s.len() as int) =~= s);
        s.len() as int
    }
}

/// Trimming cuts off exactly the whitespace at both ends: what is left is
/// one piece of `s`, everything before and after it is whitespace, and it
/// neither starts nor ends with whitespace (or is empty).
pub proof fn law_trim_cuts_whitespace_ends(s: Seq<char>)
    ensures
        exists|a: int, b: int|
            {
                &&& 0 <= a <= b <= s.len()
                &&& #[trigger] s.subrange(a, b) == trim(s)
                &&& forall|j: int| 0 <= j < a ==> is_whitespace(#[trigger] s[j])
                &&& forall|j: int| b <= j < s.len() ==> is_whitespace(#[trigger] s[j])
            },
        trim(s).len() > 0 ==> !is_whitespace(trim(s)[0]) && !is_whitespace(trim(s).last()),
        trim(s).len() <= s.len(),
{
    let a = lemma_trim_start_index(s);
    let u = s.subrange(a, s.len() as int);
    let k = lemma_trim_end_index(u);
    let b = a + k;
    assert(u.subrange(0, k) =~= s.subrange(a, b));
    assert forall|j: int| b <= j < s.len() implies is_whitespace(#[trigger] s[j]) by {
        assert(s[j] == u[j - a]);
    }
    if k > 0 {
        assert(trim(s)[0] == u[0]);
        assert(trim(s).last() == u[k - 1]);
    }
    assert(s.subrange(a, b) == trim(s));
}

/// `s.trim()`: `s` without leading and trailing whitespace.
pub fn trim_text(s: &str) -> (r: &str)
    ensures
        r@ == trim(s@),
{
    let len = s.unicode_len();
    let ghost chars = s@;
    let mut first: usize = 0;
    let mut found = false;
    let mut end: usize = 0;
    let mut i: usize = 0;
    for c in it: s.chars()
        invariant
            it.seq() == chars,
            chars == s@,
            len == chars.len(),
            i == it.index(),
            !found ==> end == 0,
            !found ==> forall|j: int| 0 <= j < i ==> is_whitespace(#[trigger] chars[j]),
            found ==> first < end <= i,
            found ==> forall|j: int| 0 <= j < first ==> is_whitespace(#[trigger] chars[j]),
            found ==> !is_whitespace(chars[first as int]),
            found ==> !is_whitespace(chars[end - 1]),
            found ==> forall|j: int| end <= j < i ==> is_whitespace(#[trigger] chars[j]),
    {
        if !char_is_whitespace(c) {
            if !found {
                first = i;
                found = true;
            }
            end = i + 1;
        }
        i = i + 1;
    }
    if !found {
        first = len;
        end = len;
    }
    proof {
        lemma_trim_start_at(chars, first as int);
        let t = chars.subrange(first as int, len as int);
        assert forall|j: int| end - first <= j < t.len() implies is_whitespace(#[trigger] t[j]) by {
            assert(t[j] == chars[j + first]);
        }
        if end - first > 0 {
            assert(t[end - first - 1] == chars[end - 1]);
        }
        lemma_trim_end_at(t, end - first);
        assert(t.subrange(0, end - first) =~= chars.subrange(first as int, end as int));
    }
    s.substring_char(first, end)
}

} // verus!
