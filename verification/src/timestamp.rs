//! Snapshot timestamps: `YYYY-MM-DD-HHMM`, chosen so that lexicographic
//! order equals chronological order, which every "find the last ..."
//! lookup of the storage relies on.

use vstd::prelude::*;

use crate::text::{decimal, digit_char, lemma_str_lt_split, str_lt};

verus! {

/// strftime pattern of snapshot timestamps.
pub const TIMESTAMP_FORMAT: &'static str = "%Y-%m-%d-%H%M";

/// Length of a timestamp, in characters (and bytes: it is ASCII).
pub const TIMESTAMP_LEN: usize = 15;

/// Positions of the `-` separators in `YYYY-MM-DD-HHMM`.
pub open spec fn is_separator_position(i: int) -> bool {
    i == 4 || i == 7 || i == 10
}

pub open spec fn is_ascii_digit(c: char) -> bool {
    '0' <= c && c <= '9'
}

/// `s` has the shape `0000-00-00-0000`, where `0` is any ASCII digit and
/// `-` is literal.
pub open spec fn is_timestamp(s: Seq<char>) -> bool {
    &&& s.len() == TIMESTAMP_LEN
    &&& forall|i: int|
        0 <= i < TIMESTAMP_LEN ==> if is_separator_position(i) {
            #[trigger] s[i] == '-'
        } else {
            is_ascii_digit(s[i])
        }
}

/// The number a string of decimal digits writes.
pub open spec fn digits_value(s: Seq<char>) -> int
    decreases s.len(),
{
    if s.len() == 0 {
        0
    } else {
        digits_value(s.drop_last()) * 10 + (s.last() as int - '0' as int)
    }
}

/// The number written by the `len` digits of `s` from position `from`.
pub open spec fn number_at(s: Seq<char>, from: int, len: int) -> int {
    digits_value(s.subrange(from, from + len))
}

/// `a` is earlier than `b`: compared by year, then month, day, hour and
/// minute.
pub open spec fn is_earlier(a: Seq<char>, b: Seq<char>) -> bool {
    let (ya, yb) = (number_at(a, 0, 4), number_at(b, 0, 4));
    let (mo_a, mo_b) = (number_at(a, 5, 2), number_at(b, 5, 2));
    let (da, db) = (number_at(a, 8, 2), number_at(b, 8, 2));
    let (ha, hb) = (number_at(a, 11, 2), number_at(b, 11, 2));
    let (mi_a, mi_b) = (number_at(a, 13, 2), number_at(b, 13, 2));
    ||| ya < yb
    ||| ya == yb && mo_a < mo_b
    ||| ya == yb && mo_a == mo_b && da < db
    ||| ya == yb && mo_a == mo_b && da == db && ha < hb
    ||| ya == yb && mo_a == mo_b && da == db && ha == hb && mi_a < mi_b
}

pub open spec fn all_digits(s: Seq<char>) -> bool {
    forall|i: int| 0 <= i < s.len() ==> is_ascii_digit(#[trigger] s[i])
}

/// Digit strings of one length compare as the numbers they write.
proof fn lemma_digits_order(x: Seq<char>, y: Seq<char>)
    requires
        x.len() == y.len(),
        all_digits(x),
        all_digits(y),
    ensures
        str_lt(x, y) == (digits_value(x) < digits_value(y)),
        (x =~= y) == (digits_value(x) == digits_value(y)),
    decreases x.len(),
{
    if x.len() > 0 {
        let (xp, yp) = (x.drop_last(), y.drop_last());
        let (xl, yl) = (seq![x.last()], seq![y.last()]);
        assert(x =~= xp + xl);
        assert(y =~= yp + yl);
        assert(is_ascii_digit(x[x.len() - 1]));
        assert(is_ascii_digit(y[y.len() - 1]));
        let dx = x.last() as int - '0' as int;
        let dy = y.last() as int - '0' as int;
        assert(0 <= dx <= 9 && 0 <= dy <= 9);
        assert(digits_value(x) == digits_value(xp) * 10 + dx);
        assert(digits_value(y) == digits_value(yp) * 10 + dy);
        assert forall|i: int| 0 <= i < xp.len() implies is_ascii_digit(#[trigger] xp[i]) by {
            assert(xp[i] == x[i]);
        }
        assert forall|i: int| 0 <= i < yp.len() implies is_ascii_digit(#[trigger] yp[i]) by {
            assert(yp[i] == y[i]);
        }
        lemma_digits_order(xp, yp);
        lemma_str_lt_split(xp, xl, yp, yl);
        assert(xl.drop_first() =~= Seq::<char>::empty());
        assert(yl.drop_first() =~= Seq::<char>::empty());
        if xp =~= yp {
            assert(!str_lt(xl.drop_first(), yl.drop_first()));
            assert(str_lt(xl, yl) == (dx < dy));
            assert(str_lt(x, y) == str_lt(xl, yl));
            assert(x =~= y <==> x.last() == y.last()) by {
                if x =~= y {
                    assert(x[x.len() - 1] == y[y.len() - 1]);
                }
                if x.last() == y.last() {
                    assert(xl =~= yl);
                }
            }
        } else {
            assert(!(x =~= y)) by {
                if x =~= y {
                    assert(xp =~= yp);
                }
            }
        }
    } else {
        assert(x =~= y);
    }
}

/// Part `[from, to)` of a timestamp is all digits.
proof fn lemma_timestamp_digits(s: Seq<char>, from: int, to: int)
    requires
        is_timestamp(s),
        0 <= from <= to <= 15,
        forall|i: int| from <= i < to ==> !is_separator_position(i),
    ensures
        all_digits(s.subrange(from, to)),
{
    assert forall|i: int| 0 <= i < to - from implies is_ascii_digit(#[trigger] s.subrange(from, to)[i]) by {
        assert(s.subrange(from, to)[i] == s[from + i]);
        assert(!is_separator_position(from + i));
    }
}

/// Comparing a field of equal-length strings, then the rest.
proof fn lemma_field_then_rest(a: Seq<char>, b: Seq<char>, from: int, len: int)
    requires
        is_timestamp(a),
        is_timestamp(b),
        0 <= from,
        from + len <= 15,
        0 < len,
        forall|i: int| from <= i < from + len ==> !is_separator_position(i),
    ensures
        str_lt(a.skip(from), b.skip(from)) == if number_at(a, from, len) == number_at(b, from, len) {
            str_lt(a.skip(from + len), b.skip(from + len))
        } else {
            number_at(a, from, len) < number_at(b, from, len)
        },
{
    let (fa, fb) = (a.subrange(from, from + len), b.subrange(from, from + len));
    lemma_timestamp_digits(a, from, from + len);
    lemma_timestamp_digits(b, from, from + len);
    lemma_digits_order(fa, fb);
    assert(a.skip(from) =~= fa + a.skip(from + len));
    assert(b.skip(from) =~= fb + b.skip(from + len));
    lemma_str_lt_split(fa, a.skip(from + len), fb, b.skip(from + len));
}

/// Skipping a separator that both timestamps hold at `at`.
proof fn lemma_skip_separator(a: Seq<char>, b: Seq<char>, at: int)
    requires
        is_timestamp(a),
        is_timestamp(b),
        is_separator_position(at),
    ensures
        str_lt(a.skip(at), b.skip(at)) == str_lt(a.skip(at + 1), b.skip(at + 1)),
{
    assert(a[at] == '-');
    assert(b[at] == '-');
    assert(a.skip(at) =~= seq![a[at]] + a.skip(at + 1));
    assert(b.skip(at) =~= seq![b[at]] + b.skip(at + 1));
    lemma_str_lt_split(seq![a[at]], a.skip(at + 1), seq![b[at]], b.skip(at + 1));
}

/// The order of timestamp texts is the chronological order of the times
/// they write: sorting names sorts snapshots by age, and the greatest name
/// is the newest snapshot.
pub proof fn lemma_text_order_is_chronological(a: Seq<char>, b: Seq<char>)
    requires
        is_timestamp(a),
        is_timestamp(b),
    ensures
        str_lt(a, b) == is_earlier(a, b),
{
    assert(a.skip(0) =~= a);
    assert(b.skip(0) =~= b);
    lemma_field_then_rest(a, b, 0, 4);
    lemma_skip_separator(a, b, 4);
    lemma_field_then_rest(a, b, 5, 2);
    lemma_skip_separator(a, b, 7);
    lemma_field_then_rest(a, b, 8, 2);
    lemma_skip_separator(a, b, 10);
    lemma_field_then_rest(a, b, 11, 2);
    lemma_field_then_rest(a, b, 13, 2);
    assert(a.skip(15) =~= Seq::<char>::empty());
    assert(b.skip(15) =~= Seq::<char>::empty());
}

/// The timestamp a file name starts with, if any.
pub open spec fn leading_timestamp(name: Seq<char>) -> Option<Seq<char>> {
    if name.len() >= TIMESTAMP_LEN && is_timestamp(name.take(TIMESTAMP_LEN as int)) {
        Some(name.take(TIMESTAMP_LEN as int))
    } else {
        None
    }
}

/// Whether `text` is a well-formed timestamp. The shape is ASCII, so
/// comparing characters is comparing the bytes of `text`.
pub fn is_valid(text: &str) -> (valid: bool)
    ensures
        valid == is_timestamp(text@),
{
    if text.unicode_len() != TIMESTAMP_LEN {
        return false;
    }
    let mut i: usize = 0;
    while i < TIMESTAMP_LEN
        invariant
            text@.len() == TIMESTAMP_LEN,
            i <= TIMESTAMP_LEN,
            forall|j: int|
                0 <= j < i ==> if is_separator_position(j) {
                    #[trigger] text@[j] == '-'
                } else {
                    is_ascii_digit(text@[j])
                },
        decreases TIMESTAMP_LEN - i,
    {
        let c = text.get_char(i);
        let fits = if i == 4 || i == 7 || i == 10 {
            c == '-'
        } else {
            '0' <= c && c <= '9'
        };
        if !fits {
            assert(!is_timestamp(text@));
            return false;
        }
        i += 1;
    }
    true
}

/// The timestamp an archive or snar file name starts with, if any.
pub fn leading(file_name: &str) -> (head: Option<&str>)
    ensures
        match head {
            Some(h) => leading_timestamp(file_name@) == Some(h@),
            None => leading_timestamp(file_name@) is None,
        },
{
    if file_name.unicode_len() < TIMESTAMP_LEN {
        return None;
    }
    let head = file_name.substring_char(0, TIMESTAMP_LEN);
    if is_valid(head) {
        Some(head)
    } else {
        None
    }
}

/// Every `%` of the pattern introduces one of the conversions `%Y`, `%m`,
/// `%d`, `%H`, `%M`.
pub open spec fn uses_only_date_conversions(pattern: Seq<char>) -> bool {
    forall|i: int|
        0 <= i < pattern.len() && #[trigger] pattern[i] == '%' ==> {
            &&& i + 1 < pattern.len()
            &&& pattern[i + 1] == 'Y' || pattern[i + 1] == 'm' || pattern[i + 1] == 'd'
                || pattern[i + 1] == 'H' || pattern[i + 1] == 'M'
        }
}

/// `n` in decimal, zero-padded to at least four digits (`{:04}`).
pub open spec fn four_or_more_digits(n: nat) -> Seq<char> {
    let d = decimal(n);
    if d.len() < 4 {
        Seq::new((4 - d.len()) as nat, |i: int| '0') + d
    } else {
        d
    }
}

/// How chrono writes the year `y` for `%Y`: four digits in `0..=9999`;
/// outside it, a sign followed by at least four digits.
pub open spec fn year_text(y: int) -> Seq<char> {
    if 0 <= y <= 9999 {
        four_or_more_digits(y as nat)
    } else if y < 0 {
        seq!['-'] + four_or_more_digits((-y) as nat)
    } else {
        seq!['+'] + four_or_more_digits(y as nat)
    }
}

/// `-MM-DD-HHMM`: month, day, hour and minute of a clock reading, two
/// digits each and within their ranges.
pub open spec fn is_clock_suffix(r: Seq<char>) -> bool {
    &&& r.len() == 11
    &&& r[0] == '-' && r[3] == '-' && r[6] == '-'
    &&& forall|i: int|
        0 <= i < 11 && i != 0 && i != 3 && i != 6 ==> is_ascii_digit(#[trigger] r[i])
    &&& 1 <= number_at(r, 1, 2) <= 12
    &&& 1 <= number_at(r, 4, 2) <= 31
    &&& number_at(r, 7, 2) <= 23
    &&& number_at(r, 9, 2) <= 59
}

/// `stamp` is a local time of the year `y` rendered with
/// `%Y-%m-%d-%H%M`.
pub open spec fn is_rendering_of_year(stamp: Seq<char>, y: int) -> bool {
    let head = year_text(y);
    &&& stamp.len() == head.len() + 11
    &&& stamp.take(head.len() as int) == head
    &&& is_clock_suffix(stamp.skip(head.len() as int))
}

/// `stamp` is a local time rendered with `%Y-%m-%d-%H%M`.
pub open spec fn is_clock_rendering(stamp: Seq<char>) -> bool {
    exists|y: int| i32::MIN <= y <= i32::MAX && #[trigger] is_rendering_of_year(stamp, y)
}

proof fn lemma_decimal_digits(n: nat)
    ensures
        decimal(n).len() >= 1,
        n <= 9 ==> decimal(n).len() == 1,
        n <= 99 ==> decimal(n).len() <= 2,
        n <= 999 ==> decimal(n).len() <= 3,
        n <= 9999 ==> decimal(n).len() <= 4,
        forall|i: int| 0 <= i < decimal(n).len() ==> is_ascii_digit(#[trigger] decimal(n)[i]),
    decreases n,
{
    if n >= 10 {
        lemma_decimal_digits(n / 10);
        let d = decimal(n);
        assert(d == decimal(n / 10) + seq![digit_char(n % 10)]);
        assert forall|i: int| 0 <= i < d.len() implies is_ascii_digit(#[trigger] d[i]) by {
            if i < d.len() - 1 {
                assert(d[i] == decimal(n / 10)[i]);
            }
        }
    }
}

/// A local time rendered with the timestamp pattern is a timestamp exactly
/// when its year lies in `0..=9999`, which is exactly when it carries no
/// sign.
pub proof fn lemma_rendering_is_timestamp_in_four_digit_years(stamp: Seq<char>, y: int)
    requires
        is_rendering_of_year(stamp, y),
    ensures
        is_timestamp(stamp) <==> 0 <= y <= 9999,
        is_timestamp(stamp) <==> !(stamp[0] == '+' || stamp[0] == '-'),
{
    let head = year_text(y);
    let m = if y < 0 { -y } else { y };
    lemma_decimal_digits(m as nat);
    let digits = four_or_more_digits(m as nat);
    assert(digits.len() >= 4);
    assert forall|i: int| 0 <= i < digits.len() implies is_ascii_digit(#[trigger] digits[i]) by {
        let d = decimal(m as nat);
        if d.len() < 4 && i < 4 - d.len() {
        } else if d.len() < 4 {
            assert(digits[i] == d[i - (4 - d.len())]);
        }
    }
    assert(stamp[0] == head[0]) by {
        assert(stamp.take(head.len() as int)[0] == stamp[0]);
    }
    let r = stamp.skip(head.len() as int);
    if 0 <= y <= 9999 {
        assert(head.len() == 4);
        assert forall|i: int| 0 <= i < 15 implies (if is_separator_position(i) {
            #[trigger] stamp[i] == '-'
        } else {
            is_ascii_digit(stamp[i])
        }) by {
            if i < 4 {
                assert(stamp.take(4)[i] == stamp[i]);
            } else {
                assert(r[i - 4] == stamp[i]);
            }
        }
        assert(is_ascii_digit(stamp[0]));
    } else {
        assert(head[0] == '-' || head[0] == '+');
        assert(!is_timestamp(stamp)) by {
            if is_timestamp(stamp) {
                assert(is_ascii_digit(stamp[0]));
            }
        }
    }
}

/// `std::time::SystemTime`, carried opaque.
#[verifier::external_type_specification]
#[verifier::external_body]
pub struct ExSystemTime(std::time::SystemTime);

/// `SystemTime::now()`: a reading of the system clock. Nothing is stated of
/// which time it reads.
#[verifier::external_body]
fn system_now() -> (reading: std::time::SystemTime) {
    std::time::SystemTime::now()
}

/// `SystemTime::duration_since(UNIX_EPOCH)`: the time elapsed since the
/// epoch, or `None` when the reading lies before it. Nothing is stated of
/// its length.
#[verifier::external_body]
fn since_epoch(reading: &std::time::SystemTime) -> (elapsed: Option<std::time::Duration>) {
    reading.duration_since(std::time::UNIX_EPOCH).ok()
}

/// `Duration::as_secs`: the whole seconds of a duration.
#[verifier::external_body]
fn whole_seconds(elapsed: &std::time::Duration) -> (secs: u64) {
    elapsed.as_secs()
}

/// `Duration::subsec_nanos`: the nanoseconds after the whole seconds,
/// which the documentation bounds below one billion.
#[verifier::external_body]
fn subsec_nanos(elapsed: &std::time::Duration) -> (nanos: u32)
    ensures
        nanos < 1_000_000_000,
{
    elapsed.subsec_nanos()
}

/// `chrono::DateTime::from_timestamp(secs, nanos)` taken to the local time
/// zone (`with_timezone(&Local)`) and rendered with
/// `format(pattern).to_string()`, together with its local year
/// (`Datelike::year`). It is `None` when the instant lies beyond chrono's
/// range. Which local time an instant is depends on the time zone and is
/// not stated. A pattern limited to the numeric date conversions is one
/// for which chrono's formatter reports no error (an error would make
/// `to_string` panic). For the timestamp pattern, chrono writes the year as
/// `year_text` shows and month, day, hour and minute as two digits each,
/// within their ranges. Left unsaid: chrono's lookup of the local zone
/// panics when the zone data yields no local time type for the instant or a
/// UTC offset of a day or more, which only a malformed zone file gives (a
/// TZ string cannot express such an offset); chrono offers no lookup of the
/// local zone that reports this instead.
#[verifier::external_body]
fn render_local(secs: i64, nanos: u32, pattern: &str) -> (rendered: Option<(String, i32)>)
    requires
        uses_only_date_conversions(pattern@),
    ensures
        pattern@ == "%Y-%m-%d-%H%M"@ ==> (rendered matches Some((stamp, year))
            ==> is_rendering_of_year(stamp@, year as int)),
{
    let utc = chrono::DateTime::from_timestamp(secs, nanos)?;
    let local = utc.with_timezone(&chrono::Local);
    Some((local.format(pattern).to_string(), chrono::Datelike::year(&local)))
}

/// The current local time as a snapshot stem, or `None` when the system
/// clock cannot be read as a date: it reads before 1970, or beyond what
/// chrono can represent. The stem is a timestamp exactly when the year has
/// four digits (`lemma_rendering_is_timestamp_in_four_digit_years`).
pub fn now() -> (stamp: Option<String>)
    ensures
        stamp matches Some(s) ==> is_clock_rendering(s@),
{
    proof {
        reveal_strlit("%Y-%m-%d-%H%M");
        assert(uses_only_date_conversions(TIMESTAMP_FORMAT@));
    }
    let reading = system_now();
    let elapsed = match since_epoch(&reading) {
        Some(elapsed) => elapsed,
        None => return None,
    };
    let secs = whole_seconds(&elapsed);
    if secs > i64::MAX as u64 {
        return None;
    }
    match render_local(secs as i64, subsec_nanos(&elapsed), TIMESTAMP_FORMAT) {
        Some((stamp, year)) => {
            assert(is_rendering_of_year(stamp@, year as int));
            Some(stamp)
        },
        None => None,
    }
}

} // verus!
