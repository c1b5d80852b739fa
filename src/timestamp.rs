//! Wall-clock timestamps at second precision and their fixed-width text form.
use chrono::{Datelike, Timelike};
use vstd::prelude::*;
use crate::text::{lemma_text_lt_common_prefix, lemma_text_lt_same_len_extend, text_lt};

verus! {

/// The digit characters, in value order.
pub open spec fn digit_char(d: nat) -> char {
    seq!['0', '1', '2', '3', '4', '5', '6', '7', '8', '9', 'a', 'b', 'c', 'd', 'e', 'f'][d as int]
}

pub open spec fn pow_nat(b: nat, w: nat) -> nat
    decreases w,
{
    if w == 0 {
        1
    } else {
        b * pow_nat(b, (w - 1) as nat)
    }
}

/// The last `w` digits of `n` in base `b`, zero-padded, most significant first.
pub open spec fn numeral(n: nat, b: nat, w: nat) -> Seq<char>
    decreases w,
{
    if w == 0 || b == 0 {
        Seq::empty()
    } else {
        numeral(n / b, b, (w - 1) as nat).push(digit_char(n % b))
    }
}

pub open spec fn is_base(b: nat) -> bool {
    b == 10 || b == 16
}

pub proof fn lemma_digit_char_increasing(x: nat, y: nat)
    requires
        x < y < 16,
    ensures
        digit_char(x) < digit_char(y),
{
}

pub proof fn lemma_numeral_len(n: nat, b: nat, w: nat)
    requires
        is_base(b),
    ensures
        numeral(n, b, w).len() == w,
    decreases w,
{
    if w > 0 {
        lemma_numeral_len(n / b, b, (w - 1) as nat);
    }
}

/// The powers of sixteen that four-digit suffixes need.
pub proof fn lemma_pow16()
    ensures
        pow_nat(16, 0) == 1,
        pow_nat(16, 1) == 16,
        pow_nat(16, 2) == 256,
        pow_nat(16, 3) == 4096,
        pow_nat(16, 4) == 65536,
{
    assert(pow_nat(16, 0) == 1);
    assert(pow_nat(16, 1) == 16);
    assert(pow_nat(16, 2) == 256);
    assert(pow_nat(16, 3) == 4096);
    assert(pow_nat(16, 4) == 65536);
}

/// Fixed-width numerals order as the numbers they denote.
pub proof fn lemma_numeral_increasing(x: nat, y: nat, b: nat, w: nat)
    requires
        is_base(b),
        x < y < pow_nat(b, w),
    ensures
        text_lt(numeral(x, b, w), numeral(y, b, w)),
    decreases w,
{
    let w1 = (w - 1) as nat;
    let p = pow_nat(b, w1);
    assert(w > 0);
    assert(x / b <= y / b) by (nonlinear_arith)
        requires
            x < y,
            b > 0,
    ;
    assert(y / b < p) by (nonlinear_arith)
        requires
            y < b * p,
            b > 0,
    ;
    lemma_numeral_len(x / b, b, w1);
    lemma_numeral_len(y / b, b, w1);
    if x / b < y / b {
        lemma_numeral_increasing(x / b, y / b, b, w1);
        lemma_text_lt_same_len_extend(
            numeral(x / b, b, w1),
            numeral(y / b, b, w1),
            seq![digit_char(x % b)],
            seq![digit_char(y % b)],
        );
        assert(numeral(x, b, w) =~= numeral(x / b, b, w1) + seq![digit_char(x % b)]);
        assert(numeral(y, b, w) =~= numeral(y / b, b, w1) + seq![digit_char(y % b)]);
    } else {
        assert(x % b < y % b) by (nonlinear_arith)
            requires
                x < y,
                x / b == y / b,
                b > 0,
        ;
        lemma_digit_char_increasing(x % b, y % b);
        lemma_text_lt_common_prefix(
            numeral(x / b, b, w1),
            seq![digit_char(x % b)],
            seq![digit_char(y % b)],
        );
        assert(seq![digit_char(x % b)].drop_first() =~= Seq::<char>::empty());
        assert(seq![digit_char(y % b)].drop_first() =~= Seq::<char>::empty());
        assert(numeral(x, b, w) =~= numeral(x / b, b, w1) + seq![digit_char(x % b)]);
        assert(numeral(y, b, w) =~= numeral(y / b, b, w1) + seq![digit_char(y % b)]);
    }
}

/// Appends the digit character of `d`.
pub fn push_digit(s: &mut String, d: u32)
    requires
        d < 16,
    ensures
        final(s)@ == old(s)@.push(digit_char(d as nat)),
{
    let digits = "0123456789abcdef";
    proof {
        reveal_strlit("0123456789abcdef");
    }
    assert(digits@ =~= seq!['0', '1', '2', '3', '4', '5', '6', '7', '8', '9', 'a', 'b', 'c', 'd', 'e', 'f']);
    let one = digits.substring_char(d as usize, d as usize + 1);
    assert(one@ =~= seq![digit_char(d as nat)]);
    s.append(one);
}

/// Appends the last `w` digits of `n` in base `b`, zero-padded.
pub fn push_numeral(s: &mut String, n: u32, b: u32, w: u32)
    requires
        is_base(b as nat),
    ensures
        final(s)@ == old(s)@ + numeral(n as nat, b as nat, w as nat),
    decreases w,
{
    if w == 0 {
        assert(old(s)@ + numeral(n as nat, b as nat, 0) =~= old(s)@);
        return;
    }
    push_numeral(s, n / b, b, w - 1);
    push_digit(s, n % b);
    assert(numeral(n as nat, b as nat, w as nat) == numeral((n / b) as nat, b as nat, (w - 1) as nat).push(
        digit_char((n % b) as nat),
    ));
    assert(final(s)@ =~= old(s)@ + numeral(n as nat, b as nat, w as nat));
}

/// A UTC instant at second precision, as calendar fields.
#[derive(Clone, Copy, Debug, PartialEq, Eq)]
pub struct Timestamp {
    pub year: u32,
    pub month: u32,
    pub day: u32,
    pub hour: u32,
    pub minute: u32,
    pub second: u32,
}

impl Timestamp {
    /// Each field lies in its calendar range; years have four digits.
    pub open spec fn wf(&self) -> bool {
        &&& self.year <= 9999
        &&& 1 <= self.month <= 12
        &&& 1 <= self.day <= 31
        &&& self.hour <= 23
        &&& self.minute <= 59
        &&& self.second <= 59
    }

    /// Chronological order: the fields compared from the year down.
    pub open spec fn before(&self, o: Timestamp) -> bool {
        ||| self.year < o.year
        ||| self.year == o.year && self.month < o.month
        ||| self.year == o.year && self.month == o.month && self.day < o.day
        ||| self.year == o.year && self.month == o.month && self.day == o.day && self.hour < o.hour
        ||| self.year == o.year && self.month == o.month && self.day == o.day && self.hour == o.hour
            && self.minute < o.minute
        ||| self.year == o.year && self.month == o.month && self.day == o.day && self.hour == o.hour
            && self.minute == o.minute && self.second < o.second
    }

    /// Builds a timestamp from calendar fields; `None` when a field is out of range.
    pub fn new(year: i32, month: u32, day: u32, hour: u32, minute: u32, second: u32) -> (r: Option<
        Timestamp,
    >)
        ensures
            r is Some <==> (0 <= year <= 9999 && 1 <= month <= 12 && 1 <= day <= 31 && hour <= 23
                && minute <= 59 && second <= 59),
            r matches Some(t) ==> t.wf() && t.year == year && t.month == month && t.day == day
                && t.hour == hour && t.minute == minute && t.second == second,
    {
        if 0 <= year && year <= 9999 && 1 <= month && month <= 12 && 1 <= day && day <= 31 && hour
            <= 23 && minute <= 59 && second <= 59 {
            Some(Timestamp { year: year as u32, month, day, hour, minute, second })
        } else {
            None
        }
    }

    /// The current UTC time; `None` when the clock reads before 1970 or a
    /// year outside 0..=9999.
    pub fn now() -> (r: Option<Timestamp>)
        ensures
            r matches Some(t) ==> t.wf(),
    {
        let (secs, nanos) = match unix_time_now() {
            Some(t) => t,
            None => return None,
        };
        if secs > i64::MAX as u64 {
            return None;
        }
        match utc_fields(secs as i64, nanos) {
            Some((year, month, day, hour, minute, second)) => Timestamp::new(year, month, day, hour, minute, second),
            None => None,
        }
    }
}

/// `%Y-%m-%d-%H%M%S`: the text form of a timestamp.
pub open spec fn timestamp_text(t: Timestamp) -> Seq<char> {
    numeral(t.year as nat, 10, 4) + (seq!['-'] + (numeral(t.month as nat, 10, 2) + (seq!['-'] + (
    numeral(t.day as nat, 10, 2) + (seq!['-'] + (numeral(t.hour as nat, 10, 2) + (numeral(
        t.minute as nat,
        10,
        2,
    ) + numeral(t.second as nat, 10, 2))))))))
}

/// Relies on `SystemTime::now` and `duration_since(UNIX_EPOCH)`: whole seconds
/// and nanoseconds since the epoch, `None` when the clock reads before it.
/// `Duration::subsec_nanos` is documented to stay below one billion.
#[verifier::external_body]
fn unix_time_now() -> (r: Option<(u64, u32)>)
    ensures
        r matches Some(t) ==> t.1 < 1_000_000_000,
{
    std::time::SystemTime::now()
        .duration_since(std::time::UNIX_EPOCH)
        .ok()
        .map(|d| (d.as_secs(), d.subsec_nanos()))
}

/// Relies on chrono's `DateTime::from_timestamp`, `None` out of range, and on
/// its `Datelike` / `Timelike` accessors, whose documentation gives month
/// 1..=12, day 1..=31, hour 0..=23, minute and second 0..=59.
#[verifier::external_body]
fn utc_fields(secs: i64, nanos: u32) -> (r: Option<(i32, u32, u32, u32, u32, u32)>)
    ensures
        r matches Some(f) ==> 1 <= f.1 <= 12 && 1 <= f.2 <= 31 && f.3 <= 23 && f.4 <= 59 && f.5 <= 59,
{
    chrono::DateTime::from_timestamp(secs, nanos)
        .map(|t| (t.year(), t.month(), t.day(), t.hour(), t.minute(), t.second()))
}

/// Formats `t` as `%Y-%m-%d-%H%M%S`.
pub fn format_timestamp(t: &Timestamp) -> (r: String)
    requires
        t.wf(),
    ensures
        r@ == timestamp_text(*t),
{
    let mut s = String::new();
    push_numeral(&mut s, t.year, 10, 4);
    push_dash(&mut s);
    push_numeral(&mut s, t.month, 10, 2);
    push_dash(&mut s);
    push_numeral(&mut s, t.day, 10, 2);
    push_dash(&mut s);
    push_numeral(&mut s, t.hour, 10, 2);
    push_numeral(&mut s, t.minute, 10, 2);
    push_numeral(&mut s, t.second, 10, 2);
    assert(s@ =~= timestamp_text(*t));
    s
}

/// Appends `-`.
pub fn push_dash(s: &mut String)
    ensures
        final(s)@ == old(s)@.push('-'),
{
    let dash = "-";
    proof {
        reveal_strlit("-");
    }
    assert(dash@ =~= seq!['-']);
    s.append(dash);
}

pub proof fn lemma_timestamp_text_len(t: Timestamp)
    ensures
        timestamp_text(t).len() == 17,
{
    lemma_numeral_len(t.year as nat, 10, 4);
    lemma_numeral_len(t.month as nat, 10, 2);
    lemma_numeral_len(t.day as nat, 10, 2);
    lemma_numeral_len(t.hour as nat, 10, 2);
    lemma_numeral_len(t.minute as nat, 10, 2);
    lemma_numeral_len(t.second as nat, 10, 2);
}

/// A later timestamp has a larger text form.
pub proof fn lemma_timestamp_text_increasing(a: Timestamp, b: Timestamp)
    requires
        a.wf(),
        b.wf(),
        a.before(b),
    ensures
        text_lt(timestamp_text(a), timestamp_text(b)),
{
    let d = seq!['-'];
    let (ya, yb) = (numeral(a.year as nat, 10, 4), numeral(b.year as nat, 10, 4));
    let (ma, mb) = (numeral(a.month as nat, 10, 2), numeral(b.month as nat, 10, 2));
    let (da, db) = (numeral(a.day as nat, 10, 2), numeral(b.day as nat, 10, 2));
    let (ha, hb) = (numeral(a.hour as nat, 10, 2), numeral(b.hour as nat, 10, 2));
    let (ia, ib) = (numeral(a.minute as nat, 10, 2), numeral(b.minute as nat, 10, 2));
    let (sa, sb) = (numeral(a.second as nat, 10, 2), numeral(b.second as nat, 10, 2));
    let ra5 = ia + sa;
    let rb5 = ib + sb;
    let ra4 = ha + ra5;
    let rb4 = hb + rb5;
    let ra3 = d + (da + (d + ra4));
    let rb3 = d + (db + (d + rb4));
    let ra2 = d + (ma + ra3);
    let rb2 = d + (mb + rb3);
    assert(pow_nat(10, 0) == 1);
    assert(pow_nat(10, 1) == 10);
    assert(pow_nat(10, 2) == 100);
    assert(pow_nat(10, 3) == 1000);
    assert(pow_nat(10, 4) == 10000);
    lemma_numeral_len(a.year as nat, 10, 4);
    lemma_numeral_len(b.year as nat, 10, 4);
    lemma_numeral_len(a.month as nat, 10, 2);
    lemma_numeral_len(b.month as nat, 10, 2);
    lemma_numeral_len(a.day as nat, 10, 2);
    lemma_numeral_len(b.day as nat, 10, 2);
    lemma_numeral_len(a.hour as nat, 10, 2);
    lemma_numeral_len(b.hour as nat, 10, 2);
    lemma_numeral_len(a.minute as nat, 10, 2);
    lemma_numeral_len(b.minute as nat, 10, 2);
    if a.year < b.year {
        lemma_numeral_increasing(a.year as nat, b.year as nat, 10, 4);
        lemma_text_lt_same_len_extend(ya, yb, ra2, rb2);
        return;
    }
    lemma_text_lt_common_prefix(ya, ra2, rb2);
    lemma_text_lt_common_prefix(d, ma + ra3, mb + rb3);
    if a.month < b.month {
        lemma_numeral_increasing(a.month as nat, b.month as nat, 10, 2);
        lemma_text_lt_same_len_extend(ma, mb, ra3, rb3);
        return;
    }
    lemma_text_lt_common_prefix(ma, ra3, rb3);
    lemma_text_lt_common_prefix(d, da + (d + ra4), db + (d + rb4));
    if a.day < b.day {
        lemma_numeral_increasing(a.day as nat, b.day as nat, 10, 2);
        lemma_text_lt_same_len_extend(da, db, d + ra4, d + rb4);
        return;
    }
    lemma_text_lt_common_prefix(da, d + ra4, d + rb4);
    lemma_text_lt_common_prefix(d, ra4, rb4);
    if a.hour < b.hour {
        lemma_numeral_increasing(a.hour as nat, b.hour as nat, 10, 2);
        lemma_text_lt_same_len_extend(ha, hb, ra5, rb5);
        return;
    }
    lemma_text_lt_common_prefix(ha, ra5, rb5);
    if a.minute < b.minute {
        lemma_numeral_increasing(a.minute as nat, b.minute as nat, 10, 2);
        lemma_text_lt_same_len_extend(ia, ib, sa, sb);
        return;
    }
    lemma_text_lt_common_prefix(ia, sa, sb);
    lemma_numeral_increasing(a.second as nat, b.second as nat, 10, 2);
}

} // verus!
