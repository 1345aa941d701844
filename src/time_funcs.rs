//! The feed's timestamps: `HH:MM:SS` with an optional fraction of up to nine
//! digits, held as nanoseconds since midnight, and their display forms.
use vstd::prelude::*;
use crate::error::FeedError;
use vstd::arithmetic::div_mod::lemma_fundamental_div_mod_converse;
use crate::text::{
    lemma_fixed_digits_of_value, lemma_split_on_absent, lemma_split_on_concat,
    lemma_pow10_pos,
    all_digits, decimal_text, digits_value, fixed_digits, is_digit, is_numeral, lemma_digits_value_bounds,
    lemma_pow10_le, padded, parse_digits, pow10, push_char, push_decimal, push_fixed, push_padded,
    split, split_on, views_of,
};

verus! {

pub const NANOS_PER_SEC: i64 = 1_000_000_000;

/// The largest number of whole seconds a timestamp may denote.
pub const MAX_TIME_SECONDS: u64 = 2_147_483_647;

/// Nanoseconds of a fraction-of-a-second digit run: its first nine digits,
/// padded on the right with zeros.
pub open spec fn fraction_nanos(f: Seq<char>) -> int {
    if f.len() >= 9 {
        digits_value(f.take(9))
    } else {
        digits_value(f) * pow10((9 - f.len()) as nat)
    }
}

/// Whole seconds of the `HH`, `MM` and `SS` parts.
pub open spec fn clock_seconds(h: Seq<char>, m: Seq<char>, s: Seq<char>) -> int {
    digits_value(h) * 3600 + digits_value(m) * 60 + digits_value(s)
}

/// Whether a timestamp has the decodable shape: three colon-separated
/// numerals, the last of which may carry a `.fraction`, denoting at most
/// `MAX_TIME_SECONDS` whole seconds.
pub open spec fn time_is_valid(t: Seq<char>) -> bool {
    let parts = split_on(t, ':');
    let sec = split_on(parts[2], '.');
    &&& parts.len() == 3
    &&& is_numeral(parts[0])
    &&& is_numeral(parts[1])
    &&& is_numeral(sec[0])
    &&& (sec.len() == 1 || (sec.len() == 2 && is_numeral(sec[1])))
    &&& clock_seconds(parts[0], parts[1], sec[0]) <= MAX_TIME_SECONDS
}

/// Nanoseconds since midnight that a valid timestamp denotes.
pub open spec fn time_nanos(t: Seq<char>) -> int {
    let parts = split_on(t, ':');
    let sec = split_on(parts[2], '.');
    clock_seconds(parts[0], parts[1], sec[0]) * NANOS_PER_SEC + if sec.len() == 2 {
        fraction_nanos(sec[1])
    } else {
        0
    }
}

/// `HH:MM:SS` of a non-negative number of seconds; hours are not wrapped.
pub open spec fn clock_text(a: nat) -> Seq<char> {
    padded(a / 3600, 2) + seq![':'] + padded((a % 3600) / 60, 2) + seq![':'] + padded(
        a % 60,
        2,
    )
}

/// `HH:MM:SS` of a signed number of seconds, with a leading `-` when negative.
pub open spec fn hhmmss_text(s: int) -> Seq<char> {
    if s < 0 {
        seq!['-'] + clock_text((-s) as nat)
    } else {
        clock_text(s as nat)
    }
}

/// `HH:MM:SS.nnnnnnnnn` of non-negative nanoseconds since midnight.
pub open spec fn nanos_text(n: nat) -> Seq<char> {
    clock_text(n / 1_000_000_000) + seq!['.'] + fixed_digits(n % 1_000_000_000, 9)
}

/// A timestamp in its canonical form `HH:MM:SS.nnnnnnnnn`: two digits each
/// for hours, minutes and seconds, minutes and seconds below 60, and nine
/// fraction digits.
pub open spec fn is_canonical_time(t: Seq<char>) -> bool {
    &&& t.len() == 18
    &&& t[2] == ':'
    &&& t[5] == ':'
    &&& t[8] == '.'
    &&& all_digits(t.subrange(0, 2))
    &&& all_digits(t.subrange(3, 5))
    &&& all_digits(t.subrange(6, 8))
    &&& all_digits(t.subrange(9, 18))
    &&& digits_value(t.subrange(3, 5)) < 60
    &&& digits_value(t.subrange(6, 8)) < 60
}

/// Decoding a canonical timestamp and encoding the nanoseconds again gives
/// back the same text, to the nanosecond.
pub proof fn lemma_time_round_trip(t: Seq<char>)
    requires
        is_canonical_time(t),
    ensures
        time_is_valid(t),
        nanos_text(time_nanos(t) as nat) == t,
{
    let hh = t.subrange(0, 2);
    let mm = t.subrange(3, 5);
    let ss = t.subrange(6, 8);
    let ff = t.subrange(9, 18);
    let tail = ss.push('.') + ff;
    assert(t =~= hh.push(':') + (mm.push(':') + tail));
    assert forall|i: int| 0 <= i < hh.len() implies hh[i] != ':' by {
        assert(is_digit(hh[i]));
    }
    assert forall|i: int| 0 <= i < mm.len() implies mm[i] != ':' by {
        assert(is_digit(mm[i]));
    }
    assert forall|i: int| 0 <= i < ss.len() implies ss[i] != ':' && ss[i] != '.' by {
        assert(is_digit(ss[i]));
    }
    assert forall|i: int| 0 <= i < ff.len() implies ff[i] != ':' && ff[i] != '.' by {
        assert(is_digit(ff[i]));
    }
    assert forall|i: int| 0 <= i < tail.len() implies tail[i] != ':' by {
        if i < 2 {
            assert(tail[i] == ss[i]);
        } else if i > 2 {
            assert(tail[i] == ff[i - 3]);
        }
    }
    lemma_split_on_concat(hh, mm.push(':') + tail, ':');
    lemma_split_on_concat(mm, tail, ':');
    lemma_split_on_absent(hh, ':');
    lemma_split_on_absent(mm, ':');
    lemma_split_on_absent(tail, ':');
    lemma_split_on_concat(ss, ff, '.');
    lemma_split_on_absent(ss, '.');
    lemma_split_on_absent(ff, '.');
    let parts = split_on(t, ':');
    assert(parts =~= seq![hh, mm, tail]);
    let sec = split_on(parts[2], '.');
    assert(sec =~= seq![ss, ff]);

    let h = digits_value(hh);
    let m = digits_value(mm);
    let s = digits_value(ss);
    assert(ff.take(9) =~= ff);
    let f = digits_value(ff);
    lemma_digits_value_bounds(hh);
    lemma_digits_value_bounds(mm);
    lemma_digits_value_bounds(ss);
    lemma_digits_value_bounds(ff);
    reveal_with_fuel(pow10, 10);
    assert(time_is_valid(t));

    let secs = h * 3600 + m * 60 + s;
    let n = secs * 1_000_000_000 + f;
    assert(time_nanos(t) == n);
    lemma_fundamental_div_mod_converse(n, 1_000_000_000, secs, f);
    lemma_fundamental_div_mod_converse(secs, 3600, h, m * 60 + s);
    lemma_fundamental_div_mod_converse(m * 60 + s, 60, m, s);
    lemma_fundamental_div_mod_converse(secs, 60, h * 60 + m, s);
    lemma_fixed_digits_of_value(hh);
    lemma_fixed_digits_of_value(mm);
    lemma_fixed_digits_of_value(ss);
    lemma_fixed_digits_of_value(ff);
    assert(nanos_text(n as nat) =~= t);
}

/// Reads the digits after the decimal point as nanoseconds.
pub fn parse_fraction_nanos(f: &str) -> (r: Option<u64>)
    ensures
        r == (if is_numeral(f@) {
            Some(fraction_nanos(f@) as u64)
        } else {
            None::<u64>
        }),
        r is Some ==> r->0 < 1_000_000_000 && r->0 as int == fraction_nanos(f@),
{
    let n = f.unicode_len();
    if n == 0 {
        return None;
    }
    let mut acc: u64 = 0;
    let mut i: usize = 0;
    while i < n
        invariant
            n == f@.len(),
            0 <= i <= n,
            all_digits(f@.take(i as int)),
            i <= 9 ==> acc as int == digits_value(f@.take(i as int)),
            i > 9 ==> acc as int == digits_value(f@.take(9)),
            0 <= acc < 1_000_000_000,
        decreases n - i,
    {
        let c = f.get_char(i);
        if !('0' <= c && c <= '9') {
            assert(!all_digits(f@));
            return None;
        }
        assert(all_digits(f@.take(i + 1))) by {
            assert forall|j: int| 0 <= j < i + 1 implies is_digit(#[trigger] f@.take(i + 1)[j]) by {
                if j < i {
                    assert(f@.take(i + 1)[j] == f@.take(i as int)[j]);
                }
            }
        }
        if i < 9 {
            assert(f@.take(i + 1).drop_last() =~= f@.take(i as int));
            let d = (c as u32 - '0' as u32) as u64;
            proof {
                lemma_digits_value_bounds(f@.take(i + 1));
                lemma_pow10_le((i + 1) as nat, 9);
                reveal_with_fuel(pow10, 10);
            }
            acc = acc * 10 + d;
        }
        i = i + 1;
    }
    assert(f@.take(n as int) =~= f@);
    if n < 9 {
        proof {
            lemma_digits_value_bounds(f@);
        }
        let mut k: usize = n;
        while k < 9
            invariant
                n <= k <= 9,
                acc as int == digits_value(f@) * pow10((k - n) as nat),
                0 <= acc < pow10(k as nat),
            decreases 9 - k,
        {
            proof {
                lemma_pow10_le((k + 1) as nat, 9);
                reveal_with_fuel(pow10, 10);
                let a = digits_value(f@);
                let b = pow10((k - n) as nat);
                assert(pow10((k + 1 - n) as nat) == 10 * b);
                assert(a * b * 10 == a * (10 * b)) by (nonlinear_arith);
            }
            acc = acc * 10;
            k = k + 1;
        }
        proof {
            reveal_with_fuel(pow10, 10);
        }
    } else {
        proof {
            lemma_digits_value_bounds(f@.take(9));
            reveal_with_fuel(pow10, 10);
        }
    }
    Some(acc)
}

/// Decodes a timestamp into nanoseconds since midnight.
pub fn time_to_dec(time: &str) -> (r: Result<i64, FeedError>)
    ensures
        time_is_valid(time@) ==> r == Ok::<i64, FeedError>(time_nanos(time@) as i64),
        !time_is_valid(time@) ==> r == Err::<i64, FeedError>(FeedError::MalformedTime),
        r is Ok ==> 0 <= r->Ok_0 < (MAX_TIME_SECONDS + 1) * 1_000_000_000,
{
    proof {
        if time_is_valid(time@) {
            lemma_time_nanos_range(time@);
        }
    }
    let parts = split(time, ':');
    if parts.len() != 3 {
        return Err(FeedError::MalformedTime);
    }
    let ghost p = views_of(parts@);
    assert(p[0] == parts@[0]@ && p[1] == parts@[1]@ && p[2] == parts@[2]@);
    let sec = split(parts[2].as_str(), '.');
    let ghost q = views_of(sec@);
    let h = match parse_digits(parts[0].as_str(), MAX_TIME_SECONDS) {
        Some(v) => v,
        None => {
            proof {
                if all_digits(p[0]) && all_digits(p[1]) && all_digits(q[0]) {
                    lemma_clock_bound(p[0], p[1], q[0]);
                }
            }
            return Err(FeedError::MalformedTime);
        },
    };
    let m = match parse_digits(parts[1].as_str(), MAX_TIME_SECONDS) {
        Some(v) => v,
        None => {
            proof {
                if all_digits(p[0]) && all_digits(p[1]) && all_digits(q[0]) {
                    lemma_clock_bound(p[0], p[1], q[0]);
                }
            }
            return Err(FeedError::MalformedTime);
        },
    };
    let s = match parse_digits(sec[0].as_str(), MAX_TIME_SECONDS) {
        Some(v) => v,
        None => {
            assert(q[0] == sec@[0]@);
            proof {
                if all_digits(p[0]) && all_digits(p[1]) && all_digits(q[0]) {
                    lemma_clock_bound(p[0], p[1], q[0]);
                }
            }
            return Err(FeedError::MalformedTime);
        },
    };
    assert(q[0] == sec@[0]@);
    assert(q == split_on(p[2], '.'));
    assert(p == split_on(time@, ':'));
    assert(h as int == digits_value(p[0]) && m as int == digits_value(p[1]) && s as int
        == digits_value(q[0]));
    let secs = h * 3600 + m * 60 + s;
    assert(secs as int == clock_seconds(p[0], p[1], q[0]));
    if secs > MAX_TIME_SECONDS {
        return Err(FeedError::MalformedTime);
    }
    let frac: u64 = if sec.len() == 1 {
        0
    } else if sec.len() == 2 {
        assert(q[1] == sec@[1]@);
        match parse_fraction_nanos(sec[1].as_str()) {
            Some(v) => v,
            None => {
                return Err(FeedError::MalformedTime);
            },
        }
    } else {
        return Err(FeedError::MalformedTime);
    };
    Ok((secs * 1_000_000_000 + frac) as i64)
}

pub proof fn lemma_pow10_add(a: nat, b: nat)
    ensures
        pow10(a) * pow10(b) == pow10(a + b),
    decreases a,
{
    if a > 0 {
        lemma_pow10_add((a - 1) as nat, b);
        let x = pow10((a - 1) as nat);
        let y = pow10(b);
        assert(10 * x * y == 10 * (x * y)) by (nonlinear_arith);
    }
}

/// A fraction contributes less than one second.
pub proof fn lemma_fraction_bound(f: Seq<char>)
    requires
        all_digits(f),
    ensures
        0 <= fraction_nanos(f) < 1_000_000_000,
{
    reveal_with_fuel(pow10, 10);
    if f.len() >= 9 {
        assert(all_digits(f.take(9))) by {
            assert forall|j: int| 0 <= j < 9 implies is_digit(#[trigger] f.take(9)[j]) by {
                assert(f.take(9)[j] == f[j]);
            }
        }
        lemma_digits_value_bounds(f.take(9));
    } else {
        lemma_digits_value_bounds(f);
        let k = (9 - f.len()) as nat;
        lemma_pow10_add(f.len(), k);
        lemma_pow10_pos(k);
        let a = digits_value(f);
        let b = pow10(k);
        let c = pow10(f.len());
        assert(a < c && b >= 1 ==> a * b < c * b) by (nonlinear_arith);
    }
}

/// A valid timestamp denotes a time that fits the decoded range.
pub proof fn lemma_time_nanos_range(t: Seq<char>)
    requires
        time_is_valid(t),
    ensures
        0 <= time_nanos(t) < (MAX_TIME_SECONDS + 1) * 1_000_000_000,
{
    let parts = split_on(t, ':');
    let sec = split_on(parts[2], '.');
    lemma_digits_value_bounds(parts[0]);
    lemma_digits_value_bounds(parts[1]);
    lemma_digits_value_bounds(sec[0]);
    if sec.len() == 2 {
        lemma_fraction_bound(sec[1]);
    }
}

/// Each of the three parts is at most the whole, so a valid timestamp never
/// has a part above the bound.
proof fn lemma_clock_bound(h: Seq<char>, m: Seq<char>, s: Seq<char>)
    requires
        all_digits(h),
        all_digits(m),
        all_digits(s),
    ensures
        clock_seconds(h, m, s) <= MAX_TIME_SECONDS ==> {
            &&& digits_value(h) <= MAX_TIME_SECONDS
            &&& digits_value(m) <= MAX_TIME_SECONDS
            &&& digits_value(s) <= MAX_TIME_SECONDS
        },
{
    lemma_digits_value_bounds(h);
    lemma_digits_value_bounds(m);
    lemma_digits_value_bounds(s);
}

/// Decodes a timestamp into the text `seconds.nnnnnnnnn`.
pub fn time_dec_string(time: &str) -> (r: Result<String, FeedError>)
    ensures
        time_is_valid(time@) ==> r is Ok && r->Ok_0@ == decimal_text(
            (time_nanos(time@) / 1_000_000_000) as nat,
        ) + seq!['.'] + fixed_digits((time_nanos(time@) % 1_000_000_000) as nat, 9),
        !time_is_valid(time@) ==> r == Err::<String, FeedError>(FeedError::MalformedTime),
{
    let n = time_to_dec(time)?;
    proof {
        lemma_time_nanos_range(time@);
    }
    let mut out = String::new();
    push_decimal(&mut out, (n / NANOS_PER_SEC) as u64);
    push_char(&mut out, '.');
    push_fixed(&mut out, (n % NANOS_PER_SEC) as u64, 9);
    assert(out@ =~= decimal_text((n / 1_000_000_000) as nat) + seq!['.'] + fixed_digits(
        (n % 1_000_000_000) as nat,
        9,
    ));
    Ok(out)
}

/// Appends `HH:MM:SS` of a non-negative number of seconds.
fn push_clock(out: &mut String, a: u64)
    ensures
        final(out)@ == old(out)@ + clock_text(a as nat),
{
    push_padded(out, a / 3600, 2);
    push_char(out, ':');
    push_padded(out, (a % 3600) / 60, 2);
    push_char(out, ':');
    push_padded(out, a % 60, 2);
    assert(final(out)@ =~= old(out)@ + clock_text(a as nat));
}

/// `HH:MM:SS` of a signed number of seconds.
pub fn s2hhmmss_64(s: i64) -> (r: String)
    requires
        s > i64::MIN,
    ensures
        r@ == hhmmss_text(s as int),
{
    let mut out = String::new();
    if s < 0 {
        push_char(&mut out, '-');
        push_clock(&mut out, (-s) as u64);
    } else {
        push_clock(&mut out, s as u64);
    }
    assert(out@ =~= hhmmss_text(s as int));
    out
}

/// `HH:MM:SS` of a signed number of seconds.
pub fn s2hhmmss_32(s: i32) -> (r: String)
    requires
        s > i32::MIN,
    ensures
        r@ == hhmmss_text(s as int),
{
    s2hhmmss_64(s as i64)
}

/// Whether whole seconds and the nanoseconds beyond them describe one
/// duration: both carry its sign, and the nanoseconds are under a second.
pub open spec fn sns_consistent(s: int, ns: int) -> bool {
    &&& s > i64::MIN
    &&& s > 0 ==> 0 <= ns < 1_000_000_000
    &&& s < 0 ==> -1_000_000_000 < ns <= 0
    &&& s == 0 ==> -1_000_000_000 < ns < 1_000_000_000
}

/// `HH:MM:SS.nnnnnnnnn` of a duration given as whole seconds and the
/// nanoseconds beyond them, with a leading `-` when it is negative.
pub open spec fn duration_text(s: int, ns: int) -> Seq<char> {
    let sign = if s < 0 || ns < 0 {
        seq!['-']
    } else {
        Seq::<char>::empty()
    };
    let a = if s < 0 { -s } else { s };
    let b = if ns < 0 { -ns } else { ns };
    sign + clock_text(a as nat) + seq!['.'] + padded(b as nat, 9)
}

/// `HH:MM:SS.nnnnnnnnn` of a duration given as whole seconds and the
/// nanoseconds beyond them, both carrying the duration's sign.
pub fn sms2hhmmsnn(s: i64, ns: i64) -> (r: String)
    requires
        sns_consistent(s as int, ns as int),
    ensures
        r@ == duration_text(s as int, ns as int),
{
    let mut out = String::new();
    if s < 0 || ns < 0 {
        push_char(&mut out, '-');
    }
    let a: u64 = if s < 0 { (-s) as u64 } else { s as u64 };
    let b: u64 = if ns < 0 { (-ns) as u64 } else { ns as u64 };
    push_clock(&mut out, a);
    push_char(&mut out, '.');
    push_padded(&mut out, b, 9);
    assert(out@ =~= duration_text(s as int, ns as int));
    out
}

/// Brings reported duration parts into the consistent form: whole seconds
/// are kept off `i64::MIN`, and nanoseconds that do not fit them count as
/// none.
fn consistent_parts(s: i64, ns: i128) -> (r: (i64, i64))
    ensures
        sns_consistent(r.0 as int, r.1 as int),
        s > i64::MIN && sns_consistent(s as int, ns as int) ==> r == (s, ns as i64),
{
    let s = if s == i64::MIN { i64::MIN + 1 } else { s };
    let ok = if s > 0 {
        0 <= ns && ns < 1_000_000_000
    } else if s < 0 {
        -1_000_000_000 < ns && ns <= 0
    } else {
        -1_000_000_000 < ns && ns < 1_000_000_000
    };
    if ok {
        (s, ns as i64)
    } else {
        (s, 0)
    }
}

/// Total nanoseconds beyond this are not taken apart (far beyond any
/// duration the time crate can hold).
const WIDE_NANOS_LIMIT: i128 = 1_000_000_000_000_000_000_000_000_000_000;

/// Display of durations as `HH:MM:SS` and `HH:MM:SS.nnnnnnnnn`.
pub trait Hhmmss {
    /// The whole seconds of the duration and the nanoseconds beyond them.
    fn sns(&self) -> (r: (i64, i64))
        ensures
            sns_consistent(r.0 as int, r.1 as int),
    ;

    /// `HH:MM:SS` of the whole seconds; the nanoseconds are left out.
    fn hhmmss(&self) -> (r: String)
        ensures
            exists|s: i64| s > i64::MIN && r@ == hhmmss_text(s as int),
    {
        let (s, _) = self.sns();
        s2hhmmss_64(s)
    }

    /// `HH:MM:SS.nnnnnnnnn` of the duration.
    fn hhmmssnn(&self) -> (r: String)
        ensures
            exists|s: i64, ns: i64|
                sns_consistent(s as int, ns as int) && r@ == duration_text(s as int, ns as int),
    {
        let (s, ns) = self.sns();
        sms2hhmmsnn(s, ns)
    }
}

#[verifier::external_type_specification]
#[verifier::external_body]
pub struct ExTimeDelta(chrono::TimeDelta);

#[verifier::external_type_specification]
#[verifier::external_body]
pub struct ExSignedDuration(time::SignedDuration);

/// Relies on `std::time::Duration::as_secs`: the whole seconds.
#[verifier::external_body]
fn std_whole_seconds(d: &std::time::Duration) -> u64 {
    d.as_secs()
}

/// Relies on `std::time::Duration::subsec_nanos`: the fraction of a second,
/// which its documentation says is always below one billion.
#[verifier::external_body]
fn std_subsec_nanos(d: &std::time::Duration) -> (r: u32)
    ensures
        r < 1_000_000_000,
{
    d.subsec_nanos()
}

/// Relies on `chrono::TimeDelta::num_seconds`: the whole seconds.
#[verifier::external_body]
fn chrono_num_seconds(d: &chrono::TimeDelta) -> i64 {
    d.num_seconds()
}

/// Relies on `chrono::TimeDelta::num_nanoseconds`: the total nanoseconds,
/// `None` on overflow.
#[verifier::external_body]
fn chrono_num_nanoseconds(d: &chrono::TimeDelta) -> Option<i64> {
    d.num_nanoseconds()
}

/// Relies on `time::Duration::whole_seconds`: the whole seconds.
#[verifier::external_body]
fn time_whole_seconds(d: &time::SignedDuration) -> i64 {
    d.whole_seconds()
}

/// Relies on `time::Duration::whole_nanoseconds`: the total nanoseconds.
#[verifier::external_body]
fn time_whole_nanoseconds(d: &time::SignedDuration) -> i128 {
    d.whole_nanoseconds()
}

impl Hhmmss for std::time::Duration {
    fn sns(&self) -> (r: (i64, i64)) {
        let secs = std_whole_seconds(self);
        let s: i64 = if secs > i64::MAX as u64 { i64::MAX } else { secs as i64 };
        consistent_parts(s, std_subsec_nanos(self) as i128)
    }
}

impl Hhmmss for chrono::TimeDelta {
    fn sns(&self) -> (r: (i64, i64)) {
        let s = chrono_num_seconds(self);
        let ns: i128 = match chrono_num_nanoseconds(self) {
            Some(total) => total as i128 - s as i128 * 1_000_000_000,
            None => 0,
        };
        consistent_parts(s, ns)
    }
}

impl Hhmmss for time::SignedDuration {
    fn sns(&self) -> (r: (i64, i64)) {
        let s = time_whole_seconds(self);
        let total = time_whole_nanoseconds(self);
        let whole = s as i128 * 1_000_000_000;
        let ns: i128 = if -WIDE_NANOS_LIMIT < total && total < WIDE_NANOS_LIMIT {
            total - whole
        } else {
            0
        };
        consistent_parts(s, ns)
    }
}

/// `HH:MM:SS.nnnnnnnnn` of nanoseconds since midnight.
pub fn decimal2hhmmssnnn(nanos: i64) -> (r: String)
    requires
        nanos >= 0,
    ensures
        r@ == nanos_text(nanos as nat),
{
    let mut out = String::new();
    push_clock(&mut out, (nanos / NANOS_PER_SEC) as u64);
    push_char(&mut out, '.');
    push_fixed(&mut out, (nanos % NANOS_PER_SEC) as u64, 9);
    assert(out@ =~= nanos_text(nanos as nat));
    out
}

} // verus!
