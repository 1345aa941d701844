//! Character-level helpers shared by the decoders and encoders: digit
//! strings, splitting on a separator, and zero-padded decimal output.
use vstd::prelude::*;

verus! {

/// Whether two strings hold the same characters.
pub fn str_eq(a: &str, b: &str) -> (r: bool)
    ensures
        r == (a@ == b@),
{
    let n = a.unicode_len();
    if n != b.unicode_len() {
        return false;
    }
    let mut i: usize = 0;
    while i < n
        invariant
            n == a@.len(),
            n == b@.len(),
            0 <= i <= n,
            forall|j: int| 0 <= j < i ==> a@[j] == b@[j],
        decreases n - i,
    {
        if a.get_char(i) != b.get_char(i) {
            return false;
        }
        i = i + 1;
    }
    assert(a@ =~= b@);
    true
}

/// The only character of a one-character string.
pub fn single_char(s: &str) -> (r: Option<char>)
    ensures
        r == (if s@.len() == 1 {
            Some(s@[0])
        } else {
            None::<char>
        }),
{
    if s.unicode_len() == 1 {
        Some(s.get_char(0))
    } else {
        None
    }
}

// ---------------------------------------------------------------- digits

pub open spec fn is_digit(c: char) -> bool {
    '0' <= c && c <= '9'
}

pub open spec fn digit_value(c: char) -> int {
    c as int - '0' as int
}

pub open spec fn all_digits(s: Seq<char>) -> bool {
    forall|i: int| 0 <= i < s.len() ==> is_digit(#[trigger] s[i])
}

/// A non-empty run of decimal digits.
pub open spec fn is_numeral(s: Seq<char>) -> bool {
    s.len() > 0 && all_digits(s)
}

/// The number that a run of decimal digits denotes (leading zeros allowed).
pub open spec fn digits_value(s: Seq<char>) -> int
    decreases s.len(),
{
    if s.len() == 0 {
        0
    } else {
        digits_value(s.drop_last()) * 10 + digit_value(s.last())
    }
}

pub open spec fn pow10(n: nat) -> int
    decreases n,
{
    if n == 0 {
        1
    } else {
        10 * pow10((n - 1) as nat)
    }
}

pub proof fn lemma_pow10_pos(n: nat)
    ensures
        pow10(n) >= 1,
    decreases n,
{
    if n > 0 {
        lemma_pow10_pos((n - 1) as nat);
    }
}

pub proof fn lemma_digits_value_bounds(s: Seq<char>)
    requires
        all_digits(s),
    ensures
        0 <= digits_value(s) < pow10(s.len()),
    decreases s.len(),
{
    if s.len() > 0 {
        assert(is_digit(s[s.len() - 1]));
        assert(all_digits(s.drop_last())) by {
            assert forall|i: int| 0 <= i < s.drop_last().len() implies is_digit(
                #[trigger] s.drop_last()[i],
            ) by {
                assert(is_digit(s[i]));
            }
        }
        lemma_digits_value_bounds(s.drop_last());
    }
}

/// A prefix of a digit run never denotes more than the whole run.
pub proof fn lemma_digits_value_prefix(s: Seq<char>, i: int)
    requires
        all_digits(s),
        0 <= i <= s.len(),
    ensures
        0 <= digits_value(s.take(i)) <= digits_value(s),
    decreases s.len(),
{
    if i == s.len() {
        assert(s.take(i) =~= s);
        lemma_digits_value_bounds(s);
    } else {
        let d = s.drop_last();
        assert(all_digits(d)) by {
            assert forall|j: int| 0 <= j < d.len() implies is_digit(#[trigger] d[j]) by {
                assert(is_digit(s[j]));
            }
        }
        assert(s.take(i) =~= d.take(i));
        lemma_digits_value_prefix(d, i);
        lemma_digits_value_bounds(d);
        assert(is_digit(s[s.len() - 1]));
    }
}

/// Reads a run of decimal digits whose value is at most `bound`.
pub fn parse_digits(s: &str, bound: u64) -> (r: Option<u64>)
    requires
        bound < u64::MAX / 10,
    ensures
        r == (if is_numeral(s@) && digits_value(s@) <= bound as int {
            Some(digits_value(s@) as u64)
        } else {
            None::<u64>
        }),
        r is Some ==> r->0 <= bound && r->0 as int == digits_value(s@),
{
    let n = s.unicode_len();
    if n == 0 {
        return None;
    }
    let mut acc: u64 = 0;
    let mut i: usize = 0;
    while i < n
        invariant
            n == s@.len(),
            0 <= i <= n,
            all_digits(s@.take(i as int)),
            acc as int == digits_value(s@.take(i as int)),
            acc <= bound,
            bound < u64::MAX / 10,
        decreases n - i,
    {
        let c = s.get_char(i);
        if !('0' <= c && c <= '9') {
            assert(!all_digits(s@));
            return None;
        }
        let d = (c as u32 - '0' as u32) as u64;
        assert(s@.take(i + 1).drop_last() =~= s@.take(i as int));
        assert(all_digits(s@.take(i + 1))) by {
            assert forall|j: int| 0 <= j < i + 1 implies is_digit(#[trigger] s@.take(i + 1)[j]) by {
                if j < i {
                    assert(s@.take(i + 1)[j] == s@.take(i as int)[j]);
                }
            }
        }
        acc = acc * 10 + d;
        i = i + 1;
        if acc > bound {
            proof {
                if all_digits(s@) {
                    lemma_digits_value_prefix(s@, i as int);
                }
            }
            return None;
        }
    }
    assert(s@.take(n as int) =~= s@);
    Some(acc)
}

/// The integer that an optionally signed run of digits denotes.
pub open spec fn int_text_value(s: Seq<char>) -> Option<int> {
    if s.len() > 0 && (s[0] == '-' || s[0] == '+') {
        if is_numeral(s.drop_first()) {
            Some(
                if s[0] == '-' {
                    -digits_value(s.drop_first())
                } else {
                    digits_value(s.drop_first())
                },
            )
        } else {
            None
        }
    } else if is_numeral(s) {
        Some(digits_value(s))
    } else {
        None
    }
}

/// The `i32` that a string denotes, as `str::parse::<i32>` reads it.
pub open spec fn i32_text_value(s: Seq<char>) -> Option<i32> {
    match int_text_value(s) {
        Some(v) => if i32::MIN <= v <= i32::MAX {
            Some(v as i32)
        } else {
            None
        },
        None => None,
    }
}

/// Reads an optionally signed decimal `i32`.
pub fn parse_i32(s: &str) -> (r: Option<i32>)
    ensures
        r == i32_text_value(s@),
{
    let n = s.unicode_len();
    if n == 0 {
        return None;
    }
    let c = s.get_char(0);
    if c == '-' || c == '+' {
        let body = s.substring_char(1, n);
        assert(body@ =~= s@.drop_first());
        match parse_digits(body, 2_147_483_648) {
            Some(v) => {
                if c == '-' {
                    Some((0 - v as i64) as i32)
                } else if v <= 2_147_483_647 {
                    Some(v as i32)
                } else {
                    None
                }
            },
            None => {
                proof {
                    if is_numeral(body@) {
                        lemma_digits_value_bounds(body@);
                    }
                }
                None
            },
        }
    } else {
        match parse_digits(s, 2_147_483_647) {
            Some(v) => Some(v as i32),
            None => {
                proof {
                    if is_numeral(s@) {
                        lemma_digits_value_bounds(s@);
                    }
                }
                None
            },
        }
    }
}

// ---------------------------------------------------------------- splitting

/// The pieces of `s` between occurrences of `sep`; there is always at least one.
pub open spec fn split_on(s: Seq<char>, sep: char) -> Seq<Seq<char>>
    decreases s.len(),
{
    if s.len() == 0 {
        seq![Seq::<char>::empty()]
    } else {
        let prev = split_on(s.drop_last(), sep);
        if s.last() == sep {
            prev.push(Seq::<char>::empty())
        } else {
            prev.update(prev.len() - 1, prev.last().push(s.last()))
        }
    }
}

pub proof fn lemma_split_on_nonempty(s: Seq<char>, sep: char)
    ensures
        split_on(s, sep).len() >= 1,
    decreases s.len(),
{
    if s.len() > 0 {
        lemma_split_on_nonempty(s.drop_last(), sep);
    }
}

/// A string without `sep` is a single piece.
pub proof fn lemma_split_on_absent(s: Seq<char>, sep: char)
    requires
        forall|i: int| 0 <= i < s.len() ==> s[i] != sep,
    ensures
        split_on(s, sep) == seq![s],
    decreases s.len(),
{
    if s.len() > 0 {
        lemma_split_on_absent(s.drop_last(), sep);
        assert(s.drop_last().push(s.last()) =~= s);
        assert(split_on(s, sep) =~= seq![s]);
    } else {
        assert(s =~= Seq::<char>::empty());
    }
}

/// Splitting at a separator splits the two sides independently.
pub proof fn lemma_split_on_concat(a: Seq<char>, b: Seq<char>, sep: char)
    ensures
        split_on(a.push(sep) + b, sep) == split_on(a, sep) + split_on(b, sep),
    decreases b.len(),
{
    let x = a.push(sep) + b;
    if b.len() == 0 {
        assert(x =~= a.push(sep));
        assert(x.drop_last() =~= a);
        assert(split_on(x, sep) =~= split_on(a, sep) + split_on(b, sep));
    } else {
        let bd = b.drop_last();
        assert(x.drop_last() =~= a.push(sep) + bd);
        assert(x.last() == b.last());
        lemma_split_on_concat(a, bd, sep);
        lemma_split_on_nonempty(bd, sep);
        lemma_split_on_nonempty(a, sep);
        let pa = split_on(a, sep);
        let pb = split_on(bd, sep);
        if b.last() == sep {
            assert(split_on(x, sep) =~= pa + split_on(b, sep));
        } else {
            assert((pa + pb).last() == pb.last());
            assert(split_on(x, sep) =~= pa + split_on(b, sep));
        }
    }
}

pub open spec fn views_of(v: Seq<String>) -> Seq<Seq<char>> {
    v.map_values(|t: String| t@)
}

/// Splits `s` at every `sep`, as `str::split` does.
pub fn split(s: &str, sep: char) -> (r: Vec<String>)
    ensures
        views_of(r@) == split_on(s@, sep),
        r@.len() >= 1,
{
    let n = s.unicode_len();
    let mut parts: Vec<String> = Vec::new();
    let mut cur = String::new();
    let mut i: usize = 0;
    while i < n
        invariant
            n == s@.len(),
            0 <= i <= n,
            views_of(parts@).push(cur@) == split_on(s@.take(i as int), sep),
        decreases n - i,
    {
        let c = s.get_char(i);
        assert(s@.take(i + 1).drop_last() =~= s@.take(i as int));
        assert(s@.take(i + 1).last() == c);
        if c == sep {
            let done = cur;
            parts.push(done);
            cur = String::new();
            assert(views_of(parts@).push(cur@) =~= split_on(s@.take(i + 1), sep));
        } else {
            let ghost before = cur@;
            push_char(&mut cur, c);
            assert(views_of(parts@).push(cur@) =~= views_of(parts@).push(before).update(
                parts@.len() as int,
                before.push(c),
            ));
        }
        i = i + 1;
    }
    assert(s@.take(n as int) =~= s@);
    parts.push(cur);
    assert(views_of(parts@) =~= split_on(s@, sep));
    parts
}

// ---------------------------------------------------------------- output

/// Relies on `String::push`: appends one character.
#[verifier::external_body]
pub(crate) fn push_char(s: &mut String, c: char)
    ensures
        final(s)@ == old(s)@.push(c),
{
    s.push(c)
}

pub open spec fn digit_char(d: int) -> char {
    ('0' as int + d) as char
}

/// The shortest decimal numeral of `n`.
pub open spec fn decimal_text(n: nat) -> Seq<char>
    decreases n,
{
    if n < 10 {
        seq![digit_char(n as int)]
    } else {
        decimal_text(n / 10).push(digit_char((n % 10) as int))
    }
}

/// The last `k` decimal digits of `n`, leading zeros included.
pub open spec fn fixed_digits(n: nat, k: nat) -> Seq<char>
    decreases k,
{
    if k == 0 {
        Seq::<char>::empty()
    } else {
        fixed_digits(n / 10, (k - 1) as nat).push(digit_char((n % 10) as int))
    }
}

/// The numeral of `n` zero-padded to at least `w` digits, as `{:0w}` writes it.
pub open spec fn padded(n: nat, w: nat) -> Seq<char> {
    if n < pow10(w) {
        fixed_digits(n, w)
    } else {
        decimal_text(n)
    }
}

/// The character of one decimal digit.
pub fn digit_to_char(d: u64) -> (c: char)
    requires
        d < 10,
    ensures
        c == digit_char(d as int),
        is_digit(c),
        digit_value(c) == d,
{
    match d {
        0 => '0',
        1 => '1',
        2 => '2',
        3 => '3',
        4 => '4',
        5 => '5',
        6 => '6',
        7 => '7',
        8 => '8',
        _ => '9',
    }
}

/// Appends the numeral of `n`.
pub fn push_decimal(s: &mut String, n: u64)
    ensures
        final(s)@ == old(s)@ + decimal_text(n as nat),
    decreases n,
{
    if n >= 10 {
        push_decimal(s, n / 10);
    }
    let c = digit_to_char(n % 10);
    push_char(s, c);
    assert(final(s)@ =~= old(s)@ + decimal_text(n as nat));
}

/// Appends the last `k` digits of `n`.
pub fn push_fixed(s: &mut String, n: u64, k: u32)
    ensures
        final(s)@ == old(s)@ + fixed_digits(n as nat, k as nat),
    decreases k,
{
    if k > 0 {
        push_fixed(s, n / 10, k - 1);
        let c = digit_to_char(n % 10);
        push_char(s, c);
        assert(final(s)@ =~= old(s)@ + fixed_digits(n as nat, k as nat));
    } else {
        assert(final(s)@ =~= old(s)@ + fixed_digits(n as nat, k as nat));
    }
}

/// Appends the numeral of `n` zero-padded to at least `w` digits.
pub fn push_padded(s: &mut String, n: u64, w: u32)
    requires
        w <= 18,
    ensures
        final(s)@ == old(s)@ + padded(n as nat, w as nat),
{
    let mut p: u64 = 1;
    let mut i: u32 = 0;
    while i < w
        invariant
            0 <= i <= w <= 18,
            p as int == pow10(i as nat),
            p <= 1_000_000_000_000_000_000,
        decreases w - i,
    {
        proof {
            assert(pow10((i + 1) as nat) == 10 * pow10(i as nat));
            lemma_pow10_le(i as nat, 17);
            lemma_pow10_17();
        }
        p = p * 10;
        i = i + 1;
    }
    if n < p {
        push_fixed(s, n, w);
    } else {
        push_decimal(s, n);
    }
}

pub proof fn lemma_pow10_le(a: nat, b: nat)
    requires
        a <= b,
    ensures
        pow10(a) <= pow10(b),
    decreases b,
{
    if a < b {
        lemma_pow10_le(a, (b - 1) as nat);
        lemma_pow10_pos((b - 1) as nat);
    }
}

pub proof fn lemma_pow10_17()
    ensures
        pow10(17) == 100_000_000_000_000_000,
{
    reveal_with_fuel(pow10, 18);
}

/// A numeral of exactly `k` digits is given back by `fixed_digits`.
pub proof fn lemma_fixed_digits_of_value(s: Seq<char>)
    requires
        all_digits(s),
    ensures
        fixed_digits(digits_value(s) as nat, s.len()) == s,
    decreases s.len(),
{
    if s.len() > 0 {
        let d = s.drop_last();
        assert(all_digits(d)) by {
            assert forall|j: int| 0 <= j < d.len() implies is_digit(#[trigger] d[j]) by {
                assert(is_digit(s[j]));
            }
        }
        lemma_digits_value_bounds(d);
        lemma_fixed_digits_of_value(d);
        assert(is_digit(s[s.len() - 1]));
        let v = digits_value(s);
        assert(v / 10 == digits_value(d));
        assert(v % 10 == digit_value(s.last()));
        assert(d.push(s.last()) =~= s);
    } else {
        assert(s =~= Seq::<char>::empty());
    }
}

} // verus!
