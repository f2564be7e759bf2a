//! Numbers read from CSV fields.
use vstd::prelude::*;

verus! {

/// Millionths in a whole unit of a decimal field.
pub const MICRO: u64 = 1_000_000;

/// Largest whole part accepted in a decimal field.
pub const MAX_WHOLE: u64 = 1_000_000_000_000;

/// Fractional digits kept from a decimal field.
pub const KEPT_DECIMALS: usize = 6;

/// Value of a digit in base 10 or 16 (either case of `a`-`f`).
pub open spec fn digit_of(c: char, radix: int) -> Option<int> {
    let n = c as u32 as int;
    if 48 <= n <= 57 {
        Some(n - 48)
    } else if radix == 16 && 97 <= n <= 102 {
        Some(n - 87)
    } else if radix == 16 && 65 <= n <= 70 {
        Some(n - 55)
    } else {
        None
    }
}

pub open spec fn all_digits(s: Seq<char>, radix: int) -> bool {
    forall|i: int| 0 <= i < s.len() ==> (#[trigger] digit_of(s[i], radix)) is Some
}

/// Value of a sequence of digits, most significant first; zero when empty.
pub open spec fn digits_value(s: Seq<char>, radix: int) -> int
    decreases s.len(),
{
    if s.len() == 0 {
        0
    } else {
        digits_value(s.drop_last(), radix) * radix + digit_of(s.last(), radix)->0
    }
}

/// `s` without one leading `+`.
pub open spec fn without_plus(s: Seq<char>) -> Seq<char> {
    if s.len() > 0 && s[0] == '+' {
        s.drop_first()
    } else {
        s
    }
}

/// An unsigned 32-bit number in `radix`, with an optional leading `+`.
pub open spec fn unsigned_value(s: Seq<char>, radix: int) -> Option<int> {
    let body = without_plus(s);
    if body.len() > 0 && all_digits(body, radix) && digits_value(body, radix) <= u32::MAX {
        Some(digits_value(body, radix))
    } else {
        None
    }
}

/// A count field: hexadecimal after `0x`, decimal otherwise.
pub open spec fn count_value(s: Seq<char>) -> Option<int> {
    if s.len() >= 2 && s[0] == '0' && s[1] == 'x' {
        unsigned_value(s.subrange(2, s.len() as int), 16)
    } else {
        unsigned_value(s, 10)
    }
}

/// A signed 32-bit number: decimal, or hexadecimal after `0x`, with an
/// optional sign before the digits.
pub open spec fn signed_value(s: Seq<char>) -> Option<int> {
    let (t, radix) = if s.len() >= 2 && s[0] == '0' && s[1] == 'x' {
        (s.subrange(2, s.len() as int), 16)
    } else {
        (s, 10)
    };
    if t.len() > 0 && t[0] == '-' {
        let body = t.drop_first();
        if body.len() > 0 && all_digits(body, radix) && digits_value(body, radix) <= 0x8000_0000 {
            Some(-digits_value(body, radix))
        } else {
            None
        }
    } else {
        let body = without_plus(t);
        if body.len() > 0 && all_digits(body, radix) && digits_value(body, radix) <= i32::MAX {
            Some(digits_value(body, radix))
        } else {
            None
        }
    }
}

/// First position of `x` in `s`.
pub open spec fn is_first_index<A>(s: Seq<A>, x: A, i: int) -> bool {
    0 <= i < s.len() && s[i] == x && forall|j: int| 0 <= j < i ==> s[j] != x
}

pub open spec fn first_index_of<A>(s: Seq<A>, x: A) -> Option<int> {
    if exists|i: int| is_first_index(s, x, i) {
        Some(choose|i: int| is_first_index(s, x, i))
    } else {
        None
    }
}

pub proof fn lemma_first_index_unique<A>(s: Seq<A>, x: A, i: int)
    requires
        is_first_index(s, x, i),
    ensures
        first_index_of(s, x) == Some(i),
{
    let j = choose|j: int| is_first_index(s, x, j);
    assert(is_first_index(s, x, j));
    if j < i {
        assert(s[j] != x);
    } else if i < j {
        assert(s[i] != x);
    }
}

/// Ten to the power `n`.
pub open spec fn ten_to(n: nat) -> int
    decreases n,
{
    if n == 0 {
        1
    } else {
        10 * ten_to((n - 1) as nat)
    }
}

/// Millionths of the first `KEPT_DECIMALS` fractional digits; further digits are dropped.
pub open spec fn fraction_micro(f: Seq<char>) -> int {
    let k = if f.len() < KEPT_DECIMALS {
        f.len() as int
    } else {
        KEPT_DECIMALS as int
    };
    digits_value(f.subrange(0, k), 10) * ten_to((KEPT_DECIMALS - k) as nat)
}

/// Largest exponent, in magnitude, accepted after `e` or `E`.
pub const MAX_EXPONENT: u64 = 999;

/// Whole and fractional digits of a mantissa, split at its first `.`.
pub open spec fn point_split(m: Seq<char>) -> (Seq<char>, Seq<char>) {
    match first_index_of(m, '.') {
        Some(d) => (m.subrange(0, d), m.subrange(d + 1, m.len() as int)),
        None => (m, Seq::empty()),
    }
}

pub open spec fn is_exponent_mark(c: char) -> bool {
    c == 'e' || c == 'E'
}

pub open spec fn is_first_mark(s: Seq<char>, i: int) -> bool {
    0 <= i < s.len() && is_exponent_mark(s[i]) && forall|j: int|
        0 <= j < i ==> !is_exponent_mark(#[trigger] s[j])
}

/// The mantissa, and the exponent text after the first `e` or `E` if any.
pub open spec fn mantissa_and_exponent(s: Seq<char>) -> (Seq<char>, Option<Seq<char>>) {
    if exists|i: int| is_first_mark(s, i) {
        let i = choose|i: int| is_first_mark(s, i);
        (s.subrange(0, i), Some(s.subrange(i + 1, s.len() as int)))
    } else {
        (s, None)
    }
}

/// An exponent: decimal digits with an optional sign, at most `MAX_EXPONENT`
/// in magnitude.
pub open spec fn exponent_value(x: Seq<char>) -> Option<int> {
    let (negative, digits) = if x.len() > 0 && x[0] == '-' {
        (true, x.drop_first())
    } else {
        (false, without_plus(x))
    };
    if digits.len() > 0 && all_digits(digits, 10) && digits_value(digits, 10) <= MAX_EXPONENT {
        Some(
            if negative {
                -digits_value(digits, 10)
            } else {
                digits_value(digits, 10)
            },
        )
    } else {
        None
    }
}

/// `n` zero digits.
pub open spec fn zeros(n: nat) -> Seq<char> {
    Seq::new(n, |i: int| '0')
}

/// Whole and fractional digits once the point is moved `e` places right
/// (left when `e` is negative), padding with zeros.
pub open spec fn shifted(w: Seq<char>, f: Seq<char>, e: int) -> (Seq<char>, Seq<char>) {
    let d = w + f;
    let p = w.len() + e;
    if p <= 0 {
        (Seq::empty(), zeros((-p) as nat) + d)
    } else if p >= d.len() {
        (d + zeros((p - d.len()) as nat), Seq::empty())
    } else {
        (d.subrange(0, p), d.subrange(p, d.len() as int))
    }
}

/// Whole and fractional digits in millionths, the fraction rounded down;
/// the whole part is at most `MAX_WHOLE`.
pub open spec fn fixed_micro(w: Seq<char>, f: Seq<char>) -> Option<int> {
    if digits_value(w, 10) <= MAX_WHOLE {
        Some(digits_value(w, 10) * MICRO as int + fraction_micro(f))
    } else {
        None
    }
}

/// A non-negative decimal `[+]digits[.digits][(e|E)[+|-]digits]` (either
/// side of the point may be empty, not both), in millionths, rounded down.
pub open spec fn decimal_micro(s: Seq<char>) -> Option<int> {
    let (m, x) = mantissa_and_exponent(without_plus(s));
    let (w, f) = point_split(m);
    if (w.len() > 0 || f.len() > 0) && all_digits(w, 10) && all_digits(f, 10) {
        match x {
            None => fixed_micro(w, f),
            Some(x) => match exponent_value(x) {
                Some(e) => fixed_micro(shifted(w, f, e).0, shifted(w, f, e).1),
                None => None,
            },
        }
    } else {
        None
    }
}

proof fn lemma_prefix_value_le(s: Seq<char>, radix: int, k: int)
    requires
        all_digits(s, radix),
        radix == 10 || radix == 16,
        0 <= k <= s.len(),
    ensures
        digits_value(s.subrange(0, k), radix) <= digits_value(s, radix),
        digits_value(s, radix) >= 0,
    decreases s.len(),
{
    if s.len() > 0 {
        let t = s.drop_last();
        assert(all_digits(t, radix)) by {
            assert forall|i: int| 0 <= i < t.len() implies (#[trigger] digit_of(t[i], radix)) is Some by {
                assert(t[i] == s[i]);
            }
        }
        assert(digit_of(s[s.len() - 1], radix) is Some);
        if k < s.len() {
            lemma_prefix_value_le(t, radix, k);
            assert(s.subrange(0, k) =~= t.subrange(0, k));
        } else {
            lemma_prefix_value_le(t, radix, 0);
            assert(s.subrange(0, k) =~= s);
        }
        assert(digits_value(t, radix) * radix >= digits_value(t, radix)) by (nonlinear_arith)
            requires
                digits_value(t, radix) >= 0,
                radix >= 1,
        ;
    }
}

proof fn lemma_digits_bound(t: Seq<char>)
    requires
        all_digits(t, 10),
    ensures
        0 <= digits_value(t, 10) < ten_to(t.len()),
    decreases t.len(),
{
    if t.len() > 0 {
        let u = t.drop_last();
        assert(all_digits(u, 10)) by {
            assert forall|i: int| 0 <= i < u.len() implies (#[trigger] digit_of(u[i], 10)) is Some by {
                assert(u[i] == t[i]);
            }
        }
        lemma_digits_bound(u);
        assert(digit_of(t[t.len() - 1], 10) is Some);
        let d = digit_of(t.last(), 10)->0;
        assert(0 <= d < 10);
        assert(0 <= digits_value(u, 10) * 10 + d < 10 * ten_to(u.len())) by (nonlinear_arith)
            requires
                0 <= digits_value(u, 10) < ten_to(u.len()),
                0 <= d < 10,
        ;
    }
}

proof fn lemma_ten_to_grows(a: nat, b: nat)
    requires
        a <= b,
    ensures
        1 <= ten_to(a) <= ten_to(b),
    decreases b,
{
    if b > 0 {
        let c = if a < b {
            a
        } else {
            (b - 1) as nat
        };
        lemma_ten_to_grows(c, (b - 1) as nat);
    }
}

pub(crate) fn digit_value(c: char, radix: u64) -> (r: Option<u64>)
    requires
        radix == 10 || radix == 16,
    ensures
        match r {
            Some(d) => digit_of(c, radix as int) == Some(d as int) && d < radix,
            None => digit_of(c, radix as int) is None,
        },
{
    let n = c as u32;
    if 48 <= n && n <= 57 {
        Some((n - 48) as u64)
    } else if radix == 16 && 97 <= n && n <= 102 {
        Some((n - 87) as u64)
    } else if radix == 16 && 65 <= n && n <= 70 {
        Some((n - 55) as u64)
    } else {
        None
    }
}

/// Value of the digits of `s` from `from` up to `to`, when all are digits
/// and the value is at most `limit`.
fn parse_digits(s: &str, from: usize, to: usize, radix: u64, limit: u64) -> (r: Option<u64>)
    requires
        from <= to <= s@.len(),
        radix == 10 || radix == 16,
        limit <= MAX_WHOLE,
    ensures
        ({
            let t = s@.subrange(from as int, to as int);
            &&& r is Some <==> (all_digits(t, radix as int) && digits_value(t, radix as int)
                <= limit)
            &&& r matches Some(v) ==> v == digits_value(t, radix as int)
        }),
{
    let ghost t = s@.subrange(from as int, to as int);
    let mut v: u64 = 0;
    let mut i: usize = from;
    while i < to
        invariant
            from <= i <= to <= s@.len(),
            radix == 10 || radix == 16,
            limit <= MAX_WHOLE,
            t == s@.subrange(from as int, to as int),
            all_digits(s@.subrange(from as int, i as int), radix as int),
            v == digits_value(s@.subrange(from as int, i as int), radix as int),
            v <= limit,
        decreases to - i,
    {
        let ghost before = s@.subrange(from as int, i as int);
        let ghost after = s@.subrange(from as int, i + 1);
        assert(after.drop_last() =~= before);
        assert(t[i - from] == s@[i as int]);
        let d = match digit_value(s.get_char(i), radix) {
            Some(d) => d,
            None => {
                return None;
            },
        };
        assert(v * radix <= MAX_WHOLE * 16) by (nonlinear_arith)
            requires
                v <= MAX_WHOLE,
                radix <= 16,
        ;
        let next = v * radix + d;
        assert(all_digits(after, radix as int)) by {
            assert forall|j: int| 0 <= j < after.len() implies (#[trigger] digit_of(
                after[j],
                radix as int,
            )) is Some by {
                if j < before.len() {
                    assert(after[j] == before[j]);
                }
            }
        }
        if next > limit {
            proof {
                if all_digits(t, radix as int) {
                    lemma_prefix_value_le(t, radix as int, i + 1 - from);
                    assert(t.subrange(0, i + 1 - from) =~= after);
                }
            }
            return None;
        }
        v = next;
        i = i + 1;
    }
    assert(s@.subrange(from as int, i as int) =~= t);
    Some(v)
}

/// The number of a count field, read as `u32` from decimal or from
/// hexadecimal after `0x`, with an optional `+`.
pub fn parse_count(s: &str) -> (r: Option<u32>)
    ensures
        match r {
            Some(v) => count_value(s@) == Some(v as int),
            None => count_value(s@) is None,
        },
{
    let n = s.unicode_len();
    let hex = n >= 2 && s.get_char(0) == '0' && s.get_char(1) == 'x';
    let start: usize = if hex {
        2
    } else {
        0
    };
    let radix: u64 = if hex {
        16
    } else {
        10
    };
    let ghost t = s@.subrange(start as int, n as int);
    assert(hex ==> s@.subrange(2, s@.len() as int) == t);
    assert(!hex ==> s@ =~= t);
    let plus = start < n && s.get_char(start) == '+';
    let body: usize = if plus {
        start + 1
    } else {
        start
    };
    assert(without_plus(t) =~= s@.subrange(body as int, n as int));
    if body == n {
        return None;
    }
    match parse_digits(s, body, n, radix, u32::MAX as u64) {
        Some(v) => Some(v as u32),
        None => None,
    }
}

/// The number of a signed count field, read as `i32`.
pub fn parse_signed(s: &str) -> (r: Option<i32>)
    ensures
        match r {
            Some(v) => signed_value(s@) == Some(v as int),
            None => signed_value(s@) is None,
        },
{
    let n = s.unicode_len();
    let hex = n >= 2 && s.get_char(0) == '0' && s.get_char(1) == 'x';
    let start: usize = if hex {
        2
    } else {
        0
    };
    let radix: u64 = if hex {
        16
    } else {
        10
    };
    let ghost t = s@.subrange(start as int, n as int);
    assert(hex ==> s@.subrange(2, s@.len() as int) == t);
    assert(!hex ==> s@ =~= t);
    let minus = start < n && s.get_char(start) == '-';
    let plus = start < n && s.get_char(start) == '+';
    let body: usize = if minus || plus {
        start + 1
    } else {
        start
    };
    if body == n {
        return None;
    }
    if minus {
        assert(t.drop_first() =~= s@.subrange(body as int, n as int));
        match parse_digits(s, body, n, radix, 0x8000_0000) {
            Some(v) => Some((0 - (v as i64)) as i32),
            None => None,
        }
    } else {
        assert(without_plus(t) =~= s@.subrange(body as int, n as int));
        match parse_digits(s, body, n, radix, i32::MAX as u64) {
            Some(v) => Some(v as i32),
            None => None,
        }
    }
}

/// Whether every character of `s` from `from` up to `to` is a decimal digit.
fn decimal_digits_only(s: &str, from: usize, to: usize) -> (r: bool)
    requires
        from <= to <= s@.len(),
    ensures
        r == all_digits(s@.subrange(from as int, to as int), 10),
{
    let ghost t = s@.subrange(from as int, to as int);
    let mut i: usize = from;
    while i < to
        invariant
            from <= i <= to <= s@.len(),
            t == s@.subrange(from as int, to as int),
            forall|j: int| 0 <= j < i - from ==> (#[trigger] digit_of(t[j], 10)) is Some,
        decreases to - i,
    {
        if digit_value(s.get_char(i), 10).is_none() {
            assert(digit_of(t[i - from], 10) is None);
            return false;
        }
        i = i + 1;
    }
    true
}

/// The millionths of the fractional digits of `s` from `frac_start` up to
/// `frac_end`, when all of them are decimal digits.
fn parse_fraction(s: &str, frac_start: usize, frac_end: usize) -> (r: Option<u64>)
    requires
        frac_start <= frac_end <= s@.len(),
    ensures
        ({
            let frac = s@.subrange(frac_start as int, frac_end as int);
            &&& r is Some <==> all_digits(frac, 10)
            &&& r matches Some(v) ==> v == fraction_micro(frac) && v < MICRO
        }),
{
    let n = frac_end;
    let ghost frac = s@.subrange(frac_start as int, n as int);
    let k: usize = if n - frac_start < KEPT_DECIMALS {
        n - frac_start
    } else {
        KEPT_DECIMALS
    };
    let f = match parse_digits(s, frac_start, frac_start + k, 10, MAX_WHOLE) {
        Some(f) => f,
        None => {
            assert(!all_digits(frac, 10)) by {
                let first = s@.subrange(frac_start as int, frac_start + k);
                if all_digits(first, 10) {
                    lemma_digits_bound(first);
                    lemma_ten_to_grows(first.len(), KEPT_DECIMALS as nat);
                    reveal_with_fuel(ten_to, 7);
                }
                let j = choose|j: int| 0 <= j < first.len() && (#[trigger] digit_of(first[j], 10)) is None;
                assert(frac[j] == first[j]);
            }
            return None;
        },
    };
    if !decimal_digits_only(s, frac_start + k, n) {
        assert(!all_digits(frac, 10)) by {
            let rest = s@.subrange(frac_start + k, n as int);
            let j = choose|j: int| 0 <= j < rest.len() && (#[trigger] digit_of(rest[j], 10)) is None;
            assert(frac[j + k] == rest[j]);
        }
        return None;
    }
    assert(all_digits(frac, 10)) by {
        let first = s@.subrange(frac_start as int, frac_start + k);
        let rest = s@.subrange(frac_start + k, n as int);
        assert forall|j: int| 0 <= j < frac.len() implies (#[trigger] digit_of(frac[j], 10)) is Some by {
            if j < k {
                assert(frac[j] == first[j]);
            } else {
                assert(frac[j] == rest[j - k]);
            }
        }
    }
    assert(frac.subrange(0, k as int) =~= s@.subrange(frac_start as int, frac_start + k));
    let mut scaled: u64 = f;
    let mut e: usize = k;
    proof {
        lemma_digits_bound(frac.subrange(0, k as int));
        reveal_with_fuel(ten_to, 7);
        assert(ten_to(0) == 1);
        assert(f < ten_to(k as nat));
        assert(scaled as int == f as int * ten_to((e - k) as nat));
    }
    while e < KEPT_DECIMALS
        invariant
            k <= e <= KEPT_DECIMALS,
            scaled as int == f as int * ten_to((e - k) as nat),
            scaled < ten_to(e as nat),
            ten_to(6) == 1_000_000,
        decreases KEPT_DECIMALS - e,
    {
        proof {
            reveal_with_fuel(ten_to, 7);
            assert(ten_to((e + 1 - k) as nat) == 10 * ten_to((e - k) as nat));
            assert(ten_to((e + 1) as nat) == 10 * ten_to(e as nat));
        }
        assert(ten_to(e as nat) <= 100_000) by {
            lemma_ten_to_grows(e as nat, 5);
            reveal_with_fuel(ten_to, 6);
        }
        scaled = scaled * 10;
        assert(scaled as int == f as int * ten_to((e + 1 - k) as nat)) by (nonlinear_arith)
            requires
                scaled == (f as int * ten_to((e - k) as nat)) * 10,
                ten_to((e + 1 - k) as nat) == 10 * ten_to((e - k) as nat),
        ;
        e = e + 1;
    }
    assert(fraction_micro(frac) == f * ten_to((KEPT_DECIMALS - k) as nat));
    assert(ten_to((KEPT_DECIMALS - k) as nat) == ten_to((e - k) as nat));
    Some(scaled)
}

/// `fixed_micro` of the digits of `s` in two ranges, all decimal digits.
fn fixed_value(s: &str, wa: usize, wb: usize, fa: usize, fb: usize) -> (r: Option<u64>)
    requires
        wa <= wb <= s@.len(),
        fa <= fb <= s@.len(),
        all_digits(s@.subrange(wa as int, wb as int), 10),
        all_digits(s@.subrange(fa as int, fb as int), 10),
    ensures
        match r {
            Some(v) => fixed_micro(
                s@.subrange(wa as int, wb as int),
                s@.subrange(fa as int, fb as int),
            ) == Some(v as int),
            None => fixed_micro(
                s@.subrange(wa as int, wb as int),
                s@.subrange(fa as int, fb as int),
            ) is None,
        },
{
    let w = match parse_digits(s, wa, wb, 10, MAX_WHOLE) {
        Some(w) => w,
        None => return None,
    };
    let scaled = match parse_fraction(s, fa, fb) {
        Some(f) => f,
        None => return None,
    };
    assert(w * MICRO + scaled <= MAX_WHOLE * MICRO + MICRO) by (nonlinear_arith)
        requires
            w <= MAX_WHOLE,
            scaled < MICRO,
    ;
    Some(w * MICRO + scaled)
}

/// The exponent written in `s` from `from` up to `to`.
fn parse_exponent(s: &str, from: usize, to: usize) -> (r: Option<(bool, u64)>)
    requires
        from <= to <= s@.len(),
    ensures
        match r {
            Some((negative, m)) => m <= MAX_EXPONENT && exponent_value(
                s@.subrange(from as int, to as int),
            ) == Some(
                if negative {
                    -(m as int)
                } else {
                    m as int
                },
            ),
            None => exponent_value(s@.subrange(from as int, to as int)) is None,
        },
{
    let ghost x = s@.subrange(from as int, to as int);
    let negative = from < to && s.get_char(from) == '-';
    let signed = from < to && (s.get_char(from) == '-' || s.get_char(from) == '+');
    let start: usize = if signed {
        from + 1
    } else {
        from
    };
    assert(negative ==> x.drop_first() =~= s@.subrange(start as int, to as int));
    assert(!negative ==> without_plus(x) =~= s@.subrange(start as int, to as int));
    if start == to {
        return None;
    }
    match parse_digits(s, start, to, 10, MAX_EXPONENT) {
        Some(m) => Some((negative, m)),
        None => None,
    }
}

fn push_zeros(t: &mut String, k: usize)
    ensures
        final(t)@ == old(t)@ + zeros(k as nat),
{
    let mut i: usize = 0;
    while i < k
        invariant
            i <= k,
            t@ == old(t)@ + zeros(i as nat),
        decreases k - i,
    {
        proof {
            reveal_strlit("0");
        }
        t.append("0");
        i = i + 1;
        assert(t@ =~= old(t)@ + zeros(i as nat));
    }
}

proof fn lemma_zeros_digits(n: nat)
    ensures
        all_digits(zeros(n), 10),
{
    assert forall|i: int| 0 <= i < zeros(n).len() implies (#[trigger] digit_of(zeros(n)[i], 10)) is Some by {
        assert(zeros(n)[i] == '0');
    }
}

proof fn lemma_concat_digits(a: Seq<char>, b: Seq<char>)
    requires
        all_digits(a, 10),
        all_digits(b, 10),
    ensures
        all_digits(a + b, 10),
{
    assert forall|i: int| 0 <= i < (a + b).len() implies (#[trigger] digit_of((a + b)[i], 10)) is Some by {
        if i < a.len() {
            assert((a + b)[i] == a[i]);
        } else {
            assert((a + b)[i] == b[i - a.len()]);
        }
    }
}

proof fn lemma_sub_digits(a: Seq<char>, lo: int, hi: int)
    requires
        all_digits(a, 10),
        0 <= lo <= hi <= a.len(),
    ensures
        all_digits(a.subrange(lo, hi), 10),
{
    assert forall|i: int| 0 <= i < hi - lo implies (#[trigger] digit_of(a.subrange(lo, hi)[i], 10)) is Some by {
        assert(a.subrange(lo, hi)[i] == a[lo + i]);
    }
}

/// The digits `w` and `f` of `s` with the point moved by an exponent, as
/// one string of digits and the length of its whole part.
fn shift_digits(s: &str, wa: usize, wb: usize, fa: usize, fb: usize, negative: bool, m: u64) -> (r: (String, usize))
    requires
        wa <= wb <= fa <= fb <= s@.len(),
        m <= MAX_EXPONENT,
        all_digits(s@.subrange(wa as int, wb as int), 10),
        all_digits(s@.subrange(fa as int, fb as int), 10),
    ensures
        ({
            let e = if negative {
                -(m as int)
            } else {
                m as int
            };
            let sh = shifted(s@.subrange(wa as int, wb as int), s@.subrange(fa as int, fb as int), e);
            &&& r.1 <= r.0@.len()
            &&& r.0@.subrange(0, r.1 as int) == sh.0
            &&& r.0@.subrange(r.1 as int, r.0@.len() as int) == sh.1
            &&& all_digits(r.0@, 10)
        }),
{
    let ghost w = s@.subrange(wa as int, wb as int);
    let ghost f = s@.subrange(fa as int, fb as int);
    let ghost d = w + f;
    proof {
        lemma_concat_digits(w, f);
    }
    let len = s.unicode_len();
    assert(wb - wa + (fb - fa) <= len);
    let wl = wb - wa;
    let dl = wl as u128 + (fb - fa) as u128;
    let p: i128 = if negative {
        wl as i128 - m as i128
    } else {
        wl as i128 + m as i128
    };
    let mut t = String::new();
    if p <= 0 {
        push_zeros(&mut t, (0 - p) as usize);
        t.append(s.substring_char(wa, wb));
        t.append(s.substring_char(fa, fb));
        proof {
            lemma_zeros_digits((0 - p) as nat);
            lemma_concat_digits(zeros((0 - p) as nat), d);
        }
        assert(t@ =~= zeros((0 - p) as nat) + d);
        assert(t@.subrange(0, 0) =~= Seq::<char>::empty());
        assert(t@.subrange(0, t@.len() as int) =~= t@);
        (t, 0)
    } else if p as u128 >= dl {
        t.append(s.substring_char(wa, wb));
        t.append(s.substring_char(fa, fb));
        push_zeros(&mut t, (p as u128 - dl) as usize);
        proof {
            lemma_zeros_digits((p - dl) as nat);
            lemma_concat_digits(d, zeros((p - dl) as nat));
        }
        assert(t@ =~= d + zeros((p - dl) as nat));
        let n = t.unicode_len();
        assert(t@.subrange(0, n as int) =~= t@);
        assert(t@.subrange(n as int, n as int) =~= Seq::<char>::empty());
        (t, n)
    } else {
        t.append(s.substring_char(wa, wb));
        t.append(s.substring_char(fa, fb));
        assert(t@ =~= d);
        assert(d.len() == dl);
        assert(t@.subrange(0, p as int) =~= d.subrange(0, p as int));
        assert(t@.subrange(p as int, t@.len() as int) =~= d.subrange(p as int, d.len() as int));
        (t, p as usize)
    }
}

/// The number of a decimal field in millionths:
/// `[+]digits[.digits][(e|E)[+|-]digits]`, digits past the sixth decimal
/// dropped.
pub fn parse_decimal(s: &str) -> (r: Option<u64>)
    ensures
        match r {
            Some(v) => decimal_micro(s@) == Some(v as int),
            None => decimal_micro(s@) is None,
        },
{
    let n = s.unicode_len();
    let body: usize = if n > 0 && s.get_char(0) == '+' {
        1
    } else {
        0
    };
    let ghost b = without_plus(s@);
    assert(b =~= s@.subrange(body as int, n as int));
    let me = split_exponent(s, body);
    let m_end = me;
    let d = split_point(s, body, m_end);
    let (we, fs): (usize, usize) = if d < m_end {
        (d, d + 1)
    } else {
        (m_end, m_end)
    };
    assert(d >= m_end ==> s@.subrange(fs as int, m_end as int) =~= Seq::<char>::empty());
    if we == body && fs == m_end {
        return None;
    }
    if !decimal_digits_only(s, body, we) || !decimal_digits_only(s, fs, m_end) {
        return None;
    }
    if me == n {
        return fixed_value(s, body, we, fs, m_end);
    }
    let (negative, mag) = match parse_exponent(s, me + 1, n) {
        Some(x) => x,
        None => return None,
    };
    let (t, split) = shift_digits(s, body, we, fs, m_end, negative, mag);
    let tn = t.as_str().unicode_len();
    proof {
        lemma_sub_digits(t@, 0, split as int);
        lemma_sub_digits(t@, split as int, tn as int);
    }
    fixed_value(t.as_str(), 0, split, split, tn)
}

/// Position of the first `e` or `E` of `s` from `body` on (the length when none).
fn split_exponent(s: &str, body: usize) -> (me: usize)
    requires
        body <= s@.len(),
    ensures
        body <= me <= s@.len(),
        mantissa_and_exponent(s@.subrange(body as int, s@.len() as int)) == (
            s@.subrange(body as int, me as int),
            if me < s@.len() {
                Some(s@.subrange(me + 1, s@.len() as int))
            } else {
                None
            },
        ),
{
    let n = s.unicode_len();
    let ghost b = s@.subrange(body as int, n as int);
    let mut me: usize = body;
    while me < n && !is_mark(s.get_char(me))
        invariant
            body <= me <= n,
            n == s@.len(),
            b == s@.subrange(body as int, n as int),
            forall|j: int| 0 <= j < me - body ==> !is_exponent_mark(#[trigger] b[j]),
        decreases n - me,
    {
        me = me + 1;
    }
    let ghost m = s@.subrange(body as int, me as int);
    proof {
        if me < n {
            assert(is_first_mark(b, me - body));
            let i = choose|i: int| is_first_mark(b, i);
            if i < me - body {
                assert(!is_exponent_mark(b[i]));
            }
            if me - body < i {
                assert(!is_exponent_mark(b[me - body]));
            }
            assert(b.subrange(0, me - body) =~= m);
            assert(b.subrange(me - body + 1, b.len() as int) =~= s@.subrange(me + 1, n as int));
        } else {
            assert(!exists|i: int| is_first_mark(b, i));
            assert(m =~= b);
        }
    }
    me
}

/// Position of the first `.` of `s` from `from` up to `to` (`to` when none).
fn split_point(s: &str, from: usize, to: usize) -> (d: usize)
    requires
        from <= to <= s@.len(),
    ensures
        from <= d <= to,
        point_split(s@.subrange(from as int, to as int)) == if d < to {
            (s@.subrange(from as int, d as int), s@.subrange(d + 1, to as int))
        } else {
            (s@.subrange(from as int, to as int), Seq::<char>::empty())
        },
{
    let ghost m = s@.subrange(from as int, to as int);
    let mut d: usize = from;
    while d < to && s.get_char(d) != '.'
        invariant
            from <= d <= to <= s@.len(),
            m == s@.subrange(from as int, to as int),
            forall|j: int| 0 <= j < d - from ==> m[j] != '.',
        decreases to - d,
    {
        d = d + 1;
    }
    proof {
        if d < to {
            assert(is_first_index(m, '.', d - from));
            lemma_first_index_unique(m, '.', d - from);
            assert(m.subrange(0, d - from) =~= s@.subrange(from as int, d as int));
            assert(m.subrange(d - from + 1, m.len() as int) =~= s@.subrange(d + 1, to as int));
        } else {
            assert(!exists|i: int| is_first_index(m, '.', i));
        }
    }
    d
}

fn is_mark(c: char) -> (r: bool)
    ensures
        r == is_exponent_mark(c),
{
    c == 'e' || c == 'E'
}

} // verus!
