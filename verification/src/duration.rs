//! Go-style durations such as `30s`, `5m`, `1h30m` or `1.5h`.
use vstd::prelude::*;
use vstd::arithmetic::div_mod::{lemma_fundamental_div_mod, lemma_mod_mod, lemma_div_multiples_vanish_fancy, lemma_div_denominator, lemma_div_pos_is_pos, lemma_div_is_ordered};
use vstd::arithmetic::mul::{lemma_mul_inequality, lemma_mul_nonnegative, lemma_mul_is_distributive_add, lemma_mul_is_associative, lemma_mul_is_commutative, lemma_mul_strictly_positive};
use crate::text::{chars_of, string_of, slice_of, push_lit, push_chars, push_decimal, decimal, eq_lit};

verus! {

/// A span of time, held as a whole number of nanoseconds.
#[derive(Debug, Clone, Copy, PartialEq, Eq, Structural)]
pub struct Duration(pub u128);

/// An ASCII decimal digit.
pub open spec fn is_digit(c: char) -> bool {
    '0' <= c && c <= '9'
}

/// The value of a digit character.
pub open spec fn digit_val(c: char) -> nat {
    (c as u32 - 48) as nat
}

/// The value of a string of decimal digits.
pub open spec fn dval(s: Seq<char>) -> nat
    decreases s.len(),
{
    if s.len() == 0 {
        0
    } else {
        dval(s.drop_last()) * 10 + digit_val(s.last())
    }
}

pub open spec fn pow10(k: nat) -> nat
    decreases k,
{
    if k == 0 {
        1
    } else {
        10 * pow10((k - 1) as nat)
    }
}

/// A character of a duration's number: a digit or a dot.
pub open spec fn num_char(c: char) -> bool {
    is_digit(c) || c == '.'
}

/// The first position from `p` on whose character is not part of a number.
pub open spec fn num_end(s: Seq<char>, p: nat) -> Option<nat>
    decreases s.len() - p,
{
    if p >= s.len() {
        None
    } else if !num_char(s[p as int]) {
        Some(p)
    } else {
        num_end(s, p + 1)
    }
}

pub proof fn lemma_num_end(s: Seq<char>, p: nat)
    ensures
        num_end(s, p) matches Some(k) ==> p <= k < s.len() && !num_char(s[k as int]) && forall|j: int| p <= j < k ==> num_char(#[trigger] s[j]),
        num_end(s, p) is None ==> forall|j: int| p <= j < s.len() ==> num_char(#[trigger] s[j]),
    decreases s.len() - p,
{
    if p < s.len() && num_char(s[p as int]) {
        lemma_num_end(s, p + 1);
    }
}

/// The first position from `p` on that holds a digit, or the end.
pub open spec fn unit_end(s: Seq<char>, p: nat) -> nat
    decreases s.len() - p,
{
    if p >= s.len() {
        s.len()
    } else if is_digit(s[p as int]) {
        p
    } else {
        unit_end(s, p + 1)
    }
}

pub proof fn lemma_unit_end(s: Seq<char>, p: nat)
    ensures
        p <= s.len() ==> p <= unit_end(s, p) <= s.len(),
        forall|j: int| p <= j < unit_end(s, p) ==> !is_digit(#[trigger] s[j]),
        unit_end(s, p) < s.len() ==> is_digit(s[unit_end(s, p) as int]),
    decreases s.len() - p,
{
    if p < s.len() && !is_digit(s[p as int]) {
        lemma_unit_end(s, p + 1);
    }
}

/// The number of dots in `s`.
pub open spec fn dots(s: Seq<char>) -> nat
    decreases s.len(),
{
    if s.len() == 0 {
        0
    } else {
        dots(s.drop_last()) + if s.last() == '.' {
            1nat
        } else {
            0
        }
    }
}

/// A number made of digits and dots reads as a decimal when it has at most
/// one dot and at least one digit (`5`, `1.5`, `.5`, `5.`).
pub open spec fn valid_number(t: Seq<char>) -> bool {
    dots(t) <= 1 && dots(t) < t.len()
}

/// The digits before the dot (all of them when there is none).
pub open spec fn int_digits(t: Seq<char>) -> Seq<char> {
    match crate::text::find_s(t, '.') {
        Some(i) => t.take(i as int),
        None => t,
    }
}

/// The digits after the dot.
pub open spec fn frac_digits(t: Seq<char>) -> Seq<char> {
    match crate::text::find_s(t, '.') {
        Some(i) => t.skip(i as int + 1),
        None => Seq::empty(),
    }
}

/// Nanoseconds per unit: `ns`, `us` or `µs`, `ms`, `s`, `m`, `h`.
pub open spec fn unit_mult(u: Seq<char>) -> Option<nat> {
    if u == "ns"@ {
        Some(1)
    } else if u == "us"@ || u == "\u{b5}s"@ {
        Some(1000)
    } else if u == "ms"@ {
        Some(1000000)
    } else if u == "s"@ {
        Some(1000000000)
    } else if u == "m"@ {
        Some(60000000000)
    } else if u == "h"@ {
        Some(3600000000000)
    } else {
        None
    }
}

/// The nanoseconds of one component `<number><unit>`: the exact product of
/// the decimal number and the unit, rounded down, and capped at the largest
/// 64-bit count.
pub open spec fn component_nanos(t: Seq<char>, mult: nat) -> nat {
    let q = (dval(int_digits(t) + frac_digits(t)) * mult) / pow10(frac_digits(t).len());
    if q > u64::MAX {
        u64::MAX as nat
    } else {
        q
    }
}

/// Reading the components from position `p` on: the total nanoseconds, or
/// the message of the first error.
pub open spec fn dur_from(s: Seq<char>, p: nat) -> Result<nat, Seq<char>>
    decreases s.len() - p,
{
    if p >= s.len() {
        Ok(0)
    } else {
        match num_end(s, p) {
            None => Err("invalid duration: "@ + s),
            Some(ne) => if ne == p {
                Err("invalid duration: "@ + s)
            } else {
                let t = s.subrange(p as int, ne as int);
                if !valid_number(t) {
                    Err("invalid duration number: "@ + t)
                } else {
                    let ue = unit_end(s, ne);
                    let u = s.subrange(ne as int, ue as int);
                    match unit_mult(u) {
                        None => if u.len() == 0 {
                            Err("missing duration unit in: "@ + s)
                        } else {
                            Err("unknown duration unit: "@ + u)
                        },
                        Some(mult) => {
                            proof {
                                lemma_num_end(s, p);
                                lemma_unit_end(s, ne);
                            }
                            match dur_from(s, ue) {
                                Ok(rest) => Ok(component_nanos(t, mult) + rest),
                                Err(e) => Err(e),
                            }
                        },
                    }
                }
            },
        }
    }
}

/// A duration literal's meaning: the empty text is zero, otherwise the sum
/// of its components.
pub open spec fn parse_duration_s(s: Seq<char>) -> Result<nat, Seq<char>> {
    if s.len() == 0 {
        Ok(0)
    } else {
        dur_from(s, 0)
    }
}

} // verus!

verus! {

pub proof fn lemma_pow10_pos(k: nat)
    ensures
        pow10(k) >= 1,
    decreases k,
{
    if k > 0 {
        lemma_pow10_pos((k - 1) as nat);
    }
}

pub proof fn lemma_dval_concat(a: Seq<char>, b: Seq<char>)
    ensures
        dval(a + b) == dval(a) * pow10(b.len()) + dval(b),
    decreases b.len(),
{
    if b.len() == 0 {
        assert(a + b =~= a);
        assert(dval(b) == 0);
        assert(pow10(0) == 1);
        assert(dval(a) * 1 == dval(a));
    } else {
        let b2 = b.drop_last();
        assert((a + b).drop_last() =~= a + b2);
        assert((a + b).last() == b.last());
        lemma_dval_concat(a, b2);
        let x = dval(a);
        let p = pow10(b2.len());
        let y = dval(b2);
        let d = digit_val(b.last());
        assert(b2.len() == b.len() - 1);
        assert(pow10(b.len()) == 10 * p);
        assert(dval(b) == y * 10 + d);
        assert(dval(a + b) == dval(a + b2) * 10 + d);
        assert((x * p + y) * 10 + d == x * (10 * p) + (y * 10 + d)) by (nonlinear_arith);
        assert(dval(a + b2) == x * p + y);
    }
}

/// A dot at position `i` counts.
pub proof fn lemma_one_dot(s: Seq<char>, i: int)
    requires
        0 <= i < s.len(),
        s[i] == '.',
    ensures
        dots(s) >= 1,
    decreases s.len(),
{
    if i < s.len() - 1 {
        assert(s.drop_last()[i] == s[i]);
        lemma_one_dot(s.drop_last(), i);
    }
}

/// Two dots count twice.
pub proof fn lemma_two_dots(s: Seq<char>, i: int, j: int)
    requires
        0 <= i < j < s.len(),
        s[i] == '.',
        s[j] == '.',
    ensures
        dots(s) >= 2,
    decreases s.len(),
{
    assert(s.drop_last()[i] == s[i]);
    if j == s.len() - 1 {
        lemma_one_dot(s.drop_last(), i);
    } else {
        assert(s.drop_last()[j] == s[j]);
        lemma_two_dots(s.drop_last(), i, j);
    }
}

/// Dividing a multiple plus a remainder-like part.
pub proof fn lemma_div_shift(x: int, b: int, d: int)
    requires
        d > 0,
        x >= 0,
        b >= 0,
    ensures
        (d * x + b) / d == x + b / d,
{
    lemma_fundamental_div_mod(b, d);
    let q = b / d;
    let r = b % d;
    assert(d * x + b == d * (x + q) + r) by (nonlinear_arith)
        requires
            b == d * q + r,
    ;
    lemma_div_multiples_vanish_fancy(x + q, r, d);
}

/// One step of multiplying a digit string by `m` from its right end: the
/// carry out of the string `[d] + rest`.
pub proof fn lemma_carry_step(d: nat, rest_val: nat, r: nat, m: nat)
    ensures
        ((d * pow10(r) + rest_val) * m) / pow10(r + 1) == (d * m + (rest_val * m) / pow10(r)) / 10,
{
    lemma_pow10_pos(r);
    let p = pow10(r);
    assert(pow10(r + 1) == 10 * p);
    assert((d * p + rest_val) * m == p * (d * m) + rest_val * m) by (nonlinear_arith);
    lemma_mul_nonnegative(d as int, m as int);
    lemma_mul_nonnegative(rest_val as int, m as int);
    lemma_div_shift((d * m) as int, (rest_val * m) as int, p as int);
    lemma_div_denominator((p * (d * m) + rest_val * m) as int, p as int, 10);
    assert(p * 10 == 10 * p);
}

/// The nanoseconds of one valid component `<number>` in a unit of `mult`
/// nanoseconds.
fn component_value(t: &[char], mult: u64) -> (r: u64)
    requires
        valid_number(t@),
        1 <= mult <= 3600000000000,
        forall|j: int| 0 <= j < t@.len() ==> num_char(#[trigger] t@[j]),
    ensures
        r == component_nanos(t@, mult as nat),
{
    proof {
        crate::text::lemma_find_s(t@, '.');
    }
    let (ip, fp) = match crate::text::find_char(t, '.') {
        Some(k) => {
            let n = t.len();
            (slice_of(t, 0, k), slice_of(t, k + 1, n))
        },
        None => (slice_of(t, 0, t.len()), Vec::new()),
    };
    assert(ip@ == int_digits(t@));
    assert(fp@ == frac_digits(t@));
    assert(forall|j: int| 0 <= j < ip@.len() ==> is_digit(#[trigger] ip@[j])) by {
        assert forall|j: int| 0 <= j < ip@.len() implies is_digit(#[trigger] ip@[j]) by {
            assert(ip@[j] == t@[j]);
        }
    }
    assert(forall|j: int| 0 <= j < fp@.len() ==> is_digit(#[trigger] fp@[j])) by {
        assert forall|j: int| 0 <= j < fp@.len() implies is_digit(#[trigger] fp@[j]) by {
            let k = crate::text::find_s(t@, '.')->0;
            assert(fp@[j] == t@[k + 1 + j]);
            if t@[k + 1 + j] == '.' {
                lemma_two_dots(t@, k as int, k + 1 + j);
            }
        }
    }
    let cap: u128 = 18446744073709551616;
    let mut iv: u128 = 0;
    let mut i: usize = 0;
    while i < ip.len()
        invariant
            i <= ip@.len(),
            forall|j: int| 0 <= j < ip@.len() ==> is_digit(#[trigger] ip@[j]),
            cap == u64::MAX + 1,
            if iv < cap {
                iv == dval(ip@.take(i as int))
            } else {
                iv == cap && dval(ip@.take(i as int)) >= cap
            },
        decreases ip@.len() - i,
    {
        let dd: u128 = (ip[i] as u32 - 48) as u128;
        assert(ip@.take(i + 1).drop_last() =~= ip@.take(i as int));
        assert(ip@.take(i + 1).last() == ip@[i as int]);
        if iv < cap {
            let nv = iv * 10 + dd;
            if nv >= cap {
                iv = cap;
            } else {
                iv = nv;
            }
        }
        i += 1;
    }
    assert(ip@.take(ip@.len() as int) =~= ip@);
    proof {
        lemma_dval_concat(ip@, fp@);
        lemma_pow10_pos(fp@.len());
    }
    let ghost big = dval(ip@ + fp@) * mult;
    let ghost den = pow10(fp@.len());
    if iv >= cap {
        proof {
            let x = dval(ip@);
            assert(big == den * (x * mult) + dval(fp@) * mult) by (nonlinear_arith)
                requires
                    big == dval(ip@ + fp@) * mult,
                    dval(ip@ + fp@) == x * den + dval(fp@),
            ;
            lemma_mul_nonnegative(dval(fp@) as int, mult as int);
            lemma_div_shift((x * mult) as int, (dval(fp@) * mult) as int, den as int);
            assert(x * mult >= x) by (nonlinear_arith)
                requires
                    mult >= 1,
            ;
        }
        return 18446744073709551615;
    }
    let mut carry: u64 = 0;
    let mut j: usize = fp.len();
    assert(fp@.skip(fp@.len() as int) =~= Seq::<char>::empty());
    while j > 0
        invariant
            j <= fp@.len(),
            forall|k: int| 0 <= k < fp@.len() ==> is_digit(#[trigger] fp@[k]),
            1 <= mult <= 3600000000000,
            carry < mult,
            carry == (dval(fp@.skip(j as int)) * (mult as nat)) / pow10((fp@.len() - j) as nat),
        decreases j,
    {
        let dd: u64 = (fp[j - 1] as u32 - 48) as u64;
        proof {
            let rest = fp@.skip(j as int);
            let r = (fp@.len() - j) as nat;
            assert(fp@.skip(j - 1) =~= seq![fp@[j - 1]] + rest);
            lemma_dval_concat(seq![fp@[j - 1]], rest);
            assert(seq![fp@[j - 1]].drop_last() =~= Seq::<char>::empty());
            assert(dval(Seq::<char>::empty()) == 0);
            assert(dval(seq![fp@[j - 1]]) == dval(Seq::<char>::empty()) * 10 + digit_val(fp@[j - 1]));
            assert(dval(seq![fp@[j - 1]]) == dd);
            lemma_carry_step(dd as nat, dval(rest), r, mult as nat);
            assert((fp@.len() - (j - 1)) as nat == r + 1);
            assert(dd * mult + carry < 10 * mult) by (nonlinear_arith)
                requires
                    dd <= 9,
                    carry < mult,
            ;
        }
        let nc = (dd * mult + carry) / 10;
        assert(nc < mult) by (nonlinear_arith)
            requires
                nc == (dd * mult + carry) / 10,
                dd * mult + carry < 10 * mult,
        ;
        carry = nc;
        j -= 1;
    }
    assert(fp@.skip(0) =~= fp@);
    assert(iv * mult < 18446744073709551616 * 3600000000001) by (nonlinear_arith)
        requires
            iv < 18446744073709551616,
            mult <= 3600000000000,
    ;
    let q: u128 = iv * (mult as u128) + carry as u128;
    proof {
        let x = dval(ip@);
        assert(big == den * (x * mult) + dval(fp@) * mult) by (nonlinear_arith)
            requires
                big == dval(ip@ + fp@) * mult,
                dval(ip@ + fp@) == x * den + dval(fp@),
        ;
        lemma_mul_nonnegative(dval(fp@) as int, mult as int);
        lemma_div_shift((x * mult) as int, (dval(fp@) * mult) as int, den as int);
    }
    if q > 18446744073709551615 {
        18446744073709551615
    } else {
        q as u64
    }
}

} // verus!

verus! {

/// The number of dots in `t`.
fn count_dots(t: &[char]) -> (r: usize)
    ensures
        r == dots(t@),
{
    let mut n: usize = 0;
    let mut i: usize = 0;
    while i < t.len()
        invariant
            i <= t@.len(),
            n == dots(t@.take(i as int)),
            n <= i,
        decreases t@.len() - i,
    {
        assert(t@.take(i + 1).drop_last() =~= t@.take(i as int));
        if t[i] == '.' {
            n += 1;
        }
        i += 1;
    }
    assert(t@.take(t@.len() as int) =~= t@);
    n
}

/// The nanoseconds per unit named by `u`.
fn unit_nanos(u: &[char]) -> (r: Option<u64>)
    ensures
        r matches Some(m) ==> unit_mult(u@) == Some(m as nat),
        r is None ==> unit_mult(u@) is None,
{
    if eq_lit(u, "ns") {
        Some(1)
    } else if eq_lit(u, "us") || eq_lit(u, "\u{b5}s") {
        Some(1000)
    } else if eq_lit(u, "ms") {
        Some(1000000)
    } else if eq_lit(u, "s") {
        Some(1000000000)
    } else if eq_lit(u, "m") {
        Some(60000000000)
    } else if eq_lit(u, "h") {
        Some(3600000000000)
    } else {
        None
    }
}

/// `msg` followed by `s`, as a `String`.
fn message(msg: &str, s: &[char]) -> (r: String)
    ensures
        r@ == msg@ + s@,
{
    let mut out: Vec<char> = Vec::new();
    push_lit(&mut out, msg);
    push_chars(&mut out, s);
    string_of(&out)
}

/// The total of a reading that starts with `total` already summed.
pub open spec fn plus_total(total: nat, r: Result<nat, Seq<char>>) -> Result<nat, Seq<char>> {
    match r {
        Ok(n) => Ok(total + n),
        Err(e) => Err(e),
    }
}

impl Duration {
    /// Whether this duration is zero.
    pub fn is_zero(&self) -> (r: bool)
        ensures
            r == (self.0 == 0),
    {
        self.0 == 0
    }

    /// Reads a Go-style duration literal such as `1h30m`, `500ms` or `1.5s`:
    /// numbers, each followed by a unit, summed. The empty text is zero.
    pub fn parse(s: &str) -> (r: Result<Duration, String>)
        ensures
            match parse_duration_s(s@) {
                Ok(n) => r matches Ok(d) && d.0 == n,
                Err(m) => r matches Err(e) && e@ == m,
            },
    {
        let v = chars_of(s);
        if v.len() == 0 {
            return Ok(Duration(0));
        }
        let ghost sv = s@;
        let mut total: u128 = 0;
        let mut p: usize = 0;
        while p < v.len()
            invariant
                v@ == sv,
                sv == s@,
                sv.len() > 0,
                p <= sv.len(),
                total <= p * 18446744073709551615,
                dur_from(sv, 0) == plus_total(total as nat, dur_from(sv, p as nat)),
            decreases sv.len() - p,
        {
            let mut ne: usize = p;
            while ne < v.len() && (is_digit_exec(v[ne]) || v[ne] == '.')
                invariant
                    v@ == sv,
                    p <= ne <= sv.len(),
                    num_end(sv, p as nat) == num_end(sv, ne as nat),
                    forall|j: int| p <= j < ne ==> num_char(#[trigger] sv[j]),
                decreases sv.len() - ne,
            {
                ne += 1;
            }
            if ne == v.len() || ne == p {
                assert(dur_from(sv, p as nat) == Err::<nat, Seq<char>>("invalid duration: "@ + sv));
                return Err(message("invalid duration: ", &v));
            }
            let t = slice_of(&v, p, ne);
            assert(t@ == sv.subrange(p as int, ne as int));
            let nd = count_dots(&t);
            if !(nd <= 1 && nd < t.len()) {
                assert(num_end(sv, p as nat) == Some(ne as nat));
                assert(!valid_number(t@));
                assert(dur_from(sv, p as nat) == Err::<nat, Seq<char>>("invalid duration number: "@ + t@));
                return Err(message("invalid duration number: ", &t));
            }
            let mut ue: usize = ne;
            while ue < v.len() && !is_digit_exec(v[ue])
                invariant
                    v@ == sv,
                    ne <= ue <= sv.len(),
                    unit_end(sv, ne as nat) == unit_end(sv, ue as nat),
                decreases sv.len() - ue,
            {
                ue += 1;
            }
            let u = slice_of(&v, ne, ue);
            assert(u@ == sv.subrange(ne as int, ue as int));
            let mult = match unit_nanos(&u) {
                Some(m) => m,
                None => {
                    if u.len() == 0 {
                        return Err(message("missing duration unit in: ", &v));
                    }
                    assert(num_end(sv, p as nat) == Some(ne as nat));
                    assert(unit_end(sv, ne as nat) == ue);
                    assert(dur_from(sv, p as nat) == Err::<nat, Seq<char>>("unknown duration unit: "@ + u@));
                    return Err(message("unknown duration unit: ", &u));
                },
            };
            assert forall|j: int| 0 <= j < t@.len() implies num_char(#[trigger] t@[j]) by {
                assert(t@[j] == sv[p + j]);
            }
            let c = component_value(&t, mult);
            proof {
                lemma_num_end(sv, p as nat);
                lemma_unit_end(sv, ne as nat);
                assert(total + c <= ue * 18446744073709551615) by (nonlinear_arith)
                    requires
                        total <= p * 18446744073709551615,
                        c <= 18446744073709551615,
                        p < ue,
                ;
                assert(ue * 18446744073709551615 <= 18446744073709551615 * 18446744073709551615)
                    by (nonlinear_arith)
                    requires
                        ue <= 18446744073709551615,
                ;
            }
            total = total + c as u128;
            p = ue;
        }
        assert(dur_from(sv, p as nat) == Ok::<nat, Seq<char>>(0));
        Ok(Duration(total))
    }
}

/// Whether `c` is an ASCII digit.
fn is_digit_exec(c: char) -> (r: bool)
    ensures
        r == is_digit(c),
{
    '0' <= c && c <= '9'
}

} // verus!

verus! {

/// `decimal(k)` followed by `unit` when `k` is not zero; nothing otherwise.
pub open spec fn part_s(k: nat, unit: Seq<char>) -> Seq<char> {
    if k > 0 {
        decimal(k) + unit
    } else {
        Seq::empty()
    }
}

/// How a duration of `n` nanoseconds is written: its whole hours, minutes,
/// seconds and milliseconds, each that is not zero, in that order (`1h30m`,
/// `500ms`); `0s` when none is.
pub open spec fn display_s(n: nat) -> Seq<char> {
    let secs = n / 1000000000;
    let ms = (n % 1000000000) / 1000000;
    let body = part_s(secs / 3600, "h"@) + part_s((secs % 3600) / 60, "m"@) + part_s(
        secs % 60,
        "s"@,
    ) + part_s(ms, "ms"@);
    if body.len() == 0 {
        "0s"@
    } else {
        body
    }
}

/// Appends `decimal(k)` and `unit` when `k` is not zero.
fn push_part(out: &mut Vec<char>, k: u128, unit: &str)
    ensures
        final(out)@ == old(out)@ + part_s(k as nat, unit@),
{
    if k > 0 {
        push_decimal(out, k);
        push_lit(out, unit);
        assert(final(out)@ =~= old(out)@ + part_s(k as nat, unit@));
    } else {
        assert(old(out)@ + part_s(k as nat, unit@) =~= old(out)@);
    }
}

impl Duration {
    /// The duration as text, such as `1h2m3s` or `500ms`.
    pub fn to_string(&self) -> (r: String)
        ensures
            r@ == display_s(self.0 as nat),
    {
        let n = self.0;
        let secs = n / 1000000000;
        let ms = (n % 1000000000) / 1000000;
        let mut out: Vec<char> = Vec::new();
        push_part(&mut out, secs / 3600, "h");
        push_part(&mut out, (secs % 3600) / 60, "m");
        push_part(&mut out, secs % 60, "s");
        push_part(&mut out, ms, "ms");
        if out.len() == 0 {
            push_lit(&mut out, "0s");
        }
        assert(out@ =~= display_s(n as nat));
        string_of(&out)
    }
}

impl Default for Duration {
    fn default() -> (r: Duration)
        ensures
            r.0 == 0,
    {
        Duration(0)
    }
}

} // verus!

verus! {

/// A decimal numeral is a non-empty string of digits that reads back as its
/// number.
pub proof fn lemma_decimal_digits(k: nat)
    ensures
        decimal(k).len() > 0,
        forall|i: int| 0 <= i < decimal(k).len() ==> is_digit(#[trigger] decimal(k)[i]),
        dval(decimal(k)) == k,
    decreases k,
{
    if k < 10 {
        let s = decimal(k);
        assert(s.drop_last() =~= Seq::<char>::empty());
        assert(dval(Seq::<char>::empty()) == 0);
    } else {
        lemma_decimal_digits(k / 10);
        let s = decimal(k);
        let a = decimal(k / 10);
        assert(s.drop_last() =~= a);
        assert(s.last() == crate::text::digit_char(k % 10));
        assert forall|i: int| 0 <= i < s.len() implies is_digit(#[trigger] s[i]) by {
            if i < a.len() {
                assert(s[i] == a[i]);
            }
        }
    }
}

/// No dot in a string of digits.
pub proof fn lemma_no_dots(s: Seq<char>)
    requires
        forall|i: int| 0 <= i < s.len() ==> is_digit(#[trigger] s[i]),
    ensures
        dots(s) == 0,
        crate::text::find_s(s, '.') is None,
    decreases s.len(),
{
    crate::text::lemma_find_s(s, '.');
    if s.len() > 0 {
        assert(is_digit(s[s.len() - 1]));
        lemma_no_dots(s.drop_last());
        assert forall|i: int| 0 <= i < s.len() implies s[i] != '.' by {
            assert(is_digit(s[i]));
        }
        assert(!s.contains('.'));
    }
}

/// `num_end` skips a run of digits and stops at a character that is no part
/// of a number.
pub proof fn lemma_num_end_at(s: Seq<char>, p: nat, q: nat)
    requires
        p <= q < s.len(),
        forall|i: int| p <= i < q ==> is_digit(#[trigger] s[i]),
        !num_char(s[q as int]),
    ensures
        num_end(s, p) == Some(q),
    decreases q - p,
{
    if p < q {
        assert(is_digit(s[p as int]));
        lemma_num_end_at(s, p + 1, q);
    }
}

/// `unit_end` skips a run of non-digits and stops at a digit or the end.
pub proof fn lemma_unit_end_at(s: Seq<char>, p: nat, q: nat)
    requires
        p <= q <= s.len(),
        forall|i: int| p <= i < q ==> !is_digit(#[trigger] s[i]),
        q == s.len() || is_digit(s[q as int]),
    ensures
        unit_end(s, p) == q,
    decreases q - p,
{
    if p < q {
        assert(!is_digit(s[p as int]));
        lemma_unit_end_at(s, p + 1, q);
    }
}

/// A component `<decimal(k)><u>` at position `p` adds `k` times the unit.
pub proof fn lemma_component(s: Seq<char>, p: nat, k: nat, u: Seq<char>, mult: nat)
    requires
        p + decimal(k).len() + u.len() <= s.len(),
        s.subrange(p as int, (p + decimal(k).len()) as int) == decimal(k),
        s.subrange((p + decimal(k).len()) as int, (p + decimal(k).len() + u.len()) as int) == u,
        unit_mult(u) == Some(mult),
        u.len() > 0,
        forall|i: int| 0 <= i < u.len() ==> !is_digit(#[trigger] u[i]) && u[i] != '.',
        p + decimal(k).len() + u.len() == s.len() || is_digit(s[(p + decimal(k).len() + u.len()) as int]),
        k * mult <= u64::MAX,
    ensures
        dur_from(s, p) == plus_total(k * mult, dur_from(s, p + decimal(k).len() + u.len())),
{
    lemma_decimal_digits(k);
    let d = decimal(k);
    let ne = p + d.len();
    let ue = ne + u.len();
    assert forall|i: int| p <= i < ne implies is_digit(#[trigger] s[i]) by {
        assert(s[i] == s.subrange(p as int, ne as int)[i - p]);
    }
    assert(s[ne as int] == u[0]);
    lemma_num_end_at(s, p, ne);
    assert forall|i: int| ne <= i < ue implies !is_digit(#[trigger] s[i]) by {
        assert(s[i] == s.subrange(ne as int, ue as int)[i - ne]);
        assert(!is_digit(u[i - ne]));
    }
    lemma_unit_end_at(s, ne, ue);
    let t = s.subrange(p as int, ne as int);
    assert(t == d);
    lemma_no_dots(d);
    assert(valid_number(t));
    assert(int_digits(t) == t);
    assert(frac_digits(t) == Seq::<char>::empty());
    assert(t + Seq::<char>::empty() =~= t);
    assert(pow10(0) == 1);
    assert(dval(int_digits(t) + frac_digits(t)) == k);
    assert((k * mult) / 1 == k * mult);
    assert(component_nanos(t, mult) == k * mult);
}

/// A unit name: no digits and no dots.
pub proof fn lemma_unit_chars(u: Seq<char>)
    requires
        u == "h"@ || u == "m"@ || u == "s"@ || u == "ms"@,
    ensures
        u.len() > 0,
        forall|i: int| 0 <= i < u.len() ==> !is_digit(#[trigger] u[i]) && u[i] != '.',
{
    reveal_strlit("h");
    reveal_strlit("m");
    reveal_strlit("s");
    reveal_strlit("ms");
}

/// The four units that durations are written with, and what each is worth.
pub proof fn lemma_written_units()
    ensures
        unit_mult("h"@) == Some(3600000000000nat),
        unit_mult("m"@) == Some(60000000000nat),
        unit_mult("s"@) == Some(1000000000nat),
        unit_mult("ms"@) == Some(1000000nat),
{
    reveal_strlit("h");
    reveal_strlit("m");
    reveal_strlit("s");
    reveal_strlit("ms");
    reveal_strlit("ns");
    reveal_strlit("us");
    reveal_strlit("\u{b5}s");
    assert("h"@.len() == 1 && "h"@[0] == 'h');
    assert("m"@.len() == 1 && "m"@[0] == 'm');
    assert("s"@.len() == 1 && "s"@[0] == 's');
    assert("ms"@.len() == 2 && "ms"@[0] == 'm');
    assert("ns"@.len() == 2 && "ns"@[0] == 'n');
    assert("us"@.len() == 2 && "us"@[0] == 'u');
    assert("\u{b5}s"@.len() == 2 && "\u{b5}s"@[0] == '\u{b5}');
    assert("ms"@ != "ns"@);
    assert("ms"@ != "us"@);
    assert("ms"@ != "\u{b5}s"@);
    assert("m"@ != "s"@);
    assert("h"@ != "s"@);
    assert("h"@ != "m"@);
}

/// Reading `part_s(k, u) + rest` from position `p` of `s`.
#[verifier::spinoff_prover]
pub proof fn lemma_part(s: Seq<char>, p: nat, k: nat, u: Seq<char>, mult: nat, rest: Seq<char>)
    requires
        s.skip(p as int) == part_s(k, u) + rest,
        p <= s.len(),
        u == "h"@ || u == "m"@ || u == "s"@ || u == "ms"@,
        unit_mult(u) == Some(mult),
        rest.len() == 0 || is_digit(rest[0]),
        k * mult <= u64::MAX,
    ensures
        dur_from(s, p) == plus_total(k * mult, dur_from(s, (s.len() - rest.len()) as nat)),
{
    if k > 0 {
        lemma_unit_chars(u);
        let d = decimal(k);
        assert(s.skip(p as int) == d + u + rest);
        assert(s.subrange(p as int, (p + d.len()) as int) =~= (d + u + rest).subrange(0, d.len() as int));
        assert((d + u + rest).subrange(0, d.len() as int) =~= d);
        assert(s.subrange((p + d.len()) as int, (p + d.len() + u.len()) as int) =~= (d + u
            + rest).subrange(d.len() as int, (d.len() + u.len()) as int));
        assert((d + u + rest).subrange(d.len() as int, (d.len() + u.len()) as int) =~= u);
        assert(s.len() - p == d.len() + u.len() + rest.len());
        assert(p + d.len() + u.len() == s.len() - rest.len());
        if rest.len() > 0 {
            assert(s[(p + d.len() + u.len()) as int] == (d + u + rest)[(d.len() + u.len()) as int]);
        }
        lemma_component(s, p, k, u, mult);
    } else {
        assert(part_s(k, u) + rest =~= rest);
        assert(k * mult == 0);
    }
}

} // verus!

verus! {

/// A non-empty part starts with a digit.
pub proof fn lemma_part_starts_with_digit(k: nat, u: Seq<char>, rest: Seq<char>)
    requires
        k > 0,
    ensures
        is_digit((part_s(k, u) + rest)[0]),
{
    lemma_decimal_digits(k);
    assert((part_s(k, u) + rest)[0] == decimal(k)[0]);
}

/// What follows a part: the next parts, which start with a digit unless
/// they are empty.
pub proof fn lemma_rest_ok(k1: nat, u1: Seq<char>, k2: nat, u2: Seq<char>, k3: nat, u3: Seq<char>)
    ensures
        ({
            let r = part_s(k1, u1) + part_s(k2, u2) + part_s(k3, u3);
            r.len() == 0 || is_digit(r[0])
        }),
{
    let r = part_s(k1, u1) + part_s(k2, u2) + part_s(k3, u3);
    if k1 > 0 {
        lemma_part_starts_with_digit(k1, u1, part_s(k2, u2) + part_s(k3, u3));
        assert(r =~= part_s(k1, u1) + (part_s(k2, u2) + part_s(k3, u3)));
    } else if k2 > 0 {
        lemma_part_starts_with_digit(k2, u2, part_s(k3, u3));
        assert(r =~= part_s(k2, u2) + part_s(k3, u3));
    } else if k3 > 0 {
        lemma_part_starts_with_digit(k3, u3, Seq::<char>::empty());
        assert(r =~= part_s(k3, u3) + Seq::<char>::empty());
    } else {
        assert(r =~= Seq::<char>::empty());
    }
}

/// `0s` reads as zero.
proof fn lemma_zero_text_reads()
    ensures
        parse_duration_s("0s"@) == Ok::<nat, Seq<char>>(0),
{
    reveal_strlit("0s");
    reveal_strlit("s");
    lemma_written_units();
    let s = "0s"@;
    assert(decimal(0) == seq!['0']);
    assert(s.subrange(0, 1) =~= decimal(0));
    assert(s.subrange(1, 2) =~= "s"@);
    lemma_unit_chars("s"@);
    lemma_component(s, 0, 0, "s"@, 1000000000);
    assert(dur_from(s, 2) == Ok::<nat, Seq<char>>(0));
}

/// The written parts of a duration read back as the sum of their values.
#[verifier::rlimit(40)]
proof fn lemma_parts_read(h: nat, m: nat, sc: nat, ms: nat)
    requires
        h * 3600000000000 <= u64::MAX,
        m * 60000000000 <= u64::MAX,
        sc * 1000000000 <= u64::MAX,
        ms * 1000000 <= u64::MAX,
    ensures
        ({
            let s = part_s(h, "h"@) + part_s(m, "m"@) + part_s(sc, "s"@) + part_s(ms, "ms"@);
            dur_from(s, 0) == Ok::<nat, Seq<char>>(
                h * 3600000000000 + m * 60000000000 + sc * 1000000000 + ms * 1000000,
            )
        }),
{
    lemma_written_units();
    let ph = part_s(h, "h"@);
    let pm = part_s(m, "m"@);
    let ps = part_s(sc, "s"@);
    let pms = part_s(ms, "ms"@);
    let s = ph + pm + ps + pms;
    let r1 = pm + ps + pms;
    let r2 = ps + pms;
    let r3 = pms;
    lemma_rest_ok(m, "m"@, sc, "s"@, ms, "ms"@);
    assert(r1 =~= part_s(m, "m"@) + part_s(sc, "s"@) + part_s(ms, "ms"@));
    lemma_rest_ok(sc, "s"@, ms, "ms"@, 0, "h"@);
    assert(r2 =~= part_s(sc, "s"@) + part_s(ms, "ms"@) + part_s(0, "h"@));
    lemma_rest_ok(ms, "ms"@, 0, "h"@, 0, "h"@);
    assert(r3 =~= part_s(ms, "ms"@) + part_s(0, "h"@) + part_s(0, "h"@));
    assert(s.skip(0) =~= ph + r1);
    lemma_part(s, 0, h, "h"@, 3600000000000, r1);
    let p1 = (s.len() - r1.len()) as nat;
    assert(s.skip(p1 as int) =~= pm + r2);
    lemma_part(s, p1, m, "m"@, 60000000000, r2);
    let p2 = (s.len() - r2.len()) as nat;
    assert(s.skip(p2 as int) =~= ps + r3);
    lemma_part(s, p2, sc, "s"@, 1000000000, r3);
    let p3 = (s.len() - r3.len()) as nat;
    assert(s.skip(p3 as int) =~= pms + Seq::<char>::empty());
    lemma_part(s, p3, ms, "ms"@, 1000000, Seq::<char>::empty());
    assert(dur_from(s, s.len()) == Ok::<nat, Seq<char>>(0));
}

/// Writing a duration and reading the text back gives the same duration,
/// for every whole number of milliseconds up to the largest 64-bit count of
/// nanoseconds.
pub proof fn lemma_display_round_trip(n: nat)
    requires
        n % 1000000 == 0,
        n <= u64::MAX,
    ensures
        parse_duration_s(display_s(n)) == Ok::<nat, Seq<char>>(n),
{
    let secs = n / 1000000000;
    let ms = (n % 1000000000) / 1000000;
    let h = secs / 3600;
    let m = (secs % 3600) / 60;
    let sc = secs % 60;
    lemma_fundamental_div_mod(n as int, 1000000000);
    lemma_fundamental_div_mod((n % 1000000000) as int, 1000000);
    lemma_mod_mod(n as int, 1000000, 1000);
    lemma_fundamental_div_mod(secs as int, 3600);
    lemma_fundamental_div_mod((secs % 3600) as int, 60);
    assert(n == h * 3600000000000 + m * 60000000000 + sc * 1000000000 + ms * 1000000) by (nonlinear_arith)
        requires
            n == 1000000000 * secs + n % 1000000000,
            n % 1000000000 == 1000000 * ms + 0,
            secs == 3600 * h + secs % 3600,
            secs % 3600 == 60 * m + sc,
    ;
    assert(h * 3600000000000 <= u64::MAX && m * 60000000000 <= u64::MAX && sc * 1000000000
        <= u64::MAX && ms * 1000000 <= u64::MAX) by (nonlinear_arith)
        requires
            n == h * 3600000000000 + m * 60000000000 + sc * 1000000000 + ms * 1000000,
            n <= u64::MAX,
    ;
    let body = part_s(h, "h"@) + part_s(m, "m"@) + part_s(sc, "s"@) + part_s(ms, "ms"@);
    if body.len() == 0 {
        assert(h == 0 && m == 0 && sc == 0 && ms == 0) by {
            if h > 0 {
                assert(part_s(h, "h"@).len() > 0);
            }
            if m > 0 {
                assert(part_s(m, "m"@).len() > 0);
            }
            if sc > 0 {
                assert(part_s(sc, "s"@).len() > 0);
            }
            if ms > 0 {
                assert(part_s(ms, "ms"@).len() > 0);
            }
        }
        lemma_zero_text_reads();
    } else {
        lemma_parts_read(h, m, sc, ms);
    }
}

} // verus!

verus! {

/// Where a number ends, read in `b` or from the same place of `a + b`.
proof fn lemma_num_end_shift(a: Seq<char>, b: Seq<char>, q: nat)
    ensures
        num_end(a + b, a.len() + q) == match num_end(b, q) {
            Some(k) => Some(a.len() + k),
            None => None,
        },
    decreases b.len() - q,
{
    let s = a + b;
    if q < b.len() {
        assert(s[(a.len() + q) as int] == b[q as int]);
        lemma_num_end_shift(a, b, q + 1);
        assert(a.len() + (q + 1) == (a.len() + q) + 1);
    }
}

/// Where a unit ends, read in `b` or from the same place of `a + b`.
proof fn lemma_unit_end_shift(a: Seq<char>, b: Seq<char>, q: nat)
    ensures
        unit_end(a + b, a.len() + q) == a.len() + unit_end(b, q),
    decreases b.len() - q,
{
    let s = a + b;
    if q < b.len() {
        assert(s[(a.len() + q) as int] == b[q as int]);
        lemma_unit_end_shift(a, b, q + 1);
        assert(a.len() + (q + 1) == (a.len() + q) + 1);
    }
}

/// A number that ends inside `a` ends at the same place in `a + b`.
proof fn lemma_num_end_prefix(a: Seq<char>, b: Seq<char>, p: nat)
    requires
        num_end(a, p) is Some,
    ensures
        num_end(a + b, p) == num_end(a, p),
    decreases a.len() - p,
{
    lemma_num_end(a, p);
    let s = a + b;
    assert(s[p as int] == a[p as int]);
    if num_char(a[p as int]) {
        lemma_num_end_prefix(a, b, p + 1);
    }
}

/// A unit read in `a` ends at the same place in `a + b` when `b` is empty
/// or starts with a digit.
proof fn lemma_unit_end_prefix(a: Seq<char>, b: Seq<char>, p: nat)
    requires
        p <= a.len(),
        b.len() == 0 || is_digit(b[0]),
    ensures
        unit_end(a + b, p) == unit_end(a, p),
    decreases a.len() - p,
{
    let s = a + b;
    if p < a.len() {
        assert(s[p as int] == a[p as int]);
        lemma_unit_end_prefix(a, b, p + 1);
    } else if b.len() > 0 {
        assert(s[p as int] == b[0]);
    }
}

/// Reading `b` from `q` and reading `a + b` from the same place give the
/// same total.
proof fn lemma_dur_from_shift(a: Seq<char>, b: Seq<char>, q: nat, y: nat)
    requires
        q <= b.len(),
        dur_from(b, q) == Ok::<nat, Seq<char>>(y),
    ensures
        dur_from(a + b, a.len() + q) == Ok::<nat, Seq<char>>(y),
    decreases b.len() - q,
{
    let s = a + b;
    if q < b.len() {
        lemma_num_end_shift(a, b, q);
        let ne = num_end(b, q)->0;
        lemma_num_end(b, q);
        lemma_unit_end_shift(a, b, ne);
        let ue = unit_end(b, ne);
        lemma_unit_end(b, ne);
        assert(s.subrange((a.len() + q) as int, (a.len() + ne) as int) =~= b.subrange(q as int, ne as int));
        assert(s.subrange((a.len() + ne) as int, (a.len() + ue) as int) =~= b.subrange(ne as int, ue as int));
        let rest = dur_from(b, ue)->Ok_0;
        lemma_dur_from_shift(a, b, ue, rest);
    }
}

/// Reading `a + b` from inside `a`: the total read in `a`, then what
/// follows from the start of `b`.
proof fn lemma_dur_from_prefix(a: Seq<char>, b: Seq<char>, p: nat, x: nat)
    requires
        p <= a.len(),
        dur_from(a, p) == Ok::<nat, Seq<char>>(x),
        b.len() == 0 || is_digit(b[0]),
    ensures
        dur_from(a + b, p) == plus_total(x, dur_from(a + b, a.len())),
    decreases a.len() - p,
{
    let s = a + b;
    if p < a.len() {
        lemma_num_end(a, p);
        lemma_num_end_prefix(a, b, p);
        let ne = num_end(a, p)->0;
        lemma_unit_end(a, ne);
        lemma_unit_end_prefix(a, b, ne);
        let ue = unit_end(a, ne);
        assert(s.subrange(p as int, ne as int) =~= a.subrange(p as int, ne as int));
        assert(s.subrange(ne as int, ue as int) =~= a.subrange(ne as int, ue as int));
        let rest = dur_from(a, ue)->Ok_0;
        lemma_dur_from_prefix(a, b, ue, rest);
    } else {
        match dur_from(s, a.len()) {
            Ok(v) => {},
            Err(e) => {},
        }
    }
}

/// A duration literal made of two literals, the second starting with a
/// digit, reads as the sum of the two.
pub proof fn lemma_concat_sum(a: Seq<char>, b: Seq<char>, x: nat, y: nat)
    requires
        a.len() > 0,
        b.len() > 0,
        is_digit(b[0]),
        parse_duration_s(a) == Ok::<nat, Seq<char>>(x),
        parse_duration_s(b) == Ok::<nat, Seq<char>>(y),
    ensures
        parse_duration_s(a + b) == Ok::<nat, Seq<char>>(x + y),
{
    lemma_dur_from_shift(a, b, 0, y);
    lemma_dur_from_prefix(a, b, 0, x);
}

} // verus!
