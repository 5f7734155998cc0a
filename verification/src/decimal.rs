//! Decimal text of fixed-point numbers: `12`, `-0.25`, `742.5`.
//!
//! The text of a number is an optional sign, digits, and optionally a point
//! and more digits, with at least one digit in all. An exponent may follow:
//! `e` or `E`, an optional sign and digits; it moves the point that many
//! places. Reading keeps three places after the point and rounds on the
//! fourth, half away from zero.

use vstd::prelude::*;
use vstd::slice::slice_subrange;
use crate::fixed::clamp;

verus! {

/// Whether a byte is one of the digits `0` to `9`.
pub open spec fn is_digit(b: u8) -> bool {
    48 <= b <= 57
}

/// The number that a run of digits writes, most significant digit first.
pub open spec fn digits_value(s: Seq<u8>) -> nat
    decreases s.len(),
{
    if s.len() == 0 {
        0
    } else {
        digits_value(s.drop_last()) * 10 + (s.last() - 48) as nat
    }
}

/// Whether every byte of `s` is a digit.
pub open spec fn all_digits(s: Seq<u8>) -> bool {
    forall|i: int| 0 <= i < s.len() ==> is_digit(#[trigger] s[i])
}

/// Where the first point stands in `s`; the length of `s` if it has none.
pub open spec fn point_index(s: Seq<u8>) -> int
    decreases s.len(),
{
    if s.len() == 0 || s[0] == 46 {
        0
    } else {
        1 + point_index(s.drop_first())
    }
}

/// Whether the text begins with `+` or `-`.
pub open spec fn has_sign(s: Seq<u8>) -> bool {
    s.len() > 0 && (s[0] == 43 || s[0] == 45)
}

/// Whether the text begins with `-`.
pub open spec fn is_negative(s: Seq<u8>) -> bool {
    s.len() > 0 && s[0] == 45
}

/// The text without its sign.
pub open spec fn unsigned_part(s: Seq<u8>) -> Seq<u8> {
    if has_sign(s) {
        s.drop_first()
    } else {
        s
    }
}

/// The digits before the point.
pub open spec fn whole_part(s: Seq<u8>) -> Seq<u8> {
    let u = unsigned_part(s);
    u.take(point_index(u))
}

/// The digits after the point; empty where there is no point.
pub open spec fn fraction_part(s: Seq<u8>) -> Seq<u8> {
    let u = unsigned_part(s);
    let p = point_index(u);
    if p < u.len() {
        u.skip(p + 1)
    } else {
        Seq::empty()
    }
}

/// Whether `s` is decimal text: digits on both sides of the point, where
/// it has one, and a digit on one side at least.
pub open spec fn is_decimal(s: Seq<u8>) -> bool {
    &&& all_digits(whole_part(s))
    &&& all_digits(fraction_part(s))
    &&& whole_part(s).len() + fraction_part(s).len() > 0
}

/// The digit at place `i` of a fraction, 0 past its end.
pub open spec fn digit_at(f: Seq<u8>, i: int) -> nat {
    if 0 <= i < f.len() {
        (f[i] - 48) as nat
    } else {
        0
    }
}

/// The thousandths that the digits after a point stand for.
pub open spec fn fraction_milli(f: Seq<u8>) -> nat {
    digit_at(f, 0) * 100 + digit_at(f, 1) * 10 + digit_at(f, 2) + if digit_at(f, 3) >= 5 {
        1nat
    } else {
        0nat
    }
}

/// The number that decimal text writes without its sign, in thousandths.
pub open spec fn decimal_magnitude(s: Seq<u8>) -> nat {
    digits_value(whole_part(s)) * 1000 + fraction_milli(fraction_part(s))
}

/// The number that the text `s` writes without an exponent, in thousandths;
/// `None` where `s` is no decimal text.
pub open spec fn plain_value(s: Seq<u8>) -> Option<int> {
    if is_decimal(s) {
        if is_negative(s) {
            Some(clamp(-(decimal_magnitude(s) as int)))
        } else {
            Some(clamp(decimal_magnitude(s) as int))
        }
    } else {
        None
    }
}

/// The byte of the digit `d`.
pub open spec fn digit_byte(d: nat) -> u8 {
    (48 + d) as u8
}

/// The digits of `n`, without leading zeros.
pub open spec fn nat_text(n: nat) -> Seq<u8>
    decreases n,
{
    if n < 10 {
        seq![digit_byte(n)]
    } else {
        nat_text(n / 10).push(digit_byte(n % 10))
    }
}

/// The digits after the point for `f` thousandths, `0 < f < 1000`, without
/// trailing zeros.
pub open spec fn fraction_text(f: nat) -> Seq<u8> {
    if f % 100 == 0 {
        seq![digit_byte(f / 100)]
    } else if f % 10 == 0 {
        seq![digit_byte(f / 100), digit_byte((f / 10) % 10)]
    } else {
        seq![digit_byte(f / 100), digit_byte((f / 10) % 10), digit_byte(f % 10)]
    }
}

/// The number without its sign.
pub open spec fn magnitude(m: int) -> nat {
    if m < 0 {
        (-m) as nat
    } else {
        m as nat
    }
}

/// The decimal text of `m` thousandths.
pub open spec fn decimal_text(m: int) -> Seq<u8> {
    let sign = if m < 0 {
        seq![45u8]
    } else {
        Seq::<u8>::empty()
    };
    let whole = nat_text(magnitude(m) / 1000);
    let f = magnitude(m) % 1000;
    if f == 0 {
        sign + whole
    } else {
        sign + whole + seq![46u8] + fraction_text(f)
    }
}

/// Above every magnitude that an `i64` holds.
pub open spec fn cap() -> nat {
    10_000_000_000_000_000_000
}

/// The number, or `cap()` where it is above that.
pub open spec fn capped(n: nat) -> nat {
    if n > cap() {
        cap()
    } else {
        n
    }
}

proof fn lemma_point_index_bounds(s: Seq<u8>)
    ensures
        0 <= point_index(s) <= s.len(),
        forall|j: int| 0 <= j < point_index(s) ==> #[trigger] s[j] != 46,
        point_index(s) < s.len() ==> s[point_index(s)] == 46,
    decreases s.len(),
{
    if s.len() == 0 || s[0] == 46 {
    } else {
        let t = s.drop_first();
        lemma_point_index_bounds(t);
        assert forall|j: int| 0 <= j < point_index(s) implies #[trigger] s[j] != 46 by {
            if j > 0 {
                assert(t[j - 1] == s[j]);
            }
        }
        if point_index(s) < s.len() {
            assert(t[point_index(t)] == s[point_index(s)]);
        }
    }
}

/// The first point is where no point stands before it.
proof fn lemma_point_index_is(s: Seq<u8>, p: int)
    requires
        0 <= p <= s.len(),
        forall|j: int| 0 <= j < p ==> #[trigger] s[j] != 46,
        p < s.len() ==> s[p] == 46,
    ensures
        point_index(s) == p,
{
    lemma_point_index_bounds(s);
    let q = point_index(s);
    if q < p {
        assert(s[q] == 46);
    } else if p < q {
        assert(s[p] == 46);
    }
}

/// No point among the first `m` bytes: the first point stands at `m` or later.
proof fn lemma_point_index_at_least(s: Seq<u8>, m: int)
    requires
        0 <= m <= s.len(),
        forall|j: int| 0 <= j < m ==> #[trigger] s[j] != 46,
    ensures
        point_index(s) >= m,
{
    lemma_point_index_bounds(s);
    let q = point_index(s);
    if q < m {
        assert(s[q] == 46);
    }
}

fn is_digit_byte(b: u8) -> (r: bool)
    ensures
        r == is_digit(b),
{
    48 <= b && b <= 57
}

/// Reads decimal text without an exponent into thousandths.
pub fn parse_plain(text: &[u8]) -> (r: Option<i64>)
    ensures
        match r {
            Some(v) => plain_value(text@) == Some(v as int),
            None => plain_value(text@) is None,
        },
{
    let n = text.len();
    let mut i: usize = 0;
    let mut negative = false;
    if n > 0 && (text[0] == 43 || text[0] == 45) {
        negative = text[0] == 45;
        i = 1;
    }
    let start: usize = i;
    let ghost u = unsigned_part(text@);
    assert(u =~= text@.skip(start as int));
    let mut whole: u128 = 0;
    while i < n && text[i] != 46
        invariant
            start <= i <= n,
            n == text@.len(),
            u == text@.skip(start as int),
            u == unsigned_part(text@),
            forall|j: int| start <= j < i ==> is_digit(#[trigger] text@[j]),
            whole == capped(digits_value(text@.subrange(start as int, i as int))),
        decreases n - i,
    {
        let b = text[i];
        if !is_digit_byte(b) {
            proof {
                assert forall|j: int| 0 <= j < i - start + 1 implies #[trigger] u[j] != 46 by {
                    assert(u[j] == text@[start + j]);
                }
                lemma_point_index_at_least(u, i - start + 1);
                lemma_point_index_bounds(u);
                assert(whole_part(text@)[i - start] == b);
            }
            return None;
        }
        proof {
            let before = text@.subrange(start as int, i as int);
            let after = text@.subrange(start as int, i + 1);
            assert(after.drop_last() =~= before);
            assert(after.last() == b);
        }
        let next: u128 = whole * 10 + (b - 48) as u128;
        whole = if next > 10_000_000_000_000_000_000 {
            10_000_000_000_000_000_000
        } else {
            next
        };
        i += 1;
    }
    let point: usize = i;
    proof {
        assert forall|j: int| 0 <= j < point - start implies #[trigger] u[j] != 46 by {
            assert(u[j] == text@[start + j]);
        }
        if point < n {
            assert(u[point - start] == text@[point as int]);
        }
        lemma_point_index_is(u, point - start);
        assert(whole_part(text@) =~= text@.subrange(start as int, point as int));
    }
    let mut fraction: u128 = 0;
    let mut places: usize = 0;
    if i < n {
        i += 1;
        let first: usize = i;
        assert(fraction_part(text@) =~= text@.skip(first as int));
        while i < n
            invariant
                first <= i <= n,
                n == text@.len(),
                places == i - first,
                fraction_part(text@) == text@.skip(first as int),
                forall|j: int| first <= j < i ==> is_digit(#[trigger] text@[j]),
                fraction == (if places > 0 { digit_at(fraction_part(text@), 0) * 100 } else { 0 })
                    + (if places > 1 { digit_at(fraction_part(text@), 1) * 10 } else { 0 })
                    + (if places > 2 { digit_at(fraction_part(text@), 2) } else { 0 })
                    + (if places > 3 && digit_at(fraction_part(text@), 3) >= 5 { 1nat } else { 0nat }),
            decreases n - i,
        {
            let b = text[i];
            if !is_digit_byte(b) {
                assert(fraction_part(text@)[i - first] == b);
                return None;
            }
            assert(fraction_part(text@)[i - first] == b);
            let d: u128 = (b - 48) as u128;
            if places == 0 {
                fraction = fraction + d * 100;
            } else if places == 1 {
                fraction = fraction + d * 10;
            } else if places == 2 {
                fraction = fraction + d;
            } else if places == 3 && d >= 5 {
                fraction = fraction + 1;
            }
            places += 1;
            i += 1;
        }
        assert(fraction_part(text@).len() == places);
        assert forall|j: int| 0 <= j < fraction_part(text@).len() implies is_digit(
            #[trigger] fraction_part(text@)[j],
        ) by {
            assert(fraction_part(text@)[j] == text@[first + j]);
        }
    } else {
        assert(fraction_part(text@).len() == 0);
    }
    assert(fraction == fraction_milli(fraction_part(text@)));
    assert(all_digits(whole_part(text@))) by {
        assert forall|j: int| 0 <= j < whole_part(text@).len() implies is_digit(
            #[trigger] whole_part(text@)[j],
        ) by {
            assert(whole_part(text@)[j] == text@[start + j]);
        }
    }
    if point - start + places == 0 {
        return None;
    }
    let ghost exact = decimal_magnitude(text@);
    let found: u128 = whole * 1000 + fraction;
    assert(found == exact || (found > 0x8000_0000_0000_0000 && exact > 0x8000_0000_0000_0000)) by {
        let w = digits_value(whole_part(text@));
        if w > cap() {
            assert(w * 1000 >= cap() * 1000) by (nonlinear_arith)
                requires
                    w > cap(),
            ;
        }
    }
    if negative {
        if found > 0x8000_0000_0000_0000 {
            Some(i64::MIN)
        } else {
            Some((-(found as i128)) as i64)
        }
    } else {
        if found > 0x7fff_ffff_ffff_ffff {
            Some(i64::MAX)
        } else {
            Some(found as i64)
        }
    }
}

fn push_nat(out: &mut Vec<u8>, n: u64)
    ensures
        final(out)@ == old(out)@ + nat_text(n as nat),
    decreases n,
{
    if n >= 10 {
        push_nat(out, n / 10);
    }
    out.push(48 + (n % 10) as u8);
    assert(out@ =~= old(out)@ + nat_text(n as nat));
}

/// Writes `m` thousandths as decimal text.
pub fn format_decimal(m: i64) -> (text: Vec<u8>)
    ensures
        text@ == decimal_text(m as int),
{
    let mut out: Vec<u8> = Vec::new();
    if m < 0 {
        out.push(45);
    }
    let mag: u64 = if m < 0 {
        (-(m as i128)) as u64
    } else {
        m as u64
    };
    let f: u64 = mag % 1000;
    push_nat(&mut out, mag / 1000);
    if f != 0 {
        out.push(46);
        out.push(48 + (f / 100) as u8);
        if f % 100 != 0 {
            out.push(48 + ((f / 10) % 10) as u8);
            if f % 10 != 0 {
                out.push(48 + (f % 10) as u8);
            }
        }
    }
    assert(out@ =~= decimal_text(m as int));
    out
}

/// The digits of a number are digits, and write that number.
pub proof fn lemma_nat_text(n: nat)
    ensures
        nat_text(n).len() > 0,
        all_digits(nat_text(n)),
        digits_value(nat_text(n)) == n,
    decreases n,
{
    if n < 10 {
        let t = nat_text(n);
        assert(t.drop_last() =~= Seq::<u8>::empty());
        assert(digits_value(t.drop_last()) == 0);
    } else {
        lemma_nat_text(n / 10);
        let t = nat_text(n);
        assert(t.drop_last() =~= nat_text(n / 10));
    }
}

proof fn lemma_fraction_text(f: nat)
    requires
        0 < f < 1000,
    ensures
        fraction_text(f).len() > 0,
        all_digits(fraction_text(f)),
        fraction_milli(fraction_text(f)) == f,
{
    let t = fraction_text(f);
    let a = f / 100;
    let b = (f / 10) % 10;
    let c = f % 10;
    assert(f == a * 100 + b * 10 + c);
    assert(digit_at(t, 0) == a);
    if f % 100 == 0 {
        assert(digit_at(t, 1) == 0 && digit_at(t, 2) == 0 && digit_at(t, 3) == 0);
    } else if f % 10 == 0 {
        assert(digit_at(t, 1) == b && digit_at(t, 2) == 0 && digit_at(t, 3) == 0);
    } else {
        assert(digit_at(t, 1) == b && digit_at(t, 2) == c && digit_at(t, 3) == 0);
    }
}

/// The parts of unsigned text that is digits, or digits, a point and digits.
proof fn lemma_parts(t: Seq<u8>, w: Seq<u8>, f: Seq<u8>, pointed: bool)
    requires
        !has_sign(t) || t.len() > 0,
        w.len() > 0,
        all_digits(w),
        all_digits(f),
        unsigned_part(t) == if pointed {
            w + seq![46u8] + f
        } else {
            w
        },
        !pointed ==> f.len() == 0,
    ensures
        whole_part(t) == w,
        fraction_part(t) == f,
        is_decimal(t),
{
    let u = unsigned_part(t);
    assert forall|j: int| 0 <= j < w.len() implies #[trigger] u[j] != 46 by {
        assert(u[j] == w[j]);
        assert(is_digit(w[j]));
    }
    if pointed {
        assert(u[w.len() as int] == 46);
    }
    lemma_point_index_is(u, w.len() as int);
    assert(whole_part(t) =~= w);
    assert(fraction_part(t) =~= f);
}

proof fn lemma_plain_text_reads_back(m: int)
    requires
        i64::MIN <= m <= i64::MAX,
    ensures
        plain_value(decimal_text(m)) == Some(m),
{
    let t = decimal_text(m);
    let mag = magnitude(m);
    let w = nat_text(mag / 1000);
    let f = mag % 1000;
    lemma_nat_text(mag / 1000);
    let ft = if f == 0 {
        Seq::<u8>::empty()
    } else {
        fraction_text(f)
    };
    if f != 0 {
        lemma_fraction_text(f);
    }
    let u = if f == 0 {
        w
    } else {
        w + seq![46u8] + ft
    };
    assert(is_digit(w[0]));
    assert(u[0] == w[0]);
    if m < 0 {
        assert(t =~= seq![45u8] + u);
        assert(t[0] == 45);
        assert(unsigned_part(t) =~= u);
    } else {
        assert(t =~= u);
        assert(unsigned_part(t) =~= u);
    }
    lemma_parts(t, w, ft, f != 0);
    assert(fraction_milli(ft) == f);
    assert(decimal_magnitude(t) == (mag / 1000) * 1000 + f);
    assert(is_negative(t) == (m < 0));
}

/// The text of a number begins with a digit or a minus sign, and holds
/// digits, a point and a minus sign only.
pub proof fn lemma_text_bytes(m: int)
    ensures
        decimal_text(m).len() > 0,
        is_digit(decimal_text(m)[0]) || decimal_text(m)[0] == 45,
        forall|i: int|
            0 <= i < decimal_text(m).len() ==> {
                let b = #[trigger] decimal_text(m)[i];
                is_digit(b) || b == 45 || b == 46
            },
{
    let t = decimal_text(m);
    let mag = magnitude(m);
    let w = nat_text(mag / 1000);
    let f = mag % 1000;
    lemma_nat_text(mag / 1000);
    let sign = if m < 0 {
        seq![45u8]
    } else {
        Seq::<u8>::empty()
    };
    if f != 0 {
        lemma_fraction_text(f);
        let ft = fraction_text(f);
        assert(t =~= sign + w + seq![46u8] + ft);
        assert forall|i: int| 0 <= i < t.len() implies {
            let b = #[trigger] t[i];
            is_digit(b) || b == 45 || b == 46
        } by {
            let k = i - sign.len();
            if k < 0 {
            } else if k < w.len() {
                assert(t[i] == w[k]);
            } else if k == w.len() {
            } else {
                assert(t[i] == ft[k - w.len() - 1]);
            }
        }
    } else {
        assert(t =~= sign + w);
        assert forall|i: int| 0 <= i < t.len() implies {
            let b = #[trigger] t[i];
            is_digit(b) || b == 45 || b == 46
        } by {
            let k = i - sign.len();
            if k >= 0 {
                assert(t[i] == w[k]);
            }
        }
    }
    if m >= 0 {
        assert(t[0] == w[0]);
    }
}

/// Whether a byte begins an exponent: `e` or `E`.
pub open spec fn is_exponent_mark(b: u8) -> bool {
    b == 101 || b == 69
}

/// Where the first `e` or `E` stands in `s`; the length of `s` if it has
/// none.
pub open spec fn exponent_index(s: Seq<u8>) -> int
    decreases s.len(),
{
    if s.len() == 0 || is_exponent_mark(s[0]) {
        0
    } else {
        1 + exponent_index(s.drop_first())
    }
}

/// Whether `t` is the text of an exponent: an optional sign and one digit or
/// more.
pub open spec fn is_exponent(t: Seq<u8>) -> bool {
    unsigned_part(t).len() > 0 && all_digits(unsigned_part(t))
}

/// The number that the text of an exponent writes.
pub open spec fn exponent_value(t: Seq<u8>) -> int {
    if is_negative(t) {
        -(digits_value(unsigned_part(t)) as int)
    } else {
        digits_value(unsigned_part(t)) as int
    }
}

/// `n` digits `0`.
pub open spec fn zeros(n: int) -> Seq<u8> {
    Seq::new(
        if n > 0 {
            n as nat
        } else {
            0
        },
        |i: int| 48u8,
    )
}

/// The digits before the point once it has moved `e` places to the right
/// (to the left where `e` is negative), from between the digits `w` and `f`.
pub open spec fn moved_whole(w: Seq<u8>, f: Seq<u8>, e: int) -> Seq<u8> {
    if e >= 0 {
        if e <= f.len() {
            w + f.take(e)
        } else {
            w + f + zeros(e - f.len())
        }
    } else if -e <= w.len() {
        w.take(w.len() + e)
    } else {
        Seq::empty()
    }
}

/// The digits after the point once it has moved `e` places.
pub open spec fn moved_fraction(w: Seq<u8>, f: Seq<u8>, e: int) -> Seq<u8> {
    if e >= 0 {
        if e <= f.len() {
            f.skip(e)
        } else {
            Seq::empty()
        }
    } else if -e <= w.len() {
        w.skip(w.len() + e) + f
    } else {
        zeros(-e - w.len()) + w + f
    }
}

/// The number that digits `w`, a point and digits `f` write, in thousandths.
pub open spec fn digits_milli(w: Seq<u8>, f: Seq<u8>) -> nat {
    digits_value(w) * 1000 + fraction_milli(f)
}

/// A magnitude with its sign, held to the range of `i64`.
pub open spec fn signed(negative: bool, magnitude: nat) -> int {
    if negative {
        clamp(-(magnitude as int))
    } else {
        clamp(magnitude as int)
    }
}

/// The number that the decimal text `m` writes once its point has moved `e`
/// places, in thousandths.
pub open spec fn moved_value(m: Seq<u8>, e: int) -> int {
    signed(
        is_negative(m),
        digits_milli(
            moved_whole(whole_part(m), fraction_part(m), e),
            moved_fraction(whole_part(m), fraction_part(m), e),
        ),
    )
}

/// The number that the text `s` writes, in thousandths; `None` where `s` is
/// no text of a number. Text without `e` or `E` is decimal text; in other
/// text, decimal text stands before the first of them and an exponent after
/// it, which moves the point.
pub open spec fn decimal_value(s: Seq<u8>) -> Option<int> {
    let i = exponent_index(s);
    if i >= s.len() {
        plain_value(s)
    } else {
        let m = s.take(i);
        let t = s.skip(i + 1);
        if is_decimal(m) && is_exponent(t) {
            Some(moved_value(m, exponent_value(t)))
        } else {
            None
        }
    }
}

proof fn lemma_exponent_index_bounds(s: Seq<u8>)
    ensures
        0 <= exponent_index(s) <= s.len(),
        forall|j: int| 0 <= j < exponent_index(s) ==> !is_exponent_mark(#[trigger] s[j]),
        exponent_index(s) < s.len() ==> is_exponent_mark(s[exponent_index(s)]),
    decreases s.len(),
{
    if s.len() == 0 || is_exponent_mark(s[0]) {
    } else {
        let t = s.drop_first();
        lemma_exponent_index_bounds(t);
        assert forall|j: int| 0 <= j < exponent_index(s) implies !is_exponent_mark(
            #[trigger] s[j],
        ) by {
            if j > 0 {
                assert(t[j - 1] == s[j]);
            }
        }
        if exponent_index(s) < s.len() {
            assert(t[exponent_index(t)] == s[exponent_index(s)]);
        }
    }
}

/// The first `e` or `E` is where none stands before it.
proof fn lemma_exponent_index_is(s: Seq<u8>, p: int)
    requires
        0 <= p <= s.len(),
        forall|j: int| 0 <= j < p ==> !is_exponent_mark(#[trigger] s[j]),
        p < s.len() ==> is_exponent_mark(s[p]),
    ensures
        exponent_index(s) == p,
{
    lemma_exponent_index_bounds(s);
    let q = exponent_index(s);
    if q < p {
        assert(is_exponent_mark(s[q]));
    } else if p < q {
        assert(is_exponent_mark(s[p]));
    }
}

/// Digits `0` write the number 0, before or after other digits that do.
proof fn lemma_zeros(n: int)
    ensures
        all_digits(zeros(n)),
        digits_value(zeros(n)) == 0,
    decreases n,
{
    if n > 0 {
        lemma_zeros(n - 1);
        assert(zeros(n).drop_last() =~= zeros(n - 1));
    }
}

/// Ten to the power `n`.
pub open spec fn pow10(n: nat) -> nat
    decreases n,
{
    if n == 0 {
        1
    } else {
        10 * pow10((n - 1) as nat)
    }
}

/// Digits `0` after other digits multiply by ten each.
proof fn lemma_zeros_after(d: Seq<u8>, n: nat)
    ensures
        digits_value(d + zeros(n as int)) == digits_value(d) * pow10(n),
    decreases n,
{
    if n == 0 {
        assert(d + zeros(0) =~= d);
        assert(pow10(0) == 1);
        assert(digits_value(d) * 1 == digits_value(d));
    } else {
        lemma_zeros_after(d, (n - 1) as nat);
        let longer = d + zeros(n as int);
        let shorter = d + zeros(n - 1);
        assert(longer.drop_last() =~= shorter);
        assert(longer.last() == 48);
        assert(digits_value(longer) == digits_value(shorter) * 10);
        let a = digits_value(d);
        let b = pow10((n - 1) as nat);
        assert(digits_value(shorter) == a * b);
        assert(pow10(n) == 10 * b);
        assert((a * b) * 10 == a * (10 * b)) by (nonlinear_arith);
        assert(digits_value(longer) == a * pow10(n));
    }
}

proof fn lemma_pow10_grows(n: nat)
    ensures
        n >= 20 ==> pow10(n) >= 100_000_000_000_000_000_000,
        pow10(n) >= 1,
    decreases n,
{
    if n > 0 {
        lemma_pow10_grows((n - 1) as nat);
    }
    if n == 20 {
        reveal_with_fuel(pow10, 21);
    }
}

/// Digits write 0 exactly where each of them is `0`.
proof fn lemma_all_zero(d: Seq<u8>)
    requires
        all_digits(d),
    ensures
        digits_value(d) == 0 <==> forall|i: int| 0 <= i < d.len() ==> #[trigger] d[i] == 48,
    decreases d.len(),
{
    if d.len() > 0 {
        let rest = d.drop_last();
        lemma_all_zero(rest);
        assert(is_digit(d.last()));
        if digits_value(d) == 0 {
            assert forall|i: int| 0 <= i < d.len() implies #[trigger] d[i] == 48 by {
                if i < d.len() - 1 {
                    assert(rest[i] == d[i]);
                }
            }
        } else {
            if forall|i: int| 0 <= i < d.len() ==> #[trigger] d[i] == 48 {
                assert forall|i: int| 0 <= i < rest.len() implies #[trigger] rest[i] == 48 by {
                    assert(rest[i] == d[i]);
                }
                assert(d[d.len() - 1] == 48);
            }
        }
    }
}

/// Reading the text of a number gives the number back.
pub proof fn lemma_text_reads_back(m: int)
    requires
        i64::MIN <= m <= i64::MAX,
    ensures
        decimal_value(decimal_text(m)) == Some(m),
{
    let t = decimal_text(m);
    lemma_plain_text_reads_back(m);
    lemma_text_bytes(m);
    assert forall|j: int| 0 <= j < t.len() implies !is_exponent_mark(#[trigger] t[j]) by {}
    lemma_exponent_index_is(t, t.len() as int);
}

/// An exponent above this moves the point past every text that can be held.
pub open spec fn exponent_cap() -> nat {
    1_000_000_000_000_000_000_000
}

/// The number, or `exponent_cap()` where it is above that.
pub open spec fn exponent_capped(n: nat) -> nat {
    if n > exponent_cap() {
        exponent_cap()
    } else {
        n
    }
}

fn find_exponent(text: &[u8]) -> (at: usize)
    ensures
        at == exponent_index(text@),
        at <= text.len(),
{
    let mut i: usize = 0;
    while i < text.len() && text[i] != 101 && text[i] != 69
        invariant
            i <= text.len(),
            forall|j: int| 0 <= j < i ==> !is_exponent_mark(#[trigger] text@[j]),
        decreases text.len() - i,
    {
        i += 1;
    }
    proof {
        lemma_exponent_index_is(text@, i as int);
    }
    i
}

fn find_point(text: &[u8], start: usize) -> (point: usize)
    requires
        start <= text.len(),
    ensures
        start <= point <= text.len(),
        point - start == point_index(text@.skip(start as int)),
{
    let ghost u = text@.skip(start as int);
    let mut i: usize = start;
    while i < text.len() && text[i] != 46
        invariant
            start <= i <= text.len(),
            u == text@.skip(start as int),
            forall|j: int| 0 <= j < i - start ==> #[trigger] u[j] != 46,
        decreases text.len() - i,
    {
        assert(u[i - start] == text@[i as int]);
        i += 1;
    }
    proof {
        if i < text.len() {
            assert(u[i - start] == text@[i as int]);
        }
        lemma_point_index_is(u, i - start);
    }
    i
}

/// Reads the text of an exponent: its sign, and its digits as a number held
/// below `exponent_cap()`.
fn read_exponent(t: &[u8]) -> (r: Option<(bool, u128)>)
    ensures
        match r {
            Some(e) => is_exponent(t@) && e.0 == is_negative(t@) && e.1 == exponent_capped(
                digits_value(unsigned_part(t@)),
            ),
            None => !is_exponent(t@),
        },
{
    let n = t.len();
    let mut i: usize = 0;
    let mut negative = false;
    if n > 0 && (t[0] == 43 || t[0] == 45) {
        negative = t[0] == 45;
        i = 1;
    }
    let start: usize = i;
    let ghost u = unsigned_part(t@);
    assert(u =~= t@.skip(start as int));
    if start == n {
        return None;
    }
    let mut acc: u128 = 0;
    assert(u.take(0) =~= Seq::<u8>::empty());
    while i < n
        invariant
            start <= i <= n,
            n == t@.len(),
            u == t@.skip(start as int),
            u == unsigned_part(t@),
            negative == is_negative(t@),
            forall|j: int| 0 <= j < i - start ==> is_digit(#[trigger] u[j]),
            acc == exponent_capped(digits_value(u.take(i - start))),
        decreases n - i,
    {
        let b = t[i];
        assert(u[i - start] == b);
        if !is_digit_byte(b) {
            return None;
        }
        proof {
            assert(u.take(i - start + 1).drop_last() =~= u.take(i - start));
            assert(u.take(i - start + 1).last() == b);
        }
        let next: u128 = acc * 10 + (b - 48) as u128;
        acc = if next > 1_000_000_000_000_000_000_000 {
            1_000_000_000_000_000_000_000
        } else {
            next
        };
        i += 1;
    }
    assert(u.take(i - start) =~= u);
    Some((negative, acc))
}

fn all_zero(text: &[u8], from: usize, to: usize) -> (b: bool)
    requires
        from <= to <= text.len(),
    ensures
        b == forall|i: int| from <= i < to ==> #[trigger] text@[i] == 48,
{
    let mut i: usize = from;
    while i < to
        invariant
            from <= i <= to <= text.len(),
            forall|j: int| from <= j < i ==> #[trigger] text@[j] == 48,
        decreases to - i,
    {
        if text[i] != 48 {
            return false;
        }
        i += 1;
    }
    true
}

fn push_range(out: &mut Vec<u8>, text: &[u8], from: usize, to: usize)
    requires
        from <= to <= text.len(),
    ensures
        final(out)@ == old(out)@ + text@.subrange(from as int, to as int),
{
    let mut i: usize = from;
    assert(out@ + text@.subrange(from as int, from as int) =~= out@);
    while i < to
        invariant
            from <= i <= to <= text.len(),
            out@ == old(out)@ + text@.subrange(from as int, i as int),
        decreases to - i,
    {
        out.push(text[i]);
        assert(out@ =~= old(out)@ + text@.subrange(from as int, i + 1));
        i += 1;
    }
}

fn push_zeros(out: &mut Vec<u8>, n: usize)
    ensures
        final(out)@ == old(out)@ + zeros(n as int),
{
    let mut i: usize = 0;
    assert(out@ + zeros(0) =~= out@);
    while i < n
        invariant
            i <= n,
            out@ == old(out)@ + zeros(i as int),
        decreases n - i,
    {
        out.push(48);
        assert(out@ =~= old(out)@ + zeros(i + 1));
        i += 1;
    }
}

/// The number that digits, a point and digits write, with its sign.
fn evaluate(whole: &Vec<u8>, fraction: &Vec<u8>, negative: bool) -> (r: i64)
    requires
        all_digits(whole@),
        all_digits(fraction@),
    ensures
        r == signed(negative, digits_milli(whole@, fraction@)),
{
    let mut acc: u128 = 0;
    let mut i: usize = 0;
    assert(whole@.take(0) =~= Seq::<u8>::empty());
    while i < whole.len()
        invariant
            i <= whole.len(),
            all_digits(whole@),
            acc == capped(digits_value(whole@.take(i as int))),
        decreases whole.len() - i,
    {
        let b = whole[i];
        proof {
            assert(is_digit(whole@[i as int]));
            assert(whole@.take(i + 1).drop_last() =~= whole@.take(i as int));
            assert(whole@.take(i + 1).last() == b);
        }
        let next: u128 = acc * 10 + (b - 48) as u128;
        acc = if next > 10_000_000_000_000_000_000 {
            10_000_000_000_000_000_000
        } else {
            next
        };
        i += 1;
    }
    assert(whole@.take(i as int) =~= whole@);
    let mut milli: u128 = 0;
    if fraction.len() > 0 {
        assert(is_digit(fraction@[0]));
        milli = milli + (fraction[0] - 48) as u128 * 100;
    }
    if fraction.len() > 1 {
        assert(is_digit(fraction@[1]));
        milli = milli + (fraction[1] - 48) as u128 * 10;
    }
    if fraction.len() > 2 {
        assert(is_digit(fraction@[2]));
        milli = milli + (fraction[2] - 48) as u128;
    }
    if fraction.len() > 3 {
        assert(is_digit(fraction@[3]));
        if fraction[3] - 48 >= 5 {
            milli = milli + 1;
        }
    }
    assert(milli == fraction_milli(fraction@));
    let ghost exact = digits_milli(whole@, fraction@);
    let found: u128 = acc * 1000 + milli;
    assert(found == exact || (found > 0x8000_0000_0000_0000 && exact > 0x8000_0000_0000_0000)) by {
        let w = digits_value(whole@);
        if w > cap() {
            assert(w * 1000 >= cap() * 1000) by (nonlinear_arith)
                requires
                    w > cap(),
            ;
        }
    }
    if negative {
        if found > 0x8000_0000_0000_0000 {
            i64::MIN
        } else {
            (-(found as i128)) as i64
        }
    } else {
        if found > 0x7fff_ffff_ffff_ffff {
            i64::MAX
        } else {
            found as i64
        }
    }
}

/// The digits once the point has moved `amount` places, to the left where
/// `left` holds, from between the digits at `start..point` and those at
/// `after..text.len()`. The point moves past the digits by less than 20
/// places.
fn move_point(text: &[u8], start: usize, point: usize, after: usize, left: bool, amount: u128) -> (r: (
    Vec<u8>,
    Vec<u8>,
))
    requires
        start <= point <= after <= text.len(),
        all_digits(text@.subrange(start as int, point as int)),
        all_digits(text@.subrange(after as int, text.len() as int)),
        left ==> amount < point - start + 20,
        !left ==> amount < text.len() - after + 20,
    ensures
        ({
            let w = text@.subrange(start as int, point as int);
            let f = text@.subrange(after as int, text.len() as int);
            let e = if left {
                -(amount as int)
            } else {
                amount as int
            };
            &&& r.0@ == moved_whole(w, f, e)
            &&& r.1@ == moved_fraction(w, f, e)
            &&& all_digits(r.0@)
            &&& all_digits(r.1@)
        }),
{
    let m = text.len();
    let ghost w = text@.subrange(start as int, point as int);
    let ghost f = text@.subrange(after as int, m as int);
    let wide = point - start;
    let deep = m - after;
    let mut whole: Vec<u8> = Vec::new();
    let mut fraction: Vec<u8> = Vec::new();
    if !left || amount == 0 {
        if amount <= deep as u128 {
            let within = amount as usize;
            push_range(&mut whole, text, start, point);
            push_range(&mut whole, text, after, after + within);
            push_range(&mut fraction, text, after + within, m);
            proof {
                assert(whole@ =~= w + f.take(amount as int));
                assert(fraction@ =~= f.skip(amount as int));
            }
        } else {
            let beyond = (amount - deep as u128) as usize;
            push_range(&mut whole, text, start, point);
            push_range(&mut whole, text, after, m);
            push_zeros(&mut whole, beyond);
            proof {
                lemma_zeros(amount - deep);
                assert(whole@ =~= w + f + zeros(amount - deep));
                assert(fraction@ =~= Seq::<u8>::empty());
            }
        }
    } else {
        if amount <= wide as u128 {
            let within = amount as usize;
            push_range(&mut whole, text, start, point - within);
            push_range(&mut fraction, text, point - within, point);
            push_range(&mut fraction, text, after, m);
            proof {
                assert(whole@ =~= w.take(w.len() - amount));
                assert(fraction@ =~= w.skip(w.len() - amount) + f);
            }
        } else {
            let beyond = (amount - wide as u128) as usize;
            push_zeros(&mut fraction, beyond);
            push_range(&mut fraction, text, start, point);
            push_range(&mut fraction, text, after, m);
            proof {
                lemma_zeros(amount - wide);
                assert(fraction@ =~= zeros(amount - wide) + w + f);
            }
        }
    }
    proof {
        assert forall|i: int| 0 <= i < whole@.len() implies is_digit(#[trigger] whole@[i]) by {
            let x = whole@[i];
            if i < w.len() {
                assert(x == w[i]);
            } else if i < w.len() + f.len() {
                assert(x == f[i - w.len()]);
            } else {
                assert(x == zeros(amount - deep)[i - w.len() - f.len()]);
            }
        }
        assert forall|i: int| 0 <= i < fraction@.len() implies is_digit(#[trigger] fraction@[i]) by {
            let x = fraction@[i];
            if !left || amount == 0 {
                assert(x == f[amount + i]);
            } else if amount <= wide as u128 {
                if i < amount {
                    assert(x == w[w.len() - amount + i]);
                } else {
                    assert(x == f[i - amount]);
                }
            } else {
                let z = amount - wide;
                if i < z {
                    assert(x == zeros(z as int)[i]);
                } else if i < z + w.len() {
                    assert(x == w[i - z]);
                } else {
                    assert(x == f[i - z - w.len()]);
                }
            }
        }
    }
    (whole, fraction)
}

/// A point moved far to the right leaves 0 where every digit is `0`, and
/// else a number above all that an `i64` holds.
proof fn lemma_far_right(w: Seq<u8>, f: Seq<u8>, e: int)
    requires
        all_digits(w),
        all_digits(f),
        e >= f.len() + 20,
    ensures
        fraction_milli(moved_fraction(w, f, e)) == 0,
        (forall|i: int| 0 <= i < w.len() ==> #[trigger] w[i] == 48) && (forall|i: int|
            0 <= i < f.len() ==> #[trigger] f[i] == 48) ==> digits_value(moved_whole(w, f, e)) == 0,
        !((forall|i: int| 0 <= i < w.len() ==> #[trigger] w[i] == 48) && (forall|i: int|
            0 <= i < f.len() ==> #[trigger] f[i] == 48)) ==> digits_value(moved_whole(w, f, e))
            >= 100_000_000_000_000_000_000,
{
    let d = w + f;
    let n = (e - f.len()) as nat;
    let moved = moved_whole(w, f, e);
    assert(moved =~= d + zeros(n as int));
    assert(moved_fraction(w, f, e) =~= Seq::<u8>::empty());
    lemma_zeros_after(d, n);
    lemma_pow10_grows(n);
    assert forall|i: int| 0 <= i < d.len() implies is_digit(#[trigger] d[i]) by {
        if i < w.len() {
            assert(d[i] == w[i]);
        } else {
            assert(d[i] == f[i - w.len()]);
        }
    }
    lemma_all_zero(d);
    let none = (forall|i: int| 0 <= i < w.len() ==> #[trigger] w[i] == 48) && (forall|i: int|
        0 <= i < f.len() ==> #[trigger] f[i] == 48);
    if none {
        assert forall|i: int| 0 <= i < d.len() implies #[trigger] d[i] == 48 by {
            if i < w.len() {
                assert(d[i] == w[i]);
            } else {
                assert(d[i] == f[i - w.len()]);
            }
        }
        assert(digits_value(d) == 0);
        assert(digits_value(d) * pow10(n) == 0) by (nonlinear_arith)
            requires
                digits_value(d) == 0,
        ;
    } else {
        if forall|i: int| 0 <= i < d.len() ==> #[trigger] d[i] == 48 {
            assert forall|i: int| 0 <= i < w.len() implies #[trigger] w[i] == 48 by {
                assert(d[i] == w[i]);
            }
            assert forall|i: int| 0 <= i < f.len() implies #[trigger] f[i] == 48 by {
                assert(d[w.len() + i] == f[i]);
            }
        }
        assert(digits_value(d) >= 1);
        assert(digits_value(d) * pow10(n) >= 100_000_000_000_000_000_000) by (nonlinear_arith)
            requires
                digits_value(d) >= 1,
                pow10(n) >= 100_000_000_000_000_000_000,
        ;
    }
}

/// A range of a text holds `0` only exactly where the digits cut from it do.
proof fn lemma_zero_range(text: Seq<u8>, from: int, to: int)
    requires
        0 <= from <= to <= text.len(),
    ensures
        (forall|i: int| from <= i < to ==> #[trigger] text[i] == 48) <==> (forall|i: int|
            0 <= i < text.subrange(from, to).len() ==> #[trigger] text.subrange(from, to)[i] == 48),
{
    let part = text.subrange(from, to);
    if forall|i: int| from <= i < to ==> #[trigger] text[i] == 48 {
        assert forall|i: int| 0 <= i < part.len() implies #[trigger] part[i] == 48 by {
            assert(part[i] == text[from + i]);
        }
    }
    if forall|i: int| 0 <= i < part.len() ==> #[trigger] part[i] == 48 {
        assert forall|i: int| from <= i < to implies #[trigger] text[i] == 48 by {
            assert(part[i - from] == text[i]);
        }
    }
}

/// A point moved far to the left leaves 0.
proof fn lemma_far_left(w: Seq<u8>, f: Seq<u8>, e: int)
    requires
        -e >= w.len() + 4,
    ensures
        digits_milli(moved_whole(w, f, e), moved_fraction(w, f, e)) == 0,
{
    let moved = moved_fraction(w, f, e);
    assert(moved =~= zeros(-e - w.len()) + w + f);
    assert(moved[0] == 48 && moved[1] == 48 && moved[2] == 48 && moved[3] == 48);
    assert(moved_whole(w, f, e) =~= Seq::<u8>::empty());
}

/// The number that decimal text writes once its point has moved `e` places:
/// to the left where `left` holds, by `amount` places, or by more where
/// `amount` is `exponent_cap()`.
fn read_moved(mantissa: &[u8], left: bool, amount: u128, Ghost(e): Ghost<int>) -> (r: i64)
    requires
        is_decimal(mantissa@),
        amount <= exponent_cap(),
        left ==> e < 0 && amount == exponent_capped((-e) as nat),
        !left ==> e >= 0 && amount == exponent_capped(e as nat),
    ensures
        r == moved_value(mantissa@, e),
{
    let m = mantissa.len();
    let negative = m > 0 && mantissa[0] == 45;
    let start: usize = if m > 0 && (mantissa[0] == 43 || mantissa[0] == 45) {
        1
    } else {
        0
    };
    assert(unsigned_part(mantissa@) =~= mantissa@.skip(start as int));
    let point = find_point(mantissa, start);
    let after: usize = if point < m {
        point + 1
    } else {
        m
    };
    let ghost w = whole_part(mantissa@);
    let ghost f = fraction_part(mantissa@);
    proof {
        assert(w =~= mantissa@.subrange(start as int, point as int));
        assert(f =~= mantissa@.subrange(after as int, m as int));
    }
    if left && amount >= (point - start) as u128 + 20 {
        proof {
            lemma_far_left(w, f, e);
        }
        return 0;
    }
    if !left && amount >= (m - after) as u128 + 20 {
        let none_w = all_zero(mantissa, start, point);
        let none_f = all_zero(mantissa, after, m);
        proof {
            lemma_far_right(w, f, e);
            lemma_zero_range(mantissa@, start as int, point as int);
            lemma_zero_range(mantissa@, after as int, m as int);
            let magnitude = digits_milli(moved_whole(w, f, e), moved_fraction(w, f, e));
            if none_w && none_f {
                assert(magnitude == 0);
            } else {
                assert(magnitude >= 100_000_000_000_000_000_000);
            }
        }
        return if none_w && none_f {
            0
        } else if negative {
            i64::MIN
        } else {
            i64::MAX
        };
    }
    assert(e == if left {
        -(amount as int)
    } else {
        amount as int
    });
    let moved = move_point(mantissa, start, point, after, left, amount);
    evaluate(&moved.0, &moved.1, negative)
}

/// Reads the text of a number into thousandths.
pub fn parse_decimal(text: &[u8]) -> (r: Option<i64>)
    ensures
        match r {
            Some(v) => decimal_value(text@) == Some(v as int),
            None => decimal_value(text@) is None,
        },
{
    let n = text.len();
    let at = find_exponent(text);
    if at >= n {
        return parse_plain(text);
    }
    let mantissa = slice_subrange(text, 0, at);
    let tail = slice_subrange(text, at + 1, n);
    proof {
        assert(mantissa@ =~= text@.take(at as int));
        assert(tail@ =~= text@.skip(at + 1));
    }
    if parse_plain(mantissa).is_none() {
        return None;
    }
    let exponent = match read_exponent(tail) {
        Some(exponent) => exponent,
        None => {
            return None;
        },
    };
    let left = exponent.0 && exponent.1 != 0;
    let value = read_moved(mantissa, left, exponent.1, Ghost(exponent_value(tail@)));
    Some(value)
}

} // verus!
