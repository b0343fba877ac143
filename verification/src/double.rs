//! The whole number that a decimal becomes when it is rounded to the nearest
//! double, ties going to the even one.

use vstd::arithmetic::div_mod::*;
use vstd::arithmetic::mul::*;
use vstd::arithmetic::power2::*;
use vstd::prelude::*;

use crate::digits::{
    all_digits, binary, compare_fraction, lemma_binary_bound, lemma_binary_zero, lemma_ten,
    lemma_ten_adds, lemma_two_grows, lemma_value_bound, lemma_value_leading, lemma_value_split,
    lemma_value_zeros, side, ten, times_ten, value, Side,
};

verus! {

/// The largest power of two that is at most `i`.
pub open spec fn top_power(i: nat) -> nat
    decreases i,
{
    if i < 2 {
        1
    } else {
        2 * top_power(i / 2)
    }
}

/// The first number that rounds to infinity.
pub open spec fn overflow_bound() -> nat {
    (pow2(1024) - pow2(970)) as nat
}

/// Whether `num / den` rounds to zero.
pub open spec fn rounds_to_zero(num: nat, den: nat) -> bool {
    num * pow2(1075) <= den
}

/// `num / den` rounded to a double, where that double is a whole number, and
/// no more than 64 bits can hold of it.
///
/// With `i` for the whole part and `part` for what follows it, and doubles
/// `u` apart around `i`: from 2^52 on every double is whole. Below it, `i` is
/// the nearest where `part` is at most half the distance to the next double,
/// and `i + 1` where it is within half that distance of one. Whole doubles
/// below 2^52 are all even, so a tie goes to them.
pub open spec fn whole_double(num: nat, den: nat) -> Option<u64> {
    let i = num / den;
    let part = num % den;
    if i >= overflow_bound() {
        None
    } else if i >= pow2(52) {
        let u = top_power(i) / pow2(52);
        let steps = i / u;
        let twice = 2 * ((i % u) * den + part);
        let f = if twice > u * den || (twice == u * den && steps % 2 == 1) {
            (steps + 1) * u
        } else {
            steps * u
        };
        Some(if f > u64::MAX { u64::MAX } else { f as u64 })
    } else if i >= 1 {
        let halves = pow2(53) / top_power(i);
        if part * halves <= den {
            Some(i as u64)
        } else if (den - part) * halves <= den {
            Some((i + 1) as u64)
        } else {
            None
        }
    } else if rounds_to_zero(part, den) {
        Some(0)
    } else if (den - part) * pow2(54) <= den {
        Some(1)
    } else {
        None
    }
}

proof fn lemma_parts(g: Seq<u8>, k: int)
    requires
        all_digits(g),
        0 <= k <= g.len(),
    ensures
        value(g) / ten((g.len() - k) as nat) == value(g.take(k)),
        value(g) % ten((g.len() - k) as nat) == value(g.skip(k)),
        value(g.skip(k)) < ten((g.len() - k) as nat),
{
    lemma_value_split(g, k);
    assert(all_digits(g.skip(k)));
    lemma_value_bound(g.skip(k));
    lemma_fundamental_div_mod_converse(
        value(g) as int,
        ten((g.len() - k) as nat) as int,
        value(g.take(k)) as int,
        value(g.skip(k)) as int,
    );
}

/// A 64-bit number as two places.
fn row_of(x: u64) -> (row: Vec<u32>)
    ensures
        row@.len() == 2,
        binary(row@) == x,
{
    let low: u32 = (x % 0x1_0000_0000) as u32;
    let high: u32 = (x / 0x1_0000_0000) as u32;
    let row: Vec<u32> = vec![low, high];
    proof {
        lemma2_to64();
        reveal_with_fuel(binary, 3);
        assert(row@.drop_last() =~= seq![low]);
        assert(seq![low].drop_last() =~= Seq::<u32>::empty());
        assert(pow2(32 * 0nat) == 1);
        assert(pow2(32 * 1nat) == 0x1_0000_0000);
        assert(binary(seq![low]) == low);
        assert(binary(row@) == binary(seq![low]) + pow2(32 * 1nat) * high);
    }
    row
}

/// Two to the power -1075, as places after the point.
fn least_mark() -> (row: Vec<u32>)
    ensures
        row@.len() == 34,
        binary(row@) == pow2(13),
{
    let mut row: Vec<u32> = Vec::new();
    row.push(8192);
    proof {
        lemma2_to64();
        assert(row@.drop_last() =~= Seq::<u32>::empty());
        assert(pow2(32 * 0nat) == 1);
        reveal_with_fuel(binary, 2);
        assert(binary(row@) == 8192);
    }
    while row.len() < 34
        invariant
            1 <= row@.len() <= 34,
            binary(row@) == 8192,
        decreases 34 - row@.len(),
    {
        let ghost had = row@;
        row.push(0);
        proof {
            assert(row@.drop_last() =~= had);
            let p = pow2(32 * (row@.len() - 1) as nat);
            assert(p * 0 == 0) by (nonlinear_arith);
        }
    }
    proof {
        lemma2_to64();
    }
    row
}

/// Whether the fraction with these digits rounds to zero.
pub fn fraction_is_nothing(g: &Vec<u8>) -> (yes: bool)
    requires
        all_digits(g@),
    ensures
        yes == rounds_to_zero(value(g@), ten(g@.len())),
{
    let s = compare_fraction(g, 0, least_mark());
    proof {
        assert(g@.skip(0) =~= g@);
        let r = value(g@);
        let den = ten(g@.len());
        lemma_pow2_adds(1075, 13);
        lemma2_to64();
        let p = pow2(1075);
        let q = pow2(13);
        assert(r * (p * q) == (r * p) * q) by (nonlinear_arith);
        assert((r * p <= den) == ((r * p) * q <= q * den)) by (nonlinear_arith)
            requires
                q > 0,
        ;
    }
    match s {
        Side::Above => false,
        _ => true,
    }
}

/// Whether the digits from `k` on, as a fraction, are within `1 / 2^j` of one
/// side of a whole number, for a mark of `t / 2^64`.
fn fraction_side(g: &Vec<u8>, k: usize, t: u64) -> (s: Side)
    requires
        all_digits(g@),
        k <= g@.len(),
    ensures
        s == side(
            (value(g@.skip(k as int)) * pow2(64)) as int,
            (t as nat * ten((g@.len() - k) as nat)) as int,
        ),
{
    compare_fraction(g, k, row_of(t))
}

/// Whether the digits before `k` write a number that rounds to infinity.
fn overflows(g: &Vec<u8>, k: usize) -> (yes: bool)
    requires
        all_digits(g@),
        k <= g@.len(),
    ensures
        yes == (value(g@.take(k as int)) >= overflow_bound()),
{
    let mut big: Vec<u32> = Vec::new();
    while big.len() < 32
        invariant
            big@.len() <= 32,
            forall|i: int| 0 <= i < big@.len() ==> big@[i] == 0,
        decreases 32 - big@.len(),
    {
        big.push(0);
    }
    proof {
        lemma_binary_zero(big@);
        assert(g@.take(0) =~= Seq::<u8>::empty());
        lemma_bounds();
    }
    for j in 0..k
        invariant
            all_digits(g@),
            k <= g@.len(),
            big@.len() == 32,
            binary(big@) == value(g@.take(j as int)),
    {
        let carry = times_ten(&mut big, g[j] as u32);
        proof {
            assert(g@.take(j + 1).drop_last() =~= g@.take(j as int));
            assert(32 * 32nat == 1024);
        }
        if carry > 0 {
            proof {
                let p = pow2(1024);
                assert(p * carry >= p) by (nonlinear_arith)
                    requires
                        carry >= 1,
                        p >= 0,
                ;
                lemma_prefix_smaller(g@.take(k as int), j + 1);
                assert(g@.take(k as int).take(j + 1) =~= g@.take(j + 1));
                lemma_bounds();
            }
            return true;
        }
        proof {
            assert(pow2(1024) * 0 == 0) by (nonlinear_arith);
        }
    }
    proof {
        lemma_bounds();
        let l = big@;
        let a = l.drop_last();
        let b = a.drop_last();
        reveal_with_fuel(binary, 3);
        assert(binary(l) == binary(b) + pow2(960) * l[30] + pow2(992) * l[31]) by {
            assert(32 * (a.len() - 1) as nat == 960);
            assert(32 * (l.len() - 1) as nat == 992);
        }
        lemma_binary_bound(b);
        assert(32 * b.len() == 960);
        let p = pow2(960);
        let hi = l[30] + 0x1_0000_0000 * l[31];
        assert(p * l[30] + (p * 0x1_0000_0000) * l[31] == p * hi) by (nonlinear_arith)
            requires
                hi == l[30] + 0x1_0000_0000 * l[31],
        ;
        let limit = 0xffff_ffff_ffff_fc00int;
        assert(overflow_bound() == p * limit);
        assert(hi >= limit ==> p * hi >= p * limit) by (nonlinear_arith)
            requires
                p >= 0,
        ;
        assert(hi < limit ==> p * hi + p <= p * limit) by (nonlinear_arith)
            requires
                p >= 0,
        ;
    }
    big[31] == 0xffff_ffff && big[30] >= 0xffff_fc00
}

proof fn lemma_bounds()
    ensures
        pow2(960) <= overflow_bound(),
        pow2(992) == pow2(960) * 0x1_0000_0000,
        overflow_bound() == pow2(960) * 0xffff_ffff_ffff_fc00,
        overflow_bound() <= pow2(1024),
        pow2(66) <= overflow_bound(),
{
    lemma2_to64();
    lemma_pow2_adds(960, 32);
    lemma_pow2_adds(960, 64);
    lemma_pow2_adds(960, 10);
    let p = pow2(960);
    assert(p * 0x1_0000_0000_0000_0000 - p * 1024 == p * 0xffff_ffff_ffff_fc00) by (nonlinear_arith);
    lemma_two_grows(66, 960);
    assert(p * 0xffff_ffff_ffff_fc00 >= p) by (nonlinear_arith)
        requires
            p >= 0,
    ;
}

/// The beginning of a row writes no more than the row.
proof fn lemma_prefix_smaller(d: Seq<u8>, k: int)
    requires
        0 <= k <= d.len(),
    ensures
        value(d.take(k)) <= value(d),
{
    lemma_value_split(d, k);
    let t = ten((d.len() - k) as nat);
    lemma_ten((d.len() - k) as nat);
    let v = value(d.take(k));
    assert(v * t >= v) by (nonlinear_arith)
        requires
            t >= 1,
            v >= 0,
    ;
}

proof fn lemma_top_power(i: nat, k: nat)
    requires
        pow2(k) <= i < 2 * pow2(k),
    ensures
        top_power(i) == pow2(k),
    decreases k,
{
    lemma2_to64();
    if k > 0 {
        lemma_pow2_unfold(k);
        lemma_top_power(i / 2, (k - 1) as nat);
        lemma_pow2_pos((k - 1) as nat);
    }
}

/// The exponent of the largest power of two that is at most `i`.
fn top_exponent(i: u128) -> (found: (u32, u128))
    requires
        1 <= i < 0x8_0000_0000_0000_0000_0000,
    ensures
        found.1 == pow2(found.0 as nat),
        found.1 == top_power(i as nat),
        found.1 <= i < 2 * found.1,
        found.0 <= 83,
{
    let mut k: u32 = 0;
    let mut p: u128 = 1;
    proof {
        lemma2_to64();
    }
    while p * 2 <= i
        invariant
            p == pow2(k as nat),
            1 <= p <= i < 0x8_0000_0000_0000_0000_0000,
            k <= 83,
        decreases i - p,
    {
        proof {
            lemma_pow2_unfold((k + 1) as nat);
            if k >= 83 {
                lemma2_to64();
                lemma_pow2_adds(64, 19);
                lemma_two_grows(83, k as nat);
            }
        }
        p = p * 2;
        k = k + 1;
    }
    proof {
        lemma_top_power(i as nat, k as nat);
    }
    (k, p)
}

/// Whether any digit from `k` on is not zero.
fn anything_after(g: &Vec<u8>, k: usize) -> (yes: bool)
    requires
        k <= g@.len(),
        all_digits(g@),
    ensures
        yes == (value(g@.skip(k as int)) > 0),
{
    for j in k..g.len()
        invariant
            k <= g@.len(),
            forall|m: int| k <= m < j ==> g@[m] == 0,
    {
        if g[j] != 0 {
            proof {
                let d = g@.skip(k as int);
                lemma_value_split(d, (j - k) as int);
                lemma_value_leading(d.skip((j - k) as int));
                lemma_ten((g@.len() - j - 1) as nat);
            }
            return true;
        }
    }
    proof {
        lemma_value_zeros(g@.skip(k as int));
    }
    false
}

/// The whole double nearest to the number with these digits and the point
/// after the first `k` of them.
pub fn round_row(g: &Vec<u8>, k: usize) -> (r: Option<u64>)
    requires
        all_digits(g@),
        k <= g@.len(),
        k > 0 ==> g@[0] >= 1,
    ensures
        r == whole_double(value(g@), ten((g@.len() - k) as nat)),
{
    let ghost den = ten((g@.len() - k) as nat);
    let ghost i = value(g@.take(k as int));
    let ghost part = value(g@.skip(k as int));
    proof {
        lemma_parts(g@, k as int);
        lemma_ten((g@.len() - k) as nat);
        lemma_bounds();
        lemma2_to64();
        lemma2_to64_rest();
        lemma_two_grows(52, 66);
    }
    if k == 0 {
        proof {
            assert(g@.take(0) =~= Seq::<u8>::empty());
            assert(g@.skip(0) =~= g@);
        }
        if fraction_is_nothing(g) {
            return Some(0);
        }
        let s = fraction_side(g, 0, 0xffff_ffff_ffff_fc00);
        proof {
            lemma_near_one(part, den, pow2(54), 1024, 0xffff_ffff_ffff_fc00);
        }
        return match s {
            Side::Below => None,
            _ => Some(1),
        };
    }
    if k > 20 {
        proof {
            let head = g@.take(k as int);
            lemma_value_leading(head);
            lemma_big(k as nat);
        }
        if overflows(g, k) {
            return None;
        }
        proof {
            lemma_saturates(value(g@), den);
        }
        return Some(u64::MAX);
    }
    let mut n: u128 = 0;
    proof {
        assert(g@.take(0) =~= Seq::<u8>::empty());
    }
    for j in 0..k
        invariant
            k <= 20,
            k <= g@.len(),
            all_digits(g@),
            n == value(g@.take(j as int)),
            n < ten(j as nat),
    {
        proof {
            assert(g@.take(j + 1).drop_last() =~= g@.take(j as int));
            assert(all_digits(g@.take(j + 1)));
            lemma_value_bound(g@.take(j + 1));
            lemma_twenty(j as nat);
        }
        n = n * 10 + g[j] as u128;
    }
    proof {
        lemma_twenty(k as nat);
        lemma_value_leading(g@.take(k as int));
        lemma_ten((k - 1) as nat);
    }
    if n >= 0x10_0000_0000_0000 {
        round_wide(g, k, n)
    } else {
        round_narrow(g, k, n)
    }
}

/// The rounding where every double is a whole number.
fn round_wide(g: &Vec<u8>, k: usize, n: u128) -> (r: Option<u64>)
    requires
        all_digits(g@),
        0 < k <= g@.len(),
        n == value(g@.take(k as int)),
        pow2(52) <= n < 0x8_0000_0000_0000_0000_0000,
    ensures
        r == whole_double(value(g@), ten((g@.len() - k) as nat)),
{
    let ghost den = ten((g@.len() - k) as nat);
    let ghost i = n as nat;
    let ghost part = value(g@.skip(k as int));
    proof {
        lemma_parts(g@, k as int);
        lemma_ten((g@.len() - k) as nat);
        lemma_bounds();
        lemma_pow2_adds(64, 19);
        lemma_two_grows(83, 960);
        lemma2_to64();
        lemma2_to64_rest();
    }
    let (e, p) = top_exponent(n);
    let u: u128 = p / 0x10_0000_0000_0000;
    let ghost uu = top_power(i) / pow2(52);
    proof {
        assert(u == uu);
        if e < 52 {
            lemma_pow2_strictly_increases(e as nat, 52);
        }
        lemma_pow2_adds(52, (e - 52) as nat);
        let v = pow2((e - 52) as nat);
        assert(v >= 1) by {
            lemma_pow2_pos((e - 52) as nat);
        }
        lemma_div_multiples_vanish(v as int, pow2(52) as int);
        assert(u == v);
        if e > 52 {
            lemma_pow2_unfold((e - 52) as nat);
        }
    }
    let steps: u128 = n / u;
    let rest: u128 = n % u;
    let up: bool;
    if u == 1 {
        let s = fraction_side(g, k, 0x8000_0000_0000_0000);
        proof {
            lemma_half(part, den);
            assert(rest == 0);
            assert(2 * ((i % uu) * den + part) == 2 * part) by (nonlinear_arith)
                requires
                    i % uu == 0,
            ;
            assert(uu * den == den) by (nonlinear_arith)
                requires
                    uu == 1,
            ;
        }
        up = match s {
            Side::Below => false,
            Side::Equal => steps % 2 == 1,
            Side::Above => true,
        };
    } else {
        let half: u128 = u / 2;
        proof {
            lemma_coarse(rest as nat, half as nat, part, den);
            assert(2 * half == u);
        }
        up = if rest > half {
            true
        } else if rest == half {
            anything_after(g, k) || steps % 2 == 1
        } else {
            false
        };
    }
    proof {
        lemma_fundamental_div_mod(n as int, u as int);
        assert((steps + 1) * u == u * steps + u) by (nonlinear_arith);
        assert(steps * u == u * steps) by (nonlinear_arith);
    }
    let f: u128 = if up {
        (steps + 1) * u
    } else {
        steps * u
    };
    if f > u64::MAX as u128 {
        Some(u64::MAX)
    } else {
        Some(f as u64)
    }
}

/// The rounding where most doubles are not whole numbers.
fn round_narrow(g: &Vec<u8>, k: usize, n: u128) -> (r: Option<u64>)
    requires
        all_digits(g@),
        0 < k <= g@.len(),
        n == value(g@.take(k as int)),
        1 <= n < pow2(52),
    ensures
        r == whole_double(value(g@), ten((g@.len() - k) as nat)),
{
    let ghost den = ten((g@.len() - k) as nat);
    let ghost i = n as nat;
    let ghost part = value(g@.skip(k as int));
    proof {
        lemma_parts(g@, k as int);
        lemma_ten((g@.len() - k) as nat);
        lemma_bounds();
        lemma2_to64();
        lemma2_to64_rest();
        lemma_two_grows(52, 66);
    }
    let (e, p) = top_exponent(n);
    let t: u64 = (p as u64) * 2048;
    let ghost halves = pow2(53) / top_power(i);
    proof {
        if e >= 52 {
            lemma_two_grows(52, e as nat);
        }
        lemma_pow2_adds(e as nat, (53 - e) as nat);
        lemma_pow2_pos(e as nat);
        lemma_div_multiples_vanish(pow2((53 - e) as nat) as int, p as int);
        assert(halves == pow2((53 - e) as nat));
        lemma_pow2_pos((53 - e) as nat);
        assert(halves * t == 0x1_0000_0000_0000_0000) by (nonlinear_arith)
            requires
                p * halves == 0x20_0000_0000_0000,
                t == p * 2048,
        ;
        lemma_near_zero(part, den, halves, t as nat);
        lemma_near_one(part, den, halves, t as nat, (0x1_0000_0000_0000_0000 - t) as nat);
    }
    let low = fraction_side(g, k, t);
    match low {
        Side::Above => {
            let high = fraction_side(g, k, 0xffff_ffff_ffff_ffff - t + 1);
            match high {
                Side::Below => None,
                _ => Some(n as u64 + 1),
            }
        },
        _ => Some(n as u64),
    }
}

proof fn lemma_near_zero(part: nat, den: nat, halves: nat, t: nat)
    requires
        halves * t == pow2(64),
        t > 0,
    ensures
        (part * halves <= den) == (part * pow2(64) <= t * den),
{
    assert((part * halves) * t == part * pow2(64)) by (nonlinear_arith)
        requires
            halves * t == pow2(64),
    ;
    let x = part * halves;
    assert((x <= den) == (x * t <= t * den)) by (nonlinear_arith)
        requires
            t > 0,
    ;
}

proof fn lemma_near_one(part: nat, den: nat, halves: nat, t: nat, mark: nat)
    requires
        halves * t == pow2(64),
        t > 0,
        mark + t == pow2(64),
        part <= den,
    ensures
        ((den - part) * halves <= den) == (part * pow2(64) >= mark * den),
{
    let b = pow2(64);
    let x = ((den - part) * halves) as int;
    assert(x * t == den * b - part * b) by (nonlinear_arith)
        requires
            x == (den - part) * halves,
            halves * t == b,
    ;
    assert((x <= den) == (x * t <= t * den)) by (nonlinear_arith)
        requires
            t > 0,
    ;
    assert(mark * den + t * den == den * b) by (nonlinear_arith)
        requires
            mark + t == b,
    ;
}

proof fn lemma_half(part: nat, den: nat)
    ensures
        side((part * pow2(64)) as int, (0x8000_0000_0000_0000nat * den) as int) == side(
            (2 * part) as int,
            den as int,
        ),
{
    lemma2_to64();
    lemma2_to64_rest();
}

/// Where doubles are whole numbers apart, a fraction only breaks a tie.
proof fn lemma_coarse(rest: nat, half: nat, part: nat, den: nat)
    requires
        part < den,
    ensures
        rest > half ==> 2 * (rest * den + part) > (2 * half) * den,
        rest == half ==> (2 * (rest * den + part) > (2 * half) * den) == (part > 0),
        rest == half ==> (2 * (rest * den + part) == (2 * half) * den) == (part == 0),
        rest < half ==> 2 * (rest * den + part) < (2 * half) * den,
{
    assert((2 * half) * den == 2 * (half * den)) by (nonlinear_arith);
    if rest > half {
        assert(rest * den >= half * den + den) by (nonlinear_arith)
            requires
                rest >= half + 1,
        ;
    } else if rest < half {
        assert(rest * den + den <= half * den) by (nonlinear_arith)
            requires
                rest + 1 <= half,
        ;
    }
}

proof fn lemma_ten_to_twenty()
    ensures
        ten(20) == 100_000_000_000_000_000_000,
{
    lemma_ten(1);
    lemma_ten(2);
    lemma_ten(3);
    lemma_ten(4);
    lemma_ten(5);
    assert(ten(5) == 100_000);
    lemma_ten_adds(5, 5);
    assert(ten(10) == 10_000_000_000) by (nonlinear_arith)
        requires
            ten(10) == ten(5) * ten(5),
            ten(5) == 100_000,
    ;
    lemma_ten_adds(10, 10);
    assert(ten(20) == 100_000_000_000_000_000_000) by (nonlinear_arith)
        requires
            ten(20) == ten(10) * ten(10),
            ten(10) == 10_000_000_000,
    ;
}

proof fn lemma_twenty(k: nat)
    requires
        k <= 20,
    ensures
        ten(k) <= 100_000_000_000_000_000_000,
    decreases k,
{
    lemma_ten(k);
    lemma_ten_to_twenty();
    lemma_ten_adds(k, (20 - k) as nat);
    lemma_ten((20 - k) as nat);
    let a = ten(k);
    let b = ten((20 - k) as nat);
    assert(a <= a * b) by (nonlinear_arith)
        requires
            b >= 1,
            a >= 0,
    ;
}

/// Twenty-one digits write more than 2^66.
proof fn lemma_big(k: nat)
    requires
        k > 20,
    ensures
        ten((k - 1) as nat) >= pow2(66),
{
    lemma_ten_to_twenty();
    lemma2_to64();
    lemma_pow2_adds(64, 2);
    lemma_ten_adds(20, (k - 21) as nat);
    lemma_ten((k - 21) as nat);
    let b = ten((k - 21) as nat);
    assert(100_000_000_000_000_000_000 * b >= 100_000_000_000_000_000_000) by (nonlinear_arith)
        requires
            b >= 1,
    ;
}

/// From 2^66 up to the overflow, 64 bits are never enough.
proof fn lemma_saturates(num: nat, den: nat)
    requires
        den > 0,
        pow2(66) <= num / den < overflow_bound(),
    ensures
        whole_double(num, den) == Some(u64::MAX),
{
    let i = num / den;
    lemma2_to64();
    lemma2_to64_rest();
    lemma_pow2_adds(64, 2);
    lemma_two_grows(52, 66);
    lemma_top_power_bounds(i);
    let p = top_power(i);
    let k = choose|k: nat| pow2(k) == p;
    if k < 66 {
        lemma_pow2_strictly_increases(k, 66);
        lemma_pow2_unfold(66);
        lemma_two_grows(k, 65);
    }
    lemma_pow2_adds(52, (k - 52) as nat);
    let u = pow2((k - 52) as nat);
    lemma_pow2_pos((k - 52) as nat);
    lemma_div_multiples_vanish(u as int, pow2(52) as int);
    assert(u == p / pow2(52));
    let steps = i / u;
    assert(steps * u >= p) by {
        lemma_fundamental_div_mod(i as int, u as int);
        assert(steps >= pow2(52)) by {
            lemma_div_is_ordered(p as int, i as int, u as int);
            lemma_div_multiples_vanish(pow2(52) as int, u as int);
            assert(u * pow2(52) == p) by (nonlinear_arith)
                requires
                    pow2(52) * u == p,
            ;
        }
        assert(steps * u >= pow2(52) * u) by (nonlinear_arith)
            requires
                steps >= pow2(52),
                u >= 0,
        ;
    }
    assert((steps + 1) * u >= steps * u) by (nonlinear_arith)
        requires
            u >= 0,
    ;
    lemma_two_grows(66, k);
}

proof fn lemma_top_power_bounds(i: nat)
    requires
        i >= 1,
    ensures
        top_power(i) <= i < 2 * top_power(i),
        exists|k: nat| pow2(k) == top_power(i),
    decreases i,
{
    lemma2_to64();
    if i < 2 {
        assert(pow2(0) == top_power(i));
    } else {
        lemma_top_power_bounds(i / 2);
        let k = choose|k: nat| pow2(k) == top_power(i / 2);
        lemma_pow2_unfold(k + 1);
        assert(pow2(k + 1) == top_power(i));
    }
}

// ------------------------------------------------ what holds of the rounding

proof fn lemma_no_overflow(i: nat)
    requires
        i < pow2(64),
    ensures
        i < overflow_bound(),
{
    lemma_two_grows(64, 970);
    lemma_two_grows(972, 1024);
    lemma_pow2_unfold(971);
    lemma_pow2_unfold(972);
}

/// A whole number up to two to the power of 53 is a double itself, so it stays
/// what it is.
pub proof fn lemma_small_whole_numbers_stay(n: nat)
    requires
        n <= 9007199254740992,
    ensures
        whole_double(n, 1) == Some(n as u64),
{
    lemma2_to64();
    lemma2_to64_rest();
    assert(pow2(52) == 4503599627370496);
    assert(pow2(53) == 9007199254740992);
    assert(pow2(64) == 0x1_0000_0000_0000_0000);
    lemma_no_overflow(n);
    assert(n / 1 == n);
    assert(n % 1 == 0);
    if n == 0 {
        assert(0 * pow2(1075) == 0);
    } else if n < pow2(52) {
        let halves = pow2(53) / top_power(n);
        assert(0 * halves == 0);
    } else if n < pow2(53) {
        lemma_top_power(n, 52);
        assert(top_power(n) / pow2(52) == 1);
    } else {
        lemma_pow2_unfold(54);
        lemma_top_power(n, 53);
        assert(top_power(n) / pow2(52) == 2);
    }
}

/// A fraction that is whole, up to two to the power of 53, stays what it is.
pub proof fn lemma_whole_parts_stay(num: nat, den: nat)
    requires
        den > 0,
        num % den == 0,
        num / den <= 9007199254740992,
    ensures
        whole_double(num, den) == Some((num / den) as u64),
{
    let n = num / den;
    lemma2_to64();
    lemma2_to64_rest();
    assert(pow2(52) == 4503599627370496);
    assert(pow2(53) == 9007199254740992);
    assert(pow2(64) == 0x1_0000_0000_0000_0000);
    lemma_no_overflow(n);
    if n == 0 {
        assert(0 * pow2(1075) == 0);
    } else if n < pow2(52) {
        let halves = pow2(53) / top_power(n);
        assert(0 * halves == 0);
    } else if n < pow2(53) {
        lemma_top_power(n, 52);
        assert(top_power(n) / pow2(52) == 1);
        assert((n % 1) * den == 0);
        assert(2 * ((n % 1) * den + 0) == 0);
        assert(1 * den == den);
    } else {
        lemma_pow2_unfold(54);
        lemma_top_power(n, 53);
        assert(top_power(n) / pow2(52) == 2);
        assert(n % 2 == 0);
        assert((n % 2) * den == 0);
        assert(2 * den > 0);
    }
}

/// Halfway between two whole numbers, below two to the power of 52, is no whole
/// number.
pub proof fn lemma_a_half_is_not_whole(num: nat, den: nat)
    requires
        den > 0,
        num / den < 4503599627370496,
        2 * (num % den) == den,
    ensures
        whole_double(num, den) is None,
{
    lemma2_to64();
    lemma2_to64_rest();
    assert(pow2(52) == 4503599627370496);
    assert(pow2(53) == 9007199254740992);
    assert(pow2(54) == 18014398509481984);
    assert(pow2(64) == 0x1_0000_0000_0000_0000);
    let i = num / den;
    let part = num % den;
    lemma_no_overflow(i);
    assert(den - part == part);
    if i == 0 {
        lemma_two_grows(2, 1075);
        lemma_more_than_half(part, pow2(1075));
        lemma_more_than_half(part, pow2(54));
    } else {
        lemma_top_power_bounds(i);
        let t = top_power(i);
        let halves = pow2(53) / t;
        assert(halves >= 3) by {
            let k = choose|k: nat| pow2(k) == t;
            if k >= 52 {
                lemma_two_grows(52, k);
            }
            lemma_two_grows(k, 51);
            assert(t <= 2251799813685248);
            assert(9007199254740992nat / t >= 4) by (nonlinear_arith)
                requires
                    0 < t <= 2251799813685248,
            ;
        }
        lemma_more_than_half(part, halves);
    }
}

proof fn lemma_more_than_half(part: nat, times: nat)
    requires
        part > 0,
        times >= 3,
    ensures
        part * times > 2 * part,
{
    assert(part * times > 2 * part) by (nonlinear_arith)
        requires
            part > 0,
            times >= 3,
    ;
}

/// How far apart two numbers are.
pub open spec fn apart(a: int, b: int) -> int {
    if a >= b {
        a - b
    } else {
        b - a
    }
}

proof fn lemma_below(part: nat, den: nat, t: nat, i: nat)
    requires
        t > 0,
        t <= i,
        part * (pow2(53) / t) <= den,
        pow2(53) % t == 0,
    ensures
        part * pow2(53) <= i * den,
{
    let p = pow2(53);
    let h = p / t;
    lemma_fundamental_div_mod(p as int, t as int);
    assert(p == t * h);
    assert(part * (t * h) <= i * den) by (nonlinear_arith)
        requires
            part * h <= den,
            0 < t <= i,
            part >= 0,
            h >= 0,
            den >= 0,
    ;
}

proof fn lemma_power_divides(k: nat)
    requires
        k <= 53,
    ensures
        pow2(53) % pow2(k) == 0,
{
    lemma_pow2_adds(k, (53 - k) as nat);
    lemma_pow2_pos(k);
    lemma_mod_multiples_basic(pow2((53 - k) as nat) as int, pow2(k) as int);
    lemma_mul_is_commutative(pow2(k) as int, pow2((53 - k) as nat) as int);
}

/// Where a whole number is made of a fraction below two to the power of 52, it is
/// off by no more than one part in two to the power of 53.
pub proof fn lemma_rounding_is_close(num: nat, den: nat, f: u64)
    requires
        den > 0,
        num / den < pow2(52),
        whole_double(num, den) == Some(f),
        f > 0,
    ensures
        apart(num as int, f * den) * pow2(53) <= f * den,
{
    lemma2_to64();
    lemma2_to64_rest();
    assert(pow2(52) == 4503599627370496);
    assert(pow2(53) == 9007199254740992);
    assert(pow2(54) == 18014398509481984);
    let i = num / den;
    let part = num % den;
    lemma_fundamental_div_mod(num as int, den as int);
    assert(num == den * i + part);
    assert(part < den);
    lemma_mul_is_commutative(den as int, i as int);
    if i >= 1 {
        lemma_top_power_bounds(i);
        let t = top_power(i);
        let k = choose|k: nat| pow2(k) == t;
        if k > 53 {
            lemma_two_grows(54, k);
        }
        lemma_power_divides(k);
        let halves = pow2(53) / t;
        if part * halves <= den {
            lemma_below(part, den, t, i);
            assert(apart(num as int, f * den) == part);
        } else {
            let rest = (den - part) as nat;
            assert(f == i + 1);
            lemma_below(rest, den, t, i);
            assert(f * den == i * den + den) by (nonlinear_arith)
                requires
                    f == i + 1,
            ;
            assert(apart(num as int, f * den) == rest);
        }
    } else {
        assert(i == 0);
        assert(num == part) by (nonlinear_arith)
            requires
                num == i * den + part,
                i == 0,
        ;
        assert(f == 1);
        assert(1 * den == den);
        let rest = (den - part) as nat;
        assert(apart(num as int, f * den) == rest);
        assert(rest * 9007199254740992 <= den) by (nonlinear_arith)
            requires
                rest * 18014398509481984 <= den,
                rest >= 0,
        ;
    }
}

/// Above two to the power of 53 every other whole number is a double. One that is
/// not lies between two of them, and goes to the one that is a multiple of four.
pub proof fn lemma_ties_go_to_the_even_one(n: nat)
    requires
        9007199254740992 <= n < 18014398509481984,
    ensures
        n % 2 == 0 ==> whole_double(n, 1) == Some(n as u64),
        n % 4 == 1 ==> whole_double(n, 1) == Some((n - 1) as u64),
        n % 4 == 3 ==> whole_double(n, 1) == Some((n + 1) as u64),
{
    lemma2_to64();
    lemma2_to64_rest();
    assert(pow2(52) == 4503599627370496);
    assert(pow2(53) == 9007199254740992);
    assert(pow2(64) == 0x1_0000_0000_0000_0000);
    lemma_no_overflow(n);
    assert(n / 1 == n);
    assert(n % 1 == 0);
    lemma_top_power(n, 53);
    assert(top_power(n) / pow2(52) == 2);
    let steps = n / 2;
    assert(2 * ((n % 2) * 1 + 0) == 2 * (n % 2));
}

/// A number that 64 bits cannot hold becomes the largest that they can, and one
/// that no double can hold becomes none.
pub proof fn lemma_large_numbers(n: nat)
    ensures
        pow2(64) <= n && n + pow2(970) < pow2(1024) ==> whole_double(n, 1) == Some(u64::MAX),
        n + pow2(970) >= pow2(1024) ==> whole_double(n, 1) is None,
{
    assert(n / 1 == n);
    assert(n % 1 == 0);
    lemma_two_grows(970, 1024);
    if pow2(64) <= n && n + pow2(970) < pow2(1024) {
        lemma2_to64();
        lemma2_to64_rest();
        lemma_two_grows(52, 64);
        assert(n < overflow_bound());
        lemma_top_power_bounds(n);
        let t = top_power(n);
        let k = choose|k: nat| pow2(k) == t;
        if k < 64 {
            lemma_two_grows(k, 63);
            lemma_pow2_unfold(64);
        }
        lemma_pow2_adds(52, (k - 52) as nat);
        let u = t / pow2(52);
        lemma_pow2_pos(52);
        lemma_mul_is_commutative(pow2(52) as int, pow2((k - 52) as nat) as int);
        lemma_div_multiples_vanish(pow2((k - 52) as nat) as int, pow2(52) as int);
        assert(u == pow2((k - 52) as nat));
        lemma_pow2_pos((k - 52) as nat);
        let steps = n / u;
        lemma_fundamental_div_mod(n as int, u as int);
        assert(t == u * pow2(52));
        assert(steps >= pow2(52)) by (nonlinear_arith)
            requires
                n == u * steps + n % u,
                0 <= n % u < u,
                n >= u * pow2(52),
                u > 0,
        ;
        assert(steps * u >= t) by (nonlinear_arith)
            requires
                steps >= pow2(52),
                t == u * pow2(52),
                u > 0,
        ;
        assert((steps + 1) * u >= steps * u) by (nonlinear_arith)
            requires
                u >= 0,
        ;
        lemma_two_grows(64, k);
        assert(pow2(64) == 0x1_0000_0000_0000_0000);
    }
}

/// One part in many rounds to zero from two to the power of 1075 on. All but one
/// part of many round to one from two to the power of 54 on.
pub proof fn lemma_near_the_ends(den: nat)
    requires
        den > 2,
    ensures
        whole_double(1, den) == Some(0u64) <==> den >= pow2(1075),
        whole_double((den - 1) as nat, den) == Some(1u64) <==> den >= pow2(54),
{
    assert(1nat / den == 0) by {
        lemma_basic_div(1, den as int);
    }
    assert(1nat % den == 1) by {
        lemma_small_mod(1, den);
    }
    let n = (den - 1) as nat;
    assert(n / den == 0) by {
        lemma_basic_div(n as int, den as int);
    }
    assert(n % den == n) by {
        lemma_small_mod(n, den);
    }
    lemma2_to64();
    lemma2_to64_rest();
    lemma_no_overflow(0);
    assert(1 * pow2(1075) == pow2(1075));
    assert(1 * pow2(54) == pow2(54));
    lemma_two_grows(2, 1075);
    assert(n * pow2(1075) > den) by (nonlinear_arith)
        requires
            n == den - 1,
            den > 2,
            pow2(1075) >= 4,
    ;
}

} // verus!
