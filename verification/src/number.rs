//! Numbers as JSON writes them: their grammar, and the whole number that a
//! literal stands for once it is rounded to a double.

use vstd::arithmetic::div_mod::*;
use vstd::arithmetic::power2::*;
use vstd::prelude::*;

use crate::digits::{
    all_digits, lemma_ten, lemma_ten_adds, lemma_ten_over_two, lemma_two_grows, lemma_value_bound,
    lemma_value_concat, lemma_value_leading, lemma_value_zeros, ten, value,
};
use crate::double::{
    fraction_is_nothing, lemma_a_half_is_not_whole, lemma_small_whole_numbers_stay,
    lemma_whole_parts_stay, overflow_bound, round_row, rounds_to_zero, top_power, whole_double,
};
use crate::text::{chars_of, decimal_of, is_digit, lemma_decimal_digits};

verus! {

/// The first place at or after `from` with no digit.
pub open spec fn digits_end(t: Seq<char>, from: int) -> int
    decreases t.len() - from,
{
    if 0 <= from < t.len() && is_digit(t[from]) {
        digits_end(t, from + 1)
    } else {
        from
    }
}

pub open spec fn is_sign(c: char) -> bool {
    c == '+' || c == '-'
}

/// Where the digits of a literal start, after its sign.
pub open spec fn after_sign(t: Seq<char>, from: int) -> int {
    if 0 <= from < t.len() && is_sign(t[from]) {
        from + 1
    } else {
        from
    }
}

/// Where the digits before the point end.
pub open spec fn whole_end(t: Seq<char>) -> int {
    digits_end(t, after_sign(t, 0))
}

/// Where the digits after the point start: past the point, if there is one.
pub open spec fn fraction_start(t: Seq<char>) -> int {
    let w = whole_end(t);
    if w < t.len() && t[w] == '.' {
        w + 1
    } else {
        w
    }
}

/// Where the digits after the point end.
pub open spec fn fraction_end(t: Seq<char>) -> int {
    if fraction_start(t) > whole_end(t) {
        digits_end(t, fraction_start(t))
    } else {
        whole_end(t)
    }
}

/// The digits on both sides of the point.
pub open spec fn digits(t: Seq<char>) -> Seq<char> {
    t.subrange(after_sign(t, 0), whole_end(t)) + t.subrange(fraction_start(t), fraction_end(t))
}

/// Whether an exponent fills the text from `from` to its end.
pub open spec fn exponent_at(t: Seq<char>, from: int) -> bool {
    &&& from < t.len()
    &&& t[from] == 'e' || t[from] == 'E'
    &&& after_sign(t, from + 1) < t.len()
    &&& digits_end(t, after_sign(t, from + 1)) == t.len()
}

/// A sign, digits with at most one point among them, and an exponent. The sign
/// and the exponent may be missing; a digit may not.
pub open spec fn is_literal(t: Seq<char>) -> bool {
    &&& digits(t).len() > 0
    &&& fraction_end(t) == t.len() || exponent_at(t, fraction_end(t))
}

pub proof fn lemma_digits_end(t: Seq<char>, from: int)
    requires
        0 <= from <= t.len(),
    ensures
        from <= digits_end(t, from) <= t.len(),
        forall|k: int| from <= k < digits_end(t, from) ==> is_digit(#[trigger] t[k]),
    decreases t.len() - from,
{
    if from < t.len() && is_digit(t[from]) {
        lemma_digits_end(t, from + 1);
    }
}

pub fn skip_digits(t: &Vec<char>, from: usize) -> (to: usize)
    requires
        from <= t@.len(),
    ensures
        to == digits_end(t@, from as int),
        from <= to <= t@.len(),
{
    let mut to: usize = from;
    while to < t.len() && '0' <= t[to] && t[to] <= '9'
        invariant
            from <= to <= t@.len(),
            digits_end(t@, from as int) == digits_end(t@, to as int),
        decreases t@.len() - to,
    {
        to = to + 1;
    }
    to
}

fn skip_sign(t: &Vec<char>, from: usize) -> (to: usize)
    requires
        from <= t@.len(),
    ensures
        to == after_sign(t@, from as int),
        from <= to <= t@.len(),
{
    if from < t.len() && (t[from] == '+' || t[from] == '-') {
        from + 1
    } else {
        from
    }
}

/// Where the parts of a literal stand.
pub struct Layout {
    pub start: usize,
    pub whole_end: usize,
    pub fraction_start: usize,
    pub fraction_end: usize,
}

pub open spec fn lays_out(l: Layout, t: Seq<char>) -> bool {
    &&& l.start == after_sign(t, 0)
    &&& l.whole_end == whole_end(t)
    &&& l.fraction_start == fraction_start(t)
    &&& l.fraction_end == fraction_end(t)
    &&& l.start <= l.whole_end <= l.fraction_start <= l.fraction_end <= t.len()
}

pub fn layout(t: &Vec<char>) -> (l: Layout)
    ensures
        lays_out(l, t@),
{
    let start = skip_sign(t, 0);
    let whole = skip_digits(t, start);
    if whole < t.len() && t[whole] == '.' {
        let end = skip_digits(t, whole + 1);
        Layout { start, whole_end: whole, fraction_start: whole + 1, fraction_end: end }
    } else {
        Layout { start, whole_end: whole, fraction_start: whole, fraction_end: whole }
    }
}

/// Whether a text is a number literal.
pub fn literal(t: &Vec<char>) -> (yes: bool)
    ensures
        yes == is_literal(t@),
{
    let l = layout(t);
    if l.whole_end - l.start == 0 && l.fraction_end - l.fraction_start == 0 {
        return false;
    }
    let at = l.fraction_end;
    if at == t.len() {
        return true;
    }
    if t[at] != 'e' && t[at] != 'E' {
        return false;
    }
    let from = skip_sign(t, at + 1);
    from < t.len() && skip_digits(t, from) == t.len()
}

// ----------------------------------------------------------------- the value

/// What each digit is worth.
pub open spec fn worths(t: Seq<char>) -> Seq<u8> {
    t.map_values(|c: char| ((c as u32) - 48) as u8)
}

/// The power of ten that the exponent of a literal gives.
pub open spec fn exponent(t: Seq<char>) -> int {
    let at = fraction_end(t);
    if at >= t.len() {
        0
    } else {
        let m = value(worths(t.skip(after_sign(t, at + 1))));
        if t[at + 1] == '-' {
            -m
        } else {
            m as int
        }
    }
}

/// The power of ten that the last digit of a literal stands at.
pub open spec fn scale(t: Seq<char>) -> int {
    exponent(t) - (fraction_end(t) - fraction_start(t))
}

/// A literal without its sign is `numerator / denominator`.
pub open spec fn numerator(t: Seq<char>) -> nat {
    if scale(t) >= 0 {
        value(worths(digits(t))) * ten(scale(t) as nat)
    } else {
        value(worths(digits(t)))
    }
}

pub open spec fn denominator(t: Seq<char>) -> nat {
    if scale(t) >= 0 {
        1
    } else {
        ten((-scale(t)) as nat)
    }
}

/// The whole number that a literal rounds to as a double, if it rounds to one
/// that is not negative.
pub open spec fn whole(t: Seq<char>) -> Option<u64> {
    if !is_literal(t) {
        None
    } else if t[0] == '-' {
        if rounds_to_zero(numerator(t), denominator(t)) {
            Some(0)
        } else {
            None
        }
    } else {
        whole_double(numerator(t), denominator(t))
    }
}

/// The digits of a literal without the zeros they start with.
fn significant(t: &Vec<char>, l: &Layout) -> (d: Vec<u8>)
    requires
        lays_out(*l, t@),
    ensures
        all_digits(d@),
        value(d@) == value(worths(digits(t@))),
        d@.len() > 0 ==> d@[0] >= 1,
        d@.len() <= t@.len(),
{
    let mut d: Vec<u8> = Vec::new();
    proof {
        lemma_digits_end(t@, l.start as int);
        if l.fraction_start > l.whole_end {
            lemma_digits_end(t@, l.fraction_start as int);
        }
    }
    for i in l.start..l.whole_end
        invariant
            l.start <= l.whole_end <= t@.len(),
            forall|k: int| l.start <= k < l.whole_end ==> is_digit(#[trigger] t@[k]),
            all_digits(d@),
            d@.len() <= i - l.start,
            d@.len() > 0 ==> d@[0] >= 1,
            value(d@) == value(worths(t@.subrange(l.start as int, i as int))),
    {
        let ghost had = t@.subrange(l.start as int, i as int);
        push_digit(&mut d, t[i]);
        proof {
            lemma_worths_push(had, t@[i as int]);
            assert(t@.subrange(l.start as int, i + 1) =~= had.push(t@[i as int]));
        }
    }
    let ghost head = t@.subrange(l.start as int, l.whole_end as int);
    for i in l.fraction_start..l.fraction_end
        invariant
            l.start <= l.whole_end <= l.fraction_start <= l.fraction_end <= t@.len(),
            forall|k: int| l.fraction_start <= k < l.fraction_end ==> is_digit(#[trigger] t@[k]),
            all_digits(d@),
            d@.len() <= (l.whole_end - l.start) + (i - l.fraction_start),
            d@.len() > 0 ==> d@[0] >= 1,
            value(d@) == value(worths(head + t@.subrange(l.fraction_start as int, i as int))),
    {
        let ghost had = head + t@.subrange(l.fraction_start as int, i as int);
        push_digit(&mut d, t[i]);
        proof {
            lemma_worths_push(had, t@[i as int]);
            assert(head + t@.subrange(l.fraction_start as int, i + 1) =~= had.push(t@[i as int]));
        }
    }
    proof {
        assert(head + t@.subrange(l.fraction_start as int, l.fraction_start as int) =~= head);
        assert(head + t@.subrange(l.fraction_start as int, l.fraction_end as int) =~= digits(t@));
    }
    d
}

proof fn lemma_worths_push(t: Seq<char>, c: char)
    ensures
        worths(t.push(c)) == worths(t).push(((c as u32) - 48) as u8),
        value(worths(t.push(c))) == value(worths(t)) * 10 + (((c as u32) - 48) as u8) as nat,
{
    assert(worths(t.push(c)) =~= worths(t).push(((c as u32) - 48) as u8));
    assert(worths(t.push(c)).drop_last() =~= worths(t));
}

/// Add a digit to a row that must not start with a zero.
fn push_digit(d: &mut Vec<u8>, c: char)
    requires
        is_digit(c),
        all_digits(old(d)@),
        old(d)@.len() > 0 ==> old(d)@[0] >= 1,
    ensures
        all_digits(final(d)@),
        final(d)@.len() <= old(d)@.len() + 1,
        final(d)@.len() > 0 ==> final(d)@[0] >= 1,
        value(final(d)@) == value(old(d)@) * 10 + (((c as u32) - 48) as u8) as nat,
{
    let x: u8 = (c as u8) - 48;
    if d.len() > 0 || x > 0 {
        d.push(x);
        assert(d@.drop_last() =~= old(d)@);
    }
}

/// An exponent larger than this decides the rounding by itself.
const HUGE: i128 = 1_000_000_000_000_000_000_000_000_000_000;

/// The exponent of a literal, cut off at `HUGE` either way.
fn exponent_of(t: &Vec<char>, l: &Layout) -> (e: i128)
    requires
        lays_out(*l, t@),
        is_literal(t@),
    ensures
        -HUGE <= e <= HUGE,
        -HUGE < e < HUGE ==> e == exponent(t@),
        e == HUGE ==> exponent(t@) >= HUGE,
        e == -HUGE ==> exponent(t@) <= -HUGE,
{
    let at = l.fraction_end;
    if at == t.len() {
        return 0;
    }
    let from = skip_sign(t, at + 1);
    let mut m: i128 = 0;
    proof {
        lemma_digits_end(t@, from as int);
        assert(t@.subrange(from as int, from as int) =~= Seq::<char>::empty());
        assert(worths(t@.subrange(from as int, from as int)) =~= Seq::<u8>::empty());
    }
    for i in from..t.len()
        invariant
            from <= t@.len(),
            forall|k: int| from <= k < t@.len() ==> is_digit(#[trigger] t@[k]),
            0 <= m <= HUGE,
            m < HUGE ==> m == value(worths(t@.subrange(from as int, i as int))),
            m == HUGE ==> value(worths(t@.subrange(from as int, i as int))) >= HUGE,
    {
        let ghost had = t@.subrange(from as int, i as int);
        let x: u8 = (t[i] as u8) - 48;
        m = m * 10 + x as i128;
        if m > HUGE {
            m = HUGE;
        }
        proof {
            lemma_worths_push(had, t@[i as int]);
            assert(t@.subrange(from as int, i + 1) =~= had.push(t@[i as int]));
        }
    }
    assert(t@.subrange(from as int, t@.len() as int) =~= t@.skip(from as int));
    if t[at + 1] == '-' {
        -m
    } else {
        m
    }
}

/// A row of zeros before or after a row of digits.
fn zeros(n: usize) -> (d: Vec<u8>)
    ensures
        d@.len() == n,
        all_digits(d@),
        value(d@) == 0,
        forall|i: int| 0 <= i < n ==> d@[i] == 0,
{
    let mut d: Vec<u8> = Vec::new();
    while d.len() < n
        invariant
            d@.len() <= n,
            forall|i: int| 0 <= i < d@.len() ==> d@[i] == 0,
        decreases n - d@.len(),
    {
        d.push(0);
    }
    proof {
        lemma_value_zeros(d@);
    }
    d
}

/// The whole number that a literal rounds to.
pub fn whole_number(text: &str) -> (r: Option<u64>)
    ensures
        r == whole(text@),
{
    let t = chars_of(text);
    if !literal(&t) {
        return None;
    }
    let l = layout(&t);
    let d = significant(&t, &l);
    let negative = t[0] == '-';
    let ghost v = value(d@);
    let ghost num = numerator(t@);
    let ghost den = denominator(t@);
    if d.len() == 0 {
        proof {
            lemma_nothing(t@, v);
        }
        return Some(0);
    }
    let e = exponent_of(&t, &l);
    let places: i128 = (l.fraction_end - l.fraction_start) as i128;
    let point: i128 = e - places + d.len() as i128;
    let ghost sc = scale(t@);
    if point > 400 {
        proof {
            lemma_large(d@, sc);
        }
        return None;
    }
    if point < -400 {
        proof {
            lemma_small(d@, sc);
        }
        return Some(0);
    }
    assert(sc == point - d@.len());
    if point <= 0 {
        let mut g = zeros((-point) as usize);
        let ghost pad = g@;
        let mut rest = d;
        let ghost tail = rest@;
        g.append(&mut rest);
        proof {
            assert(g@ =~= pad + tail);
            lemma_value_concat(pad, tail);
            assert(0 * ten(tail.len()) == 0) by (nonlinear_arith);
            assert(g@.len() == -sc);
            lemma_ten((-sc) as nat);
            if sc == 0 {
                assert(num * 1 == num);
            }
        }
        if negative {
            if fraction_is_nothing(&g) {
                Some(0)
            } else {
                None
            }
        } else {
            round_row(&g, 0)
        }
    } else {
        let k: usize = point as usize;
        let mut g = d;
        let ghost head = g@;
        if g.len() < k {
            let mut pad = zeros(k - g.len());
            let ghost tail = pad@;
            g.append(&mut pad);
            proof {
                assert(g@ =~= head + tail);
                lemma_value_concat(head, tail);
            }
        }
        proof {
            lemma_ten(0);
            if sc >= 0 {
                assert(g@.len() == k);
                assert(value(g@) == num) by {
                    if head.len() == k {
                        assert(value(head) * 1 == value(head));
                    }
                }
            } else {
                assert(g@ == head);
                assert((g@.len() - k) == -sc);
            }
            assert(num == value(g@));
            assert(den == ten((g@.len() - k) as nat));
        }
        if negative {
            proof {
                lemma_not_nothing(g@, k as int);
            }
            None
        } else {
            round_row(&g, k)
        }
    }
}

/// A literal whose digits are all zero rounds to zero.
proof fn lemma_nothing(t: Seq<char>, v: nat)
    requires
        v == value(worths(digits(t))),
        v == 0,
    ensures
        rounds_to_zero(numerator(t), denominator(t)),
        whole_double(numerator(t), denominator(t)) == Some(0u64),
{
    let den = denominator(t);
    if scale(t) >= 0 {
        let x = ten(scale(t) as nat);
        assert(v * x == 0) by (nonlinear_arith)
            requires
                v == 0,
        ;
    } else {
        lemma_ten((-scale(t)) as nat);
    }
    assert(numerator(t) == 0);
    assert(0 * pow2(1075) == 0) by (nonlinear_arith);
    lemma_pow2_pos(970);
    lemma_pow2_strictly_increases(970, 1024);
    lemma2_to64();
    lemma2_to64_rest();
    lemma_basic_div(0, den as int);
    lemma_small_mod(0, den);
}

/// A number with more than four hundred digits before the point overflows,
/// and is not nothing.
proof fn lemma_large(d: Seq<u8>, sc: int)
    requires
        d.len() > 0,
        d[0] >= 1,
        sc + d.len() > 400,
    ensures
        ({
            let num = if sc >= 0 { value(d) * ten(sc as nat) } else { value(d) };
            let den = if sc >= 0 { 1 } else { ten((-sc) as nat) };
            &&& num / den >= overflow_bound()
            &&& !rounds_to_zero(num, den)
        }),
{
    let num = if sc >= 0 { value(d) * ten(sc as nat) } else { value(d) };
    let den = if sc >= 0 { 1 } else { ten((-sc) as nat) };
    let p = (sc + d.len() - 1) as nat;
    lemma_value_leading(d);
    lemma_ten((d.len() - 1) as nat);
    if sc >= 0 {
        lemma_ten_adds((d.len() - 1) as nat, sc as nat);
        let a = value(d);
        let b = ten((d.len() - 1) as nat);
        let c = ten(sc as nat);
        assert(a * c >= b * c) by (nonlinear_arith)
            requires
                a >= b,
                c >= 0,
        ;
        assert(num >= ten(p) * den);
    } else {
        lemma_ten_adds(p, (-sc) as nat);
        lemma_ten((-sc) as nat);
        assert(num >= ten(p) * den);
    }
    lemma_div_is_ordered(ten(p) as int * den as int, num as int, den as int);
    lemma_div_multiples_vanish(ten(p) as int, den as int);
    assert(ten(p) * den == den * ten(p)) by (nonlinear_arith);
    lemma_ten_over_two(p);
    lemma_two_grows(1024, 3 * p);
    lemma_two_grows(1, 1024);
    lemma_two_grows(970, 1024);
    lemma2_to64();
    lemma_pow2_pos(970);
    lemma_pow2_pos(1075);
    assert(num / den >= ten(p));
    let q = pow2(1075);
    assert(num * q > den) by (nonlinear_arith)
        requires
            num >= ten(p) * den,
            ten(p) > 1,
            q >= 1,
            den >= 1,
    ;
}

/// A number whose first digit stands four hundred places after the point
/// rounds to zero.
proof fn lemma_small(d: Seq<u8>, sc: int)
    requires
        d.len() > 0,
        all_digits(d),
        sc + d.len() < -400,
    ensures
        rounds_to_zero(value(d), ten((-sc) as nat)),
        whole_double(value(d), ten((-sc) as nat)) == Some(0u64),
{
    let num = value(d);
    let den = ten((-sc) as nat);
    let z = (-sc - d.len()) as nat;
    lemma_value_bound(d);
    lemma_ten_adds(d.len(), z);
    lemma_ten_over_two(z);
    lemma_two_grows(1075, 3 * z);
    lemma_ten(d.len());
    let q = pow2(1075);
    let a = ten(d.len());
    let b = ten(z);
    assert(num * q <= a * b) by (nonlinear_arith)
        requires
            num <= a,
            q <= b,
            num >= 0,
            q >= 0,
    ;
    lemma_pow2_pos(1075);
    assert(num <= num * q) by (nonlinear_arith)
        requires
            q >= 1,
            num >= 0,
    ;
    assert(num < den) by {
        assert(a <= a * b) by (nonlinear_arith)
            requires
                b >= 1,
                a >= 0,
        ;
    }
    lemma_basic_div(num as int, den as int);
    lemma_small_mod(num, den);
    lemma_pow2_pos(970);
    lemma_pow2_strictly_increases(970, 1024);
    lemma2_to64();
    lemma2_to64_rest();
}

/// A number of one or more does not round to zero.
proof fn lemma_not_nothing(g: Seq<u8>, k: int)
    requires
        0 < k <= g.len(),
        g[0] >= 1,
    ensures
        !rounds_to_zero(value(g), ten((g.len() - k) as nat)),
{
    lemma_value_leading(g);
    lemma_ten((g.len() - k) as nat);
    lemma_ten_adds((g.len() - k) as nat, (k - 1) as nat);
    lemma_ten((k - 1) as nat);
    lemma2_to64();
    lemma_two_grows(1, 1075);
    let num = value(g);
    let den = ten((g.len() - k) as nat);
    let x = ten((k - 1) as nat);
    let q = pow2(1075);
    assert(num * q > den) by (nonlinear_arith)
        requires
            num >= den * x,
            x >= 1,
            q >= 2,
            den >= 1,
    ;
}

/// The literal for one is worth one.
pub proof fn lemma_whole_one(t: Seq<char>)
    requires
        t.len() == 1,
        t[0] == '1',
    ensures
        whole(t) == Some(1u64),
{
    assert(after_sign(t, 0) == 0);
    reveal_with_fuel(digits_end, 2);
    assert(digits(t) =~= t);
    assert(worths(t) =~= seq![1u8]);
    reveal_with_fuel(value, 2);
    assert(value(worths(t)) == 1);
    lemma_ten(0);
    lemma2_to64();
    lemma_two_grows(1, 52);
    lemma_two_grows(1, 970);
    lemma_two_grows(971, 1024);
    lemma_pow2_unfold(971);
    assert(numerator(t) == 1);
    assert(denominator(t) == 1);
    let halves = pow2(53) / top_power(1);
    assert(0 * halves == 0);
}

// --------------------------------------------------- what holds of a literal

/// Whether a text is digits alone.
pub open spec fn plain_digits(t: Seq<char>) -> bool {
    forall|i: int| 0 <= i < t.len() ==> is_digit(#[trigger] t[i])
}

proof fn lemma_digits_run(t: Seq<char>, from: int, to: int)
    requires
        0 <= from <= to <= t.len(),
        forall|i: int| from <= i < to ==> is_digit(#[trigger] t[i]),
        to == t.len() || !is_digit(t[to]),
    ensures
        digits_end(t, from) == to,
    decreases to - from,
{
    if from < to {
        assert(is_digit(t[from]));
        lemma_digits_run(t, from + 1, to);
    }
}

/// What a literal is made of, part by part.
proof fn lemma_parts_of_a_literal(a: Seq<char>, b: Seq<char>)
    requires
        plain_digits(a),
        plain_digits(b),
        a.len() > 0,
    ensures
        ({
            let t = a + seq!['.'] + b;
            &&& after_sign(t, 0) == 0
            &&& whole_end(t) == a.len()
            &&& fraction_start(t) == a.len() + 1
            &&& fraction_end(t) == t.len()
            &&& digits(t) == a + b
            &&& exponent(t) == 0
        }),
        after_sign(a, 0) == 0 && whole_end(a) == a.len() && fraction_start(a) == a.len()
            && fraction_end(a) == a.len() && digits(a) == a && exponent(a) == 0,
{
    let t = a + seq!['.'] + b;
    let n = a.len() as int;
    assert(is_digit(a[0]));
    assert(t[0] == a[0]);
    assert(t[n] == '.');
    assert forall|i: int| 0 <= i < n implies is_digit(#[trigger] t[i]) by {
        assert(t[i] == a[i]);
    }
    lemma_digits_run(t, 0, n);
    assert forall|i: int| n + 1 <= i < t.len() implies is_digit(#[trigger] t[i]) by {
        assert(t[i] == b[i - n - 1]);
    }
    lemma_digits_run(t, n + 1, t.len() as int);
    assert(t.subrange(0, n) =~= a);
    assert(t.subrange(n + 1, t.len() as int) =~= b);
    lemma_digits_run(a, 0, n);
    assert(a.subrange(0, n) + a.subrange(n, n) =~= a);
}

proof fn lemma_worth_of_decimal(n: nat)
    ensures
        plain_digits(decimal_of(n)),
        decimal_of(n).len() > 0,
        value(worths(decimal_of(n))) == n,
    decreases n,
{
    lemma_decimal_digits(n);
    let d = decimal_of(n);
    assert(plain_digits(d)) by {
        assert forall|i: int| 0 <= i < d.len() implies is_digit(#[trigger] d[i]) by {}
    }
    if n < 10 {
        assert(d =~= Seq::<char>::empty().push(d[0]));
        lemma_worths_push(seq![], d[0]);
        assert(worths(Seq::<char>::empty()) =~= seq![]);
        assert(value(worths(Seq::<char>::empty())) == 0);
        assert(d[0] as u32 == 48 + n);
    } else {
        lemma_worth_of_decimal(n / 10);
        assert(d =~= d.drop_last().push(d.last()));
        lemma_worths_push(d.drop_last(), d.last());
        assert(d.last() as u32 == 48 + n % 10);
    }
}

/// A whole number up to two to the power of 53 is read as just that number. With
/// a minus before it, it is none, but for zero.
pub proof fn lemma_whole_numbers_are_read(n: nat)
    requires
        n <= 9007199254740992,
    ensures
        whole(decimal_of(n)) == Some(n as u64),
        n > 0 ==> whole(seq!['-'] + decimal_of(n)) is None,
        n == 0 ==> whole(seq!['-'] + decimal_of(n)) == Some(0u64),
{
    let d = decimal_of(n);
    lemma_worth_of_decimal(n);
    lemma_parts_of_a_literal(d, seq![]);
    lemma_ten(0);
    assert(is_digit(d[0]));
    assert(d[0] != '-');
    assert(numerator(d) == n) by (nonlinear_arith)
        requires
            numerator(d) == n * ten(0),
            ten(0) == 1,
    ;
    assert(denominator(d) == 1);
    lemma_small_whole_numbers_stay(n);
    let t = seq!['-'] + d;
    assert forall|i: int| 1 <= i < t.len() implies is_digit(#[trigger] t[i]) by {
        assert(t[i] == d[i - 1]);
    }
    lemma_digits_run(t, 1, t.len() as int);
    assert(after_sign(t, 0) == 1);
    assert(t.subrange(1, t.len() as int) + t.subrange(t.len() as int, t.len() as int) =~= d);
    assert(digits(t) == d);
    assert(numerator(t) == n) by (nonlinear_arith)
        requires
            numerator(t) == n * ten(0),
            ten(0) == 1,
    ;
    assert(denominator(t) == 1);
    if n > 0 {
        lemma_two_grows(1, 1075);
        lemma2_to64();
        assert(n * pow2(1075) > 1) by (nonlinear_arith)
            requires
                n >= 1,
                pow2(1075) >= 2,
        ;
    } else {
        assert(0 * pow2(1075) == 0);
    }
}

/// A number with a half behind its point is no whole number.
pub proof fn lemma_a_half_is_read_as_none(n: nat)
    requires
        n < 4503599627370496,
    ensures
        whole(decimal_of(n) + seq!['.'] + seq!['5']) is None,
        is_literal(decimal_of(n) + seq!['.'] + seq!['5']),
{
    let d = decimal_of(n);
    let t = d + seq!['.'] + seq!['5'];
    lemma_worth_of_decimal(n);
    lemma_parts_of_a_literal(d, seq!['5']);
    assert(d + seq!['5'] =~= d.push('5'));
    lemma_worths_push(d, '5');
    lemma_ten(1);
    lemma_ten(0);
    assert(is_digit(d[0]));
    assert(t[0] == d[0]);
    assert(scale(t) == -1);
    assert(numerator(t) == n * 10 + 5);
    assert(denominator(t) == 10);
    lemma_a_half_is_not_whole(n * 10 + 5, 10);
}

/// A literal needs a digit. Digits, digits around or beside a point, and either
/// with an exponent behind it are literals.
pub proof fn lemma_what_literals_are(a: Seq<char>, b: Seq<char>, c: Seq<char>)
    requires
        plain_digits(a),
        plain_digits(b),
        plain_digits(c),
        a.len() > 0,
        c.len() > 0,
    ensures
        is_literal(a),
        is_literal(a + seq!['.'] + b),
        is_literal(seq!['-'] + a),
        is_literal(seq!['+'] + a),
        is_literal(a + seq!['e'] + c),
        is_literal(a + seq!['E', '-'] + c),
        !is_literal(seq![]),
        !is_literal(seq!['-']),
        !is_literal(seq!['.']),
        !is_literal(a + seq!['e']),
        !is_literal(a + seq!['-'] + c),
{
    lemma_parts_of_a_literal(a, b);
    let n = a.len() as int;
    assert(is_digit(a[0]));
    let minus = seq!['-'] + a;
    assert forall|i: int| 1 <= i < minus.len() implies is_digit(#[trigger] minus[i]) by {
        assert(minus[i] == a[i - 1]);
    }
    lemma_digits_run(minus, 1, minus.len() as int);
    let plus = seq!['+'] + a;
    assert forall|i: int| 1 <= i < plus.len() implies is_digit(#[trigger] plus[i]) by {
        assert(plus[i] == a[i - 1]);
    }
    lemma_digits_run(plus, 1, plus.len() as int);
    lemma_with_tail(a, seq!['e'] + c);
    assert(a + (seq!['e'] + c) =~= a + seq!['e'] + c);
    let small = a + seq!['e'] + c;
    assert forall|i: int| n + 1 <= i < small.len() implies is_digit(#[trigger] small[i]) by {
        assert(small[i] == c[i - n - 1]);
    }
    assert(small[n + 1] == c[0]);
    assert(is_digit(c[0]));
    lemma_digits_run(small, n + 1, small.len() as int);
    lemma_with_tail(a, seq!['E', '-'] + c);
    assert(a + (seq!['E', '-'] + c) =~= a + seq!['E', '-'] + c);
    let big = a + seq!['E', '-'] + c;
    assert forall|i: int| n + 2 <= i < big.len() implies is_digit(#[trigger] big[i]) by {
        assert(big[i] == c[i - n - 2]);
    }
    lemma_digits_run(big, n + 2, big.len() as int);
    assert(big[n] == 'E' && big[n + 1] == '-');
    lemma_with_tail(a, seq!['e']);
    lemma_with_tail(a, seq!['-'] + c);
    assert(a + (seq!['-'] + c) =~= a + seq!['-'] + c);
    assert((a + seq!['-'] + c)[n] == '-');
    reveal_with_fuel(digits_end, 2);
}

/// The digits that a text starts with are its whole part, where no digit and no
/// point follows.
proof fn lemma_with_tail(a: Seq<char>, tail: Seq<char>)
    requires
        plain_digits(a),
        a.len() > 0,
        tail.len() > 0,
        !is_digit(tail[0]),
        tail[0] != '.',
    ensures
        ({
            let t = a + tail;
            &&& after_sign(t, 0) == 0
            &&& whole_end(t) == a.len()
            &&& fraction_end(t) == a.len()
            &&& digits(t) == a
        }),
{
    let t = a + tail;
    let n = a.len() as int;
    assert(is_digit(a[0]));
    assert(t[0] == a[0]);
    assert(t[n] == tail[0]);
    assert forall|i: int| 0 <= i < n implies is_digit(#[trigger] t[i]) by {
        assert(t[i] == a[i]);
    }
    lemma_digits_run(t, 0, n);
    assert(t.subrange(0, n) + t.subrange(n, n) =~= a);
}

/// An exponent moves the point: behind `e` it multiplies by ten that often, and
/// behind `e-` it takes as many zeros off.
pub proof fn lemma_exponents_move_the_point(n: nat, k: nat)
    requires
        n * ten(k) <= 9007199254740992,
    ensures
        whole(decimal_of(n) + seq!['e'] + decimal_of(k)) == Some((n * ten(k)) as u64),
        k > 0 ==> whole(decimal_of(n * ten(k)) + seq!['e', '-'] + decimal_of(k)) == Some(n as u64),
{
    let d = decimal_of(n);
    let c = decimal_of(k);
    lemma_worth_of_decimal(n);
    lemma_worth_of_decimal(k);
    lemma_ten(k);
    let t = d + seq!['e'] + c;
    lemma_exponent_behind(d, seq!['e'], c);
    assert(exponent(t) == k);
    assert(scale(t) == k);
    assert(numerator(t) == n * ten(k));
    assert(denominator(t) == 1);
    assert(is_literal(t)) by {
        lemma_what_literals_are(d, seq![], c);
    }
    assert(t[0] == d[0]);
    assert(is_digit(d[0]));
    lemma_small_whole_numbers_stay(n * ten(k));
    if k > 0 {
        let big = decimal_of(n * ten(k));
        lemma_worth_of_decimal(n * ten(k));
        let s = big + seq!['e', '-'] + c;
        lemma_exponent_behind(big, seq!['e', '-'], c);
        assert(exponent(s) == -k);
        assert(scale(s) == -k);
        assert(numerator(s) == n * ten(k));
        assert(denominator(s) == ten(k));
        assert(s[0] == big[0]);
        assert(is_digit(big[0]));
        lemma_by_the_whole(n, ten(k));
    }
}

proof fn lemma_by_the_whole(n: nat, den: nat)
    requires
        den >= 1,
        n * den <= 9007199254740992,
    ensures
        whole_double(n * den, den) == Some(n as u64),
{
    lemma_div_multiples_vanish(n as int, den as int);
    lemma_mod_multiples_basic(n as int, den as int);
    assert(n <= n * den) by (nonlinear_arith)
        requires
            den >= 1,
            n >= 0,
    ;
    lemma_whole_parts_stay(n * den, den);
}

proof fn lemma_exponent_behind(d: Seq<char>, e: Seq<char>, c: Seq<char>)
    requires
        plain_digits(d),
        plain_digits(c),
        d.len() > 0,
        c.len() > 0,
        e == seq!['e'] || e == seq!['e', '-'],
    ensures
        ({
            let t = d + e + c;
            &&& is_literal(t)
            &&& digits(t) == d
            &&& fraction_end(t) == fraction_start(t)
            &&& e.len() == 1 ==> exponent(t) == value(worths(c))
            &&& e.len() == 2 ==> exponent(t) == -value(worths(c))
        }),
{
    let t = d + e + c;
    let n = d.len() as int;
    let m = e.len() as int;
    assert(t =~= d + (e + c));
    lemma_with_tail(d, e + c);
    assert(t[n] == e[0]);
    assert(is_digit(c[0]));
    assert(t[n + m] == c[0]);
    assert forall|i: int| n + m <= i < t.len() implies is_digit(#[trigger] t[i]) by {
        assert(t[i] == c[i - n - m]);
    }
    lemma_digits_run(t, n + m, t.len() as int);
    assert(t.skip(n + m) =~= c);
    if m == 2 {
        assert(t[n + 1] == '-');
    } else {
        assert(t[n + 1] == c[0]);
    }
}

} // verus!
