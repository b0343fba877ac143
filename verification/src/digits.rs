//! Long decimal numbers as rows of digits, and how a decimal fraction compares
//! with a binary one.

use vstd::arithmetic::mul::*;
use vstd::arithmetic::power::*;
use vstd::arithmetic::power2::*;
use vstd::prelude::*;

verus! {

/// Ten to a power.
pub open spec fn ten(n: nat) -> nat {
    pow(10, n) as nat
}

pub proof fn lemma_ten(n: nat)
    ensures
        ten(n) >= 1,
        ten(0) == 1,
        n > 0 ==> ten(n) == 10 * ten((n - 1) as nat),
{
    lemma_pow_positive(10, n);
    lemma_pow0(10);
    if n > 0 {
        lemma_pow_positive(10, (n - 1) as nat);
        reveal(pow);
    }
}

pub proof fn lemma_ten_adds(a: nat, b: nat)
    ensures
        ten(a + b) == ten(a) * ten(b),
{
    lemma_pow_positive(10, a);
    lemma_pow_positive(10, b);
    lemma_pow_positive(10, a + b);
    lemma_pow_adds(10, a, b);
}

/// Ten to a power is at least two to three times that power.
pub proof fn lemma_ten_over_two(n: nat)
    ensures
        ten(n) >= pow2(3 * n),
    decreases n,
{
    lemma_ten(n);
    if n == 0 {
        lemma2_to64();
    } else {
        lemma_ten_over_two((n - 1) as nat);
        lemma_pow2_adds(3, (3 * n - 3) as nat);
        lemma2_to64();
    }
}

pub proof fn lemma_two_grows(a: nat, b: nat)
    requires
        a <= b,
    ensures
        pow2(a) <= pow2(b),
{
    if a < b {
        lemma_pow2_strictly_increases(a, b);
    }
}

/// The number that a row of digits writes.
pub open spec fn value(d: Seq<u8>) -> nat
    decreases d.len(),
{
    if d.len() == 0 {
        0
    } else {
        value(d.drop_last()) * 10 + d.last() as nat
    }
}

pub open spec fn all_digits(d: Seq<u8>) -> bool {
    forall|i: int| 0 <= i < d.len() ==> #[trigger] d[i] < 10
}

pub proof fn lemma_value_bound(d: Seq<u8>)
    requires
        all_digits(d),
    ensures
        value(d) < ten(d.len()),
    decreases d.len(),
{
    lemma_ten(d.len());
    if d.len() > 0 {
        assert(all_digits(d.drop_last()));
        lemma_value_bound(d.drop_last());
    }
}

pub proof fn lemma_value_concat(a: Seq<u8>, b: Seq<u8>)
    ensures
        value(a + b) == value(a) * ten(b.len()) + value(b),
    decreases b.len(),
{
    lemma_ten(b.len());
    if b.len() == 0 {
        assert(a + b =~= a);
    } else {
        assert((a + b).drop_last() =~= a + b.drop_last());
        lemma_value_concat(a, b.drop_last());
        lemma_mul_is_associative(value(a) as int, ten((b.len() - 1) as nat) as int, 10);
    }
}

/// A row split in two.
pub proof fn lemma_value_split(d: Seq<u8>, k: int)
    requires
        0 <= k <= d.len(),
    ensures
        value(d) == value(d.take(k)) * ten((d.len() - k) as nat) + value(d.skip(k)),
{
    assert(d =~= d.take(k) + d.skip(k));
    lemma_value_concat(d.take(k), d.skip(k));
}

pub proof fn lemma_value_zeros(d: Seq<u8>)
    requires
        forall|i: int| 0 <= i < d.len() ==> d[i] == 0,
    ensures
        value(d) == 0,
    decreases d.len(),
{
    if d.len() > 0 {
        lemma_value_zeros(d.drop_last());
    }
}

/// A row that does not start with a zero is no smaller than its length says.
pub proof fn lemma_value_leading(d: Seq<u8>)
    requires
        d.len() > 0,
        d[0] >= 1,
    ensures
        value(d) >= ten((d.len() - 1) as nat),
{
    lemma_value_split(d, 1);
    assert(value(d.take(1)) >= 1) by {
        assert(d.take(1).drop_last() =~= Seq::<u8>::empty());
        assert(d.take(1).last() == d[0]);
    }
    let t = ten((d.len() - 1) as nat);
    assert(value(d.take(1)) * t >= t) by (nonlinear_arith)
        requires
            value(d.take(1)) >= 1,
            t >= 0,
    ;
}

// ------------------------------------------------------------ binary rows

/// The number that a row of 32-bit places writes, lowest place first.
pub open spec fn binary(l: Seq<u32>) -> nat
    decreases l.len(),
{
    if l.len() == 0 {
        0
    } else {
        binary(l.drop_last()) + pow2(32 * (l.len() - 1) as nat) * l.last() as nat
    }
}

pub proof fn lemma_binary_bound(l: Seq<u32>)
    ensures
        binary(l) < pow2(32 * l.len()),
    decreases l.len(),
{
    lemma2_to64();
    if l.len() > 0 {
        lemma_binary_bound(l.drop_last());
        lemma_pow2_adds(32 * (l.len() - 1) as nat, 32);
        let p = pow2(32 * (l.len() - 1) as nat);
        let x = l.last() as nat;
        assert(p + p * x <= p * 0x1_0000_0000) by (nonlinear_arith)
            requires
                x < 0x1_0000_0000,
                p >= 0,
        ;
    }
}

/// Ten times the row plus `add`, in place; what does not fit comes back.
pub fn times_ten(l: &mut Vec<u32>, add: u32) -> (carry: u32)
    requires
        add < 10,
    ensures
        final(l)@.len() == old(l)@.len(),
        binary(final(l)@) + pow2(32 * old(l)@.len()) * carry == 10 * binary(old(l)@) + add,
        carry < 10,
{
    let ghost was = l@;
    let n = l.len();
    let mut carry: u64 = add as u64;
    proof {
        lemma2_to64();
        assert(was.take(0) =~= Seq::<u32>::empty());
        assert(l@.take(0) =~= Seq::<u32>::empty());
        assert(32 * 0nat == 0);
        assert(pow2(0) * carry == carry) by (nonlinear_arith)
            requires
                pow2(0) == 1,
        ;
    }
    for i in 0..n
        invariant
            n == was.len(),
            l@.len() == was.len(),
            carry < 10,
            forall|k: int| i <= k < n ==> l@[k] == was[k],
            binary(l@.take(i as int)) + pow2(32 * i as nat) * carry == 10 * binary(
                was.take(i as int),
            ) + add,
    {
        let x: u64 = l[i] as u64 * 10 + carry;
        let low: u32 = (x % 0x1_0000_0000) as u32;
        let ghost p = pow2(32 * i as nat);
        let ghost c = carry;
        carry = x / 0x1_0000_0000;
        let ghost before = l@;
        l.set(i, low);
        proof {
            lemma2_to64();
            lemma_pow2_adds(32 * i as nat, 32);
            assert(32 * i as nat + 32 == 32 * (i + 1) as nat);
            assert(l@.take(i + 1).drop_last() =~= before.take(i as int));
            assert(was.take(i + 1).drop_last() =~= was.take(i as int));
            let w = was[i as int];
            assert(p * low + (p * 0x1_0000_0000) * carry == 10 * (p * w) + p * c) by (nonlinear_arith)
                requires
                    low + 0x1_0000_0000 * carry == w * 10 + c,
            ;
        }
    }
    assert(l@.take(n as int) =~= l@);
    assert(was.take(n as int) =~= was);
    carry as u32
}

/// How one number stands to another.
#[derive(Clone, Copy, PartialEq, Eq, Structural)]
pub enum Side {
    Below,
    Equal,
    Above,
}

pub open spec fn side(a: int, b: int) -> Side {
    if a < b {
        Side::Below
    } else if a == b {
        Side::Equal
    } else {
        Side::Above
    }
}

/// How the decimal fraction with the digits from `from` on stands to the
/// binary fraction with the places of `mark`.
pub fn compare_fraction(d: &Vec<u8>, from: usize, mark: Vec<u32>) -> (s: Side)
    requires
        from <= d@.len(),
        all_digits(d@),
    ensures
        s == side(
            (value(d@.skip(from as int)) * pow2(32 * mark@.len())) as int,
            (binary(mark@) * ten((d@.len() - from) as nat)) as int,
        ),
{
    let ghost first = mark@;
    let mut row = mark;
    let ghost b = pow2(32 * row@.len());
    let ghost n = row@.len();
    let mut at: usize = from;
    let ghost want = side(
        (value(d@.skip(from as int)) * b) as int,
        (binary(row@) * ten((d@.len() - from) as nat)) as int,
    );
    while at < d.len()
        invariant
            from <= at <= d@.len(),
            all_digits(d@),
            row@.len() == n,
            b == pow2(32 * n),
            first == mark@,
            n == mark@.len(),
            want == side(
                (value(d@.skip(from as int)) * b) as int,
                (binary(first) * ten((d@.len() - from) as nat)) as int,
            ),
            want == side(
                (value(d@.skip(at as int)) * b) as int,
                (binary(row@) * ten((d@.len() - at) as nat)) as int,
            ),
        decreases d@.len() - at,
    {
        let ghost t0 = binary(row@);
        let ghost rest = d@.skip(at as int);
        let carry = times_ten(&mut row, 0);
        proof {
            let r1 = value(d@.skip(at + 1));
            let t1 = binary(row@);
            let m = (d@.len() - at - 1) as nat;
            let dig = d@[at as int] as nat;
            let c = carry as nat;
            lemma_value_split(rest, 1);
            assert(rest.skip(1) =~= d@.skip(at + 1));
            assert(rest.take(1).drop_last() =~= Seq::<u8>::empty());
            assert(rest.take(1).last() == dig);
            assert(value(rest.take(1)) == dig) by {
                assert(value(rest.take(1).drop_last()) == 0);
            }
            assert(all_digits(d@.skip(at + 1)));
            lemma_value_bound(d@.skip(at + 1));
            lemma_binary_bound(row@);
            lemma_ten((m + 1) as nat);
            lemma_step(dig, c, r1, t1, t0, b, ten(m));
        }
        if d[at] < carry as u8 {
            return Side::Below;
        }
        if d[at] > carry as u8 {
            return Side::Above;
        }
        at = at + 1;
    }
    proof {
        lemma_ten(0);
        assert(d@.skip(at as int) =~= Seq::<u8>::empty());
        let v = value(d@.skip(at as int));
        assert(v == 0);
        assert(v * b == 0) by (nonlinear_arith)
            requires
                v == 0,
        ;
        let one = ten((d@.len() - at) as nat);
        assert(one == 1);
        assert(binary(row@) * one == binary(row@)) by (nonlinear_arith)
            requires
                one == 1,
        ;
    }
    let mut i: usize = 0;
    while i < row.len()
        invariant
            i <= row@.len(),
            forall|k: int| 0 <= k < i ==> row@[k] == 0,
            want == side(
                (value(d@.skip(from as int)) * pow2(32 * mark@.len())) as int,
                (binary(mark@) * ten((d@.len() - from) as nat)) as int,
            ),
            want == side(0, binary(row@) as int),
        decreases row@.len() - i,
    {
        if row[i] != 0 {
            proof {
                lemma_binary_nonzero(row@, i as int);
            }
            return Side::Below;
        }
        i = i + 1;
    }
    proof {
        lemma_binary_zero(row@);
    }
    Side::Equal
}

/// One digit further on, the comparison is decided or stays the same.
proof fn lemma_step(dig: nat, c: nat, r1: nat, t1: nat, t0: nat, b: nat, m: nat)
    requires
        r1 < m,
        t1 < b,
        t1 + b * c == 10 * t0,
    ensures
        dig < c ==> side(((dig * m + r1) * b) as int, (t0 * (10 * m)) as int) == Side::Below,
        dig > c ==> side(((dig * m + r1) * b) as int, (t0 * (10 * m)) as int) == Side::Above,
        dig == c ==> side(((dig * m + r1) * b) as int, (t0 * (10 * m)) as int) == side(
            (r1 * b) as int,
            (t1 * m) as int,
        ),
{
    let left = (dig * m + r1) * b;
    let right = t0 * (10 * m);
    assert(right == t1 * m + (b * c) * m) by (nonlinear_arith)
        requires
            right == t0 * (10 * m),
            t1 + b * c == 10 * t0,
    ;
    assert(left == (dig * m) * b + r1 * b) by (nonlinear_arith)
        requires
            left == (dig * m + r1) * b,
    ;
    assert(r1 * b <= m * b - b) by (nonlinear_arith)
        requires
            r1 <= m - 1,
            b >= 0,
    ;
    assert(t1 * m <= b * m - m) by (nonlinear_arith)
        requires
            t1 <= b - 1,
            m >= 0,
    ;
    assert(m * b == b * m) by (nonlinear_arith);
    if dig < c {
        assert((dig * m) * b + m * b <= (b * c) * m) by (nonlinear_arith)
            requires
                dig + 1 <= c,
                m >= 0,
                b >= 0,
        ;
        assert(r1 * b >= 0 && t1 * m >= 0) by (nonlinear_arith);
    } else if dig > c {
        assert((b * c) * m + m * b <= (dig * m) * b) by (nonlinear_arith)
            requires
                c + 1 <= dig,
                m >= 0,
                b >= 0,
        ;
        assert(r1 * b >= 0 && t1 * m >= 0) by (nonlinear_arith);
    } else {
        assert((dig * m) * b == (b * c) * m) by (nonlinear_arith)
            requires
                dig == c,
        ;
    }
}

pub proof fn lemma_binary_zero(l: Seq<u32>)
    requires
        forall|k: int| 0 <= k < l.len() ==> l[k] == 0,
    ensures
        binary(l) == 0,
    decreases l.len(),
{
    if l.len() > 0 {
        lemma_binary_zero(l.drop_last());
    }
}

proof fn lemma_binary_nonzero(l: Seq<u32>, i: int)
    requires
        0 <= i < l.len(),
        l[i] != 0,
    ensures
        binary(l) > 0,
    decreases l.len(),
{
    let p = pow2(32 * (l.len() - 1) as nat);
    lemma_pow2_pos(32 * (l.len() - 1) as nat);
    if i == l.len() - 1 {
        assert(p * l.last() > 0) by (nonlinear_arith)
            requires
                p > 0,
                l.last() > 0,
        ;
    } else {
        lemma_binary_nonzero(l.drop_last(), i);
    }
}

} // verus!
