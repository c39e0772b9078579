//! Positional numerals: digit sequences of a bounded unsigned value in a
//! small base, and the proofs that reading digits back yields the value.
//! Identifiers and timestamps render through these, so their textual
//! round-trips reduce to the lemmas here.

use vstd::prelude::*;

verus! {

use vstd::arithmetic::div_mod::lemma_breakdown;
use vstd::arithmetic::power::pow;

broadcast use vstd::group_vstd_default;

/// Digits of `v` in base `base`, least significant first, exactly `n` digits
/// (high digits are zero when `v` is small).
pub open spec fn digits_le(v: nat, base: nat, n: nat) -> Seq<nat>
    decreases n,
{
    if n == 0 {
        Seq::empty()
    } else {
        seq![v % base] + digits_le(v / base, base, (n - 1) as nat)
    }
}

/// The number a digit sequence denotes, least significant digit first.
pub open spec fn value_le(ds: Seq<nat>, base: nat) -> nat
    decreases ds.len(),
{
    if ds.len() == 0 {
        0
    } else {
        ds[0] + base * value_le(ds.subrange(1, ds.len() as int), base)
    }
}

/// The number a digit sequence denotes, most significant digit first.
pub open spec fn value_be(ds: Seq<nat>, base: nat) -> nat
    decreases ds.len(),
{
    if ds.len() == 0 {
        0
    } else {
        base * value_be(ds.drop_last(), base) + ds.last()
    }
}

/// `digits_le` yields exactly `n` digits.
pub proof fn lemma_digits_len(v: nat, base: nat, n: nat)
    requires
        1 <= base,
    ensures
        digits_le(v, base, n).len() == n,
    decreases n,
{
    if n > 0 {
        lemma_digits_len(v / base, base, (n - 1) as nat);
    }
}

/// Every digit produced by `digits_le` is below the base.
pub proof fn lemma_digits_bounded(v: nat, base: nat, n: nat)
    requires
        1 <= base,
    ensures
        forall|i: int| 0 <= i < n ==> digits_le(v, base, n)[i] < base,
    decreases n,
{
    if n > 0 {
        lemma_digits_len(v, base, n);
        lemma_digits_len(v / base, base, (n - 1) as nat);
        lemma_digits_bounded(v / base, base, (n - 1) as nat);
        let ds = digits_le(v, base, n);
        let rest = digits_le(v / base, base, (n - 1) as nat);
        assert forall|i: int| 0 <= i < n implies ds[i] < base by {
            if i > 0 {
                assert(ds[i] == rest[i - 1]);
            }
        }
    }
}

/// Reading the `n` low digits of `v` back gives `v` modulo `base^n`.
pub proof fn lemma_digits_value(v: nat, base: nat, n: nat)
    requires
        2 <= base,
    ensures
        value_le(digits_le(v, base, n), base) == v % (pow(base as int, n) as nat),
    decreases n,
{
    reveal(pow);
    vstd::arithmetic::power::lemma_pow_positive(base as int, n);
    if n == 0 {
        assert(v % 1nat == 0) by (nonlinear_arith);
    } else {
        let m = (n - 1) as nat;
        let p = pow(base as int, m);
        vstd::arithmetic::power::lemma_pow_positive(base as int, m);
        lemma_digits_value(v / base, base, m);
        let ds = digits_le(v, base, n);
        let rest = digits_le(v / base, base, m);
        assert(ds.subrange(1, ds.len() as int) =~= rest);
        assert(value_le(ds, base) == (v % base) + base * ((v / base) % (p as nat)));
        lemma_breakdown(v as int, base as int, p);
    }
}

/// A big-endian reading of the reversed digits is the little-endian reading.
pub proof fn lemma_value_be_reverse(ds: Seq<nat>, base: nat)
    ensures
        value_be(ds.reverse(), base) == value_le(ds, base),
    decreases ds.len(),
{
    if ds.len() > 0 {
        let tail = ds.subrange(1, ds.len() as int);
        assert(ds.reverse().drop_last() =~= tail.reverse());
        assert(ds.reverse().last() == ds[0]);
        lemma_value_be_reverse(tail, base);
    }
}

/// A sequence of in-range digits denotes a value below `base^len`.
pub proof fn lemma_value_be_bound(ds: Seq<nat>, base: nat)
    requires
        2 <= base,
        forall|i: int| 0 <= i < ds.len() ==> ds[i] < base,
    ensures
        value_be(ds, base) < pow(base as int, ds.len()),
    decreases ds.len(),
{
    reveal(pow);
    vstd::arithmetic::power::lemma_pow_positive(base as int, ds.len());
    if ds.len() > 0 {
        let head = ds.drop_last();
        let m = (ds.len() - 1) as nat;
        let p = pow(base as int, m) as nat;
        vstd::arithmetic::power::lemma_pow_positive(base as int, m);
        lemma_value_be_bound(head, base);
        assert(value_be(head, base) <= p - 1);
        assert(base * value_be(head, base) <= base * (p - 1)) by (nonlinear_arith)
            requires
                value_be(head, base) <= p - 1,
                base >= 2,
        ;
        assert(base * (p - 1) + (base - 1) < base * p) by (nonlinear_arith)
            requires
                base >= 2,
                p >= 1,
        ;
    }
}

/// The digit values of a byte sequence.
pub open spec fn byte_digits(ds: Seq<u8>) -> Seq<nat> {
    ds.map_values(|d: u8| d as nat)
}

/// Extracts exactly `n` digits of `v` in base `base`, least significant first.
pub fn digits_of(v0: u128, base: u128, n: usize) -> (r: Vec<u8>)
    requires
        2 <= base <= 16,
    ensures
        byte_digits(r@) == digits_le(v0 as nat, base as nat, n as nat),
        r.len() == n,
        forall|i: int| 0 <= i < n ==> r@[i] < base,
{
    let mut ds: Vec<u8> = Vec::new();
    let mut v: u128 = v0;
    let mut i: usize = 0;
    while i < n
        invariant
            2 <= base <= 16,
            i <= n,
            ds.len() == i,
            forall|k: int| 0 <= k < i ==> ds@[k] < base,
            digits_le(v0 as nat, base as nat, n as nat) =~= byte_digits(ds@) + digits_le(
                v as nat,
                base as nat,
                (n - i) as nat,
            ),
        decreases n - i,
    {
        let d: u8 = (v % base) as u8;
        let ghost pre = byte_digits(ds@);
        let ghost mid = digits_le(v as nat, base as nat, (n - i) as nat);
        ds.push(d);
        proof {
            assert(byte_digits(ds@) =~= pre + seq![d as nat]);
            assert(mid =~= seq![v as nat % base as nat] + digits_le(
                v as nat / base as nat,
                base as nat,
                (n - i - 1) as nat,
            ));
            assert(pre + mid =~= byte_digits(ds@) + digits_le(
                v as nat / base as nat,
                base as nat,
                (n - i - 1) as nat,
            ));
        }
        v = v / base;
        i = i + 1;
    }
    proof {
        lemma_digits_len(v0 as nat, base as nat, n as nat);
        assert(byte_digits(ds@) + digits_le(v as nat, base as nat, 0) =~= byte_digits(ds@));
    }
    ds
}

} // verus!
