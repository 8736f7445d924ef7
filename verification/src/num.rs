//! Euclidean division on signed integers, and the smaller and larger of two numbers.

use vstd::prelude::*;

verus! {

/// The smaller of two numbers.
pub open spec fn least(a: int, b: int) -> int {
    if a <= b {
        a
    } else {
        b
    }
}

/// The larger of two numbers.
pub open spec fn greatest(a: int, b: int) -> int {
    if a >= b {
        a
    } else {
        b
    }
}

/// The quotient rounded down.
pub fn floor_div(a: i64, b: i64) -> (r: i64)
    requires
        b > 0,
    ensures
        r == a as int / b as int,
        a >= 0 ==> 0 <= r <= a,
        a < 0 ==> a <= r < 0,
{
    if a >= 0 {
        let q: i64 = a / b;
        assert(0 <= q <= a) by (nonlinear_arith)
            requires
                q == a as int / b as int,
                a >= 0,
                b > 0,
        ;
        q
    } else {
        let c: i64 = -(a + 1);
        let q: i64 = c / b;
        assert(0 <= q <= c) by (nonlinear_arith)
            requires
                q == c as int / b as int,
                c >= 0,
                b > 0,
        ;
        assert(-q - 1 == a as int / b as int) by (nonlinear_arith)
            requires
                q == c as int / b as int,
                c == -(a + 1),
                b > 0,
        ;
        -q - 1
    }
}

/// The remainder that is never negative.
pub fn floor_rem(a: i64, b: i64) -> (r: i64)
    requires
        b > 0,
    ensures
        r == a as int % b as int,
        0 <= r < b,
{
    let q: i64 = floor_div(a, b);
    proof {
        vstd::arithmetic::div_mod::lemma_fundamental_div_mod(a as int, b as int);
        vstd::arithmetic::mul::lemma_mul_is_commutative(b as int, q as int);
        vstd::arithmetic::div_mod::lemma_mod_bound(a as int, b as int);
    }
    if a >= 0 {
        a - q * b
    } else {
        // `q * b` may lie below the range, so one `b` is added before the last one is taken off.
        assert((q + 1) * b == q * b + b) by (nonlinear_arith);
        b + (a - (q + 1) * b)
    }
}

/// The numbers in ascending order.
pub open spec fn ascending(s: Seq<u64>) -> Seq<u64> {
    s.sort_by(|a: u64, b: u64| a <= b)
}

/// Numbers that ascend and are those of `s`, each as often, are `s` in ascending order.
pub proof fn law_ascending(s: Seq<u64>, t: Seq<u64>)
    requires
        forall|i: int, j: int| 0 <= i <= j < t.len() ==> #[trigger] t[i] <= #[trigger] t[j],
        t.to_multiset() == s.to_multiset(),
    ensures
        t == ascending(s),
        t.len() == s.len(),
{
    let leq = |a: u64, b: u64| a <= b;
    assert(vstd::relations::total_ordering(leq));
    s.lemma_sort_by_ensures(leq);
    assert(vstd::relations::sorted_by(t, leq));
    vstd::seq_lib::lemma_sorted_unique(t, s.sort_by(leq), leq);
    broadcast use vstd::seq_lib::group_to_multiset_ensures;

    assert(t.to_multiset().len() == t.len());
    assert(s.to_multiset().len() == s.len());
}

/// The numbers in ascending order.
pub fn sorted(v: &Vec<u64>) -> (r: Vec<u64>)
    ensures
        r@ == ascending(v@),
        r.len() == v.len(),
{
    let mut out: Vec<u64> = Vec::new();
    let mut i: usize = 0;
    assert(v@.take(0) =~= Seq::<u64>::empty());
    while i < v.len()
        invariant
            i <= v.len(),
            out.len() == i,
            out@.to_multiset() == v@.take(i as int).to_multiset(),
            forall|a: int, b: int|
                0 <= a <= b < out.len() ==> #[trigger] out@[a] <= #[trigger] out@[b],
        decreases v.len() - i,
    {
        let x: u64 = v[i];
        let mut at: usize = out.len();
        while at > 0 && out[at - 1] > x
            invariant
                at <= out.len(),
                forall|a: int| at <= a < out.len() ==> #[trigger] out@[a] > x,
            decreases at,
        {
            at -= 1;
        }
        let ghost before = out@;
        out.insert(at, x);
        proof {
            broadcast use vstd::seq_lib::group_to_multiset_ensures;

            assert(v@.take(i + 1) =~= v@.take(i as int).push(x));
            assert(out@ =~= before.insert(at as int, x));
            assert forall|a: int, b: int| 0 <= a <= b < out.len() implies #[trigger] out@[a]
                <= #[trigger] out@[b] by {
                let p = if a < at {
                    a
                } else {
                    a - 1
                };
                let q = if b < at {
                    b
                } else {
                    b - 1
                };
                if a != at && b != at {
                    assert(before[p] <= before[q]);
                } else if a == at && b != at {
                    assert(before[q] > x);
                } else if b == at && a != at {
                    assert(before[p] <= before[at - 1]);
                }
            }
        }
        i += 1;
    }
    assert(v@.take(i as int) =~= v@);
    proof {
        law_ascending(v@, out@);
    }
    out
}

} // verus!
