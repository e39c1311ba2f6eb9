use vstd::prelude::*;

verus! {

/// `g(0) + g(1) + ... + g(n - 1)`.
pub open spec fn range_sum(n: int, g: spec_fn(int) -> int) -> int
    decreases n,
{
    if n <= 0 {
        0
    } else {
        range_sum(n - 1, g) + g(n - 1)
    }
}

/// The sum of `g` over the indices of `ks`, in the order `ks` lists them.
pub open spec fn seq_sum(ks: Seq<int>, g: spec_fn(int) -> int) -> int
    decreases ks.len(),
{
    if ks.len() == 0 {
        0
    } else {
        seq_sum(ks.drop_last(), g) + g(ks.last())
    }
}

pub open spec fn without(g: spec_fn(int) -> int, e: int) -> spec_fn(int) -> int {
    |j: int|
        if j == e {
            0
        } else {
            g(j)
        }
}

pub proof fn lemma_range_sum_agree(n: int, g1: spec_fn(int) -> int, g2: spec_fn(int) -> int)
    requires
        forall|j: int| 0 <= j < n ==> #[trigger] g1(j) == g2(j),
    ensures
        range_sum(n, g1) == range_sum(n, g2),
    decreases n,
{
    if n > 0 {
        lemma_range_sum_agree(n - 1, g1, g2);
    }
}

proof fn lemma_range_sum_without(n: int, g: spec_fn(int) -> int, e: int)
    requires
        0 <= e < n,
    ensures
        range_sum(n, g) == range_sum(n, without(g, e)) + g(e),
    decreases n,
{
    if n - 1 == e {
        lemma_range_sum_agree(n - 1, g, without(g, e));
    } else {
        lemma_range_sum_without(n - 1, g, e);
    }
}

proof fn lemma_seq_sum_agree(ks: Seq<int>, g1: spec_fn(int) -> int, g2: spec_fn(int) -> int)
    requires
        forall|i: int| 0 <= i < ks.len() ==> g1(#[trigger] ks[i]) == g2(ks[i]),
    ensures
        seq_sum(ks, g1) == seq_sum(ks, g2),
    decreases ks.len(),
{
    if ks.len() > 0 {
        lemma_seq_sum_agree(ks.drop_last(), g1, g2);
    }
}

/// Summing over any duplicate-free list of indices below `n` that names
/// every index where `g` is non-zero gives the in-order sum `range_sum(n, g)`.
pub proof fn lemma_seq_sum_covers(ks: Seq<int>, g: spec_fn(int) -> int, n: int)
    requires
        ks.no_duplicates(),
        forall|i: int| 0 <= i < ks.len() ==> 0 <= #[trigger] ks[i] < n,
        forall|j: int| 0 <= j < n && #[trigger] g(j) != 0 ==> ks.contains(j),
    ensures
        seq_sum(ks, g) == range_sum(n, g),
    decreases ks.len(),
{
    if ks.len() == 0 {
        lemma_range_sum_agree(n, g, |j: int| 0int);
        lemma_range_sum_zero(n);
    } else {
        let e = ks.last();
        let rest = ks.drop_last();
        let g2 = without(g, e);
        assert forall|i: int| 0 <= i < rest.len() implies g(#[trigger] rest[i]) == g2(rest[i]) by {
            assert(ks[i] != ks[ks.len() - 1]);
        }
        lemma_seq_sum_agree(rest, g, g2);
        assert forall|j: int| 0 <= j < n && #[trigger] g2(j) != 0 implies rest.contains(j) by {
            let i = choose|i: int| 0 <= i < ks.len() && ks[i] == j;
            assert(i != ks.len() - 1);
            assert(rest[i] == j);
        }
        lemma_seq_sum_covers(rest, g2, n);
        lemma_range_sum_without(n, g, e);
    }
}

pub proof fn lemma_range_sum_zero(n: int)
    ensures
        range_sum(n, |j: int| 0int) == 0,
    decreases n,
{
    if n > 0 {
        lemma_range_sum_zero(n - 1);
    }
}

/// Listing the indices as `f(0), ..., f(n - 1)` sums `g` composed with `f`.
pub proof fn lemma_seq_sum_listed(n: int, f: spec_fn(int) -> int, g: spec_fn(int) -> int)
    requires
        n >= 0,
    ensures
        seq_sum(Seq::new(n as nat, f), g) == range_sum(n, |j: int| g(f(j))),
    decreases n,
{
    if n > 0 {
        assert(Seq::new(n as nat, f).drop_last() == Seq::new((n - 1) as nat, f));
        lemma_seq_sum_listed(n - 1, f, g);
    }
}

/// Exchanging two positions `a` and `b` leaves the sum unchanged.
pub proof fn lemma_range_sum_swap(n: int, g: spec_fn(int) -> int, a: int, b: int)
    requires
        0 <= a < n,
        0 <= b < n,
    ensures
        range_sum(n, |j: int| g(swapped(j, a, b))) == range_sum(n, g),
{
    let f = |j: int| swapped(j, a, b);
    let ks = Seq::new(n as nat, f);
    assert(ks.no_duplicates()) by {
        assert forall|x: int, y: int| 0 <= x < ks.len() && 0 <= y < ks.len() && x != y implies ks[x]
            != ks[y] by {}
    }
    assert forall|j: int| 0 <= j < n && #[trigger] g(j) != 0 implies ks.contains(j) by {
        assert(ks[swapped(j, a, b)] == j);
    }
    lemma_seq_sum_covers(ks, g, n);
    lemma_seq_sum_listed(n, f, g);
    lemma_range_sum_agree(n, |j: int| g(f(j)), |j: int| g(swapped(j, a, b)));
}

/// Position `j` after exchanging positions `a` and `b`.
pub open spec fn swapped(j: int, a: int, b: int) -> int {
    if j == a {
        b
    } else if j == b {
        a
    } else {
        j
    }
}

} // verus!
