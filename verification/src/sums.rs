use vstd::prelude::*;

verus! {

/// The sum of a sequence of integers.
pub open spec fn seq_sum(s: Seq<int>) -> int
    decreases s.len(),
{
    if s.len() == 0 {
        0
    } else {
        seq_sum(s.drop_last()) + s.last()
    }
}

/// The largest element of a sequence (0 for the empty sequence).
pub open spec fn seq_max(s: Seq<int>) -> int
    decreases s.len(),
{
    if s.len() == 0 {
        0
    } else if s.len() == 1 {
        s[0]
    } else {
        let m = seq_max(s.drop_last());
        if s.last() > m { s.last() } else { m }
    }
}

/// The smallest element of a sequence (0 for the empty sequence).
pub open spec fn seq_min(s: Seq<int>) -> int
    decreases s.len(),
{
    if s.len() == 0 {
        0
    } else if s.len() == 1 {
        s[0]
    } else {
        let m = seq_min(s.drop_last());
        if s.last() < m { s.last() } else { m }
    }
}

pub open spec fn abs(x: int) -> int {
    if x < 0 { -x } else { x }
}

/// Extending a prefix by one element adds that element to the sum.
pub proof fn lemma_sum_take_step(s: Seq<int>, i: int)
    requires
        0 <= i < s.len(),
    ensures
        seq_sum(s.take(i + 1)) == seq_sum(s.take(i)) + s[i],
{
    assert(s.take(i + 1).drop_last() =~= s.take(i));
}

/// Extending a non-empty prefix by one element folds that element into the maximum.
pub proof fn lemma_max_take_step(s: Seq<int>, i: int)
    requires
        1 <= i < s.len(),
    ensures
        seq_max(s.take(i + 1)) == (if s[i] > seq_max(s.take(i)) { s[i] } else { seq_max(s.take(i)) }),
        seq_min(s.take(i + 1)) == (if s[i] < seq_min(s.take(i)) { s[i] } else { seq_min(s.take(i)) }),
{
    assert(s.take(i + 1).drop_last() =~= s.take(i));
}

/// The whole sequence is its own longest prefix.
pub proof fn lemma_take_full(s: Seq<int>)
    ensures
        s.take(s.len() as int) == s,
{
    assert(s.take(s.len() as int) =~= s);
}


/// Each element between `lo` and `hi` bounds the sum by `len * lo` and `len * hi`.
pub proof fn lemma_sum_bounds(s: Seq<int>, lo: int, hi: int)
    requires
        forall|i: int| 0 <= i < s.len() ==> lo <= #[trigger] s[i] <= hi,
    ensures
        s.len() * lo <= seq_sum(s) <= s.len() * hi,
    decreases s.len(),
{
    if s.len() > 0 {
        let d = s.drop_last();
        assert forall|i: int| 0 <= i < d.len() implies lo <= #[trigger] d[i] <= hi by {
            assert(d[i] == s[i]);
        }
        lemma_sum_bounds(d, lo, hi);
        let n = s.len() as int;
        assert((n - 1) * lo + lo == n * lo && (n - 1) * hi + hi == n * hi) by (nonlinear_arith);
    }
}

/// Each element between `lo` and `hi` puts the minimum and the maximum of a
/// non-empty sequence in that range, the minimum not above the maximum.
pub proof fn lemma_extremes_bounds(s: Seq<int>, lo: int, hi: int)
    requires
        s.len() > 0,
        forall|i: int| 0 <= i < s.len() ==> lo <= #[trigger] s[i] <= hi,
    ensures
        lo <= seq_min(s) <= seq_max(s) <= hi,
    decreases s.len(),
{
    if s.len() > 1 {
        let d = s.drop_last();
        assert forall|i: int| 0 <= i < d.len() implies lo <= #[trigger] d[i] <= hi by {
            assert(d[i] == s[i]);
        }
        lemma_extremes_bounds(d, lo, hi);
    }
}

} // verus!
