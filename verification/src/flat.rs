//! Sequences put one behind the other.
use vstd::prelude::*;

verus! {

/// Sequences, one behind the other.
pub open spec fn flat<T>(ss: Seq<Seq<T>>) -> Seq<T>
    decreases ss.len(),
{
    if ss.len() == 0 {
        Seq::empty()
    } else {
        flat(ss.drop_last()) + ss.last()
    }
}

/// Where sequence `k` starts among them.
pub open spec fn start_of<T>(ss: Seq<Seq<T>>, k: int) -> int {
    flat(ss.take(k)).len() as int
}

/// Element `j` of sequence `k` stands behind every sequence before it.
pub proof fn lemma_flat_at<T>(ss: Seq<Seq<T>>, k: int, j: int)
    requires
        0 <= k < ss.len(),
        0 <= j < ss[k].len(),
    ensures
        0 <= start_of(ss, k),
        start_of(ss, k) + j < flat(ss).len(),
        flat(ss)[start_of(ss, k) + j] == ss[k][j],
    decreases ss.len(),
{
    let front = ss.drop_last();
    if k == ss.len() - 1 {
        assert(ss.take(k) =~= front);
    } else {
        lemma_flat_at(front, k, j);
        assert(front.take(k) =~= ss.take(k));
        assert(front[k] == ss[k]);
    }
}

/// A sequence ends where the next one starts.
pub proof fn lemma_start_step<T>(ss: Seq<Seq<T>>, k: int)
    requires
        0 <= k < ss.len(),
    ensures
        start_of(ss, k + 1) == start_of(ss, k) + ss[k].len(),
        start_of(ss, k + 1) <= flat(ss).len(),
        start_of(ss, 0) == 0,
    decreases ss.len(),
{
    assert(ss.take(k + 1).drop_last() =~= ss.take(k));
    assert(ss.take(k + 1).last() == ss[k]);
    assert(ss.take(0) =~= Seq::<Seq<T>>::empty());
    if k == ss.len() - 1 {
        assert(ss.take(k + 1) =~= ss);
    } else {
        let front = ss.drop_last();
        lemma_start_step(front, k);
        assert(front.take(k + 1) =~= ss.take(k + 1));
    }
}

/// Which sequence an element comes from.
pub proof fn lemma_flat_from<T>(ss: Seq<Seq<T>>, i: int) -> (r: (int, int))
    requires
        0 <= i < flat(ss).len(),
    ensures
        0 <= r.0 < ss.len(),
        0 <= r.1 < ss[r.0].len(),
        i == start_of(ss, r.0) + r.1,
    decreases ss.len(),
{
    let front = ss.drop_last();
    let n = flat(front).len();
    if i >= n {
        assert(ss.take(ss.len() - 1) =~= front);
        (ss.len() - 1, i - n)
    } else {
        let (k, j) = lemma_flat_from(front, i);
        assert(front.take(k) =~= ss.take(k));
        assert(front[k] == ss[k]);
        (k, j)
    }
}

/// A run of one sequence is the same run among all.
pub proof fn lemma_flat_run<T>(ss: Seq<Seq<T>>, k: int, from: int, to: int)
    requires
        0 <= k < ss.len(),
        0 <= from <= to <= ss[k].len(),
    ensures
        0 <= start_of(ss, k),
        start_of(ss, k) + to <= flat(ss).len(),
        flat(ss).subrange(start_of(ss, k) + from, start_of(ss, k) + to) == ss[k].subrange(from, to),
{
    lemma_start_step(ss, k);
    let got = flat(ss).subrange(start_of(ss, k) + from, start_of(ss, k) + to);
    assert forall|j: int| 0 <= j < to - from implies got[j] == ss[k].subrange(from, to)[j] by {
        lemma_flat_at(ss, k, from + j);
    }
    assert(got =~= ss[k].subrange(from, to));
}

/// Lists of the same lengths start at the same places.
pub proof fn lemma_same_starts<T, U>(a: Seq<Seq<T>>, b: Seq<Seq<U>>, k: int)
    requires
        a.len() == b.len(),
        0 <= k <= a.len(),
        forall|i: int| #![trigger a[i]] 0 <= i < a.len() ==> a[i].len() == b[i].len(),
    ensures
        start_of(a, k) == start_of(b, k),
        flat(a).len() == flat(b).len(),
    decreases a.len(),
{
    if a.len() == 0 {
        assert(a.take(k) =~= a);
        assert(b.take(k) =~= b);
    } else {
        let fa = a.drop_last();
        let fb = b.drop_last();
        assert forall|i: int| #![trigger fa[i]] 0 <= i < fa.len() implies fa[i].len() == fb[i].len() by {
            assert(a[i].len() == b[i].len());
        }
        assert(a[a.len() - 1].len() == b[b.len() - 1].len());
        if k == a.len() {
            lemma_same_starts(fa, fb, k - 1);
            assert(a.take(k) =~= a);
            assert(b.take(k) =~= b);
        } else {
            lemma_same_starts(fa, fb, k);
            assert(fa.take(k) =~= a.take(k));
            assert(fb.take(k) =~= b.take(k));
        }
    }
}

/// Lists that are `w` times as long start `w` times as far.
pub proof fn lemma_scaled_starts<T, U>(a: Seq<Seq<T>>, b: Seq<Seq<U>>, w: int, k: int)
    requires
        a.len() == b.len(),
        0 <= k <= a.len(),
        forall|i: int| #![trigger a[i]] 0 <= i < a.len() ==> a[i].len() == b[i].len() * w,
    ensures
        start_of(a, k) == start_of(b, k) * w,
        flat(a).len() == flat(b).len() * w,
    decreases a.len(),
{
    if a.len() == 0 {
        assert(a.take(k) =~= a);
        assert(b.take(k) =~= b);
        assert(start_of(a, k) == 0 && start_of(b, k) == 0);
        assert(0 * w == 0) by (nonlinear_arith);
    } else {
        let fa = a.drop_last();
        let fb = b.drop_last();
        assert forall|i: int| #![trigger fa[i]] 0 <= i < fa.len() implies fa[i].len() == fb[i].len() * w by {
            assert(a[i].len() == b[i].len() * w);
        }
        assert(a[a.len() - 1].len() == b[b.len() - 1].len() * w);
        if k == a.len() {
            lemma_scaled_starts(fa, fb, w, k - 1);
            assert(a.take(k) =~= a);
            assert(b.take(k) =~= b);
            assert(start_of(b, k) == flat(b).len());
        } else {
            lemma_scaled_starts(fa, fb, w, k);
            assert(fa.take(k) =~= a.take(k));
            assert(fb.take(k) =~= b.take(k));
        }
        let x = flat(fb).len() as int;
        let y = b.last().len() as int;
        assert((x + y) * w == x * w + y * w) by (nonlinear_arith);
        assert(flat(b).len() == x + y);
    }
}

/// Lists of `w` things each start at multiples of `w`.
pub proof fn lemma_even_starts<T>(ss: Seq<Seq<T>>, w: int, k: int)
    requires
        0 <= k <= ss.len(),
        forall|i: int| #![trigger ss[i]] 0 <= i < ss.len() ==> ss[i].len() == w,
    ensures
        start_of(ss, k) == k * w,
        flat(ss).len() == ss.len() * w,
    decreases ss.len(),
{
    if ss.len() == 0 {
        assert(ss.take(k) =~= ss);
        assert(0 * w == 0) by (nonlinear_arith);
    } else {
        let front = ss.drop_last();
        let n = ss.len() as int;
        assert forall|i: int| #![trigger front[i]] 0 <= i < front.len() implies front[i].len() == w by {
            assert(ss[i].len() == w);
        }
        assert(ss[n - 1].len() == w);
        assert((n - 1) * w + w == n * w) by (nonlinear_arith);
        if k == n {
            lemma_even_starts(front, w, k - 1);
            assert(ss.take(k) =~= ss);
        } else {
            lemma_even_starts(front, w, k);
            assert(front.take(k) =~= ss.take(k));
        }
    }
}

} // verus!
