//! Ranking of a population's slots by score: a stable merge sort over
//! (score, slot) keys.
use vstd::prelude::*;

verus! {

/// Slot `a` ranks ahead of slot `b`: a lower score, or an equal score and an
/// earlier slot.
pub open spec fn ranks_before(scores: Seq<u32>, a: int, b: int) -> bool {
    scores[a] < scores[b] || (scores[a] == scores[b] && a < b)
}

/// Every slot of `r` ranks ahead of every later one.
pub open spec fn sorted_by_rank(scores: Seq<u32>, r: Seq<usize>) -> bool {
    forall|i: int, j: int|
        0 <= i < j < r.len() ==> #[trigger] ranks_before(scores, r[i] as int, r[j] as int)
}

/// Every entry of `r` is a slot of `scores`.
pub open spec fn slots_in_bounds(scores: Seq<u32>, r: Seq<usize>) -> bool {
    forall|i: int| 0 <= i < r.len() ==> #[trigger] r[i] < scores.len()
}

/// `r` lists every slot of `scores` once, best (lowest) score first, equal
/// scores in slot order.
pub open spec fn is_ranking(scores: Seq<u32>, r: Seq<usize>) -> bool {
    &&& r.len() == scores.len()
    &&& slots_in_bounds(scores, r)
    &&& forall|s: usize| (s as int) < scores.len() ==> #[trigger] r.contains(s)
    &&& sorted_by_rank(scores, r)
}

pub(crate) proof fn lemma_push_contains(s: Seq<usize>, e: usize)
    ensures
        forall|x: usize| #[trigger] s.push(e).contains(x) <==> s.contains(x) || x == e,
{
    assert forall|x: usize| #[trigger] s.push(e).contains(x) <==> s.contains(x) || x == e by {
        if s.contains(x) {
            let k = choose|k: int| 0 <= k < s.len() && s[k] == x;
            assert(s.push(e)[k] == x);
        }
        if x == e {
            assert(s.push(e)[s.len() as int] == x);
        }
        if s.push(e).contains(x) {
            let k = choose|k: int| 0 <= k < s.len() + 1 && s.push(e)[k] == x;
            if k < s.len() {
                assert(s[k] == x);
            }
        }
    }
}

fn ranks_ahead(scores: &Vec<u32>, a: usize, b: usize) -> (r: bool)
    requires
        a < scores.len(),
        b < scores.len(),
    ensures
        r == ranks_before(scores@, a as int, b as int),
{
    scores[a] < scores[b] || (scores[a] == scores[b] && a < b)
}

fn merge(scores: &Vec<u32>, a: Vec<usize>, b: Vec<usize>) -> (r: Vec<usize>)
    requires
        sorted_by_rank(scores@, a@),
        sorted_by_rank(scores@, b@),
        slots_in_bounds(scores@, a@),
        slots_in_bounds(scores@, b@),
        forall|x: usize| a@.contains(x) ==> !b@.contains(x),
    ensures
        r.len() == a.len() + b.len(),
        sorted_by_rank(scores@, r@),
        slots_in_bounds(scores@, r@),
        forall|x: usize| #[trigger] r@.contains(x) <==> a@.contains(x) || b@.contains(x),
{
    let mut r: Vec<usize> = Vec::new();
    let mut i: usize = 0;
    let mut j: usize = 0;
    while i < a.len() || j < b.len()
        invariant
            i <= a.len(),
            j <= b.len(),
            r.len() == i + j,
            sorted_by_rank(scores@, a@),
            sorted_by_rank(scores@, b@),
            slots_in_bounds(scores@, a@),
            slots_in_bounds(scores@, b@),
            forall|x: usize| a@.contains(x) ==> !b@.contains(x),
            sorted_by_rank(scores@, r@),
            slots_in_bounds(scores@, r@),
            forall|x: usize|
                #[trigger] r@.contains(x) <==> a@.take(i as int).contains(x) || b@.take(
                    j as int,
                ).contains(x),
            forall|k: int|
                0 <= k < r.len() && i < a.len() ==> ranks_before(
                    scores@,
                    #[trigger] r@[k] as int,
                    a@[i as int] as int,
                ),
            forall|k: int|
                0 <= k < r.len() && j < b.len() ==> ranks_before(
                    scores@,
                    #[trigger] r@[k] as int,
                    b@[j as int] as int,
                ),
        decreases a.len() + b.len() - i - j,
    {
        let take_a = if j >= b.len() {
            true
        } else if i >= a.len() {
            false
        } else {
            ranks_ahead(scores, a[i], b[j])
        };
        let ghost old_r = r@;
        if take_a {
            let e = a[i];
            proof {
                lemma_push_contains(old_r, e);
                lemma_push_contains(a@.take(i as int), e);
                assert(a@.take(i as int + 1) =~= a@.take(i as int).push(e));
                if j < b.len() {
                    assert(a@.contains(e));
                    assert(b@[j as int] != e);
                }
            }
            r.push(e);
            i = i + 1;
            proof {
                assert forall|k: int| 0 <= k < r.len() && i < a.len() implies ranks_before(
                    scores@,
                    #[trigger] r@[k] as int,
                    a@[i as int] as int,
                ) by {
                    assert(ranks_before(scores@, a@[i - 1] as int, a@[i as int] as int));
                    if k < old_r.len() {
                        assert(r@[k] == old_r[k]);
                    }
                }
                assert forall|p: int, q: int| 0 <= p < q < r@.len() implies #[trigger] ranks_before(
                    scores@,
                    r@[p] as int,
                    r@[q] as int,
                ) by {
                    if q < old_r.len() {
                        assert(ranks_before(scores@, old_r[p] as int, old_r[q] as int));
                    } else {
                        assert(r@[p] == old_r[p]);
                    }
                }
            }
        } else {
            let e = b[j];
            proof {
                lemma_push_contains(old_r, e);
                lemma_push_contains(b@.take(j as int), e);
                assert(b@.take(j as int + 1) =~= b@.take(j as int).push(e));
                if i < a.len() {
                    assert(a@.contains(a@[i as int]));
                    assert(a@[i as int] != e);
                }
            }
            r.push(e);
            j = j + 1;
            proof {
                assert forall|k: int| 0 <= k < r.len() && j < b.len() implies ranks_before(
                    scores@,
                    #[trigger] r@[k] as int,
                    b@[j as int] as int,
                ) by {
                    assert(ranks_before(scores@, b@[j - 1] as int, b@[j as int] as int));
                    if k < old_r.len() {
                        assert(r@[k] == old_r[k]);
                    }
                }
                assert forall|p: int, q: int| 0 <= p < q < r@.len() implies #[trigger] ranks_before(
                    scores@,
                    r@[p] as int,
                    r@[q] as int,
                ) by {
                    if q < old_r.len() {
                        assert(ranks_before(scores@, old_r[p] as int, old_r[q] as int));
                    } else {
                        assert(r@[p] == old_r[p]);
                    }
                }
            }
        }
    }
    assert(a@.take(i as int) =~= a@);
    assert(b@.take(j as int) =~= b@);
    r
}

fn sort_slots(scores: &Vec<u32>, v: &Vec<usize>, lo: usize, hi: usize) -> (r: Vec<usize>)
    requires
        lo <= hi <= v.len(),
        v@.no_duplicates(),
        slots_in_bounds(scores@, v@),
    ensures
        r.len() == hi - lo,
        sorted_by_rank(scores@, r@),
        slots_in_bounds(scores@, r@),
        forall|x: usize| #[trigger] r@.contains(x) <==> v@.subrange(lo as int, hi as int).contains(x),
    decreases hi - lo,
{
    if hi - lo <= 1 {
        let mut r: Vec<usize> = Vec::new();
        if hi > lo {
            r.push(v[lo]);
        }
        assert(r@ =~= v@.subrange(lo as int, hi as int));
        r
    } else {
        let mid = lo + (hi - lo) / 2;
        let a = sort_slots(scores, v, lo, mid);
        let b = sort_slots(scores, v, mid, hi);
        proof {
            assert forall|x: usize| a@.contains(x) implies !b@.contains(x) by {
                if b@.contains(x) {
                    let p = choose|p: int| 0 <= p < mid - lo && v@.subrange(lo as int, mid as int)[p] == x;
                    let q = choose|q: int| 0 <= q < hi - mid && v@.subrange(mid as int, hi as int)[q] == x;
                    assert(v@[lo + p] == v@[mid + q]);
                }
            }
            assert forall|x: usize|
                v@.subrange(lo as int, hi as int).contains(x) <==> v@.subrange(lo as int, mid as int).contains(x)
                    || v@.subrange(mid as int, hi as int).contains(x) by {
                if v@.subrange(lo as int, hi as int).contains(x) {
                    let p = choose|p: int| 0 <= p < hi - lo && v@.subrange(lo as int, hi as int)[p] == x;
                    if p < mid - lo {
                        assert(v@.subrange(lo as int, mid as int)[p] == x);
                    } else {
                        assert(v@.subrange(mid as int, hi as int)[p - (mid - lo)] == x);
                    }
                }
                if v@.subrange(lo as int, mid as int).contains(x) {
                    let p = choose|p: int| 0 <= p < mid - lo && v@.subrange(lo as int, mid as int)[p] == x;
                    assert(v@.subrange(lo as int, hi as int)[p] == x);
                }
                if v@.subrange(mid as int, hi as int).contains(x) {
                    let p = choose|p: int| 0 <= p < hi - mid && v@.subrange(mid as int, hi as int)[p] == x;
                    assert(v@.subrange(lo as int, hi as int)[p + (mid - lo)] == x);
                }
            }
        }
        merge(scores, a, b)
    }
}

/// The slots `0..scores.len()` ranked by ascending score; equal scores keep
/// their slot order (a stable sort over (score, slot) pairs).
pub fn rank(scores: &Vec<u32>) -> (r: Vec<usize>)
    ensures
        is_ranking(scores@, r@),
{
    let n = scores.len();
    let mut v: Vec<usize> = Vec::new();
    let mut k: usize = 0;
    while k < n
        invariant
            k <= n,
            n == scores.len(),
            v.len() == k,
            forall|i: int| 0 <= i < k ==> #[trigger] v@[i] == i,
        decreases n - k,
    {
        v.push(k);
        k = k + 1;
    }
    assert(v@.no_duplicates());
    let r = sort_slots(scores, &v, 0, n);
    assert forall|s: usize| (s as int) < scores.len() implies #[trigger] r@.contains(s) by {
        assert(v@.subrange(0, n as int)[s as int] == s);
    }
    r
}

proof fn lemma_rankings_agree_below(scores: Seq<u32>, r1: Seq<usize>, r2: Seq<usize>, n: int)
    requires
        is_ranking(scores, r1),
        is_ranking(scores, r2),
        0 <= n <= scores.len(),
    ensures
        forall|k: int| 0 <= k < n ==> r1[k] == r2[k],
    decreases n,
{
    if n > 0 {
        lemma_rankings_agree_below(scores, r1, r2, n - 1);
        let i = n - 1;
        let a = r1[i];
        let b = r2[i];
        if a != b {
            assert(r2.contains(a));
            let j = choose|j: int| 0 <= j < r2.len() && r2[j] == a;
            if j < i {
                assert(r1[j] == a);
                assert(ranks_before(scores, r1[j] as int, r1[i] as int));
            }
            assert(ranks_before(scores, r2[i] as int, r2[j] as int));
            assert(r1.contains(b));
            let k = choose|k: int| 0 <= k < r1.len() && r1[k] == b;
            if k < i {
                assert(r2[k] == b);
                assert(ranks_before(scores, r2[k] as int, r2[i] as int));
            }
            assert(ranks_before(scores, r1[i] as int, r1[k] as int));
        }
    }
}

/// A ranking is determined by the scores: any two are the same sequence.
pub proof fn lemma_ranking_unique(scores: Seq<u32>, r1: Seq<usize>, r2: Seq<usize>)
    requires
        is_ranking(scores, r1),
        is_ranking(scores, r2),
    ensures
        r1 == r2,
{
    lemma_rankings_agree_below(scores, r1, r2, scores.len() as int);
    assert(r1 =~= r2);
}

/// A ranking lists scores in ascending order, and two slots with equal
/// scores keep the order they held before ranking (their slot order).
pub proof fn lemma_ranking_stable(scores: Seq<u32>, r: Seq<usize>)
    requires
        is_ranking(scores, r),
    ensures
        forall|i: int, j: int|
            0 <= i < j < r.len() ==> scores[r[i] as int] <= scores[r[j] as int],
        forall|i: int, j: int|
            0 <= i < j < r.len() && scores[r[i] as int] == scores[r[j] as int] ==> r[i] < r[j],
{
    assert forall|i: int, j: int| 0 <= i < j < r.len() implies scores[r[i] as int] <= scores[r[j] as int]
        && (scores[r[i] as int] == scores[r[j] as int] ==> r[i] < r[j]) by {
        assert(ranks_before(scores, r[i] as int, r[j] as int));
    }
}

/// The ranking of a list of scores (see `lemma_ranking_exists` and
/// `lemma_ranking_unique`).
pub open spec fn ranking_of(scores: Seq<u32>) -> Seq<usize> {
    choose|r: Seq<usize>| is_ranking(scores, r)
}

/// `r` ranks the slots `0..m` of `scores`.
spec fn ranks_slots_below(scores: Seq<u32>, m: nat, r: Seq<usize>) -> bool {
    &&& r.len() == m
    &&& forall|i: int| 0 <= i < r.len() ==> #[trigger] r[i] < m
    &&& forall|s: usize| (s as int) < m ==> #[trigger] r.contains(s)
    &&& sorted_by_rank(scores, r)
}

proof fn find_split(scores: Seq<u32>, r: Seq<usize>, v: u32) -> (q: int)
    requires
        sorted_by_rank(scores, r),
        slots_in_bounds(scores, r),
    ensures
        0 <= q <= r.len(),
        forall|i: int| 0 <= i < q ==> scores[#[trigger] r[i] as int] <= v,
        forall|i: int| q <= i < r.len() ==> scores[#[trigger] r[i] as int] > v,
    decreases r.len(),
{
    if r.len() == 0 {
        0
    } else if scores[r.last() as int] <= v {
        assert forall|i: int| 0 <= i < r.len() implies scores[#[trigger] r[i] as int] <= v by {
            if i < r.len() - 1 {
                assert(ranks_before(scores, r[i] as int, r[r.len() - 1] as int));
            }
        }
        r.len() as int
    } else {
        let d = r.drop_last();
        assert(sorted_by_rank(scores, d)) by {
            assert forall|i: int, j: int| 0 <= i < j < d.len() implies #[trigger] ranks_before(
                scores,
                d[i] as int,
                d[j] as int,
            ) by {
                assert(ranks_before(scores, r[i] as int, r[j] as int));
            }
        }
        let q = find_split(scores, d, v);
        assert forall|i: int| q <= i < r.len() implies scores[#[trigger] r[i] as int] > v by {
            if i < r.len() - 1 {
                assert(r[i] == d[i]);
            }
        }
        assert forall|i: int| 0 <= i < q implies scores[#[trigger] r[i] as int] <= v by {
            assert(r[i] == d[i]);
        }
        q
    }
}

proof fn ranking_below(scores: Seq<u32>, m: nat) -> (r: Seq<usize>)
    requires
        m <= scores.len(),
        m <= usize::MAX as nat + 1,
    ensures
        ranks_slots_below(scores, m, r),
    decreases m,
{
    if m == 0 {
        Seq::empty()
    } else {
        let prev = ranking_below(scores, (m - 1) as nat);
        let e = (m - 1) as usize;
        let v = scores[e as int];
        let q = find_split(scores, prev, v);
        let r = prev.insert(q, e);
        assert forall|i: int, j: int| 0 <= i < j < r.len() implies #[trigger] ranks_before(
            scores,
            r[i] as int,
            r[j] as int,
        ) by {
            if j < q {
                assert(ranks_before(scores, prev[i] as int, prev[j] as int));
            } else if j == q {
                assert(scores[prev[i] as int] <= v);
            } else if i < q {
                assert(ranks_before(scores, prev[i] as int, prev[j - 1] as int));
            } else if i == q {
                assert(scores[prev[j - 1] as int] > v);
            } else {
                assert(ranks_before(scores, prev[i - 1] as int, prev[j - 1] as int));
            }
        }
        assert forall|s: usize| (s as int) < m implies #[trigger] r.contains(s) by {
            if s == e {
                assert(r[q] == s);
            } else {
                assert(prev.contains(s));
                let k = choose|k: int| 0 <= k < prev.len() && prev[k] == s;
                if k < q {
                    assert(r[k] == s);
                } else {
                    assert(r[k + 1] == s);
                }
            }
        }
        assert forall|i: int| 0 <= i < r.len() implies #[trigger] r[i] < m by {
            if i < q {
                assert(r[i] == prev[i]);
            } else if i > q {
                assert(r[i] == prev[i - 1]);
            }
        }
        r
    }
}

/// Every list of scores that slots can number has a ranking, so
/// `ranking_of` is one.
pub proof fn lemma_ranking_exists(scores: Seq<u32>)
    requires
        scores.len() <= usize::MAX as nat + 1,
    ensures
        is_ranking(scores, ranking_of(scores)),
{
    let r = ranking_below(scores, scores.len());
    assert(is_ranking(scores, r));
}

} // verus!