//! The interval algebra: simplification, polarity-specific subtraction and
//! complement of ordered collections of intervals, and the ordered fold that
//! resolves a sequence of accepted/rejected diffs into final windows.

use vstd::prelude::*;

use crate::interval::{Interval, IntervalSubtraction};
use crate::types::TimeOfDay;

verus! {

/// A time window in which an activity is explicitly permitted.
#[derive(PartialEq, Eq, Structural, Debug, Clone, Copy)]
pub struct AcceptedInterval(pub Interval);

/// A time window in which an activity is explicitly forbidden.
#[derive(PartialEq, Eq, Structural, Debug, Clone, Copy)]
pub struct RejectedInterval(pub Interval);

/// The bare intervals under a sequence of accepted windows.
pub open spec fn accepted_ivs(s: Seq<AcceptedInterval>) -> Seq<Interval> {
    s.map_values(|a: AcceptedInterval| a.0)
}

/// The bare intervals under a sequence of rejected windows.
pub open spec fn rejected_ivs(s: Seq<RejectedInterval>) -> Seq<Interval> {
    s.map_values(|r: RejectedInterval| r.0)
}

pub open spec fn all_wf(s: Seq<Interval>) -> bool {
    forall|i: int| 0 <= i < s.len() ==> s[i].wf()
}

/// Sorted by start, ascending.
pub open spec fn sorted_by_start(s: Seq<Interval>) -> bool {
    forall|i: int, j: int| 0 <= i < j < s.len() ==> s[i].start.spec_le(s[j].start)
}

/// Insert `x` into `s` after every element whose start is at most the start
/// of `x`: the stable insertion step.
pub open spec fn insert_by_start(s: Seq<Interval>, x: Interval) -> Seq<Interval>
    decreases s.len(),
{
    if s.len() == 0 {
        seq![x]
    } else if s.last().start.spec_le(x.start) {
        s.push(x)
    } else {
        insert_by_start(s.drop_last(), x).push(s.last())
    }
}

/// Stable sort by start: insert the elements one by one, in order.
pub open spec fn sort_by_start(s: Seq<Interval>) -> Seq<Interval>
    decreases s.len(),
{
    if s.len() == 0 {
        Seq::empty()
    } else {
        insert_by_start(sort_by_start(s.drop_last()), s.last())
    }
}

/// Fold left over a sorted sequence, merging each interval into the last
/// emitted one when they intersect, else appending it.
pub open spec fn merge_fold(s: Seq<Interval>) -> Seq<Interval>
    decreases s.len(),
{
    if s.len() == 0 {
        Seq::empty()
    } else {
        let prev = merge_fold(s.drop_last());
        let x = s.last();
        if prev.len() == 0 {
            seq![x]
        } else if prev.last().spec_intersects(x) {
            prev.drop_last().push(spec_merge(prev.last(), x))
        } else {
            prev.push(x)
        }
    }
}

/// The union of two intersecting intervals.
pub open spec fn spec_merge(a: Interval, b: Interval) -> Interval {
    Interval {
        start: if a.start.spec_le(b.start) {
            a.start
        } else {
            b.start
        },
        end: if b.end.spec_le(a.end) {
            a.end
        } else {
            b.end
        },
    }
}

/// What simplification means: sort by start, then merge intersecting
/// neighbours left to right.
pub open spec fn simplify_spec(s: Seq<Interval>) -> Seq<Interval> {
    merge_fold(sort_by_start(s))
}

proof fn lemma_insert_by_start_at(s: Seq<Interval>, x: Interval, k: int)
    requires
        0 <= k <= s.len(),
        forall|m: int| k <= m < s.len() ==> !s[m].start.spec_le(x.start),
        k > 0 ==> s[k - 1].start.spec_le(x.start),
    ensures
        insert_by_start(s, x) == s.subrange(0, k).push(x) + s.subrange(k, s.len() as int),
    decreases s.len(),
{
    if s.len() == 0 {
        assert(insert_by_start(s, x) =~= s.subrange(0, k).push(x) + s.subrange(k, s.len() as int));
    } else if s.last().start.spec_le(x.start) {
        assert(k == s.len());
        assert(insert_by_start(s, x) =~= s.subrange(0, k).push(x) + s.subrange(k, s.len() as int));
    } else {
        assert(k < s.len());
        lemma_insert_by_start_at(s.drop_last(), x, k);
        assert(s.drop_last().subrange(0, k) == s.subrange(0, k));
        assert(insert_by_start(s, x) =~= s.subrange(0, k).push(x) + s.subrange(k, s.len() as int));
    }
}

proof fn lemma_insert_by_start_sorted(s: Seq<Interval>, x: Interval)
    requires
        sorted_by_start(s),
    ensures
        sorted_by_start(insert_by_start(s, x)),
        insert_by_start(s, x).len() == s.len() + 1,
        insert_by_start(s, x).to_multiset() == s.to_multiset().insert(x),
    decreases s.len(),
{
    s.to_multiset_ensures();
    if s.len() == 0 {
        seq![x].to_multiset_ensures();
        assert(seq![x] =~= Seq::empty().push(x));
        Seq::<Interval>::empty().to_multiset_ensures();
        assert(seq![x].to_multiset() == s.to_multiset().insert(x));
    } else if s.last().start.spec_le(x.start) {
        assert forall|i: int, j: int|
            0 <= i < j < s.push(x).len() implies s.push(x)[i].start.spec_le(
            s.push(x)[j].start,
        ) by {
            if j == s.len() && i < s.len() - 1 {
                assert(s[i].start.spec_le(s.last().start));
            }
        }
    } else {
        let t = s.drop_last();
        lemma_insert_by_start_sorted(t, x);
        t.to_multiset_ensures();
        let it = insert_by_start(t, x);
        it.to_multiset_ensures();
        it.push(s.last()).to_multiset_ensures();
        // Every element of `it` is either `x` or an element of `t`, whose
        // starts all precede the start of `s.last()`.
        assert forall|i: int, j: int|
            0 <= i < j < it.push(s.last()).len() implies it.push(s.last())[i].start.spec_le(
            it.push(s.last())[j].start,
        ) by {
            if j < it.len() {
            } else {
                // `it` is `t` plus `x` as a multiset; `x.start` precedes
                // `s.last().start`, and so does every start in `t`.
                assert(it.to_multiset().contains(it[i]));
                assert(it.to_multiset() == t.to_multiset().insert(x));
                if it[i] == x {
                } else {
                    assert(t.to_multiset().contains(it[i]));
                    let w = choose|w: int| 0 <= w < t.len() && t[w] == it[i];
                    assert(t[w].start.spec_le(s.last().start));
                }
            }
        }
        assert(s =~= t.push(s.last()));
        assert(s.to_multiset() == t.to_multiset().insert(s.last()));
        assert(it.push(s.last()).to_multiset() == t.to_multiset().insert(x).insert(s.last()));
        assert(t.to_multiset().insert(x).insert(s.last()) =~= t.to_multiset().insert(
            s.last(),
        ).insert(x));
    }
}

proof fn lemma_sort_by_start_sorted(s: Seq<Interval>)
    ensures
        sorted_by_start(sort_by_start(s)),
        sort_by_start(s).len() == s.len(),
        sort_by_start(s).to_multiset() == s.to_multiset(),
    decreases s.len(),
{
    s.to_multiset_ensures();
    if s.len() == 0 {
        assert(s =~= sort_by_start(s));
    } else {
        let t = s.drop_last();
        lemma_sort_by_start_sorted(t);
        t.to_multiset_ensures();
        lemma_insert_by_start_sorted(sort_by_start(t), s.last());
        assert(s =~= t.push(s.last()));
        assert(s.to_multiset() == t.to_multiset().insert(s.last()));
    }
}

/// No interval in the sequence intersects its successor.
pub open spec fn consecutive_disjoint(s: Seq<Interval>) -> bool {
    forall|i: int| 0 <= i < s.len() - 1 ==> !(#[trigger] s[i]).spec_intersects(s[i + 1])
}

/// No two intervals in the sequence intersect.
pub open spec fn pairwise_disjoint(s: Seq<Interval>) -> bool {
    forall|i: int, j: int| 0 <= i < j < s.len() ==> !s[i].spec_intersects(s[j])
}

proof fn lemma_merge_fold_props(s: Seq<Interval>)
    requires
        sorted_by_start(s),
        all_wf(s),
    ensures
        sorted_by_start(merge_fold(s)),
        all_wf(merge_fold(s)),
        consecutive_disjoint(merge_fold(s)),
        merge_fold(s).len() == 0 <==> s.len() == 0,
        s.len() > 0 ==> merge_fold(s).last().start.spec_le(s.last().start) && s.last().end.spec_le(
            merge_fold(s).last().end,
        ),
        all_nonempty(s) ==> all_nonempty(merge_fold(s)),
    decreases s.len(),
{
    if s.len() == 0 {
    } else {
        let t = s.drop_last();
        let x = s.last();
        assert(sorted_by_start(t));
        assert(all_wf(t));
        lemma_merge_fold_props(t);
        let prev = merge_fold(t);
        if prev.len() == 0 {
        } else {
            assert(t.last().start.spec_le(x.start));
            if prev.last().spec_intersects(x) {
                let m = spec_merge(prev.last(), x);
                let r = prev.drop_last().push(m);
                assert(m.start == prev.last().start);
                assert forall|i: int, j: int| 0 <= i < j < r.len() implies r[i].start.spec_le(
                    r[j].start,
                ) by {
                    if j == r.len() - 1 {
                        assert(prev[i].start.spec_le(prev.last().start));
                    }
                }
                assert forall|i: int| 0 <= i < r.len() - 1 implies !(#[trigger] r[i]).spec_intersects(
                    r[i + 1],
                ) by {
                    if i == r.len() - 2 {
                        assert(!prev[i].spec_intersects(prev[i + 1]));
                        assert(prev[i + 1] == prev.last());
                        assert(prev[i].start.spec_le(prev.last().start));
                    }
                }
                assert(all_wf(r));
            } else {
                let r = prev.push(x);
                assert forall|i: int, j: int| 0 <= i < j < r.len() implies r[i].start.spec_le(
                    r[j].start,
                ) by {
                    if j == r.len() - 1 && i < prev.len() - 1 {
                        assert(prev[i].start.spec_le(prev.last().start));
                    }
                }
                assert(consecutive_disjoint(r));
                assert(all_wf(r));
            }
        }
    }
}

/// A sorted sequence whose neighbours do not touch is already fully merged.
proof fn lemma_merge_fold_fixed(s: Seq<Interval>)
    requires
        sorted_by_start(s),
        consecutive_disjoint(s),
    ensures
        merge_fold(s) == s,
    decreases s.len(),
{
    if s.len() == 0 {
        assert(merge_fold(s) =~= s);
    } else {
        let t = s.drop_last();
        assert(sorted_by_start(t));
        assert(consecutive_disjoint(t));
        lemma_merge_fold_fixed(t);
        if t.len() == 0 {
            assert(merge_fold(s) =~= s);
        } else {
            assert(t.last() == s[s.len() - 2]);
            assert(!s[s.len() - 2].spec_intersects(s[s.len() - 1]));
            assert(merge_fold(s) =~= t.push(s.last()));
            assert(t.push(s.last()) =~= s);
        }
    }
}

/// In a sorted, neighbour-disjoint sequence of well-formed intervals, no two
/// intervals intersect at all.
pub proof fn lemma_gapped_pairwise(s: Seq<Interval>)
    requires
        sorted_by_start(s),
        all_wf(s),
        consecutive_disjoint(s),
    ensures
        pairwise_disjoint(s),
{
    assert forall|i: int, j: int| 0 <= i < j < s.len() implies !s[i].spec_intersects(s[j]) by {
        assert(!s[i].spec_intersects(s[i + 1]));
        assert(s[i].start.spec_le(s[i + 1].start));
        assert(s[i + 1].start.spec_le(s[j].start));
    }
}

/// Sorting a sequence that is already sorted leaves it unchanged.
proof fn lemma_sort_of_sorted(s: Seq<Interval>)
    requires
        sorted_by_start(s),
    ensures
        sort_by_start(s) == s,
    decreases s.len(),
{
    if s.len() == 0 {
        assert(sort_by_start(s) =~= s);
    } else {
        let t = s.drop_last();
        assert(sorted_by_start(t));
        lemma_sort_of_sorted(t);
        if t.len() == 0 {
            assert(insert_by_start(t, s.last()) =~= s);
        } else {
            assert(t.last().start.spec_le(s.last().start));
            assert(insert_by_start(t, s.last()) =~= t.push(s.last()));
            assert(t.push(s.last()) =~= s);
        }
    }
}

proof fn lemma_sort_preserves_wf(s: Seq<Interval>)
    requires
        all_wf(s),
    ensures
        all_wf(sort_by_start(s)),
        all_nonempty(s) ==> all_nonempty(sort_by_start(s)),
{
    lemma_sort_by_start_sorted(s);
    s.to_multiset_ensures();
    sort_by_start(s).to_multiset_ensures();
    assert forall|i: int|
        0 <= i < sort_by_start(s).len() implies sort_by_start(s)[i].wf() && (all_nonempty(s)
        ==> sort_by_start(s)[i].start.spec_lt(sort_by_start(s)[i].end)) by {
        let x = sort_by_start(s)[i];
        assert(sort_by_start(s).contains(x));
        assert(s.to_multiset().count(x) > 0);
        assert(s.contains(x));
        let w = choose|w: int| 0 <= w < s.len() && s[w] == x;
        assert(s[w].wf());
        if all_nonempty(s) {
            assert(s[w].start.spec_lt(s[w].end));
        }
    }
}

/// The minute `m` lies within some window of `s`, windows being half
/// open: the minute at a window's end is already outside.
pub open spec fn covers_minute(s: Seq<Interval>, m: int) -> bool {
    exists|i: int|
        0 <= i < s.len() && (#[trigger] s[i]).start.spec_minutes() <= m < s[i].end.spec_minutes()
}

proof fn lemma_covers_push(s: Seq<Interval>, x: Interval, m: int)
    ensures
        covers_minute(s.push(x), m) == (covers_minute(s, m) || (x.start.spec_minutes() <= m
            < x.end.spec_minutes())),
{
    if covers_minute(s.push(x), m) {
        let i = choose|i: int|
            0 <= i < s.push(x).len() && (#[trigger] s.push(x)[i]).start.spec_minutes() <= m
                < s.push(x)[i].end.spec_minutes();
        if i < s.len() {
            assert(s[i] == s.push(x)[i]);
        }
    }
    if covers_minute(s, m) {
        let i = choose|i: int|
            0 <= i < s.len() && (#[trigger] s[i]).start.spec_minutes() <= m
                < s[i].end.spec_minutes();
        assert(s.push(x)[i] == s[i]);
    }
    if x.start.spec_minutes() <= m < x.end.spec_minutes() {
        assert(s.push(x)[s.len() as int] == x);
    }
}

proof fn lemma_covers_multiset(a: Seq<Interval>, b: Seq<Interval>, m: int)
    requires
        a.to_multiset() == b.to_multiset(),
    ensures
        covers_minute(a, m) == covers_minute(b, m),
{
    a.to_multiset_ensures();
    b.to_multiset_ensures();
    if covers_minute(a, m) {
        let i = choose|i: int|
            0 <= i < a.len() && (#[trigger] a[i]).start.spec_minutes() <= m
                < a[i].end.spec_minutes();
        assert(a.contains(a[i]));
        assert(a.to_multiset().count(a[i]) > 0);
        assert(b.to_multiset().count(a[i]) > 0);
        assert(b.contains(a[i]));
        let w = choose|w: int| 0 <= w < b.len() && b[w] == a[i];
        assert(covers_minute(b, m));
    }
    if covers_minute(b, m) {
        let i = choose|i: int|
            0 <= i < b.len() && (#[trigger] b[i]).start.spec_minutes() <= m
                < b[i].end.spec_minutes();
        assert(b.contains(b[i]));
        assert(b.to_multiset().count(b[i]) > 0);
        assert(a.to_multiset().count(b[i]) > 0);
        assert(a.contains(b[i]));
        let w = choose|w: int| 0 <= w < a.len() && a[w] == b[i];
        assert(covers_minute(a, m));
    }
}

proof fn lemma_merge_fold_covers(s: Seq<Interval>, m: int)
    requires
        sorted_by_start(s),
        all_wf(s),
    ensures
        covers_minute(merge_fold(s), m) == covers_minute(s, m),
    decreases s.len(),
{
    if s.len() == 0 {
    } else {
        let t = s.drop_last();
        let x = s.last();
        assert(sorted_by_start(t) && all_wf(t));
        lemma_merge_fold_covers(t, m);
        lemma_merge_fold_props(t);
        let prev = merge_fold(t);
        assert(s =~= t.push(x));
        lemma_covers_push(t, x, m);
        if prev.len() == 0 {
            assert(merge_fold(s) =~= seq![x]);
            assert(merge_fold(s) =~= Seq::<Interval>::empty().push(x));
            lemma_covers_push(Seq::<Interval>::empty(), x, m);
        } else if prev.last().spec_intersects(x) {
            let merged = spec_merge(prev.last(), x);
            let last = prev.last();
            assert(last.start.spec_le(t.last().start));
            assert(t.last().start.spec_le(x.start));
            assert(merged.start == last.start);
            // The merged window covers exactly the minutes of the two
            // windows it replaces: both lie within it, and any covered
            // minute beyond the first window's end falls in the second,
            // whose start the intersection bounds by the first's end.
            assert((merged.start.spec_minutes() <= m < merged.end.spec_minutes()) == ((
            last.start.spec_minutes() <= m < last.end.spec_minutes()) || (x.start.spec_minutes()
                <= m < x.end.spec_minutes())));
            assert(prev =~= prev.drop_last().push(last));
            lemma_covers_push(prev.drop_last(), last, m);
            lemma_covers_push(prev.drop_last(), merged, m);
            assert(merge_fold(s) == prev.drop_last().push(merged));
        } else {
            assert(merge_fold(s) == prev.push(x));
            lemma_covers_push(prev, x, m);
        }
    }
}

/// Simplification neither loses nor invents covered minutes: minute by
/// minute, the union of the windows is preserved.
pub proof fn lemma_simplify_covers(s: Seq<Interval>, m: int)
    requires
        all_wf(s),
    ensures
        covers_minute(simplify_spec(s), m) == covers_minute(s, m),
{
    lemma_sort_by_start_sorted(s);
    lemma_sort_preserves_wf(s);
    lemma_covers_multiset(sort_by_start(s), s, m);
    lemma_merge_fold_covers(sort_by_start(s), m);
}

/// Simplification is idempotent, and everything it returns is sorted by
/// start, well formed, and pairwise non-intersecting.
pub proof fn lemma_simplify_idempotent(s: Seq<Interval>)
    requires
        all_wf(s),
    ensures
        simplify_spec(simplify_spec(s)) == simplify_spec(s),
        sorted_by_start(simplify_spec(s)),
        pairwise_disjoint(simplify_spec(s)),
        all_wf(simplify_spec(s)),
{
    lemma_sort_by_start_sorted(s);
    lemma_sort_preserves_wf(s);
    lemma_merge_fold_props(sort_by_start(s));
    let r = simplify_spec(s);
    lemma_gapped_pairwise(r);
    lemma_sort_of_sorted(r);
    lemma_merge_fold_fixed(r);
}

/// Stable insertion sort by interval start.
fn sort_intervals(intervals: &Vec<Interval>) -> (r: Vec<Interval>)
    ensures
        r@ == sort_by_start(intervals@),
{
    let mut out: Vec<Interval> = Vec::new();
    let mut i: usize = 0;
    while i < intervals.len()
        invariant
            i <= intervals.len(),
            out@ == sort_by_start(intervals@.subrange(0, i as int)),
        decreases intervals.len() - i,
    {
        let x = intervals[i];
        let mut k: usize = out.len();
        while k > 0 && !out[k - 1].start.le(x.start)
            invariant
                k <= out.len(),
                forall|m: int| k <= m < out.len() ==> !out@[m].start.spec_le(x.start),
            decreases k,
        {
            k -= 1;
        }
        proof {
            lemma_sort_by_start_sorted(intervals@.subrange(0, i as int));
            lemma_insert_by_start_at(out@, x, k as int);
            assert(out@.insert(k as int, x) =~= out@.subrange(0, k as int).push(x) + out@.subrange(
                k as int,
                out@.len() as int,
            ));
            assert(intervals@.subrange(0, i + 1).drop_last() =~= intervals@.subrange(0, i as int));
            assert(intervals@.subrange(0, i + 1).last() == intervals@[i as int]);
        }
        out.insert(k, x);
        i += 1;
    }
    proof {
        assert(intervals@.subrange(0, intervals@.len() as int) =~= intervals@);
    }
    out
}

/// Sort a list of intervals by start, then fold left, merging each interval
/// into the last emitted one when they intersect, else appending it.
fn simplify_intervals(intervals: &Vec<Interval>) -> (r: Vec<Interval>)
    ensures
        r@ == simplify_spec(intervals@),
{
    let sorted = sort_intervals(intervals);
    let mut out: Vec<Interval> = Vec::new();
    let mut i: usize = 0;
    while i < sorted.len()
        invariant
            i <= sorted.len(),
            out@ == merge_fold(sorted@.subrange(0, i as int)),
        decreases sorted.len() - i,
    {
        let x = sorted[i];
        proof {
            assert(sorted@.subrange(0, i + 1).drop_last() =~= sorted@.subrange(0, i as int));
            assert(sorted@.subrange(0, i + 1).last() == sorted@[i as int]);
        }
        if out.len() > 0 {
            let last = out[out.len() - 1];
            match last.merge(&x) {
                Some(m) => {
                    let _ = out.pop();
                    out.push(m);
                    proof {
                        assert(out@ =~= merge_fold(sorted@.subrange(0, i + 1)));
                    }
                },
                None => {
                    out.push(x);
                },
            }
        } else {
            out.push(x);
            proof {
                assert(out@ =~= merge_fold(sorted@.subrange(0, i + 1)));
            }
        }
        i += 1;
    }
    proof {
        assert(sorted@.subrange(0, sorted@.len() as int) =~= sorted@);
    }
    out
}

/// Length of an interval in minutes, clamped at zero for a malformed one.
pub open spec fn interval_span(a: Interval) -> int {
    if a.start.spec_le(a.end) {
        a.end.spec_minutes() - a.start.spec_minutes()
    } else {
        0
    }
}

/// The two-cursor walk over simplified accepted and rejected intervals.
/// Each step consumes an accepted interval, consumes a rejected interval,
/// or strictly shrinks the current accepted interval.
pub open spec fn walk(acc: Seq<Interval>, rej: Seq<Interval>) -> Seq<Interval>
    decreases
            acc.len() + rej.len(),
            (if acc.len() > 0 {
                interval_span(acc[0])
            } else {
                0
            }),
{
    if acc.len() == 0 {
        Seq::empty()
    } else if rej.len() == 0 {
        acc
    } else {
        match acc[0].spec_subtract(rej[0]) {
            IntervalSubtraction::Empty => walk(acc.drop_first(), rej),
            IntervalSubtraction::MissLeft(_) => walk(acc, rej.drop_first()),
            IntervalSubtraction::HitLeft(d) => walk(acc.update(0, d), rej.drop_first()),
            IntervalSubtraction::HitCenter(l, r) => seq![l] + walk(
                acc.update(0, r),
                rej.drop_first(),
            ),
            IntervalSubtraction::HitRight(d) => walk(acc.update(0, d), rej),
            IntervalSubtraction::MissRight(u) => seq![u] + walk(acc.drop_first(), rej),
        }
    }
}

/// Every window of `w` lies within some window of `acc`.
pub open spec fn covered_by(w: Seq<Interval>, acc: Seq<Interval>) -> bool {
    forall|k: int|
        0 <= k < w.len() ==> exists|i: int|
            0 <= i < acc.len() && acc[i].start.spec_le((#[trigger] w[k]).start)
                && w[k].end.spec_le(acc[i].end)
}

/// The two-cursor walk only ever carves pieces out of the accepted
/// windows: its output is well formed, sorted, neighbour-disjoint, and
/// covered by the accepted input, provided the accepted input is itself a
/// sorted neighbour-disjoint cover and every rejected window is nonempty.
#[verifier::rlimit(50)]
proof fn lemma_walk_props(acc: Seq<Interval>, rej: Seq<Interval>)
    requires
        all_wf(acc),
        sorted_by_start(acc),
        consecutive_disjoint(acc),
        all_wf(rej),
        all_nonempty(rej),
    ensures
        all_wf(walk(acc, rej)),
        sorted_by_start(walk(acc, rej)),
        consecutive_disjoint(walk(acc, rej)),
        covered_by(walk(acc, rej), acc),
    decreases
            acc.len() + rej.len(),
            (if acc.len() > 0 {
                interval_span(acc[0])
            } else {
                0
            }),
{
    if acc.len() == 0 {
    } else if rej.len() == 0 {
        assert forall|k: int|
            0 <= k < acc.len() implies exists|i: int|
                0 <= i < acc.len() && acc[i].start.spec_le((#[trigger] acc[k]).start)
                    && acc[k].end.spec_le(acc[i].end) by {
            assert(acc[k].start.spec_le(acc[k].start) && acc[k].end.spec_le(acc[k].end));
        }
    } else {
        let a0 = acc[0];
        let r0 = rej[0];
        lemma_gapped_strict(acc);
        match a0.spec_subtract(r0) {
            IntervalSubtraction::Empty => {
                let rest = acc.drop_first();
                assert(all_wf(rest) && sorted_by_start(rest) && consecutive_disjoint(rest));
                lemma_walk_props(rest, rej);
                let w = walk(rest, rej);
                assert forall|k: int|
                    0 <= k < w.len() implies exists|i: int|
                        0 <= i < acc.len() && acc[i].start.spec_le((#[trigger] w[k]).start)
                            && w[k].end.spec_le(acc[i].end) by {
                    let i0 = choose|i0: int|
                        0 <= i0 < rest.len() && rest[i0].start.spec_le(w[k].start)
                            && w[k].end.spec_le(rest[i0].end);
                    assert(acc[i0 + 1] == rest[i0]);
                }
            },
            IntervalSubtraction::MissLeft(_) => {
                assert(all_nonempty(rej.drop_first()));
                lemma_walk_props(acc, rej.drop_first());
            },
            IntervalSubtraction::HitLeft(d) => {
                let updated = acc.update(0, d);
                // Both remnant shapes lie within the original interval.
                assert(a0.start.spec_le(d.start) && d.end.spec_le(a0.end) && d.wf());
                assert(all_wf(updated));
                assert forall|i: int, j: int|
                    0 <= i < j < updated.len() implies updated[i].start.spec_le(
                    updated[j].start,
                ) by {
                    if i == 0 && j > 0 {
                        assert(a0.end.spec_lt(acc[1].start));
                        assert(acc[1].start.spec_le(acc[j].start));
                    }
                }
                assert forall|i: int|
                    0 <= i < updated.len() - 1 implies !(#[trigger] updated[i]).spec_intersects(
                    updated[i + 1],
                ) by {
                    if i == 0 {
                        assert(a0.end.spec_lt(acc[1].start));
                    }
                }
                assert(all_nonempty(rej.drop_first()));
                lemma_walk_props(updated, rej.drop_first());
                let w = walk(updated, rej.drop_first());
                assert forall|k: int|
                    0 <= k < w.len() implies exists|i: int|
                        0 <= i < acc.len() && acc[i].start.spec_le((#[trigger] w[k]).start)
                            && w[k].end.spec_le(acc[i].end) by {
                    let i0 = choose|i0: int|
                        0 <= i0 < updated.len() && updated[i0].start.spec_le(w[k].start)
                            && w[k].end.spec_le(updated[i0].end);
                    assert(acc[i0].start.spec_le(updated[i0].start));
                    assert(updated[i0].end.spec_le(acc[i0].end));
                }
            },
            IntervalSubtraction::HitCenter(l, r) => {
                let updated = acc.update(0, r);
                // The rejected window lies strictly inside, so the left
                // remnant ends before the right remnant starts.
                assert(a0.start.spec_le(l.start) && l.end.spec_le(r.start) && r.end.spec_le(
                    a0.end,
                ));
                assert(l.wf() && r.wf());
                assert(r0.start.spec_lt(r0.end));
                assert(l.end.spec_lt(r.start));
                assert(all_wf(updated));
                assert forall|i: int, j: int|
                    0 <= i < j < updated.len() implies updated[i].start.spec_le(
                    updated[j].start,
                ) by {
                    if i == 0 && j > 0 {
                        assert(a0.end.spec_lt(acc[1].start));
                        assert(acc[1].start.spec_le(acc[j].start));
                    }
                }
                assert forall|i: int|
                    0 <= i < updated.len() - 1 implies !(#[trigger] updated[i]).spec_intersects(
                    updated[i + 1],
                ) by {
                    if i == 0 {
                        assert(a0.end.spec_lt(acc[1].start));
                    }
                }
                assert(all_nonempty(rej.drop_first()));
                lemma_walk_props(updated, rej.drop_first());
                let w1 = walk(updated, rej.drop_first());
                let w = seq![l] + w1;
                // Every piece of the recursive walk starts after the left
                // remnant ends: it lies either in the right remnant, which
                // starts at the rejected window's end, or in a later
                // accepted window, which starts after the whole of `a0`.
                assert forall|k: int| 0 <= k < w1.len() implies l.end.spec_lt(
                    (#[trigger] w1[k]).start,
                ) && !l.spec_intersects(w1[k]) by {
                    let i0 = choose|i0: int|
                        0 <= i0 < updated.len() && updated[i0].start.spec_le(w1[k].start)
                            && w1[k].end.spec_le(updated[i0].end);
                    if i0 == 0 {
                        assert(r.start.spec_le(w1[k].start));
                    } else {
                        assert(acc[1].start.spec_le(updated[i0].start));
                        assert(a0.end.spec_lt(acc[1].start));
                        assert(l.end.spec_le(a0.end));
                    }
                    assert(l.start.spec_le(l.end));
                }
                assert forall|i: int, j: int|
                    0 <= i < j < w.len() implies w[i].start.spec_le(w[j].start) by {
                    if i == 0 {
                        assert(l.end.spec_lt(w1[j - 1].start));
                        assert(l.start.spec_le(l.end));
                    } else {
                        assert(w1[i - 1].start.spec_le(w1[j - 1].start));
                    }
                }
                assert forall|i: int|
                    0 <= i < w.len() - 1 implies !(#[trigger] w[i]).spec_intersects(w[i + 1]) by {
                    if i == 0 {
                        assert(!l.spec_intersects(w1[0]));
                    } else {
                        assert(!w1[i - 1].spec_intersects(w1[i]));
                    }
                }
                assert(all_wf(w));
                assert forall|k: int|
                    0 <= k < w.len() implies exists|i: int|
                        0 <= i < acc.len() && acc[i].start.spec_le((#[trigger] w[k]).start)
                            && w[k].end.spec_le(acc[i].end) by {
                    if k == 0 {
                        assert(acc[0].start.spec_le(l.start) && l.end.spec_le(acc[0].end));
                    } else {
                        let i0 = choose|i0: int|
                            0 <= i0 < updated.len() && updated[i0].start.spec_le(w1[k - 1].start)
                                && w1[k - 1].end.spec_le(updated[i0].end);
                        assert(acc[i0].start.spec_le(updated[i0].start));
                        assert(updated[i0].end.spec_le(acc[i0].end));
                        assert(w[k] == w1[k - 1]);
                    }
                }
            },
            IntervalSubtraction::HitRight(_) => {
                assert(false);
            },
            IntervalSubtraction::MissRight(u) => {
                let rest = acc.drop_first();
                assert(all_wf(rest) && sorted_by_start(rest) && consecutive_disjoint(rest));
                lemma_walk_props(rest, rej);
                let w1 = walk(rest, rej);
                let w = seq![u] + w1;
                assert(u == a0);
                assert forall|k: int| 0 <= k < w1.len() implies u.end.spec_lt(
                    (#[trigger] w1[k]).start,
                ) && !u.spec_intersects(w1[k]) by {
                    let i0 = choose|i0: int|
                        0 <= i0 < rest.len() && rest[i0].start.spec_le(w1[k].start)
                            && w1[k].end.spec_le(rest[i0].end);
                    assert(rest[i0] == acc[i0 + 1]);
                    assert(acc[1].start.spec_le(acc[i0 + 1].start));
                    assert(a0.end.spec_lt(acc[1].start));
                    assert(u.start.spec_le(u.end));
                }
                assert forall|i: int, j: int|
                    0 <= i < j < w.len() implies w[i].start.spec_le(w[j].start) by {
                    if i == 0 {
                        assert(u.end.spec_lt(w1[j - 1].start));
                        assert(u.start.spec_le(u.end));
                    } else {
                        assert(w1[i - 1].start.spec_le(w1[j - 1].start));
                    }
                }
                assert forall|i: int|
                    0 <= i < w.len() - 1 implies !(#[trigger] w[i]).spec_intersects(w[i + 1]) by {
                    if i == 0 {
                        assert(!u.spec_intersects(w1[0]));
                    } else {
                        assert(!w1[i - 1].spec_intersects(w1[i]));
                    }
                }
                assert(all_wf(w));
                assert forall|k: int|
                    0 <= k < w.len() implies exists|i: int|
                        0 <= i < acc.len() && acc[i].start.spec_le((#[trigger] w[k]).start)
                            && w[k].end.spec_le(acc[i].end) by {
                    if k == 0 {
                        assert(acc[0].start.spec_le(u.start) && u.end.spec_le(acc[0].end));
                    } else {
                        let i0 = choose|i0: int|
                            0 <= i0 < rest.len() && rest[i0].start.spec_le(w1[k - 1].start)
                                && w1[k - 1].end.spec_le(rest[i0].end);
                        assert(rest[i0] == acc[i0 + 1]);
                        assert(w[k] == w1[k - 1]);
                    }
                }
            },
        }
    }
}

/// What the two-cursor subtraction returns is sorted by start and pairwise
/// disjoint, for any well-formed inputs whose rejected windows each cover
/// at least one minute.
pub proof fn lemma_subtract_sets_sorted_disjoint(acc: Seq<Interval>, rej: Seq<Interval>)
    requires
        all_wf(acc),
        all_wf(rej),
        all_nonempty(rej),
        rej.len() > 0,
    ensures
        all_wf(subtract_sets_spec(acc, rej)),
        sorted_by_start(subtract_sets_spec(acc, rej)),
        pairwise_disjoint(subtract_sets_spec(acc, rej)),
{
    lemma_simplify_idempotent(acc);
    lemma_sort_by_start_sorted(rej);
    lemma_sort_preserves_wf(rej);
    lemma_merge_fold_props(sort_by_start(rej));
    lemma_walk_props(simplify_spec(acc), simplify_spec(rej));
    lemma_gapped_pairwise(subtract_sets_spec(acc, rej));
}

/// What subtracting rejected windows from accepted windows means: with no
/// rejected windows the accepted ones pass through untouched; otherwise both
/// sides are simplified and walked with two cursors.
pub open spec fn subtract_sets_spec(acc: Seq<Interval>, rej: Seq<Interval>) -> Seq<Interval> {
    if rej.len() == 0 {
        acc
    } else {
        walk(simplify_spec(acc), simplify_spec(rej))
    }
}

fn subtract_intervals(accepted: Vec<Interval>, rejected: Vec<Interval>) -> (r: Vec<Interval>)
    ensures
        r@ == subtract_sets_spec(accepted@, rejected@),
{
    if rejected.is_empty() {
        return accepted;
    }
    let sa = simplify_intervals(&accepted);
    let sr = simplify_intervals(&rejected);
    let ghost target = walk(sa@, sr@);
    let mut committed: Vec<Interval> = Vec::new();
    if sa.len() == 0 {
        return committed;
    }
    let mut cur: Interval = sa[0];
    let mut a_i: usize = 1;
    let mut r_i: usize = 0;
    proof {
        assert(seq![cur] + sa@.subrange(1, sa@.len() as int) =~= sa@);
        assert(sr@.subrange(0, sr@.len() as int) =~= sr@);
        assert(committed@ + walk(sa@, sr@) =~= walk(sa@, sr@));
    }
    while r_i < sr.len()
        invariant
            1 <= a_i <= sa@.len(),
            r_i <= sr@.len(),
            rejected@.len() > 0,
            sa@ == simplify_spec(accepted@),
            sr@ == simplify_spec(rejected@),
            target == walk(sa@, sr@),
            committed@ + walk(
                seq![cur] + sa@.subrange(a_i as int, sa@.len() as int),
                sr@.subrange(r_i as int, sr@.len() as int),
            ) == target,
        decreases (sa@.len() - a_i) + (sr@.len() - r_i),
    {
        let ghost acc0 = seq![cur] + sa@.subrange(a_i as int, sa@.len() as int);
        let ghost rej0 = sr@.subrange(r_i as int, sr@.len() as int);
        proof {
            assert(acc0[0] == cur);
            assert(rej0[0] == sr@[r_i as int]);
            assert(acc0.drop_first() =~= sa@.subrange(a_i as int, sa@.len() as int));
            assert(rej0.drop_first() =~= sr@.subrange(r_i + 1, sr@.len() as int));
        }
        match cur.subtract(sr[r_i]) {
            IntervalSubtraction::Empty => {
                // The current accepted interval is fully consumed; the same
                // rejected interval may still touch later accepted ones.
                if a_i == sa.len() {
                    proof {
                        assert(walk(acc0, rej0) == walk(acc0.drop_first(), rej0));
                        assert(acc0.drop_first().len() == 0);
                        assert(walk(acc0.drop_first(), rej0) == Seq::<Interval>::empty());
                        assert(committed@ + Seq::<Interval>::empty() =~= committed@);
                    }
                    return committed;
                }
                proof {
                    assert(walk(acc0, rej0) == walk(acc0.drop_first(), rej0));
                    assert(seq![sa@[a_i as int]] + sa@.subrange(a_i + 1, sa@.len() as int)
                        =~= acc0.drop_first());
                }
                cur = sa[a_i];
                a_i += 1;
            },
            IntervalSubtraction::MissLeft(_) => {
                // The accepted cursor is already past this rejected interval:
                // since accepted intervals are sorted, it can touch nothing
                // further, so the rejected cursor advances.
                proof {
                    assert(walk(acc0, rej0) == walk(acc0, rej0.drop_first()));
                }
                r_i += 1;
            },
            IntervalSubtraction::HitLeft(difference) => {
                // The rejected interval ate one side of the current accepted
                // interval; keep the remnant and advance the rejected cursor.
                proof {
                    assert(walk(acc0, rej0) == walk(acc0.update(0, difference), rej0.drop_first()));
                    assert(acc0.update(0, difference) =~= seq![difference] + sa@.subrange(
                        a_i as int,
                        sa@.len() as int,
                    ));
                }
                cur = difference;
                r_i += 1;
            },
            IntervalSubtraction::HitCenter(left, right) => {
                // The rejected interval is strictly interior: the left remnant
                // is final (rejected intervals are sorted), the right remnant
                // stays current.
                proof {
                    assert(walk(acc0, rej0) == seq![left] + walk(
                        acc0.update(0, right),
                        rej0.drop_first(),
                    ));
                    assert(acc0.update(0, right) =~= seq![right] + sa@.subrange(
                        a_i as int,
                        sa@.len() as int,
                    ));
                    assert(committed@ + (seq![left] + walk(
                        acc0.update(0, right),
                        rej0.drop_first(),
                    )) =~= committed@.push(left) + walk(acc0.update(0, right), rej0.drop_first()));
                }
                committed.push(left);
                cur = right;
                r_i += 1;
            },
            IntervalSubtraction::HitRight(difference) => {
                // Interval subtraction reports one-sided overlaps as HitLeft,
                // so this shape cannot arise here.
                proof {
                    assert(false);
                }
                cur = difference;
            },
            IntervalSubtraction::MissRight(unchanged) => {
                // The current accepted interval lies entirely before this
                // rejected interval: it is final.
                proof {
                    assert(walk(acc0, rej0) == seq![unchanged] + walk(acc0.drop_first(), rej0));
                    assert(committed@ + (seq![unchanged] + walk(acc0.drop_first(), rej0))
                        =~= committed@.push(unchanged) + walk(acc0.drop_first(), rej0));
                }
                committed.push(unchanged);
                if a_i == sa.len() {
                    proof {
                        assert(acc0.drop_first().len() == 0);
                        assert(walk(acc0.drop_first(), rej0) == Seq::<Interval>::empty());
                        assert(committed@ + Seq::<Interval>::empty() =~= committed@);
                    }
                    return committed;
                }
                proof {
                    assert(seq![sa@[a_i as int]] + sa@.subrange(a_i + 1, sa@.len() as int)
                        =~= acc0.drop_first());
                }
                cur = sa[a_i];
                a_i += 1;
            },
        }
    }
    // The rejected intervals ran out: everything still pending is final.
    let ghost acc0 = seq![cur] + sa@.subrange(a_i as int, sa@.len() as int);
    proof {
        assert(sr@.subrange(r_i as int, sr@.len() as int).len() == 0);
        assert(walk(acc0, sr@.subrange(r_i as int, sr@.len() as int)) == acc0);
        assert(committed@ + acc0 =~= committed@.push(cur) + sa@.subrange(
            a_i as int,
            sa@.len() as int,
        ));
    }
    committed.push(cur);
    let mut j: usize = a_i;
    while j < sa.len()
        invariant
            a_i <= j <= sa@.len(),
            committed@ + sa@.subrange(j as int, sa@.len() as int) == target,
        decreases sa@.len() - j,
    {
        proof {
            assert(committed@.push(sa@[j as int]) + sa@.subrange(j + 1, sa@.len() as int)
                =~= committed@ + sa@.subrange(j as int, sa@.len() as int));
        }
        committed.push(sa[j]);
        j += 1;
    }
    proof {
        assert(committed@ + sa@.subrange(sa@.len() as int, sa@.len() as int) =~= committed@);
    }
    committed
}

impl AcceptedInterval {
    /// Subtract a collection of rejected windows from a collection of
    /// accepted windows. With no rejected windows the input passes through
    /// untouched; otherwise both sides are simplified and walked with two
    /// cursors, and the result is sorted and pairwise disjoint.
    pub fn subtract(accepted: Vec<AcceptedInterval>, rejected: Vec<RejectedInterval>) -> (r: Vec<
        AcceptedInterval,
    >)
        ensures
            accepted_ivs(r@) == subtract_sets_spec(accepted_ivs(accepted@), rejected_ivs(rejected@)),
    {
        let bare_acc = strip_accepted(&accepted);
        let bare_rej = strip_rejected(&rejected);
        let result = subtract_intervals(bare_acc, bare_rej);
        wrap_accepted(&result)
    }
}

impl AcceptedInterval {
    /// Simplify a collection of accepted intervals: sort by start and merge
    /// every run of mutually intersecting windows into one.
    pub fn simplify(intervals: Vec<AcceptedInterval>) -> (r: Vec<AcceptedInterval>)
        ensures
            accepted_ivs(r@) == simplify_spec(accepted_ivs(intervals@)),
    {
        let bare = strip_accepted(&intervals);
        let simplified = simplify_intervals(&bare);
        wrap_accepted(&simplified)
    }
}

impl RejectedInterval {
    /// Simplify a collection of rejected intervals: sort by start and merge
    /// every run of mutually intersecting windows into one.
    pub fn simplify(intervals: Vec<RejectedInterval>) -> (r: Vec<RejectedInterval>)
        ensures
            rejected_ivs(r@) == simplify_spec(rejected_ivs(intervals@)),
    {
        let bare = strip_rejected(&intervals);
        let simplified = simplify_intervals(&bare);
        wrap_rejected(&simplified)
    }
}

/// The gaps left open between `latest` and the end of the day by a sorted
/// run of accepted intervals: one gap before each interval whose start lies
/// strictly after the running position, and one after the last interval if
/// the day is not yet over.
pub open spec fn gaps_from(s: Seq<Interval>, latest: TimeOfDay) -> Seq<Interval>
    decreases s.len(),
{
    if s.len() == 0 {
        if latest.spec_lt(TimeOfDay { hours: 24, minutes: 0 }) {
            seq![Interval { start: latest, end: TimeOfDay { hours: 24, minutes: 0 } }]
        } else {
            Seq::empty()
        }
    } else {
        let pre = if latest.spec_lt(s[0].start) {
            seq![Interval { start: latest, end: s[0].start }]
        } else {
            Seq::<Interval>::empty()
        };
        pre + gaps_from(s.drop_first(), s[0].end)
    }
}

/// What complementing accepted windows into rejected windows means: simplify
/// them; when nothing is accepted the whole day is rejected, else the gaps
/// around and between the accepted windows are.
pub open spec fn complement_spec(acc: Seq<Interval>) -> Seq<Interval> {
    let s = simplify_spec(acc);
    if s.len() == 0 {
        seq![crate::interval::spec_full_day()]
    } else {
        gaps_from(s, TimeOfDay { hours: 0, minutes: 0 })
    }
}

impl RejectedInterval {
    /// Complement a collection of accepted intervals into the rejected
    /// intervals that cover the rest of the day.
    pub fn complement(intervals: Vec<AcceptedInterval>) -> (r: Vec<RejectedInterval>)
        ensures
            rejected_ivs(r@) == complement_spec(accepted_ivs(intervals@)),
    {
        let bare = strip_accepted(&intervals);
        let accepted = simplify_intervals(&bare);
        let mut complement: Vec<Interval> = Vec::new();
        if accepted.len() == 0 {
            complement.push(crate::interval::full_day());
            proof {
                assert(complement@ =~= seq![crate::interval::spec_full_day()]);
            }
            return wrap_rejected(&complement);
        }
        let ghost target = gaps_from(accepted@, TimeOfDay { hours: 0, minutes: 0 });
        let mut latest: TimeOfDay = crate::types::day_begins();
        let mut i: usize = 0;
        proof {
            assert(accepted@.subrange(0, accepted@.len() as int) =~= accepted@);
            assert(complement@ + gaps_from(accepted@, latest) =~= gaps_from(accepted@, latest));
        }
        while i < accepted.len()
            invariant
                i <= accepted@.len(),
                complement@ + gaps_from(accepted@.subrange(i as int, accepted@.len() as int), latest)
                    == target,
            decreases accepted@.len() - i,
        {
            let ghost rest = accepted@.subrange(i as int, accepted@.len() as int);
            proof {
                assert(rest[0] == accepted@[i as int]);
                assert(rest.drop_first() =~= accepted@.subrange(i + 1, accepted@.len() as int));
            }
            let x = accepted[i];
            if latest.lt(x.start) {
                proof {
                    assert(gaps_from(rest, latest) == seq![Interval { start: latest, end: x.start }]
                        + gaps_from(rest.drop_first(), x.end));
                    assert(complement@ + (seq![Interval { start: latest, end: x.start }]
                        + gaps_from(rest.drop_first(), x.end)) =~= complement@.push(
                        Interval { start: latest, end: x.start },
                    ) + gaps_from(rest.drop_first(), x.end));
                }
                complement.push(Interval { start: latest, end: x.start });
            } else {
                proof {
                    assert(gaps_from(rest, latest) == Seq::<Interval>::empty() + gaps_from(
                        rest.drop_first(),
                        x.end,
                    ));
                    assert(complement@ + (Seq::<Interval>::empty() + gaps_from(
                        rest.drop_first(),
                        x.end,
                    )) =~= complement@ + gaps_from(rest.drop_first(), x.end));
                }
            }
            latest = x.end;
            i += 1;
        }
        proof {
            assert(accepted@.subrange(accepted@.len() as int, accepted@.len() as int).len() == 0);
        }
        if latest.lt(crate::types::day_ends()) {
            proof {
                assert(complement@ + seq![
                    Interval { start: latest, end: TimeOfDay { hours: 24, minutes: 0 } },
                ] =~= complement@.push(
                    Interval { start: latest, end: TimeOfDay { hours: 24, minutes: 0 } },
                ));
            }
            complement.push(Interval { start: latest, end: crate::types::day_ends() });
        } else {
            proof {
                assert(complement@ + Seq::<Interval>::empty() =~= complement@);
            }
        }
        wrap_rejected(&complement)
    }
}

/// Every interval in the sequence covers at least one minute.
pub open spec fn all_nonempty(s: Seq<Interval>) -> bool {
    forall|i: int| 0 <= i < s.len() ==> (#[trigger] s[i]).start.spec_lt(s[i].end)
}

/// In a sorted, neighbour-disjoint sequence of well-formed intervals, each
/// interval ends strictly before the next one starts.
proof fn lemma_gapped_strict(s: Seq<Interval>)
    requires
        all_wf(s),
        sorted_by_start(s),
        consecutive_disjoint(s),
    ensures
        forall|i: int| 0 <= i < s.len() - 1 ==> (#[trigger] s[i]).end.spec_lt(s[i + 1].start),
{
    assert forall|i: int| 0 <= i < s.len() - 1 implies (#[trigger] s[i]).end.spec_lt(
        s[i + 1].start,
    ) by {
        assert(!s[i].spec_intersects(s[i + 1]));
        assert(s[i].start.spec_le(s[i + 1].start));
    }
}

/// The gap list of a maximally simplified cover is itself maximally
/// simplified, and starts no earlier than the running position.
proof fn lemma_gaps_props(x: Seq<Interval>, latest: TimeOfDay)
    requires
        all_wf(x),
        sorted_by_start(x),
        consecutive_disjoint(x),
        all_nonempty(x),
        latest.wf(),
        x.len() > 0 ==> latest.spec_le(x[0].start),
    ensures
        all_wf(gaps_from(x, latest)),
        sorted_by_start(gaps_from(x, latest)),
        consecutive_disjoint(gaps_from(x, latest)),
        all_nonempty(gaps_from(x, latest)),
        gaps_from(x, latest).len() > 0 ==> latest.spec_le(gaps_from(x, latest)[0].start),
    decreases x.len(),
{
    let g = gaps_from(x, latest);
    if x.len() == 0 {
    } else {
        let x0 = x[0];
        let rest = x.drop_first();
        lemma_gapped_strict(x);
        assert(rest.len() > 0 ==> x0.end.spec_lt(rest[0].start));
        lemma_gaps_props(rest, x0.end);
        let gr = gaps_from(rest, x0.end);
        // Every gap after the first starts at or after the end of `x0`.
        assert(gr.len() > 0 ==> x0.end.spec_le(gr[0].start));
        if latest.spec_lt(x0.start) {
            let pre = Interval { start: latest, end: x0.start };
            assert(g == seq![pre] + gr);
            assert(g[0] == pre);
            assert forall|i: int, j: int| 0 <= i < j < g.len() implies g[i].start.spec_le(
                g[j].start,
            ) by {
                if i == 0 {
                    assert(g[j] == gr[j - 1]);
                    assert(gr[0].start.spec_le(gr[j - 1].start));
                } else {
                    assert(g[i] == gr[i - 1] && g[j] == gr[j - 1]);
                }
            }
            assert forall|i: int| 0 <= i < g.len() - 1 implies !(#[trigger] g[i]).spec_intersects(
                g[i + 1],
            ) by {
                if i == 0 {
                    assert(g[1] == gr[0]);
                    assert(pre.end == x0.start);
                    assert(x0.start.spec_lt(x0.end));
                } else {
                    assert(g[i] == gr[i - 1] && g[i + 1] == gr[i]);
                }
            }
            assert forall|i: int| 0 <= i < g.len() implies (#[trigger] g[i]).wf() && g[
                i
            ].start.spec_lt(g[i].end) by {
                if i > 0 {
                    assert(g[i] == gr[i - 1]);
                }
            }
        } else {
            assert(g =~= gr);
            assert(g.len() > 0 ==> latest.spec_le(g[0].start));
        }
    }
}

/// Walking the gap list of a cover from the start of its first interval
/// rebuilds the cover exactly.
proof fn lemma_gaps_of_gaps(x: Seq<Interval>)
    requires
        all_wf(x),
        sorted_by_start(x),
        consecutive_disjoint(x),
        all_nonempty(x),
        x.len() > 0,
    ensures
        gaps_from(gaps_from(x.drop_first(), x[0].end), x[0].start) == x,
    decreases x.len(),
{
    let x0 = x[0];
    let rest = x.drop_first();
    let day_end = TimeOfDay { hours: 24, minutes: 0 };
    lemma_gapped_strict(x);
    if rest.len() == 0 {
        if x0.end.spec_lt(day_end) {
            assert(gaps_from(rest, x0.end) == seq![Interval { start: x0.end, end: day_end }]);
            let g = seq![Interval { start: x0.end, end: day_end }];
            assert(x0.start.spec_lt(x0.end));
            assert(g[0] == Interval { start: x0.end, end: day_end });
            assert(g.drop_first().len() == 0);
            assert(gaps_from(g.drop_first(), day_end).len() == 0);
            assert(gaps_from(g, x0.start) == seq![Interval { start: x0.start, end: x0.end }]
                + gaps_from(g.drop_first(), day_end));
            assert(Interval { start: x0.start, end: x0.end } == x0);
            assert(gaps_from(g, x0.start) =~= seq![x0] + Seq::<Interval>::empty());
            assert(seq![x0] + Seq::<Interval>::empty() =~= x);
        } else {
            assert(x0.end == day_end);
            assert(gaps_from(rest, x0.end).len() == 0);
            assert(gaps_from(gaps_from(rest, x0.end), x0.start) =~= seq![x0]);
            assert(seq![x0] =~= x);
        }
    } else {
        let r0 = rest[0];
        assert(x0.end.spec_lt(r0.start));
        let g = gaps_from(rest, x0.end);
        let pre = Interval { start: x0.end, end: r0.start };
        assert(g == seq![pre] + gaps_from(rest.drop_first(), r0.end));
        assert(g[0] == pre);
        assert(g.drop_first() =~= gaps_from(rest.drop_first(), r0.end));
        lemma_gaps_of_gaps(rest);
        assert(gaps_from(g, x0.start) == seq![x0] + gaps_from(g.drop_first(), pre.end));
        assert(gaps_from(g.drop_first(), r0.start) == rest);
        assert(seq![x0] + rest =~= x);
    }
}

/// Complementing the complement of a maximally simplified accepted cover
/// recovers it exactly: the rejected windows split the day around the
/// accepted ones, and splitting the day around those rejected windows in
/// turn yields the original accepted windows.
pub proof fn lemma_complement_round_trip(acc: Seq<Interval>)
    requires
        all_wf(acc),
        sorted_by_start(acc),
        consecutive_disjoint(acc),
        all_nonempty(acc),
    ensures
        complement_spec(complement_spec(acc)) == acc,
{
    let day_start = TimeOfDay { hours: 0, minutes: 0 };
    let day_end = TimeOfDay { hours: 24, minutes: 0 };
    lemma_sort_of_sorted(acc);
    lemma_merge_fold_fixed(acc);
    assert(simplify_spec(acc) == acc);
    if acc.len() == 0 {
        let g = seq![crate::interval::spec_full_day()];
        assert(complement_spec(acc) == g);
        lemma_sort_of_sorted(g);
        lemma_merge_fold_fixed(g);
        assert(simplify_spec(g) == g);
        assert(g.drop_first().len() == 0);
        assert(gaps_from(g.drop_first(), day_end).len() == 0);
        assert(gaps_from(g, day_start) =~= Seq::<Interval>::empty());
        assert(complement_spec(g) =~= acc);
    } else {
        let a0 = acc[0];
        lemma_gapped_strict(acc);
        lemma_gaps_props(acc, day_start);
        let g = gaps_from(acc, day_start);
        assert(complement_spec(acc) == g);
        if g.len() == 0 {
            // No gap at all: the cover must be the full day in one piece.
            assert(!day_start.spec_lt(a0.start));
            assert(a0.start == day_start);
            assert(gaps_from(acc.drop_first(), a0.end).len() == 0);
            if acc.len() > 1 {
                assert(a0.end.spec_lt(acc.drop_first()[0].start));
                assert(gaps_from(acc.drop_first(), a0.end).len() > 0);
                assert(false);
            }
            assert(!a0.end.spec_lt(day_end));
            assert(a0.end == day_end);
            assert(complement_spec(g) == seq![crate::interval::spec_full_day()]);
            assert(seq![crate::interval::spec_full_day()] =~= acc);
        } else {
            lemma_sort_of_sorted(g);
            lemma_merge_fold_fixed(g);
            assert(simplify_spec(g) == g);
            lemma_gaps_of_gaps(acc);
            if day_start.spec_lt(a0.start) {
                let pre = Interval { start: day_start, end: a0.start };
                assert(g == seq![pre] + gaps_from(acc.drop_first(), a0.end));
                assert(g[0] == pre);
                assert(g.drop_first() =~= gaps_from(acc.drop_first(), a0.end));
                assert(gaps_from(g, day_start) == Seq::<Interval>::empty() + gaps_from(
                    g.drop_first(),
                    pre.end,
                ));
                assert(Seq::<Interval>::empty() + gaps_from(g.drop_first(), a0.start)
                    =~= gaps_from(g.drop_first(), a0.start));
                assert(complement_spec(g) == acc);
            } else {
                assert(a0.start == day_start);
                assert(g =~= gaps_from(acc.drop_first(), a0.end));
                assert(complement_spec(g) == gaps_from(g, day_start));
                assert(gaps_from(g, a0.start) == acc);
            }
        }
    }
}

/// The mathematical shape of a diff: accepted and rejected intervals.
pub struct DiffV {
    pub accepted: Seq<Interval>,
    pub rejected: Seq<Interval>,
}

/// One configuration source's accepted/rejected contribution for one target
/// and one user, prior to accumulation.
#[derive(Debug)]
pub struct IntervalsDiff {
    pub accepted: Vec<AcceptedInterval>,
    pub rejected: Vec<RejectedInterval>,
}

impl View for IntervalsDiff {
    type V = DiffV;

    open spec fn view(&self) -> DiffV {
        DiffV { accepted: accepted_ivs(self.accepted@), rejected: rejected_ivs(self.rejected@) }
    }
}

pub open spec fn view_diffs(s: Seq<IntervalsDiff>) -> Seq<DiffV> {
    s.map_values(|d: IntervalsDiff| d@)
}

/// The ordered fold over diffs: each diff's accepted windows are unioned in
/// before that same diff's rejected windows are carved out, so a later
/// rejection can undo an earlier acceptance but not the other way round.
pub open spec fn fold_diffs(ds: Seq<DiffV>) -> Seq<Interval>
    decreases ds.len(),
{
    if ds.len() == 0 {
        Seq::empty()
    } else {
        subtract_sets_spec(fold_diffs(ds.drop_last()) + ds.last().accepted, ds.last().rejected)
    }
}

impl IntervalsDiff {
    /// Resolve an ordered sequence of diffs into the final accepted windows:
    /// fold left, at each step adding the diff's accepted windows and then
    /// subtracting its rejected ones.
    pub fn compute_accepted_intervals(from: Vec<IntervalsDiff>) -> (r: Vec<AcceptedInterval>)
        ensures
            accepted_ivs(r@) == fold_diffs(view_diffs(from@)),
    {
        let mut accepted: Vec<AcceptedInterval> = Vec::new();
        let mut i: usize = 0;
        proof {
            assert(view_diffs(from@.subrange(0, 0)) =~= Seq::<DiffV>::empty());
            assert(accepted_ivs(accepted@) =~= fold_diffs(view_diffs(from@.subrange(0, 0))));
        }
        while i < from.len()
            invariant
                i <= from@.len(),
                accepted_ivs(accepted@) == fold_diffs(view_diffs(from@.subrange(0, i as int))),
            decreases from@.len() - i,
        {
            let ghost before = accepted@;
            let mut j: usize = 0;
            while j < from[i].accepted.len()
                invariant
                    i < from@.len(),
                    j <= from@[i as int].accepted@.len(),
                    accepted@ == before + from@[i as int].accepted@.subrange(0, j as int),
                decreases from@[i as int].accepted@.len() - j,
            {
                proof {
                    assert(before + from@[i as int].accepted@.subrange(0, j + 1) =~= (before
                        + from@[i as int].accepted@.subrange(0, j as int)).push(
                        from@[i as int].accepted@[j as int],
                    ));
                }
                let x = from[i].accepted[j];
                accepted.push(x);
                j += 1;
            }
            proof {
                assert(from@[i as int].accepted@.subrange(
                    0,
                    from@[i as int].accepted@.len() as int,
                ) =~= from@[i as int].accepted@);
            }
            let mut rej: Vec<RejectedInterval> = Vec::new();
            let mut k: usize = 0;
            while k < from[i].rejected.len()
                invariant
                    i < from@.len(),
                    k <= from@[i as int].rejected@.len(),
                    rej@ == from@[i as int].rejected@.subrange(0, k as int),
                decreases from@[i as int].rejected@.len() - k,
            {
                proof {
                    assert(from@[i as int].rejected@.subrange(0, k + 1)
                        =~= from@[i as int].rejected@.subrange(0, k as int).push(
                        from@[i as int].rejected@[k as int],
                    ));
                }
                let y = from[i].rejected[k];
                rej.push(y);
                k += 1;
            }
            proof {
                assert(from@[i as int].rejected@.subrange(
                    0,
                    from@[i as int].rejected@.len() as int,
                ) =~= from@[i as int].rejected@);
                assert(accepted_ivs(accepted@) =~= accepted_ivs(before) + accepted_ivs(
                    from@[i as int].accepted@,
                ));
                assert(view_diffs(from@.subrange(0, i + 1)).drop_last() =~= view_diffs(
                    from@.subrange(0, i as int),
                ));
                assert(view_diffs(from@.subrange(0, i + 1)).last() == from@[i as int]@);
            }
            accepted = AcceptedInterval::subtract(accepted, rej);
            i += 1;
        }
        proof {
            assert(from@.subrange(0, from@.len() as int) =~= from@);
        }
        accepted
    }

    /// Resolve an ordered sequence of diffs into the final rejected windows:
    /// the complement of the final accepted windows.
    pub fn compute_rejected_intervals(from: Vec<IntervalsDiff>) -> (r: Vec<RejectedInterval>)
        ensures
            rejected_ivs(r@) == complement_spec(fold_diffs(view_diffs(from@))),
    {
        RejectedInterval::complement(Self::compute_accepted_intervals(from))
    }
}

fn strip_accepted(intervals: &Vec<AcceptedInterval>) -> (r: Vec<Interval>)
    ensures
        r@ == accepted_ivs(intervals@),
{
    let mut out: Vec<Interval> = Vec::new();
    let mut i: usize = 0;
    while i < intervals.len()
        invariant
            i <= intervals.len(),
            out@ == accepted_ivs(intervals@.subrange(0, i as int)),
        decreases intervals.len() - i,
    {
        out.push(intervals[i].0);
        proof {
            assert(out@ =~= accepted_ivs(intervals@.subrange(0, i + 1)));
        }
        i += 1;
    }
    proof {
        assert(intervals@.subrange(0, intervals@.len() as int) =~= intervals@);
    }
    out
}

pub(crate) fn wrap_accepted(intervals: &Vec<Interval>) -> (r: Vec<AcceptedInterval>)
    ensures
        accepted_ivs(r@) == intervals@,
{
    let mut out: Vec<AcceptedInterval> = Vec::new();
    let mut i: usize = 0;
    while i < intervals.len()
        invariant
            i <= intervals.len(),
            out@.len() == i,
            forall|j: int| 0 <= j < i ==> (#[trigger] out@[j]).0 == intervals@[j],
        decreases intervals.len() - i,
    {
        out.push(AcceptedInterval(intervals[i]));
        i += 1;
    }
    proof {
        assert(accepted_ivs(out@) =~= intervals@);
    }
    out
}

fn strip_rejected(intervals: &Vec<RejectedInterval>) -> (r: Vec<Interval>)
    ensures
        r@ == rejected_ivs(intervals@),
{
    let mut out: Vec<Interval> = Vec::new();
    let mut i: usize = 0;
    while i < intervals.len()
        invariant
            i <= intervals.len(),
            out@ == rejected_ivs(intervals@.subrange(0, i as int)),
        decreases intervals.len() - i,
    {
        out.push(intervals[i].0);
        proof {
            assert(out@ =~= rejected_ivs(intervals@.subrange(0, i + 1)));
        }
        i += 1;
    }
    proof {
        assert(intervals@.subrange(0, intervals@.len() as int) =~= intervals@);
    }
    out
}

pub(crate) fn wrap_rejected(intervals: &Vec<Interval>) -> (r: Vec<RejectedInterval>)
    ensures
        rejected_ivs(r@) == intervals@,
{
    let mut out: Vec<RejectedInterval> = Vec::new();
    let mut i: usize = 0;
    while i < intervals.len()
        invariant
            i <= intervals.len(),
            out@.len() == i,
            forall|j: int| 0 <= j < i ==> (#[trigger] out@[j]).0 == intervals@[j],
        decreases intervals.len() - i,
    {
        out.push(RejectedInterval(intervals[i]));
        i += 1;
    }
    proof {
        assert(rejected_ivs(out@) =~= intervals@);
    }
    out
}

} // verus!
