use vstd::prelude::*;

use crate::date::Date;

verus! {

/// A closed date interval `[start, end]`. A well-formed range has
/// `start <= end`; the days it locks are `start, start + 1, ..., end - 1`,
/// so that a range spanning `end - start` days locks exactly that many days.
#[derive(Clone, Copy, PartialEq, Eq, Structural, Debug)]
pub struct DateRange {
    pub start: Date,
    pub end: Date,
}

impl DateRange {
    pub open spec fn wf(self) -> bool {
        self.start.wf() && self.end.wf() && self.start.days <= self.end.days
    }

    /// Two closed ranges overlap when neither lies strictly past the other;
    /// touching endpoints count as overlapping.
    pub open spec fn spec_overlap(self, other: DateRange) -> bool {
        self.start.days <= other.end.days && self.end.days >= other.start.days
    }

    /// `self` lies entirely inside `other`.
    pub open spec fn spec_contained_in(self, other: DateRange) -> bool {
        other.start.days <= self.start.days && other.end.days >= self.end.days
    }

    pub fn new(start: Date, end: Date) -> (r: Self)
        ensures
            r == (DateRange { start, end }),
    {
        Self { start, end }
    }

    /// This configuration returns true:
    /// `|=====self=======|`
    /// `     |======other======|`
    pub fn overlap(&self, other: &Self) -> (r: bool)
        ensures
            r == self.spec_overlap(*other),
    {
        self.start.days <= other.end.days && self.end.days >= other.start.days
    }

    /// This configuration returns true:
    /// `      |====self===|`
    /// `|=======other=======|`
    pub fn is_contained_in(&self, other: &Self) -> (r: bool)
        ensures
            r == self.spec_contained_in(*other),
    {
        other.start.days <= self.start.days && other.end.days >= self.end.days
    }
}

/// Law: the overlap test is symmetric.
pub proof fn lemma_overlap_symmetric(a: DateRange, b: DateRange)
    ensures
        a.spec_overlap(b) == b.spec_overlap(a),
{
}

/// Law: a range contained in another overlaps it. Holds for every
/// well-formed `a` (with `start <= end`); containment of an inverted range
/// does not imply overlap.
pub proof fn lemma_contained_implies_overlap(a: DateRange, b: DateRange)
    requires
        a.start.days <= a.end.days,
        a.spec_contained_in(b),
    ensures
        a.spec_overlap(b),
{
}

/// Day `d` is locked by range `r` (a closed range `[start, end]` locks the
/// days `start..end`, half-open, so that it locks `end - start` days).
pub open spec fn range_covers_day(r: DateRange, d: int) -> bool {
    r.start.days <= d < r.end.days
}

/// Some range in `rs` locks day `d`.
pub open spec fn ranges_cover_day(rs: Seq<DateRange>, d: int) -> bool {
    exists|i: int| 0 <= i < rs.len() && range_covers_day(#[trigger] rs[i], d)
}

/// The ranges of `s` appear in ascending order of start date.
pub open spec fn sorted_by_start(s: Seq<DateRange>) -> bool {
    forall|i: int, j: int|
        0 <= i < j < s.len() ==> #[trigger] s[i].start.days <= #[trigger] s[j].start.days
}

/// Insert `x` into the start-sorted sequence `s`, after any entries whose
/// start equals `x`'s.
pub open spec fn insert_by_start(s: Seq<DateRange>, x: DateRange) -> Seq<DateRange>
    decreases s.len(),
{
    if s.len() == 0 {
        seq![x]
    } else if x.start.days < s.last().start.days {
        insert_by_start(s.drop_last(), x).push(s.last())
    } else {
        s.push(x)
    }
}

/// Stable insertion sort of `s` by ascending start date.
pub open spec fn sort_by_start(s: Seq<DateRange>) -> Seq<DateRange>
    decreases s.len(),
{
    if s.len() == 0 {
        Seq::empty()
    } else {
        insert_by_start(sort_by_start(s.drop_last()), s.last())
    }
}

proof fn lemma_insert_by_start_ensures(s: Seq<DateRange>, x: DateRange)
    requires
        sorted_by_start(s),
    ensures
        sorted_by_start(insert_by_start(s, x)),
        insert_by_start(s, x).len() == s.len() + 1,
        forall|y: DateRange| #[trigger]
            insert_by_start(s, x).contains(y) <==> (s.contains(y) || y == x),
    decreases s.len(),
{
    let r = insert_by_start(s, x);
    if s.len() == 0 {
        assert(r =~= seq![x]);
        assert(r.contains(x)) by { assert(r[0] == x); }
        assert forall|y: DateRange| #[trigger] r.contains(y) implies (s.contains(y) || y == x) by {
            let i = choose|i: int| 0 <= i < r.len() && r[i] == y;
            assert(r[i] == x);
        }
    } else if x.start.days < s.last().start.days {
        let s0 = s.drop_last();
        assert(sorted_by_start(s0)) by {
            assert(forall|i: int, j: int|
                0 <= i < j < s0.len() ==> s0[i] == s[i] && s0[j] == s[j]);
        }
        lemma_insert_by_start_ensures(s0, x);
        let r0 = insert_by_start(s0, x);
        assert(r =~= r0.push(s.last()));
        // every element of r0 starts no later than s.last()
        assert forall|i: int| 0 <= i < r0.len() implies r0[i].start.days
            <= s.last().start.days by {
            assert(r0.contains(r0[i]));
            if r0[i] == x {
            } else {
                assert(s0.contains(r0[i]));
                let j = choose|j: int| 0 <= j < s0.len() && s0[j] == r0[i];
                assert(s[j] == s0[j]);
                assert(s[j].start.days <= s[s.len() - 1].start.days);
            }
        }
        assert(sorted_by_start(r)) by {
            assert(forall|i: int| 0 <= i < r0.len() ==> r[i] == r0[i]);
            assert(r[r.len() - 1] == s.last());
        }
        assert forall|y: DateRange| #[trigger] r.contains(y) implies (s.contains(y) || y == x) by {
            let i = choose|i: int| 0 <= i < r.len() && r[i] == y;
            if i < r0.len() {
                assert(r0.contains(y));
                if s0.contains(y) {
                    let j = choose|j: int| 0 <= j < s0.len() && s0[j] == y;
                    assert(s[j] == y);
                }
            } else {
                assert(y == s.last());
                assert(s[s.len() - 1] == y);
            }
        }
        assert forall|y: DateRange| (s.contains(y) || y == x) implies #[trigger] r.contains(y) by {
            if y == x {
                assert(r0.contains(x));
                let j = choose|j: int| 0 <= j < r0.len() && r0[j] == x;
                assert(r[j] == x);
            } else {
                let i = choose|i: int| 0 <= i < s.len() && s[i] == y;
                if i < s.len() - 1 {
                    assert(s0[i] == y);
                    assert(s0.contains(y));
                    assert(r0.contains(y));
                    let j = choose|j: int| 0 <= j < r0.len() && r0[j] == y;
                    assert(r[j] == y);
                } else {
                    assert(r[r.len() - 1] == y);
                }
            }
        }
    } else {
        assert(r =~= s.push(x));
        assert(sorted_by_start(r)) by {
            assert(forall|i: int| 0 <= i < s.len() ==> r[i] == s[i]);
            assert(r[r.len() - 1] == x);
            assert(forall|i: int|
                0 <= i < s.len() ==> #[trigger] s[i].start.days <= s[s.len() - 1].start.days);
        }
        assert forall|y: DateRange| #[trigger] r.contains(y) implies (s.contains(y) || y == x) by {
            let i = choose|i: int| 0 <= i < r.len() && r[i] == y;
            if i < s.len() {
                assert(s[i] == y);
            }
        }
        assert forall|y: DateRange| (s.contains(y) || y == x) implies #[trigger] r.contains(y) by {
            if y == x {
                assert(r[r.len() - 1] == x);
            } else {
                let i = choose|i: int| 0 <= i < s.len() && s[i] == y;
                assert(r[i] == y);
            }
        }
    }
}

proof fn lemma_sort_by_start_ensures(s: Seq<DateRange>)
    ensures
        sorted_by_start(sort_by_start(s)),
        sort_by_start(s).len() == s.len(),
        forall|y: DateRange| #[trigger] sort_by_start(s).contains(y) <==> s.contains(y),
    decreases s.len(),
{
    let r = sort_by_start(s);
    if s.len() == 0 {
        assert forall|y: DateRange| #[trigger] r.contains(y) implies s.contains(y) by {
            let i = choose|i: int| 0 <= i < r.len() && r[i] == y;
        }
        assert forall|y: DateRange| s.contains(y) implies #[trigger] r.contains(y) by {
            let i = choose|i: int| 0 <= i < s.len() && s[i] == y;
        }
    } else {
        let s0 = s.drop_last();
        lemma_sort_by_start_ensures(s0);
        lemma_insert_by_start_ensures(sort_by_start(s0), s.last());
        assert forall|y: DateRange| #[trigger] r.contains(y) implies s.contains(y) by {
            if s0.contains(y) {
                let i = choose|i: int| 0 <= i < s0.len() && s0[i] == y;
                assert(s[i] == y);
            } else {
                assert(s[s.len() - 1] == y);
            }
        }
        assert forall|y: DateRange| s.contains(y) implies #[trigger] r.contains(y) by {
            let i = choose|i: int| 0 <= i < s.len() && s[i] == y;
            if i < s.len() - 1 {
                assert(s0[i] == y);
                assert(s0.contains(y));
            } else {
                assert(y == s.last());
            }
        }
    }
}

/// `insert_by_start` places `x` at the (unique, rightmost) position `k`
/// where the sort order admits it.
proof fn lemma_insert_by_start_at(s: Seq<DateRange>, x: DateRange, k: int)
    requires
        sorted_by_start(s),
        0 <= k <= s.len(),
        k == 0 || s[k - 1].start.days <= x.start.days,
        k == s.len() || x.start.days < s[k].start.days,
    ensures
        insert_by_start(s, x) == s.subrange(0, k) + seq![x] + s.subrange(k, s.len() as int),
    decreases s.len(),
{
    let r = insert_by_start(s, x);
    if s.len() == 0 {
        assert(r =~= s.subrange(0, k) + seq![x] + s.subrange(k, s.len() as int));
    } else if k == s.len() {
        assert(!(x.start.days < s.last().start.days));
        assert(r =~= s.subrange(0, k) + seq![x] + s.subrange(k, s.len() as int));
    } else {
        assert(x.start.days < s[k].start.days);
        assert(s[k].start.days <= s.last().start.days) by {
            if k < s.len() - 1 {
                assert(s[k].start.days <= s[s.len() - 1].start.days);
            }
        }
        let s0 = s.drop_last();
        assert(sorted_by_start(s0)) by {
            assert(forall|i: int, j: int|
                0 <= i < j < s0.len() ==> s0[i] == s[i] && s0[j] == s[j]);
        }
        assert(k == 0 || s0[k - 1].start.days <= x.start.days) by {
            if k > 0 {
                assert(s0[k - 1] == s[k - 1]);
            }
        }
        assert(k == s0.len() || x.start.days < s0[k].start.days) by {
            if k < s0.len() {
                assert(s0[k] == s[k]);
            }
        }
        lemma_insert_by_start_at(s0, x, k);
        assert(r =~= s.subrange(0, k) + seq![x] + s.subrange(k, s.len() as int)) by {
            assert(r == insert_by_start(s0, x).push(s.last()));
            assert(insert_by_start(s0, x) == s0.subrange(0, k) + seq![x] + s0.subrange(
                k,
                s0.len() as int,
            ));
            assert(forall|i: int| 0 <= i < s0.len() ==> s0[i] == s[i]);
        }
    }
}

/// The free ranges left in `[cursor, end]` by the start-sorted busy ranges
/// `rs`: walk the ranges in order, emit `[cursor, next.start]` whenever the
/// cursor lags behind the next busy range, and advance the cursor past it.
pub open spec fn gaps_from(rs: Seq<DateRange>, cursor: i64, end: i64) -> Seq<DateRange>
    decreases rs.len(),
{
    if rs.len() == 0 {
        if cursor < end {
            seq![DateRange { start: Date { days: cursor }, end: Date { days: end } }]
        } else {
            Seq::empty()
        }
    } else {
        let r = rs[0];
        let advanced: i64 = if cursor < r.end.days {
            r.end.days
        } else {
            cursor
        };
        if cursor < r.start.days {
            seq![DateRange { start: Date { days: cursor }, end: r.start }] + gaps_from(
                rs.drop_first(),
                advanced,
                end,
            )
        } else {
            gaps_from(rs.drop_first(), advanced, end)
        }
    }
}

/// Everything `invert_ranges_in_boundary` returns, as a function of its
/// inputs: sort the busy ranges by ascending start and walk them from
/// `start`, collecting the uncovered stretches up to `end`.
pub open spec fn spec_invert(rs: Seq<DateRange>, start: i64, end: i64) -> Seq<DateRange> {
    gaps_from(sort_by_start(rs), start, end)
}

/// Structure of the gap walk: every emitted range is non-empty, lies within
/// `[cursor, end]`, and the ranges appear in ascending order separated by at
/// least one busy day.
proof fn lemma_gaps_from_props(rs: Seq<DateRange>, cursor: i64, end: i64)
    requires
        sorted_by_start(rs),
        forall|i: int|
            0 <= i < rs.len() ==> (#[trigger] rs[i]).start.days < rs[i].end.days
                && rs[i].start.days <= end,
    ensures
        forall|i: int|
            0 <= i < gaps_from(rs, cursor, end).len() ==> cursor <= (#[trigger] gaps_from(
                rs,
                cursor,
                end,
            )[i]).start.days && gaps_from(rs, cursor, end)[i].start.days < gaps_from(
                rs,
                cursor,
                end,
            )[i].end.days && gaps_from(rs, cursor, end)[i].end.days <= end,
        forall|i: int, j: int|
            0 <= i < j < gaps_from(rs, cursor, end).len() ==> (#[trigger] gaps_from(
                rs,
                cursor,
                end,
            )[i]).end.days < (#[trigger] gaps_from(rs, cursor, end)[j]).start.days,
    decreases rs.len(),
{
    let g = gaps_from(rs, cursor, end);
    if rs.len() == 0 {
    } else {
        let r = rs[0];
        let advanced: i64 = if cursor < r.end.days {
            r.end.days
        } else {
            cursor
        };
        let rest = rs.drop_first();
        assert(sorted_by_start(rest)) by {
            assert(forall|i: int, j: int|
                0 <= i < j < rest.len() ==> rest[i] == rs[i + 1] && rest[j] == rs[j + 1]);
        }
        assert(forall|i: int| 0 <= i < rest.len() ==> rest[i] == rs[i + 1]);
        lemma_gaps_from_props(rest, advanced, end);
        let grest = gaps_from(rest, advanced, end);
        if cursor < r.start.days {
            let head = DateRange { start: Date { days: cursor }, end: r.start };
            assert(g =~= seq![head] + grest);
            assert(head.end.days < advanced);
            assert(forall|i: int| 0 <= i < grest.len() ==> g[i + 1] == grest[i]);
            assert(g[0] == head);
        } else {
            assert(g =~= grest);
        }
    }
}

/// Day semantics of the gap walk: day `d` is covered by some gap exactly
/// when it lies in `[cursor, end)` and no busy range covers it.
proof fn lemma_gaps_from_day(rs: Seq<DateRange>, cursor: i64, end: i64, d: int)
    requires
        sorted_by_start(rs),
        forall|i: int|
            0 <= i < rs.len() ==> (#[trigger] rs[i]).start.days <= rs[i].end.days
                && rs[i].start.days <= end,
    ensures
        ranges_cover_day(gaps_from(rs, cursor, end), d) <==> (cursor <= d < end
            && !ranges_cover_day(rs, d)),
    decreases rs.len(),
{
    let g = gaps_from(rs, cursor, end);
    if rs.len() == 0 {
        if cursor <= d < end {
            assert(range_covers_day(g[0], d));
        }
        if ranges_cover_day(g, d) {
            let i = choose|i: int| 0 <= i < g.len() && range_covers_day(g[i], d);
        }
        if ranges_cover_day(rs, d) {
            let i = choose|i: int| 0 <= i < rs.len() && range_covers_day(rs[i], d);
        }
    } else {
        let r = rs[0];
        let advanced: i64 = if cursor < r.end.days {
            r.end.days
        } else {
            cursor
        };
        let rest = rs.drop_first();
        assert(sorted_by_start(rest)) by {
            assert(forall|i: int, j: int|
                0 <= i < j < rest.len() ==> rest[i] == rs[i + 1] && rest[j] == rs[j + 1]);
        }
        assert(forall|i: int| 0 <= i < rest.len() ==> rest[i] == rs[i + 1]);
        lemma_gaps_from_day(rest, advanced, end, d);
        let grest = gaps_from(rest, advanced, end);
        // membership at day `d` splits over head range and tail
        assert(ranges_cover_day(rs, d) <==> (range_covers_day(r, d) || ranges_cover_day(rest, d)))
            by {
            if ranges_cover_day(rs, d) {
                let j = choose|j: int| 0 <= j < rs.len() && range_covers_day(rs[j], d);
                if j > 0 {
                    assert(rest[j - 1] == rs[j]);
                    assert(range_covers_day(rest[j - 1], d));
                }
            }
            if ranges_cover_day(rest, d) {
                let j = choose|j: int| 0 <= j < rest.len() && range_covers_day(rest[j], d);
                assert(range_covers_day(rs[j + 1], d));
            }
            if range_covers_day(r, d) {
                assert(range_covers_day(rs[0], d));
            }
        }
        // the tail is sorted after `r`, so it cannot cover a day before `r.start`
        if d < r.start.days {
            assert(!ranges_cover_day(rest, d)) by {
                if ranges_cover_day(rest, d) {
                    let j = choose|j: int| 0 <= j < rest.len() && range_covers_day(rest[j], d);
                    assert(rest[j] == rs[j + 1]);
                    assert(rs[0].start.days <= rs[j + 1].start.days);
                }
            }
        }
        if cursor < r.start.days {
            let head = DateRange { start: Date { days: cursor }, end: r.start };
            assert(g =~= seq![head] + grest);
            assert(ranges_cover_day(g, d) <==> (range_covers_day(head, d) || ranges_cover_day(
                grest,
                d,
            ))) by {
                if ranges_cover_day(g, d) {
                    let i = choose|i: int| 0 <= i < g.len() && range_covers_day(g[i], d);
                    if i > 0 {
                        assert(g[i] == grest[i - 1]);
                        assert(range_covers_day(grest[i - 1], d));
                    }
                }
                if ranges_cover_day(grest, d) {
                    let i = choose|i: int| 0 <= i < grest.len() && range_covers_day(grest[i], d);
                    assert(range_covers_day(g[i + 1], d));
                }
                if range_covers_day(head, d) {
                    assert(range_covers_day(g[0], d));
                }
            }
            assert(r.end.days <= advanced);
            assert(r.start.days <= end);
        } else {
            assert(g =~= grest);
            assert(r.end.days <= advanced);
        }
    }
}

/// Contains-equivalent range lists lock the same days.
proof fn lemma_cover_day_transfer(a: Seq<DateRange>, b: Seq<DateRange>, d: int)
    requires
        forall|y: DateRange| #[trigger] a.contains(y) <==> #[trigger] b.contains(y),
    ensures
        ranges_cover_day(a, d) == ranges_cover_day(b, d),
{
    if ranges_cover_day(a, d) {
        let i = choose|i: int| 0 <= i < a.len() && range_covers_day(a[i], d);
        assert(a.contains(a[i]));
        assert(b.contains(a[i]));
        let j = choose|j: int| 0 <= j < b.len() && b[j] == a[i];
        assert(range_covers_day(b[j], d));
    }
    if ranges_cover_day(b, d) {
        let i = choose|i: int| 0 <= i < b.len() && range_covers_day(b[i], d);
        assert(b.contains(b[i]));
        assert(a.contains(b[i]));
        let j = choose|j: int| 0 <= j < a.len() && a[j] == b[i];
        assert(range_covers_day(a[j], d));
    }
}

/// A day is locked by a concatenation exactly when either part locks it.
proof fn lemma_cover_day_concat(a: Seq<DateRange>, b: Seq<DateRange>, d: int)
    ensures
        ranges_cover_day(a + b, d) <==> (ranges_cover_day(a, d) || ranges_cover_day(b, d)),
{
    if ranges_cover_day(a + b, d) {
        let i = choose|i: int| 0 <= i < (a + b).len() && range_covers_day((a + b)[i], d);
        if i < a.len() {
            assert(range_covers_day(a[i], d));
        } else {
            assert(range_covers_day(b[i - a.len()], d));
        }
    }
    if ranges_cover_day(a, d) {
        let i = choose|i: int| 0 <= i < a.len() && range_covers_day(a[i], d);
        assert(range_covers_day((a + b)[i], d));
    }
    if ranges_cover_day(b, d) {
        let i = choose|i: int| 0 <= i < b.len() && range_covers_day(b[i], d);
        assert(range_covers_day((a + b)[i + a.len()], d));
    }
}

/// The inputs on which the gap computation is exact: every busy range is
/// non-empty and does not start past the boundary end.
pub open spec fn busy_ranges_ok(rs: Seq<DateRange>, end: i64) -> bool {
    forall|i: int|
        0 <= i < rs.len() ==> (#[trigger] rs[i]).start.days < rs[i].end.days
            && rs[i].start.days <= end
}

/// The shape `invert_ranges_in_boundary` guarantees for its result: every
/// free range is non-empty, lies within `[start, end]`, and consecutive free
/// ranges are separated by at least one busy day (in particular they are
/// sorted ascending and pairwise non-overlapping).
pub open spec fn gap_list_wf(g: Seq<DateRange>, start: i64, end: i64) -> bool {
    (forall|i: int|
        0 <= i < g.len() ==> start <= (#[trigger] g[i]).start.days && g[i].start.days
            < g[i].end.days && g[i].end.days <= end) && (forall|i: int, j: int|
        0 <= i < j < g.len() ==> (#[trigger] g[i]).end.days < (#[trigger] g[j]).start.days)
}

/// Day semantics of `spec_invert`: a day is free exactly when it lies in
/// the boundary and no busy range locks it.
pub(crate) proof fn lemma_spec_invert_day(rs: Seq<DateRange>, start: i64, end: i64, d: int)
    requires
        forall|i: int|
            0 <= i < rs.len() ==> (#[trigger] rs[i]).start.days <= rs[i].end.days
                && rs[i].start.days <= end,
    ensures
        ranges_cover_day(spec_invert(rs, start, end), d) <==> (start <= d < end
            && !ranges_cover_day(rs, d)),
{
    let sorted = sort_by_start(rs);
    lemma_sort_by_start_ensures(rs);
    assert forall|i: int|
        0 <= i < sorted.len() implies (#[trigger] sorted[i]).start.days <= sorted[i].end.days
        && sorted[i].start.days <= end by {
        assert(sorted.contains(sorted[i]));
        let j = choose|j: int| 0 <= j < rs.len() && rs[j] == sorted[i];
    }
    lemma_gaps_from_day(sorted, start, end, d);
    lemma_cover_day_transfer(sorted, rs, d);
}

/// Structural guarantees of `spec_invert` on exact inputs.
pub(crate) proof fn lemma_spec_invert_props(rs: Seq<DateRange>, start: i64, end: i64)
    requires
        busy_ranges_ok(rs, end),
    ensures
        gap_list_wf(spec_invert(rs, start, end), start, end),
{
    let sorted = sort_by_start(rs);
    lemma_sort_by_start_ensures(rs);
    assert forall|i: int|
        0 <= i < sorted.len() implies (#[trigger] sorted[i]).start.days < sorted[i].end.days
        && sorted[i].start.days <= end by {
        assert(sorted.contains(sorted[i]));
        let j = choose|j: int| 0 <= j < rs.len() && rs[j] == sorted[i];
    }
    lemma_gaps_from_props(sorted, start, end);
}

/// Law: for every boundary `[start, end]` and busy set `rs` of non-empty
/// ranges not starting past the boundary, the free ranges are each within
/// the boundary, sorted ascending by start, and pairwise non-overlapping.
pub proof fn lemma_invert_ranges_properties(rs: Seq<DateRange>, start: i64, end: i64)
    requires
        busy_ranges_ok(rs, end),
    ensures
        gap_list_wf(spec_invert(rs, start, end), start, end),
        forall|i: int, j: int|
            0 <= i < j < spec_invert(rs, start, end).len() ==> !(#[trigger] spec_invert(
                rs,
                start,
                end,
            )[i]).spec_overlap(#[trigger] spec_invert(rs, start, end)[j]),
{
    lemma_spec_invert_props(rs, start, end);
}

/// Law (round trip of the gap/cover relationship): the free ranges computed
/// for `rs` cover, together with `rs` itself, the whole boundary: running
/// the gap computation on their union leaves nothing, i.e. the free ranges
/// are exactly the complement of `rs` within the boundary.
pub proof fn lemma_invert_ranges_round_trip(rs: Seq<DateRange>, start: i64, end: i64)
    requires
        busy_ranges_ok(rs, end),
    ensures
        spec_invert(spec_invert(rs, start, end) + rs, start, end) =~= Seq::<DateRange>::empty(),
{
    let g = spec_invert(rs, start, end);
    lemma_spec_invert_props(rs, start, end);
    let both = g + rs;
    assert(busy_ranges_ok(both, end)) by {
        assert(forall|i: int| 0 <= i < g.len() ==> both[i] == g[i]);
        assert(forall|i: int| 0 <= i < rs.len() ==> both[i + g.len()] == rs[i]);
        assert forall|i: int|
            0 <= i < both.len() implies (#[trigger] both[i]).start.days < both[i].end.days
            && both[i].start.days <= end by {
            if i < g.len() {
                assert(both[i] == g[i]);
            } else {
                assert(both[i] == rs[i - g.len()]);
            }
        }
    }
    let result = spec_invert(both, start, end);
    lemma_spec_invert_props(both, start, end);
    if result.len() > 0 {
        let d = result[0].start.days as int;
        assert(range_covers_day(result[0], d));
        assert(ranges_cover_day(result, d));
        lemma_spec_invert_day(both, start, end, d);
        assert(start <= d < end && !ranges_cover_day(both, d));
        lemma_cover_day_concat(g, rs, d);
        lemma_spec_invert_day(rs, start, end, d);
        assert(false);
    }
}

/// Insertion sort of date ranges by ascending start date, mirroring
/// `sort_by_start`.
fn sort_ranges(ranges: &Vec<DateRange>) -> (r: Vec<DateRange>)
    ensures
        r@ == sort_by_start(ranges@),
{
    let mut out: Vec<DateRange> = Vec::new();
    let mut i: usize = 0;
    while i < ranges.len()
        invariant
            i <= ranges@.len(),
            out@ == sort_by_start(ranges@.subrange(0, i as int)),
            sorted_by_start(out@),
        decreases ranges@.len() - i,
    {
        let x = ranges[i];
        let mut j: usize = out.len();
        while j > 0 && out[j - 1].start.days > x.start.days
            invariant
                0 <= j <= out@.len(),
                forall|k: int|
                    j <= k < out@.len() ==> x.start.days < (#[trigger] out@[k]).start.days,
            decreases j,
        {
            j -= 1;
        }
        proof {
            let prefix = ranges@.subrange(0, i as int);
            let prefix1 = ranges@.subrange(0, i as int + 1);
            lemma_insert_by_start_at(out@, x, j as int);
            lemma_insert_by_start_ensures(out@, x);
            assert(prefix1.drop_last() =~= prefix);
            assert(prefix1.last() == ranges@[i as int]);
            assert(insert_by_start(out@, x) == sort_by_start(prefix1));
            assert(out@.insert(j as int, x) =~= out@.subrange(0, j as int) + seq![x]
                + out@.subrange(j as int, out@.len() as int));
        }
        out.insert(j, x);
        i += 1;
    }
    proof {
        assert(ranges@.subrange(0, ranges@.len() as int) =~= ranges@);
    }
    out
}

/// Given an unordered list of busy ranges and a boundary `[start, end]`,
/// return the free ranges: the maximal stretches of the boundary not locked
/// by any busy range, sorted by ascending start and pairwise non-overlapping.
/// With no busy ranges the result is the single range `[start, end]`; with a
/// busy range covering the whole boundary it is empty. Total and
/// deterministic for any inputs.
pub fn invert_ranges_in_boundary(ranges: &Vec<DateRange>, start: Date, end: Date) -> (r: Vec<
    DateRange,
>)
    ensures
        r@ == spec_invert(ranges@, start.days, end.days),
{
    let sorted = sort_ranges(ranges);
    let mut result: Vec<DateRange> = Vec::new();
    let mut cursor: i64 = start.days;
    let mut i: usize = 0;
    proof {
        assert(sorted@.subrange(0, sorted@.len() as int) =~= sorted@);
        assert(Seq::<DateRange>::empty() + gaps_from(sorted@, start.days, end.days)
            =~= gaps_from(sorted@, start.days, end.days));
    }
    while i < sorted.len()
        invariant
            i <= sorted@.len(),
            sorted@ == sort_by_start(ranges@),
            spec_invert(ranges@, start.days, end.days) == result@ + gaps_from(
                sorted@.subrange(i as int, sorted@.len() as int),
                cursor,
                end.days,
            ),
        decreases sorted@.len() - i,
    {
        let r = sorted[i];
        let ghost rest = sorted@.subrange(i as int, sorted@.len() as int);
        let ghost rest1 = sorted@.subrange(i as int + 1, sorted@.len() as int);
        proof {
            assert(rest[0] == r);
            assert(rest.drop_first() =~= rest1);
        }
        if cursor < r.start.days {
            let gap = DateRange { start: Date { days: cursor }, end: r.start };
            proof {
                let ghost advanced: i64 = if cursor < r.end.days {
                    r.end.days
                } else {
                    cursor
                };
                assert(gaps_from(rest, cursor, end.days) == seq![gap] + gaps_from(
                    rest1,
                    advanced,
                    end.days,
                ));
                assert((result@ + gaps_from(rest, cursor, end.days)) =~= (result@.push(gap)
                    + gaps_from(rest1, advanced, end.days)));
            }
            result.push(gap);
        } else {
            proof {
                let ghost advanced: i64 = if cursor < r.end.days {
                    r.end.days
                } else {
                    cursor
                };
                assert(gaps_from(rest, cursor, end.days) == gaps_from(rest1, advanced, end.days));
            }
        }
        if cursor < r.end.days {
            cursor = r.end.days;
        }
        i += 1;
    }
    proof {
        assert(sorted@.subrange(sorted@.len() as int, sorted@.len() as int)
            =~= Seq::<DateRange>::empty());
    }
    if cursor < end.days {
        let gap = DateRange { start: Date { days: cursor }, end };
        proof {
            assert(gaps_from(Seq::<DateRange>::empty(), cursor, end.days) =~= seq![gap]);
            assert(result@ + seq![gap] =~= result@.push(gap));
        }
        result.push(gap);
    } else {
        proof {
            assert(gaps_from(Seq::<DateRange>::empty(), cursor, end.days)
                =~= Seq::<DateRange>::empty());
            assert(result@ + Seq::<DateRange>::empty() =~= result@);
        }
    }
    result
}

} // verus!
