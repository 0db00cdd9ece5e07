//! The overlap layout engine: packs a day's events into horizontal columns
//! so that events overlapping in time never overlap on screen.
//!
//! Each event receives a span `[col/width, (col+1)/width)` of its day
//! column, kept here as the integer pair ([`Span`]) so the contracts can
//! speak about the fractions exactly.

use vstd::prelude::*;

use crate::event::EventId;

verus! {

/// One event's time extent, as the layout engine sees it: an identifier and
/// the start/end timestamps of its (single-day, minimum-widened) interval.
#[derive(Clone, Debug)]
pub struct Ev {
    pub id: EventId,
    pub start: i64,
    pub end: i64,
}

impl Ev {
    /// Build an interval record for the layout engine.
    pub fn new(id: EventId, start: i64, end: i64) -> (r: Ev)
        ensures
            r == (Ev { id, start, end }),
    {
        Ev { id, start, end }
    }
}

/// Two intervals overlap when some instant lies strictly inside both.
/// Touching intervals do not overlap.
pub open spec fn overlaps_spec(a: Ev, b: Ev) -> bool {
    (if a.start >= b.start {
        a.start
    } else {
        b.start
    }) < (if a.end <= b.end {
        a.end
    } else {
        b.end
    })
}

/// Decide whether two intervals overlap (strictly: touching intervals do
/// not count).
pub fn overlaps(e1: &Ev, e2: &Ev) -> (r: bool)
    ensures
        r == overlaps_spec(*e1, *e2),
{
    let lo: i64 = if e1.start >= e2.start {
        e1.start
    } else {
        e2.start
    };
    let hi: i64 = if e1.end <= e2.end {
        e1.end
    } else {
        e2.end
    };
    lo < hi
}

/// The horizontal span `[col/width, (col+1)/width)` of a day column.
#[derive(Clone, Copy, Debug, PartialEq, Eq, Structural)]
pub struct Span {
    pub col: usize,
    pub width: usize,
}

impl Span {
    /// A well-formed span has `col < width`, which is exactly the statement
    /// `0 <= col/width < (col+1)/width <= 1` with the denominators cleared.
    pub open spec fn wf(self) -> bool {
        self.col < self.width
    }
}

/// The spans `[a.col/a.width, (a.col+1)/a.width)` and
/// `[b.col/b.width, (b.col+1)/b.width)` intersect; written with the
/// denominators cleared (both widths must be positive for this to mean
/// anything).
pub open spec fn span_overlap(a: Span, b: Span) -> bool {
    &&& (a.col as int) * (b.width as int) < ((b.col as int) + 1) * (a.width as int)
    &&& (b.col as int) * (a.width as int) < ((a.col as int) + 1) * (b.width as int)
}

/// Distinct columns of one group never overlap on screen: two spans of the
/// same width intersect only when they are the same column.
pub proof fn lemma_same_width_distinct_col_disjoint(a: Span, b: Span)
    requires
        a.width == b.width,
        a.width > 0,
        a.col != b.col,
    ensures
        !span_overlap(a, b),
{
    let w = a.width as int;
    let ac = a.col as int;
    let bc = b.col as int;
    if ac < bc {
        assert(ac + 1 <= bc);
        assert((bc) * w >= (ac + 1) * w) by (nonlinear_arith)
            requires
                w > 0,
                ac + 1 <= bc,
        ;
    } else {
        assert(bc + 1 <= ac);
        assert((ac) * w >= (bc + 1) * w) by (nonlinear_arith)
            requires
                w > 0,
                bc + 1 <= ac,
        ;
    }
}

/// Index of the first layout entry for the given id, or -1 when there is
/// none.
pub open spec fn find_span(s: Seq<(EventId, Span)>, id: Seq<char>) -> int
    decreases s.len(),
{
    if s.len() == 0 {
        -1
    } else if s[0].0@ == id {
        0
    } else {
        let r = find_span(s.drop_first(), id);
        if r < 0 {
            -1
        } else {
            r + 1
        }
    }
}

/// There is an entry for the id.
pub open spec fn has_span(s: Seq<(EventId, Span)>, id: Seq<char>) -> bool {
    find_span(s, id) >= 0
}

/// The span recorded for the id (meaningful only when `has_span` holds).
pub open spec fn span_at(s: Seq<(EventId, Span)>, id: Seq<char>) -> Span {
    s[find_span(s, id)].1
}

/// `find_span` returns -1 exactly when no entry carries the id, and
/// otherwise the first index that does.
pub proof fn lemma_find_span(s: Seq<(EventId, Span)>, id: Seq<char>)
    ensures
        ({
            let r = find_span(s, id);
            &&& -1 <= r < s.len()
            &&& r >= 0 ==> s[r].0@ == id && (forall|j: int| 0 <= j < r ==> s[j].0@ != id)
            &&& r == -1 ==> (forall|j: int| 0 <= j < s.len() ==> s[j].0@ != id)
        }),
    decreases s.len(),
{
    if s.len() == 0 {
    } else if s[0].0@ == id {
    } else {
        let t = s.drop_first();
        lemma_find_span(t, id);
        let rt = find_span(t, id);
        if rt >= 0 {
            assert(s[rt + 1] == t[rt]);
            assert forall|j: int| 0 <= j < rt + 1 implies s[j].0@ != id by {
                if j > 0 {
                    assert(t[j - 1] == s[j]);
                    assert(t[j - 1].0@ != id);
                }
            }
        } else {
            assert forall|j: int| 0 <= j < s.len() implies s[j].0@ != id by {
                if j > 0 {
                    assert(t[j - 1] == s[j]);
                    assert(t[j - 1].0@ != id);
                }
            }
        }
    }
}

/// When the id only occurs in the first part of a concatenation, `find_span`
/// ignores the appended part; when it occurs first at position `old_len + g`
/// of the concatenation, that is where `find_span` lands.
pub proof fn lemma_find_span_append(a: Seq<(EventId, Span)>, b: Seq<(EventId, Span)>, id: Seq<char>)
    ensures
        has_span(a, id) ==> find_span(a + b, id) == find_span(a, id) && span_at(a + b, id)
            == span_at(a, id),
        !has_span(a, id) ==> ({
            let r = find_span(a + b, id);
            &&& r >= 0 ==> r - a.len() >= 0 && (a + b)[r].0@ == id && (forall|j: int|
                0 <= j < r - a.len() ==> b[j].0@ != id)
            &&& r == -1 ==> (forall|j: int| 0 <= j < b.len() ==> b[j].0@ != id)
        }),
        !has_span(a, id) ==> has_span(a + b, id) == has_span(b, id),
        !has_span(a, id) && has_span(b, id) ==> find_span(a + b, id) == a.len() + find_span(b, id)
            && span_at(a + b, id) == span_at(b, id),
{
    let c = a + b;
    lemma_find_span(a, id);
    lemma_find_span(b, id);
    lemma_find_span(c, id);
    let ra = find_span(a, id);
    let rc = find_span(c, id);
    if ra >= 0 {
        assert(c[ra] == a[ra]);
        assert(c[ra].0@ == id);
        assert(rc >= 0);
        if rc < ra {
            assert(c[rc] == a[rc]);
            assert(a[rc].0@ != id);
        }
        if rc > ra {
            assert(c[ra].0@ != id);
        }
        assert(rc == ra);
    } else {
        if rc >= 0 {
            if rc < a.len() {
                assert(c[rc] == a[rc]);
                assert(a[rc].0@ != id);
            }
            assert(rc >= a.len());
            assert forall|j: int| 0 <= j < rc - a.len() implies b[j].0@ != id by {
                assert(c[a.len() + j] == b[j]);
                assert(c[a.len() + j].0@ != id);
            }
        } else {
            assert forall|j: int| 0 <= j < b.len() implies b[j].0@ != id by {
                assert(c[a.len() + j] == b[j]);
                assert(c[a.len() + j].0@ != id);
            }
        }
        let rb = find_span(b, id);
        if rb >= 0 {
            assert(c[a.len() + rb] == b[rb]);
            assert(rc != -1) by {
                if rc == -1 {
                    assert(b[rb].0@ != id);
                }
            }
            let gi = rc - a.len();
            assert(c[rc] == b[gi]);
            assert(gi >= rb) by {
                if gi < rb {
                    assert(b[gi].0@ != id);
                }
            }
            assert(gi <= rb) by {
                if rb < gi {
                    assert(b[rb].0@ != id);
                }
            }
            assert(span_at(c, id) == c[rc].1 && c[rc].1 == b[rb].1);
        } else {
            assert(rc == -1) by {
                if rc >= 0 {
                    assert(c[rc] == b[rc - a.len()]);
                    assert(b[rc - a.len()].0@ == id);
                }
            }
        }
    }
}

/// The visiting order contains position `k`.
pub open spec fn ord_contains(ord: Seq<usize>, k: int) -> bool {
    exists|q: int| 0 <= q < ord.len() && (#[trigger] ord[q]) == k
}

/// A permutation of `0..events.len()` that visits the events in ascending
/// start order (selection sort over indices, so nothing about the events
/// themselves moves).
fn sorted_order(events: &Vec<Ev>) -> (ord: Vec<usize>)
    ensures
        ord@.len() == events@.len(),
        forall|q: int| 0 <= q < ord@.len() ==> (#[trigger] ord@[q]) < events@.len(),
        forall|q1: int, q2: int| 0 <= q1 < q2 < ord@.len() ==> ord@[q1] != ord@[q2],
        forall|k: int| 0 <= k < events@.len() ==> #[trigger] ord_contains(ord@, k),
        forall|q1: int, q2: int|
            0 <= q1 <= q2 < ord@.len() ==> events@[ord@[q1] as int].start <= events@[ord@[q2]
                as int].start,
{
    let n = events.len();
    let mut ord: Vec<usize> = Vec::new();
    let mut i: usize = 0;
    while i < n
        invariant
            0 <= i <= n,
            ord@.len() == i,
            forall|q: int| 0 <= q < i ==> (#[trigger] ord@[q]) == q,
        decreases n - i,
    {
        ord.push(i);
        i = i + 1;
    }
    proof {
        assert forall|k: int| 0 <= k < n implies #[trigger] ord_contains(ord@, k) by {
            assert(ord@[k] == k);
        }
    }
    let mut a: usize = 0;
    while a < n
        invariant
            0 <= a <= n,
            n == events@.len(),
            ord@.len() == n,
            forall|q: int| 0 <= q < n ==> (#[trigger] ord@[q]) < n,
            forall|q1: int, q2: int| 0 <= q1 < q2 < n ==> ord@[q1] != ord@[q2],
            forall|k: int| 0 <= k < n ==> #[trigger] ord_contains(ord@, k),
            forall|q1: int, q2: int|
                0 <= q1 <= q2 < a ==> events@[ord@[q1] as int].start <= events@[ord@[q2]
                    as int].start,
            forall|q1: int, q2: int|
                0 <= q1 < a <= q2 < n ==> events@[ord@[q1] as int].start <= events@[ord@[q2]
                    as int].start,
        decreases n - a,
    {
        let mut best: usize = a;
        let mut b: usize = a + 1;
        while b < n
            invariant
                a <= best < n,
                a < b <= n,
                n == events@.len(),
                ord@.len() == n,
                forall|q: int| 0 <= q < n ==> (#[trigger] ord@[q]) < n,
                forall|q: int|
                    a <= q < b ==> events@[ord@[best as int] as int].start <= events@[(
                    #[trigger] ord@[q]) as int].start,
            decreases n - b,
        {
            if events[ord[b]].start < events[ord[best]].start {
                best = b;
            }
            b = b + 1;
        }
        let ghost prev = ord@;
        let va = ord[a];
        let vb = ord[best];
        ord.set(a, vb);
        ord.set(best, va);
        proof {
            assert forall|k: int| 0 <= k < n implies #[trigger] ord_contains(ord@, k) by {
                assert(ord_contains(prev, k));
                let q0 = choose|q: int| 0 <= q < prev.len() && (#[trigger] prev[q]) == k;
                if q0 == a as int {
                    assert(ord@[best as int] == k);
                } else if q0 == best as int {
                    assert(ord@[a as int] == k);
                } else {
                    assert(ord@[q0] == k);
                }
            }
        }
        a = a + 1;
    }
    ord
}

/// A permutation of `0..keys.len()` that visits the keys in ascending
/// order (selection sort over indices).
fn sorted_order_by_key(keys: &Vec<i64>) -> (ord: Vec<usize>)
    ensures
        ord@.len() == keys@.len(),
        forall|q: int| 0 <= q < ord@.len() ==> (#[trigger] ord@[q]) < keys@.len(),
        forall|q1: int, q2: int| 0 <= q1 < q2 < ord@.len() ==> ord@[q1] != ord@[q2],
        forall|k: int| 0 <= k < keys@.len() ==> #[trigger] ord_contains(ord@, k),
        forall|q1: int, q2: int|
            0 <= q1 <= q2 < ord@.len() ==> keys@[ord@[q1] as int] <= keys@[ord@[q2] as int],
{
    let n = keys.len();
    let mut ord: Vec<usize> = Vec::new();
    let mut i: usize = 0;
    while i < n
        invariant
            0 <= i <= n,
            ord@.len() == i,
            forall|q: int| 0 <= q < i ==> (#[trigger] ord@[q]) == q,
        decreases n - i,
    {
        ord.push(i);
        i = i + 1;
    }
    proof {
        assert forall|k: int| 0 <= k < n implies #[trigger] ord_contains(ord@, k) by {
            assert(ord@[k] == k);
        }
    }
    let mut a: usize = 0;
    while a < n
        invariant
            0 <= a <= n,
            n == keys@.len(),
            ord@.len() == n,
            forall|q: int| 0 <= q < n ==> (#[trigger] ord@[q]) < n,
            forall|q1: int, q2: int| 0 <= q1 < q2 < n ==> ord@[q1] != ord@[q2],
            forall|k: int| 0 <= k < n ==> #[trigger] ord_contains(ord@, k),
            forall|q1: int, q2: int|
                0 <= q1 <= q2 < a ==> keys@[ord@[q1] as int] <= keys@[ord@[q2] as int],
            forall|q1: int, q2: int|
                0 <= q1 < a <= q2 < n ==> keys@[ord@[q1] as int] <= keys@[ord@[q2] as int],
        decreases n - a,
    {
        let mut best: usize = a;
        let mut b: usize = a + 1;
        while b < n
            invariant
                a <= best < n,
                a < b <= n,
                n == keys@.len(),
                ord@.len() == n,
                forall|q: int| 0 <= q < n ==> (#[trigger] ord@[q]) < n,
                forall|q: int|
                    a <= q < b ==> keys@[ord@[best as int] as int] <= keys@[(
                    #[trigger] ord@[q]) as int],
            decreases n - b,
        {
            if keys[ord[b]] < keys[ord[best]] {
                best = b;
            }
            b = b + 1;
        }
        let ghost prev = ord@;
        let va = ord[a];
        let vb = ord[best];
        ord.set(a, vb);
        ord.set(best, va);
        proof {
            assert forall|k: int| 0 <= k < n implies #[trigger] ord_contains(ord@, k) by {
                assert(ord_contains(prev, k));
                let q0 = choose|q: int| 0 <= q < prev.len() && (#[trigger] prev[q]) == k;
                if q0 == a as int {
                    assert(ord@[best as int] == k);
                } else if q0 == best as int {
                    assert(ord@[a as int] == k);
                } else {
                    assert(ord@[q0] == k);
                }
            }
        }
        a = a + 1;
    }
    ord
}

/// Append one closed group to the emitted entries: each member's id gets
/// the span `[col/width, (col+1)/width)`.
fn emit_group(
    entries: &mut Vec<(EventId, Span)>,
    events: &Vec<Ev>,
    group: &Vec<(usize, usize)>,
    width: usize,
)
    requires
        forall|g: int| 0 <= g < group@.len() ==> (#[trigger] group@[g]).0 < events@.len(),
    ensures
        final(entries)@ == old(entries)@ + group@.map_values(
            |g: (usize, usize)| (events@[g.0 as int].id, Span { col: g.1, width }),
        ),
{
    let ghost target = group@.map_values(
        |g: (usize, usize)| (events@[g.0 as int].id, Span { col: g.1, width }),
    );
    let mut j: usize = 0;
    while j < group.len()
        invariant
            0 <= j <= group@.len(),
            forall|g: int| 0 <= g < group@.len() ==> (#[trigger] group@[g]).0 < events@.len(),
            target == group@.map_values(
                |g: (usize, usize)| (events@[g.0 as int].id, Span { col: g.1, width }),
            ),
            entries@ == old(entries)@ + target.take(j as int),
        decreases group@.len() - j,
    {
        let (k, col) = group[j];
        entries.push((events[k].id.clone(), Span { col, width }));
        proof {
            assert(target[j as int] == (events@[k as int].id, Span { col, width }));
            assert(entries@ =~= old(entries)@ + target.take(j as int + 1));
        }
        j = j + 1;
    }
    proof {
        assert(target.take(group@.len() as int) =~= target);
    }
}

/// Every event's interval runs forward in time. The layout engine receives
/// events already widened to the minimum duration, so this always holds.
pub open spec fn ev_intervals_wf(s: Seq<Ev>) -> bool {
    forall|k: int| 0 <= k < s.len() ==> (#[trigger] s[k]).start < s[k].end
}

/// No two events share an id.
pub open spec fn unique_ev_ids(s: Seq<Ev>) -> bool {
    forall|k: int, l: int|
        0 <= k < l < s.len() ==> (#[trigger] s[k]).id@ != (#[trigger] s[l]).id@
}

/// The non-overlap guarantee of the layout: whenever two distinct events
/// overlap in time and both received spans, their spans are disjoint on
/// screen and share one column width (overlapping events are always laid
/// out within one group). Width equality composes along chains of
/// overlapping events, so every transitively-overlapping group shares one
/// width.
pub open spec fn no_visual_overlap(s: Seq<Ev>, entries: Seq<(EventId, Span)>) -> bool {
    forall|k: int, l: int|
        #![trigger has_span(entries, s[k].id@), has_span(entries, s[l].id@)]
        0 <= k < s.len() && 0 <= l < s.len() && s[k].id@ != s[l].id@ && overlaps_spec(s[k], s[l])
            && has_span(entries, s[k].id@) && has_span(entries, s[l].id@) ==> !span_overlap(
            span_at(entries, s[k].id@),
            span_at(entries, s[l].id@),
        ) && span_at(entries, s[k].id@).width == span_at(entries, s[l].id@).width
}

/// Entry `m` carries the id of one of the events in `s`.
pub open spec fn entry_id_known(s: Seq<Ev>, entries: Seq<(EventId, Span)>, m: int) -> bool {
    exists|k: int| 0 <= k < s.len() && entries[m].0@ == (#[trigger] s[k]).id@
}

/// With unique ids, equal ids mean equal positions.
pub proof fn lemma_ids_injective(s: Seq<Ev>, k: int, l: int)
    requires
        unique_ev_ids(s),
        0 <= k < s.len(),
        0 <= l < s.len(),
        s[k].id@ == s[l].id@,
    ensures
        k == l,
{
    if k < l {
        assert(s[k].id@ != s[l].id@);
    } else if l < k {
        assert(s[l].id@ != s[k].id@);
    }
}

/// Position `k` was visited in the first `p` steps of the order.
pub open spec fn visited(ord: Seq<usize>, p: int, k: usize) -> bool {
    exists|q: int| 0 <= q < p && (#[trigger] ord[q]) == k
}

/// Some event visited in the first `p` steps carries the id.
pub open spec fn id_visited(s: Seq<Ev>, ord: Seq<usize>, p: int, id: Seq<char>) -> bool {
    exists|q: int| 0 <= q < p && s[(#[trigger] ord[q]) as int].id@ == id
}

/// Event index `k` is a member of the current group.
pub open spec fn in_group(group: Seq<(usize, usize)>, k: usize) -> bool {
    exists|g: int| 0 <= g < group.len() && (#[trigger] group[g]).0 == k
}

/// The working state of the column-packing loop, after `p` events have been
/// placed: `entries` holds the finished groups' spans, `group` the members
/// (event index, column) of the still-open group, `width` its column count.
pub open spec fn markus_inv(
    s: Seq<Ev>,
    ord: Seq<usize>,
    p: int,
    entries: Seq<(EventId, Span)>,
    group: Seq<(usize, usize)>,
    width: int,
) -> bool {
    // the input and its visiting order
    &&& s.len() < 0x1000_0000
    &&& ord.len() == s.len()
    &&& 0 <= p <= s.len()
    &&& forall|q: int| 0 <= q < ord.len() ==> (#[trigger] ord[q]) < s.len()
    &&& forall|q1: int, q2: int| 0 <= q1 < q2 < ord.len() ==> ord[q1] != ord[q2]
    &&& forall|q1: int, q2: int|
        0 <= q1 <= q2 < ord.len() ==> s[ord[q1] as int].start <= s[ord[q2] as int].start
    &&& forall|k: int| 0 <= k < s.len() ==> #[trigger] ord_contains(ord, k)
    &&& ev_intervals_wf(s)
    &&& unique_ev_ids(s)
    // the open group
    &&& group.len() <= p
    &&& 1 <= width <= group.len() + 1
    &&& forall|g: int|
        0 <= g < group.len() ==> (#[trigger] group[g]).0 < s.len() && (group[g].1 as int) < width
    &&& forall|g1: int, g2: int|
        0 <= g1 < g2 < group.len() ==> (#[trigger] group[g1]).0 != (#[trigger] group[g2]).0
    &&& forall|g: int| 0 <= g < group.len() ==> visited(ord, p, (#[trigger] group[g]).0)
    &&& forall|g: int|
        0 <= g < group.len() ==> !has_span(entries, s[(#[trigger] group[g]).0 as int].id@)
    &&& forall|g1: int, g2: int|
        0 <= g1 < group.len() && 0 <= g2 < group.len() && g1 != g2 && (#[trigger] group[g1]).1 == (
        #[trigger] group[g2]).1 ==> !overlaps_spec(s[group[g1].0 as int], s[group[g2].0 as int])
    // the emitted entries
    &&& forall|m: int|
        0 <= m < entries.len() ==> (#[trigger] entries[m]).1.wf() && entries[m].1.width <= s.len()
            + 1
    &&& forall|m1: int, m2: int|
        0 <= m1 < m2 < entries.len() ==> (#[trigger] entries[m1]).0@ != (#[trigger] entries[m2]).0@
    &&& forall|m: int|
        0 <= m < entries.len() ==> id_visited(s, ord, p, (#[trigger] entries[m]).0@)
    // every emitted event ends before the open group and the unvisited
    // events begin
    &&& forall|k: int, g: int|
        0 <= k < s.len() && #[trigger] has_span(entries, s[k].id@) && 0 <= g < group.len() ==> s[k].end
            <= s[(#[trigger] group[g]).0 as int].start
    &&& forall|k: int, q: int|
        0 <= k < s.len() && #[trigger] has_span(entries, s[k].id@) && p <= q < ord.len() ==> s[k].end
            <= s[(#[trigger] ord[q]) as int].start
    &&& no_visual_overlap(s, entries)
    // every visited event is emitted or in the open group
    &&& forall|q: int|
        0 <= q < p ==> has_span(entries, s[(#[trigger] ord[q]) as int].id@) || in_group(
            group,
            ord[q],
        )
}

/// Does the event at index `k` overlap any member of the open group?
fn group_overlaps_any(events: &Vec<Ev>, group: &Vec<(usize, usize)>, k: usize) -> (r: bool)
    requires
        k < events@.len(),
        forall|g: int| 0 <= g < group@.len() ==> (#[trigger] group@[g]).0 < events@.len(),
    ensures
        r == exists|g: int|
            0 <= g < group@.len() && overlaps_spec(
                events@[k as int],
                events@[(#[trigger] group@[g]).0 as int],
            ),
{
    let mut j: usize = 0;
    while j < group.len()
        invariant
            0 <= j <= group@.len(),
            k < events@.len(),
            forall|g: int| 0 <= g < group@.len() ==> (#[trigger] group@[g]).0 < events@.len(),
            forall|g: int|
                0 <= g < j ==> !overlaps_spec(
                    events@[k as int],
                    events@[(#[trigger] group@[g]).0 as int],
                ),
        decreases group@.len() - j,
    {
        if overlaps(&events[k], &events[group[j].0]) {
            return true;
        }
        j = j + 1;
    }
    false
}

/// Is some member of the open group both in this column and overlapping the
/// event at index `k`?
fn slot_used(events: &Vec<Ev>, group: &Vec<(usize, usize)>, k: usize, col: usize) -> (r: bool)
    requires
        k < events@.len(),
        forall|g: int| 0 <= g < group@.len() ==> (#[trigger] group@[g]).0 < events@.len(),
    ensures
        r == exists|g: int|
            0 <= g < group@.len() && (#[trigger] group@[g]).1 == col && overlaps_spec(
                events@[k as int],
                events@[group@[g].0 as int],
            ),
{
    let mut j: usize = 0;
    while j < group.len()
        invariant
            0 <= j <= group@.len(),
            k < events@.len(),
            forall|g: int| 0 <= g < group@.len() ==> (#[trigger] group@[g]).0 < events@.len(),
            forall|g: int|
                0 <= g < j ==> !((#[trigger] group@[g]).1 == col && overlaps_spec(
                    events@[k as int],
                    events@[group@[g].0 as int],
                )),
        decreases group@.len() - j,
    {
        if group[j].1 == col && overlaps(&events[k], &events[group[j].0]) {
            return true;
        }
        j = j + 1;
    }
    false
}

/// The first column whose occupants do not overlap the event at index `k`.
/// Column `width` is always free, so the result is at most `width`.
fn find_free_col(events: &Vec<Ev>, group: &Vec<(usize, usize)>, k: usize, width: usize) -> (col:
    usize)
    requires
        k < events@.len(),
        width >= 1,
        forall|g: int|
            0 <= g < group@.len() ==> (#[trigger] group@[g]).0 < events@.len() && (group@[g].1
                as int) < width as int,
    ensures
        col <= width,
        forall|g: int|
            0 <= g < group@.len() && (#[trigger] group@[g]).1 == col ==> !overlaps_spec(
                events@[k as int],
                events@[group@[g].0 as int],
            ),
{
    let mut col: usize = 0;
    loop
        invariant
            col <= width,
            k < events@.len(),
            width >= 1,
            forall|g: int|
                0 <= g < group@.len() ==> (#[trigger] group@[g]).0 < events@.len() && (group@[g].1
                    as int) < width as int,
        decreases width - col,
    {
        if !slot_used(events, group, k, col) {
            return col;
        }
        proof {
            let g = choose|g: int|
                0 <= g < group@.len() && (#[trigger] group@[g]).1 == col && overlaps_spec(
                    events@[k as int],
                    events@[group@[g].0 as int],
                );
            assert((group@[g].1 as int) < width as int);
        }
        col = col + 1;
    }
}

/// Close the open group: emit a span for each member and leave the group
/// empty. Callable only when the event about to be placed (if any) overlaps
/// no member, so closed groups always end before everything still to come.
fn close_group(
    events: &Vec<Ev>,
    ord: &Vec<usize>,
    entries: &mut Vec<(EventId, Span)>,
    group: Vec<(usize, usize)>,
    width: usize,
    p: usize,
) -> (fresh: Vec<(usize, usize)>)
    requires
        markus_inv(events@, ord@, p as int, old(entries)@, group@, width as int),
        forall|g: int|
            0 <= g < group@.len() ==> p as int == events@.len() || !overlaps_spec(
                events@[ord@[p as int] as int],
                events@[(#[trigger] group@[g]).0 as int],
            ),
    ensures
        markus_inv(events@, ord@, p as int, final(entries)@, fresh@, 1),
        fresh@.len() == 0,
{
    let ghost s = events@;
    let ghost a = old(entries)@;
    let ghost grp = group@;
    let ghost w = width;
    let ghost pi = p as int;
    emit_group(entries, events, &group, width);
    proof {
        let tgt = grp.map_values(
            |g: (usize, usize)| (s[g.0 as int].id, Span { col: g.1, width: w }),
        );
        let c = entries@;
        assert(c == a + tgt);
        assert(c.len() == a.len() + grp.len());
        assert forall|g: int| 0 <= g < grp.len() implies (#[trigger] tgt[g]).0@ == s[grp[g].0
            as int].id@ && tgt[g].1 == (Span { col: grp[g].1, width: w }) by {}
        // every member ends before the event about to be placed
        assert forall|g: int| 0 <= g < grp.len() && pi < s.len() implies s[(
        #[trigger] grp[g]).0 as int].end <= s[ord@[pi] as int].start by {
            let e = s[ord@[pi] as int];
            let m = s[grp[g].0 as int];
            assert(visited(ord@, pi, grp[g].0));
            let q = choose|q: int| 0 <= q < pi && (#[trigger] ord@[q]) == grp[g].0;
            assert(s[ord@[q] as int].start <= s[ord@[pi] as int].start);
            assert(!overlaps_spec(e, m));
            assert(m.start < m.end);
            assert(e.start < e.end);
        }
        // each member's id now has exactly its span
        assert forall|g: int| 0 <= g < grp.len() implies #[trigger] has_span(
            c,
            s[grp[g].0 as int].id@,
        ) && span_at(c, s[grp[g].0 as int].id@) == (Span { col: grp[g].1, width: w }) by {
            let id = s[grp[g].0 as int].id@;
            assert(!has_span(a, id));
            lemma_find_span_append(a, tgt, id);
            lemma_find_span(c, id);
            let r = find_span(c, id);
            if r == -1 {
                assert(tgt[g].0@ == id);
                assert(false);
            }
            let gi = r - a.len();
            assert(c[r] == tgt[gi]);
            assert(s[grp[gi].0 as int].id@ == id);
            lemma_ids_injective(s, grp[gi].0 as int, grp[g].0 as int);
            if gi < g {
                assert(grp[gi].0 != grp[g].0);
            } else if g < gi {
                assert(grp[g].0 != grp[gi].0);
            }
            assert(gi == g);
            assert(span_at(c, id) == tgt[g].1);
        }
        // already-emitted ids are untouched
        assert forall|id: Seq<char>| #[trigger] has_span(a, id) implies has_span(c, id) && span_at(
            c,
            id,
        ) == span_at(a, id) by {
            lemma_find_span_append(a, tgt, id);
        }
        // a new id belongs to some member
        assert forall|id: Seq<char>| #[trigger] has_span(c, id) && !has_span(a, id) implies exists|
            g: int,
        |
            0 <= g < grp.len() && s[(#[trigger] grp[g]).0 as int].id@ == id by {
            lemma_find_span_append(a, tgt, id);
            lemma_find_span(c, id);
            let r = find_span(c, id);
            assert(r >= 0);
            let gi = r - a.len();
            assert(c[r] == tgt[gi]);
            assert(s[grp[gi].0 as int].id@ == id);
        }
        // entry spans stay well-formed
        assert forall|m: int| 0 <= m < c.len() implies (#[trigger] c[m]).1.wf() && c[m].1.width
            <= s.len() + 1 by {
            if m < a.len() {
                assert(c[m] == a[m]);
            } else {
                assert(c[m] == tgt[m - a.len()]);
                assert((grp[m - a.len()].1 as int) < w as int);
            }
        }
        // entry ids stay unique
        assert forall|m1: int, m2: int| 0 <= m1 < m2 < c.len() implies (#[trigger] c[m1]).0@ != (
        #[trigger] c[m2]).0@ by {
            if m2 < a.len() {
                assert(c[m1] == a[m1] && c[m2] == a[m2]);
            } else if m1 >= a.len() {
                let g1 = m1 - a.len();
                let g2 = m2 - a.len();
                assert(c[m1] == tgt[g1] && c[m2] == tgt[g2]);
                if s[grp[g1].0 as int].id@ == s[grp[g2].0 as int].id@ {
                    lemma_ids_injective(s, grp[g1].0 as int, grp[g2].0 as int);
                    assert(grp[g1].0 != grp[g2].0);
                }
            } else {
                let g2 = m2 - a.len();
                assert(c[m1] == a[m1] && c[m2] == tgt[g2]);
                let id = s[grp[g2].0 as int].id@;
                if a[m1].0@ == id {
                    lemma_find_span(a, id);
                    assert(has_span(a, id)) by {
                        if find_span(a, id) == -1 {
                            assert(a[m1].0@ != id);
                        }
                    }
                    assert(!has_span(a, id));
                }
            }
        }
        // entry ids still come from visited events
        assert forall|m: int| 0 <= m < c.len() implies id_visited(
            s,
            ord@,
            pi,
            (#[trigger] c[m]).0@,
        ) by {
            if m < a.len() {
                assert(c[m] == a[m]);
                assert(id_visited(s, ord@, pi, a[m].0@));
            } else {
                let g = m - a.len();
                assert(c[m] == tgt[g]);
                assert(visited(ord@, pi, grp[g].0));
                let q = choose|q: int| 0 <= q < pi && (#[trigger] ord@[q]) == grp[g].0;
                assert(s[(ord@[q]) as int].id@ == c[m].0@);
            }
        }
        // every emitted event ends before the unvisited events begin
        assert forall|k: int, q: int|
            0 <= k < s.len() && #[trigger] has_span(c, s[k].id@) && pi <= q
                < ord@.len() implies s[k].end <= s[(#[trigger] ord@[q]) as int].start by {
            if has_span(a, s[k].id@) {
            } else {
                let g = choose|g: int|
                    0 <= g < grp.len() && s[(#[trigger] grp[g]).0 as int].id@ == s[k].id@;
                lemma_ids_injective(s, grp[g].0 as int, k);
                assert(pi < s.len());
                assert(s[k].end <= s[ord@[pi] as int].start);
                assert(s[ord@[pi] as int].start <= s[ord@[q] as int].start);
            }
        }
        // the non-overlap guarantee extends to the new entries
        assert forall|k: int, l: int|
            0 <= k < s.len() && 0 <= l < s.len() && s[k].id@ != s[l].id@ && overlaps_spec(
                s[k],
                s[l],
            ) && #[trigger] has_span(c, s[k].id@) && #[trigger] has_span(
                c,
                s[l].id@,
            ) implies !span_overlap(span_at(c, s[k].id@), span_at(c, s[l].id@)) && span_at(
            c,
            s[k].id@,
        ).width == span_at(c, s[l].id@).width by {
            let hk = has_span(a, s[k].id@);
            let hl = has_span(a, s[l].id@);
            if hk && hl {
                assert(!span_overlap(span_at(a, s[k].id@), span_at(a, s[l].id@)));
                assert(span_at(a, s[k].id@).width == span_at(a, s[l].id@).width);
            } else if hk && !hl {
                let g = choose|g: int|
                    0 <= g < grp.len() && s[(#[trigger] grp[g]).0 as int].id@ == s[l].id@;
                lemma_ids_injective(s, grp[g].0 as int, l);
                assert(s[k].end <= s[grp[g].0 as int].start);
                assert(!overlaps_spec(s[k], s[l]));
            } else if !hk && hl {
                let g = choose|g: int|
                    0 <= g < grp.len() && s[(#[trigger] grp[g]).0 as int].id@ == s[k].id@;
                lemma_ids_injective(s, grp[g].0 as int, k);
                assert(s[l].end <= s[grp[g].0 as int].start);
                assert(!overlaps_spec(s[k], s[l]));
            } else {
                let g1 = choose|g: int|
                    0 <= g < grp.len() && s[(#[trigger] grp[g]).0 as int].id@ == s[k].id@;
                let g2 = choose|g: int|
                    0 <= g < grp.len() && s[(#[trigger] grp[g]).0 as int].id@ == s[l].id@;
                lemma_ids_injective(s, grp[g1].0 as int, k);
                lemma_ids_injective(s, grp[g2].0 as int, l);
                assert(g1 != g2);
                assert(grp[g1].1 != grp[g2].1);
                let sp1 = Span { col: grp[g1].1, width: w };
                let sp2 = Span { col: grp[g2].1, width: w };
                assert(span_at(c, s[k].id@) == sp1);
                assert(span_at(c, s[l].id@) == sp2);
                lemma_same_width_distinct_col_disjoint(sp1, sp2);
            }
        }
        // every visited event is now emitted
        assert forall|q: int| 0 <= q < pi implies has_span(
            c,
            s[(#[trigger] ord@[q]) as int].id@,
        ) by {
            if has_span(a, s[ord@[q] as int].id@) {
            } else {
                assert(in_group(grp, ord@[q]));
                let g = choose|g: int| 0 <= g < grp.len() && (#[trigger] grp[g]).0 == ord@[q];
                assert(has_span(c, s[grp[g].0 as int].id@));
            }
        }
    }
    Vec::new()
}

/// Place the event visited at step `p` into the open group, in the first
/// column whose occupants it does not overlap, widening the group when no
/// existing column is free.
fn insert_into_group(
    events: &Vec<Ev>,
    ord: &Vec<usize>,
    entries: &Vec<(EventId, Span)>,
    group: &mut Vec<(usize, usize)>,
    width: usize,
    p: usize,
) -> (nw: usize)
    requires
        markus_inv(events@, ord@, p as int, entries@, old(group)@, width as int),
        (p as int) < events@.len(),
    ensures
        markus_inv(events@, ord@, p as int + 1, entries@, final(group)@, nw as int),
{
    let ghost s = events@;
    let ghost grp0 = old(group)@;
    let ghost pi = p as int;
    let k = ord[p];
    let col = find_free_col(events, group, k, width);
    group.push((k, col));
    let nw = if col + 1 > width {
        col + 1
    } else {
        width
    };
    proof {
        let grp1 = group@;
        assert(grp1 == grp0.push((k, col)));
        assert(grp1.len() == grp0.len() + 1);
        assert forall|g: int| 0 <= g < grp0.len() implies grp1[g] == grp0[g] by {}
        assert(grp1[grp0.len() as int] == (k, col));
        // the newly placed event was not emitted
        assert(!has_span(entries@, s[k as int].id@)) by {
            if has_span(entries@, s[k as int].id@) {
                lemma_find_span(entries@, s[k as int].id@);
                let r = find_span(entries@, s[k as int].id@);
                assert(id_visited(s, ord@, pi, entries@[r].0@));
                let q = choose|q: int|
                    0 <= q < pi && s[(#[trigger] ord@[q]) as int].id@ == entries@[r].0@;
                lemma_ids_injective(s, ord@[q] as int, k as int);
                assert(ord@[q] != ord@[pi]);
            }
        }
        // group membership facts carry to step p + 1
        assert forall|g: int| 0 <= g < grp1.len() implies visited(
            ord@,
            pi + 1,
            (#[trigger] grp1[g]).0,
        ) by {
            if g < grp0.len() {
                assert(visited(ord@, pi, grp0[g].0));
                let q = choose|q: int| 0 <= q < pi && (#[trigger] ord@[q]) == grp0[g].0;
                assert(0 <= q < pi + 1 && ord@[q] == grp1[g].0);
            } else {
                assert(ord@[pi] == grp1[g].0);
            }
        }
        assert forall|g1: int, g2: int| 0 <= g1 < g2 < grp1.len() implies (#[trigger] grp1[g1]).0
            != (#[trigger] grp1[g2]).0 by {
            if g2 == grp0.len() {
                assert(visited(ord@, pi, grp0[g1].0));
                let q = choose|q: int| 0 <= q < pi && (#[trigger] ord@[q]) == grp0[g1].0;
                assert(ord@[q] != ord@[pi]);
            }
        }
        // the chosen column clashes with no overlapping member
        assert forall|g1: int, g2: int|
            0 <= g1 < grp1.len() && 0 <= g2 < grp1.len() && g1 != g2 && (#[trigger] grp1[g1]).1 == (
            #[trigger] grp1[g2]).1 implies !overlaps_spec(
            s[grp1[g1].0 as int],
            s[grp1[g2].0 as int],
        ) by {
            let last = grp0.len() as int;
            if g1 == last {
                assert(grp0[g2] == grp1[g2]);
                assert(!overlaps_spec(s[k as int], s[grp0[g2].0 as int]));
                assert(overlaps_spec(s[grp1[g1].0 as int], s[grp1[g2].0 as int])
                    == overlaps_spec(s[grp1[g2].0 as int], s[grp1[g1].0 as int]));
            } else if g2 == last {
                assert(grp0[g1] == grp1[g1]);
                assert(!overlaps_spec(s[k as int], s[grp0[g1].0 as int]));
                assert(overlaps_spec(s[grp1[g1].0 as int], s[grp1[g2].0 as int])
                    == overlaps_spec(s[grp1[g2].0 as int], s[grp1[g1].0 as int]));
            }
        }
        // id bookkeeping moves one step forward
        assert forall|m: int| 0 <= m < entries@.len() implies id_visited(
            s,
            ord@,
            pi + 1,
            (#[trigger] entries@[m]).0@,
        ) by {
            assert(id_visited(s, ord@, pi, entries@[m].0@));
            let q = choose|q: int|
                0 <= q < pi && s[(#[trigger] ord@[q]) as int].id@ == entries@[m].0@;
            assert(0 <= q < pi + 1 && s[ord@[q] as int].id@ == entries@[m].0@);
        }
        // emitted events end before every member, including the new one
        assert forall|k2: int, g: int|
            0 <= k2 < s.len() && #[trigger] has_span(entries@, s[k2].id@) && 0 <= g
                < grp1.len() implies s[k2].end <= s[(#[trigger] grp1[g]).0 as int].start by {
            if g < grp0.len() {
                assert(grp1[g] == grp0[g]);
            } else {
                assert(s[k2].end <= s[(ord@[pi]) as int].start);
            }
        }
        // every visited event is emitted or in the group
        assert forall|q: int| 0 <= q < pi + 1 implies has_span(
            entries@,
            s[(#[trigger] ord@[q]) as int].id@,
        ) || in_group(grp1, ord@[q]) by {
            if q < pi {
                if !has_span(entries@, s[(ord@[q]) as int].id@) {
                    assert(in_group(grp0, ord@[q]));
                    let g = choose|g: int| 0 <= g < grp0.len() && (#[trigger] grp0[g]).0 == ord@[q];
                    assert(grp1[g] == grp0[g]);
                    assert(in_group(grp1, ord@[q]));
                }
            } else {
                assert(grp1[grp0.len() as int].0 == ord@[q]);
                assert(in_group(grp1, ord@[q]));
            }
        }
    }
    nw
}

/// The greedy column-packing layout algorithm: walk the events in start
/// order, keep a group of transitively overlapping events open, give each
/// event the first free column of its group, and close the group when the
/// next event overlaps none of its members.
pub struct MarkusAlgorithm;

impl MarkusAlgorithm {
    /// Compute the span assignment for one day's events.
    ///
    /// The result assigns every event a well-formed span, assigns spans to
    /// nothing else, and guarantees that events overlapping in time never
    /// receive overlapping spans.
    pub fn compute(events: Vec<Ev>) -> (layout: Layout)
        requires
            ev_intervals_wf(events@),
            unique_ev_ids(events@),
            events@.len() < 0x1000_0000,
        ensures
            layout.wf(),
            forall|m: int|
                0 <= m < layout.entries@.len() ==> (#[trigger] layout.entries@[m]).1.width
                    <= events@.len() + 1,
            forall|k: int|
                0 <= k < events@.len() ==> has_span(layout.entries@, (#[trigger] events@[k]).id@),
            forall|m: int|
                0 <= m < layout.entries@.len() ==> #[trigger] entry_id_known(
                    events@,
                    layout.entries@,
                    m,
                ),
            no_visual_overlap(events@, layout.entries@),
    {
        let ghost s = events@;
        let n = events.len();
        let ord = sorted_order(&events);
        let mut entries: Vec<(EventId, Span)> = Vec::new();
        let mut group: Vec<(usize, usize)> = Vec::new();
        let mut width: usize = 1;
        let mut p: usize = 0;
        while p < n
            invariant
                n == s.len(),
                s == events@,
                ord@.len() == n,
                markus_inv(s, ord@, p as int, entries@, group@, width as int),
            decreases n - p,
        {
            let k = ord[p];
            let overlapped = if group.len() == 0 {
                false
            } else {
                group_overlaps_any(&events, &group, k)
            };
            if !overlapped {
                group = close_group(&events, &ord, &mut entries, group, width, p);
                width = 1;
            }
            width = insert_into_group(&events, &ord, &entries, &mut group, width, p);
            p = p + 1;
        }
        group = close_group(&events, &ord, &mut entries, group, width, n);
        proof {
            assert forall|k: int| 0 <= k < s.len() implies has_span(
                entries@,
                (#[trigger] s[k]).id@,
            ) by {
                assert(ord_contains(ord@, k));
                let q = choose|q: int| 0 <= q < ord@.len() && (#[trigger] ord@[q]) == k;
                assert(has_span(entries@, s[(ord@[q]) as int].id@) || in_group(group@, ord@[q]));
            }
            assert forall|m: int| 0 <= m < entries@.len() implies #[trigger] entry_id_known(
                events@,
                entries@,
                m,
            ) by {
                assert(id_visited(s, ord@, n as int, entries@[m].0@));
                let q = choose|q: int|
                    0 <= q < n as int && s[(#[trigger] ord@[q]) as int].id@ == entries@[m].0@;
                assert(0 <= ord@[q] < s.len() && entries@[m].0@ == (events@[ord@[q] as int]).id@);
            }
        }
        Layout { entries }
    }
}

/// A per-day layout: the event id to horizontal span assignment, rebuilt
/// every frame and never persisted.
#[derive(Clone, Debug)]
pub struct Layout {
    pub entries: Vec<(EventId, Span)>,
}

impl Layout {
    /// Every id appears once and every span is well-formed.
    pub open spec fn wf(self) -> bool {
        &&& forall|m1: int, m2: int|
            0 <= m1 < m2 < self.entries@.len() ==> (#[trigger] self.entries@[m1]).0@
                != (#[trigger] self.entries@[m2]).0@
        &&& forall|m: int| 0 <= m < self.entries@.len() ==> (#[trigger] self.entries@[m]).1.wf()
    }

    /// An empty layout.
    pub fn new() -> (r: Layout)
        ensures
            r.entries@ =~= Seq::<(EventId, Span)>::empty(),
            r.wf(),
    {
        Layout { entries: Vec::new() }
    }

    /// Look up the span assigned to an event.
    pub fn query(&self, id: &EventId) -> (r: Option<Span>)
        ensures
            has_span(self.entries@, id@) ==> r == Some(span_at(self.entries@, id@)),
            !has_span(self.entries@, id@) ==> r is None,
    {
        proof {
            lemma_find_span(self.entries@, id@);
        }
        let mut m: usize = 0;
        while m < self.entries.len()
            invariant
                0 <= m <= self.entries@.len(),
                forall|j: int| 0 <= j < m ==> (#[trigger] self.entries@[j]).0@ != id@,
                ({
                    let r = find_span(self.entries@, id@);
                    &&& -1 <= r < self.entries@.len()
                    &&& r >= 0 ==> self.entries@[r].0@ == id@ && (forall|j: int|
                        0 <= j < r ==> self.entries@[j].0@ != id@)
                    &&& r == -1 ==> (forall|j: int|
                        0 <= j < self.entries@.len() ==> self.entries@[j].0@ != id@)
                }),
            decreases self.entries@.len() - m,
        {
            if self.entries[m].0 == *id {
                return Some(self.entries[m].1);
            }
            m = m + 1;
        }
        None
    }

    /// Fold another day's layout into this one. The days lay out disjoint
    /// sets of events, so the two entry lists never share an id.
    pub fn merge(&mut self, other: Layout)
        requires
            forall|m1: int, m2: int|
                0 <= m1 < old(self).entries@.len() && 0 <= m2 < other.entries@.len() ==> (
                #[trigger] old(self).entries@[m1]).0@ != (#[trigger] other.entries@[m2]).0@,
        ensures
            final(self).entries@ == old(self).entries@ + other.entries@,
            old(self).wf() && other.wf() ==> final(self).wf(),
    {
        let mut rest = other.entries;
        self.entries.append(&mut rest);
        proof {
            if old(self).wf() && other.wf() {
                assert forall|m1: int, m2: int|
                    0 <= m1 < m2 < self.entries@.len() implies (#[trigger] self.entries@[m1]).0@
                    != (#[trigger] self.entries@[m2]).0@ by {
                    let n0 = old(self).entries@.len() as int;
                    if m2 < n0 {
                        assert(self.entries@[m1] == old(self).entries@[m1]);
                        assert(self.entries@[m2] == old(self).entries@[m2]);
                    } else if m1 >= n0 {
                        assert(self.entries@[m1] == other.entries@[m1 - n0]);
                        assert(self.entries@[m2] == other.entries@[m2 - n0]);
                    } else {
                        assert(self.entries@[m1] == old(self).entries@[m1]);
                        assert(self.entries@[m2] == other.entries@[m2 - n0]);
                    }
                }
            }
        }
    }
}

} // verus!

verus! {

/// The simpler historical layout variant: walk the events longest-first,
/// and for each event not yet placed, query an interval tree for everything
/// overlapping it and hand those neighbours the columns of one shared
/// group, in start order. Unlike [`MarkusAlgorithm`] it promises only
/// well-formed spans and coverage, not freedom from visual overlap, which
/// is why the engine computes its layouts with the other algorithm.
pub struct NaiveAlgorithm;

impl NaiveAlgorithm {
    /// Compute a span assignment for one day's events.
    pub fn compute(events: Vec<Ev>) -> (layout: Layout)
        requires
            ev_intervals_wf(events@),
            unique_ev_ids(events@),
            events@.len() < 0x1000_0000,
            forall|k: int|
                0 <= k < events@.len() ==> -0x8000_0000_0000 <= (#[trigger] events@[k]).start
                    && events@[k].end <= 0x8000_0000_0000,
        ensures
            layout.wf(),
            forall|k: int|
                0 <= k < events@.len() ==> has_span(layout.entries@, (#[trigger] events@[k]).id@),
    {
        let n = events.len();
        // longest-first processing order
        let mut keys: Vec<i64> = Vec::new();
        let mut i: usize = 0;
        while i < n
            invariant
                0 <= i <= n,
                n == events@.len(),
                ev_intervals_wf(events@),
                forall|k: int|
                    0 <= k < events@.len() ==> -0x8000_0000_0000 <= (#[trigger] events@[k]).start
                        && events@[k].end <= 0x8000_0000_0000,
                keys@.len() == i,
            decreases n - i,
        {
            keys.push(events[i].start - events[i].end);
            i = i + 1;
        }
        let ord = sorted_order_by_key(&keys);
        // the tree holds each event's interval, tagged with its position
        let mut triples: Vec<(i64, i64, u64)> = Vec::new();
        let mut j: usize = 0;
        while j < n
            invariant
                0 <= j <= n,
                n == events@.len(),
                triples@.len() == j,
                forall|k: int|
                    0 <= k < j ==> (#[trigger] triples@[k]) == (
                    events@[k].start,
                    events@[k].end,
                    k as u64,
                ),
            decreases n - j,
        {
            triples.push((events[j].start, events[j].end, j as u64));
            j = j + 1;
        }
        let tree = crate::trusted::interval_tree_from(&triples);
        let mut col_of: Vec<Option<(usize, usize)>> = Vec::new();
        let mut f: usize = 0;
        while f < n
            invariant
                0 <= f <= n,
                col_of@.len() == f,
                forall|k: int| 0 <= k < f ==> (#[trigger] col_of@[k]) is None,
            decreases n - f,
        {
            col_of.push(None);
            f = f + 1;
        }
        let mut p: usize = 0;
        while p < n
            invariant
                0 <= p <= n,
                n == events@.len(),
                ev_intervals_wf(events@),
                ord@.len() == n,
                forall|q: int| 0 <= q < n ==> (#[trigger] ord@[q]) < n,
                col_of@.len() == n,
                triples@.len() == n,
                forall|k: int|
                    0 <= k < n ==> (#[trigger] triples@[k]) == (
                    events@[k].start,
                    events@[k].end,
                    k as u64,
                ),
                crate::trusted::tree_items(tree) == triples@.to_multiset(),
                forall|k: int|
                    0 <= k < n ==> ((#[trigger] col_of@[k]) matches Some(cw) ==> cw.0 < cw.1),
                forall|q: int| 0 <= q < p ==> (#[trigger] col_of@[ord@[q] as int]) is Some,
            decreases n - p,
        {
            let k = ord[p];
            let already = match col_of[k] {
                Some(_) => true,
                None => false,
            };
            if !already {
                let lo = events[k].start;
                let hi = events[k].end;
                let sibs = crate::trusted::interval_tree_query(&tree, lo, hi);
                let num_cols = sibs.len();
                // every returned triple names one of our events
                proof {
                    triples@.to_multiset_ensures();
                    sibs@.to_multiset_ensures();
                    assert forall|g: int| 0 <= g < sibs@.len() implies ((
                    #[trigger] sibs@[g]).2 as int) < n && triples@[sibs@[g].2 as int]
                        == sibs@[g] by {
                        let trip = sibs@[g];
                        assert(sibs@.contains(trip));
                        assert(sibs@.to_multiset().count(trip) > 0);
                        assert(triples@.to_multiset().count(trip) > 0);
                        assert(triples@.contains(trip));
                        let w = choose|w: int|
                            0 <= w < triples@.len() && (#[trigger] triples@[w]) == trip;
                        assert(trip.2 == w as u64);
                    }
                    // the queried event overlaps its own interval, so it is
                    // among the results
                    assert(triples@.contains(triples@[k as int]));
                    assert(triples@.to_multiset().count(triples@[k as int]) > 0);
                    assert(events@[k as int].start < events@[k as int].end);
                    assert(sibs@.to_multiset().count(triples@[k as int]) > 0);
                    assert(sibs@.contains(triples@[k as int]));
                }
                let mut skeys: Vec<i64> = Vec::new();
                let mut s: usize = 0;
                while s < num_cols
                    invariant
                        0 <= s <= num_cols,
                        num_cols == sibs@.len(),
                        skeys@.len() == s,
                    decreases num_cols - s,
                {
                    skeys.push(sibs[s].0);
                    s = s + 1;
                }
                let sord = sorted_order_by_key(&skeys);
                let ghost col0 = col_of@;
                let mut g: usize = 0;
                while g < num_cols
                    invariant
                        0 <= g <= num_cols,
                        n == events@.len(),
                        num_cols == sibs@.len(),
                        sord@.len() == num_cols,
                        forall|q: int| 0 <= q < num_cols ==> (#[trigger] sord@[q]) < num_cols,
                        col_of@.len() == n,
                        forall|gg: int|
                            0 <= gg < sibs@.len() ==> ((#[trigger] sibs@[gg]).2 as int) < n,
                        forall|k2: int|
                            0 <= k2 < n ==> ((#[trigger] col_of@[k2]) matches Some(cw) ==> cw.0
                                < cw.1),
                        forall|k2: int|
                            0 <= k2 < n && (#[trigger] col0[k2]) is Some ==> col_of@[k2] is Some,
                        forall|q: int|
                            0 <= q < g ==> (#[trigger] col_of@[sibs@[sord@[q] as int].2 as int])
                                is Some,
                    decreases num_cols - g,
                {
                    let trip = sibs[sord[g]];
                    let idx = trip.2 as usize;
                    let none_yet = match col_of[idx] {
                        Some(_) => false,
                        None => true,
                    };
                    if none_yet {
                        col_of.set(idx, Some((g, num_cols)));
                    }
                    g = g + 1;
                }
                proof {
                    // the queried event itself received a column
                    let jk = choose|w: int|
                        0 <= w < sibs@.len() && (#[trigger] sibs@[w]) == triples@[k as int];
                    assert(ord_contains(sord@, jk));
                    let qk = choose|q: int|
                        0 <= q < sord@.len() && (#[trigger] sord@[q]) == jk;
                    assert(col_of@[sibs@[sord@[qk] as int].2 as int] is Some);
                    assert(sibs@[jk].2 == k as u64);
                    assert(col_of@[k as int] is Some);
                    // events placed on earlier rounds keep their columns
                    assert forall|q: int| 0 <= q < p + 1 implies (
                    #[trigger] col_of@[ord@[q] as int]) is Some by {
                        if q < p {
                            assert(col0[ord@[q] as int] is Some);
                        }
                    }
                }
            }
            p = p + 1;
        }
        // emit one entry per event
        let mut entries: Vec<(EventId, Span)> = Vec::new();
        let mut m: usize = 0;
        proof {
            assert forall|k: int| 0 <= k < n implies (#[trigger] col_of@[k]) is Some by {
                assert(ord_contains(ord@, k));
                let q = choose|q: int| 0 <= q < ord@.len() && (#[trigger] ord@[q]) == k;
                assert(col_of@[ord@[q] as int] is Some);
            }
        }
        while m < n
            invariant
                0 <= m <= n,
                n == events@.len(),
                unique_ev_ids(events@),
                col_of@.len() == n,
                forall|k: int| 0 <= k < n ==> (#[trigger] col_of@[k]) is Some,
                forall|k: int|
                    0 <= k < n ==> ((#[trigger] col_of@[k]) matches Some(cw) ==> cw.0 < cw.1),
                entries@.len() == m,
                forall|k: int|
                    0 <= k < m ==> (#[trigger] entries@[k]).0 == events@[k].id && entries@[k].1.wf(),
            decreases n - m,
        {
            match col_of[m] {
                Some((c, w)) => {
                    entries.push((events[m].id.clone(), Span { col: c, width: w }));
                },
                None => {
                    proof {
                        assert(false);
                    }
                },
            }
            m = m + 1;
        }
        proof {
            assert forall|m1: int, m2: int|
                0 <= m1 < m2 < entries@.len() implies (#[trigger] entries@[m1]).0@ != (
            #[trigger] entries@[m2]).0@ by {
                assert(entries@[m1].0 == events@[m1].id && entries@[m2].0 == events@[m2].id);
            }
            assert forall|k: int| 0 <= k < events@.len() implies has_span(
                entries@,
                (#[trigger] events@[k]).id@,
            ) by {
                lemma_find_span(entries@, events@[k].id@);
                if find_span(entries@, events@[k].id@) == -1 {
                    assert(entries@[k].0@ != events@[k].id@);
                }
            }
        }
        Layout { entries }
    }
}

} // verus!
