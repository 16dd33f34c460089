use vstd::prelude::*;

use std::cmp::Ordering;
use std::sync::Arc;

use crate::hints::{flags_union, flags_without, Flags, Hints};
use crate::id_set::{skip_ids, take_ids, IdSet, IdSetIter};
use crate::resolve::Iter;
use crate::map::{version_cmp, DagHandle, IdMap, MapVersion};
use crate::vertex::Vertex;

verus! {

/// Iteration order of an `IdStaticSet`.
#[derive(Clone, Copy, Debug, PartialEq, Eq, Structural)]
pub enum IterationOrder {
    /// From smaller ids to larger ids.
    Asc,
    /// From larger ids to smaller ids.
    Desc,
}

/// An operation on the ids of two sets.
#[derive(Clone, Copy, Debug, PartialEq, Eq, Structural)]
pub enum EditOp {
    Union,
    Intersection,
    Difference,
}

/// The sequence `s` backwards.
pub open spec fn rev(s: Seq<u64>) -> Seq<u64> {
    Seq::new(s.len(), |i: int| s[s.len() - 1 - i])
}

pub open spec fn edit_ids(op: EditOp, a: Set<u64>, b: Set<u64>) -> Set<u64> {
    match op {
        EditOp::Union => a.union(b),
        EditOp::Intersection => a.intersect(b),
        EditOp::Difference => a.difference(b),
    }
}

pub open spec fn order_flags(order: IterationOrder) -> Flags {
    match order {
        IterationOrder::Desc => Flags {
            id_desc: true,
            id_asc: false,
            topo_desc: true,
            ancestors: false,
            empty: false,
            full: false,
        },
        IterationOrder::Asc => Flags {
            id_desc: false,
            id_asc: true,
            topo_desc: false,
            ancestors: false,
            empty: false,
            full: false,
        },
    }
}

pub open spec fn flip(order: IterationOrder) -> IterationOrder {
    match order {
        IterationOrder::Desc => IterationOrder::Asc,
        IterationOrder::Asc => IterationOrder::Desc,
    }
}

/// The hints of a set iterated in `order`, after reversing it: the order flags are
/// swapped and the rest is kept.
pub open spec fn reversed_hints(h: Hints, order: IterationOrder) -> Hints {
    Hints {
        flags: flags_union(flags_without(h.flags, order_flags(order)), order_flags(flip(order))),
        ..h
    }
}

/// The hints of a freshly wrapped set with the ids `ids` (from high to low): the
/// descending order flags, emptiness, the smallest and largest id, the map and graph.
pub open spec fn fresh_hints(ids: Seq<u64>, version: MapVersion, dag: DagHandle) -> Hints {
    Hints {
        flags: Flags { empty: ids.len() == 0, ..order_flags(IterationOrder::Desc) },
        min_id: if ids.len() == 0 {
            None
        } else {
            Some(ids.last())
        },
        max_id: if ids.len() == 0 {
            None
        } else {
            Some(ids[0])
        },
        map_version: Some(version),
        dag: Some(dag),
    }
}

/// What `from_edit_spans` returns for `lhs`, `rhs` and `op`: the ids that `op` gives,
/// in the order of `lhs`, bound to the newer of the two maps (to `lhs` on a tie).
pub open spec fn edit_result(lhs: IdStaticSet, rhs: IdStaticSet, op: EditOp, r: IdStaticSet) -> bool {
    &&& r.wf()
    &&& r.spec_spans().id_set() == edit_ids(op, lhs.spec_spans().id_set(), rhs.spec_spans().id_set())
    &&& r.spec_order() == lhs.spec_order()
    &&& r.spec_hints() == if lhs.spec_order() == IterationOrder::Asc {
        reversed_hints(
            fresh_hints(r.spec_spans()@, r.spec_map().spec_version(), r.spec_dag()),
            IterationOrder::Desc,
        )
    } else {
        fresh_hints(r.spec_spans()@, r.spec_map().spec_version(), r.spec_dag())
    }
    &&& if version_cmp(lhs.spec_map().spec_version(), rhs.spec_map().spec_version()) == Some(
        Ordering::Less,
    ) {
        r.spec_map() == rhs.spec_map() && r.spec_dag() == rhs.spec_dag()
    } else {
        r.spec_map() == lhs.spec_map() && r.spec_dag() == lhs.spec_dag()
    }
}

/// Whether the maps of two sets are comparable, so that their ids may be combined.
pub open spec fn compatible(a: IdStaticSet, b: IdStaticSet) -> bool {
    version_cmp(a.spec_map().spec_version(), b.spec_map().spec_version()) is Some
}

/// Skipping `skip` ids and then keeping `take` ids of `s`.
pub open spec fn slice_ids(s: Seq<u64>, skip: int, take: int) -> Seq<u64> {
    take_ids(skip_ids(s, skip), take)
}

proof fn lemma_rev_contains(s: Seq<u64>, x: u64)
    ensures
        rev(s).contains(x) <==> s.contains(x),
{
    if s.contains(x) {
        let k = choose|k: int| 0 <= k < s.len() && s[k] == x;
        assert(rev(s)[s.len() - 1 - k] == x);
    }
    if rev(s).contains(x) {
        let k = choose|k: int| 0 <= k < rev(s).len() && rev(s)[k] == x;
        assert(s[s.len() - 1 - k] == x);
    }
}

proof fn lemma_slice_subset(s: Seq<u64>, skip: int, take: int)
    requires
        skip >= 0,
        take >= 0,
    ensures
        forall|x: u64| #[trigger] slice_ids(s, skip, take).contains(x) ==> s.contains(x),
{
    assert forall|x: u64| #[trigger] slice_ids(s, skip, take).contains(x) implies s.contains(x) by {
        let t = slice_ids(s, skip, take);
        let k = choose|k: int| 0 <= k < t.len() && t[k] == x;
        assert(s[k + skip] == x);
    }
}

/// Slicing ascending ids is slicing the descending ids at the other end.
proof fn lemma_rev_slice(d: Seq<u64>, skip: int, take: int)
    requires
        skip >= 0,
        take >= 0,
    ensures
        ({
            let len = d.len() as int;
            let take1 = if len > skip { len - skip } else { 0 };
            let take2 = if take1 < take { take1 } else { take };
            let skip2 = take1 - take2;
            rev(slice_ids(d, skip2, take2)) == slice_ids(rev(d), skip, take)
        }),
{
    let len = d.len() as int;
    let take1 = if len > skip { len - skip } else { 0 };
    let take2 = if take1 < take { take1 } else { take };
    let skip2 = take1 - take2;
    assert(slice_ids(d, skip2, take2) =~= d.subrange(skip2, take1));
    assert(rev(slice_ids(d, skip2, take2)) =~= slice_ids(rev(d), skip, take));
}

/// Ids ordered strictly in the direction of `order`.
pub open spec fn sorted_in(s: Seq<u64>, order: IterationOrder) -> bool {
    match order {
        IterationOrder::Desc => forall|i: int, j: int| 0 <= i < j < s.len() ==> s[j] < s[i],
        IterationOrder::Asc => forall|i: int, j: int| 0 <= i < j < s.len() ==> s[i] < s[j],
    }
}

/// The ids that evaluating `op` without the fast path yields: the ids of `a` that `b`
/// holds (intersection) or does not hold (difference), in the order of `a`; for union,
/// the ids of `a` followed by those of `b` that `a` does not hold.
pub open spec fn generic_ids(op: EditOp, a: Seq<u64>, b: Seq<u64>) -> Seq<u64> {
    match op {
        EditOp::Intersection => a.filter(|x: u64| b.contains(x)),
        EditOp::Difference => a.filter(|x: u64| !b.contains(x)),
        EditOp::Union => a + b.filter(|x: u64| !a.contains(x)),
    }
}

proof fn lemma_filter_sorted(s: Seq<u64>, p: spec_fn(u64) -> bool, order: IterationOrder)
    requires
        sorted_in(s, order),
    ensures
        sorted_in(s.filter(p), order),
        forall|x: u64| #[trigger] s.filter(p).contains(x) <==> (s.contains(x) && p(x)),
    decreases s.len(),
{
    reveal(Seq::filter);
    if s.len() > 0 {
        let d = s.drop_last();
        lemma_filter_sorted(d, p, order);
        let f = d.filter(p);
        assert(s.filter(p) == if p(s.last()) {
            f.push(s.last())
        } else {
            f
        });
        assert forall|x: u64| #[trigger] f.contains(x) implies (match order {
            IterationOrder::Desc => s.last() < x,
            IterationOrder::Asc => x < s.last(),
        }) by {
            let k = choose|k: int| 0 <= k < d.len() && d[k] == x;
            assert(s[k] == x);
        }
        assert forall|x: u64| #[trigger] s.filter(p).contains(x) <==> (s.contains(x) && p(x)) by {
            if s.contains(x) && p(x) {
                let k = choose|k: int| 0 <= k < s.len() && s[k] == x;
                if k < s.len() - 1 {
                    assert(d[k] == x);
                } else {
                    assert(s.filter(p).last() == x);
                }
            }
            if s.filter(p).contains(x) {
                let k = choose|k: int| 0 <= k < s.filter(p).len() && s.filter(p)[k] == x;
                if k < f.len() {
                    assert(f[k] == x);
                    assert(f.contains(x));
                    let m = choose|m: int| 0 <= m < d.len() && d[m] == x;
                    assert(s[m] == x);
                }
            }
        }
        if p(s.last()) {
            let g = f.push(s.last());
            assert forall|i: int, j: int| 0 <= i < j < g.len() implies (match order {
                IterationOrder::Desc => g[j] < g[i],
                IterationOrder::Asc => g[i] < g[j],
            }) by {
                if j == g.len() - 1 {
                    assert(f.contains(g[i]));
                }
            }
        }
    }
}

/// Two strictly ordered sequences with the same ids are equal.
proof fn lemma_sorted_unique(s1: Seq<u64>, s2: Seq<u64>, order: IterationOrder)
    requires
        sorted_in(s1, order),
        sorted_in(s2, order),
        forall|x: u64| s1.contains(x) <==> s2.contains(x),
    ensures
        s1 == s2,
    decreases s1.len(),
{
    if s1.len() == 0 {
        if s2.len() > 0 {
            assert(s2.contains(s2[0]));
        }
        assert(s1 =~= s2);
    } else {
        assert(s1.contains(s1[0]));
        assert(s2.len() > 0);
        assert(s2.contains(s2[0]));
        let k1 = choose|k: int| 0 <= k < s1.len() && s1[k] == s2[0];
        let k2 = choose|k: int| 0 <= k < s2.len() && s2[k] == s1[0];
        if k1 > 0 {
            assert(k2 > 0);
        }
        assert(s1[0] == s2[0]);
        let t1 = s1.drop_first();
        let t2 = s2.drop_first();
        assert forall|x: u64| t1.contains(x) <==> t2.contains(x) by {
            if t1.contains(x) {
                let k = choose|k: int| 0 <= k < t1.len() && t1[k] == x;
                assert(s1[k + 1] == x);
                assert(s2.contains(x));
                let m = choose|m: int| 0 <= m < s2.len() && s2[m] == x;
                assert(m != 0);
                assert(t2[m - 1] == x);
            }
            if t2.contains(x) {
                let k = choose|k: int| 0 <= k < t2.len() && t2[k] == x;
                assert(s2[k + 1] == x);
                assert(s1.contains(x));
                let m = choose|m: int| 0 <= m < s1.len() && s1[m] == x;
                assert(m != 0);
                assert(t1[m - 1] == x);
            }
        }
        lemma_sorted_unique(t1, t2, order);
        assert(s1.len() == s2.len());
        assert forall|i: int| 0 <= i < s1.len() implies s1[i] == s2[i] by {
            if i > 0 {
                assert(t1[i - 1] == t2[i - 1]);
            }
        }
        assert(s1 =~= s2);
    }
}

/// A set's ids follow its iteration order, and are the ids of its spans.
pub proof fn lemma_ids_sorted(x: IdStaticSet)
    requires
        x.wf(),
    ensures
        sorted_in(x.ids(), x.spec_order()),
        forall|v: u64| #[trigger] x.ids().contains(v) <==> x.spec_spans().id_set().contains(v),
{
    x.spec_spans().lemma_wf();
    assert forall|v: u64| #[trigger] x.ids().contains(v) <==> x.spec_spans().id_set().contains(v) by {
        lemma_rev_contains(x.spec_spans()@, v);
    }
}

/// A set reversed twice is the same set: same ids, map, graph, hints and order.
pub proof fn lemma_reversed_twice(x: IdStaticSet)
    requires
        x.wf(),
    ensures
        x.spec_reversed().spec_reversed() == x,
        x.spec_reversed().spec_reversed().ids() == x.ids(),
{
    x.lemma_reversed_twice_fields();
}

/// A fast-path result yields the same ids, in the same order, as evaluating the
/// operation generically on the same sets. For union this holds where the generic
/// order (the left ids, then the new right ids) follows the order of the left set.
pub proof fn lemma_fast_path_matches_generic(a: IdStaticSet, b: IdStaticSet, op: EditOp, r: IdStaticSet)
    requires
        a.wf(),
        b.wf(),
        edit_result(a, b, op, r),
        op == EditOp::Union ==> sorted_in(generic_ids(op, a.ids(), b.ids()), a.spec_order()),
    ensures
        r.ids() == generic_ids(op, a.ids(), b.ids()),
{
    lemma_ids_sorted(a);
    lemma_ids_sorted(b);
    lemma_ids_sorted(r);
    let g = generic_ids(op, a.ids(), b.ids());
    match op {
        EditOp::Intersection => {
            lemma_filter_sorted(a.ids(), |x: u64| b.ids().contains(x), a.spec_order());
        },
        EditOp::Difference => {
            lemma_filter_sorted(a.ids(), |x: u64| !b.ids().contains(x), a.spec_order());
        },
        EditOp::Union => {
            let f = b.ids().filter(|x: u64| !a.ids().contains(x));
            lemma_filter_sorted(b.ids(), |x: u64| !a.ids().contains(x), b.spec_order());
            assert forall|v: u64| g.contains(v) <==> (a.ids().contains(v) || f.contains(v)) by {
                if g.contains(v) {
                    let k = choose|k: int| 0 <= k < g.len() && g[k] == v;
                    if k < a.ids().len() {
                        assert(a.ids()[k] == v);
                    } else {
                        assert(f[k - a.ids().len()] == v);
                    }
                }
                if a.ids().contains(v) {
                    let k = choose|k: int| 0 <= k < a.ids().len() && a.ids()[k] == v;
                    assert(g[k] == v);
                }
                if f.contains(v) {
                    let k = choose|k: int| 0 <= k < f.len() && f[k] == v;
                    assert(g[k + a.ids().len()] == v);
                }
            }
        },
    }
    assert forall|v: u64| r.ids().contains(v) <==> g.contains(v) by {
        assert(r.spec_spans().id_set().contains(v) <==> r.ids().contains(v));
    }
    lemma_sorted_unique(r.ids(), g, a.spec_order());
}

/// A set backed by an `IdSet` and a map, iterated in an explicit order.
/// Efficient for graph calculation.
#[derive(Clone, Debug)]
pub struct IdStaticSet {
    spans: IdSet,
    map: Arc<IdMap>,
    dag: DagHandle,
    hints: Hints,
    iteration_order: IterationOrder,
}

impl IdStaticSet {
    pub closed spec fn spec_spans(&self) -> IdSet {
        self.spans
    }

    pub closed spec fn spec_map(&self) -> Arc<IdMap> {
        self.map
    }

    pub closed spec fn spec_dag(&self) -> DagHandle {
        self.dag
    }

    pub closed spec fn spec_hints(&self) -> Hints {
        self.hints
    }

    pub closed spec fn spec_order(&self) -> IterationOrder {
        self.iteration_order
    }

    /// The ids of the set, in iteration order.
    pub open spec fn ids(&self) -> Seq<u64> {
        match self.spec_order() {
            IterationOrder::Desc => self.spec_spans()@,
            IterationOrder::Asc => rev(self.spec_spans()@),
        }
    }

    /// What the hints claim holds of the set.
    pub open spec fn hints_hold(&self) -> bool {
        let h = self.spec_hints();
        let o = order_flags(self.spec_order());
        &&& h.flags.id_desc == o.id_desc
        &&& h.flags.id_asc == o.id_asc
        &&& h.flags.topo_desc == o.topo_desc
        &&& h.flags.empty ==> self.spec_spans()@.len() == 0
        &&& h.min_id matches Some(m) ==> forall|x: u64|
            #[trigger] self.spec_spans()@.contains(x) ==> m <= x
        &&& h.max_id matches Some(m) ==> forall|x: u64|
            #[trigger] self.spec_spans()@.contains(x) ==> x <= m
        &&& h.map_version == Some(self.spec_map().spec_version())
        &&& h.dag == Some(self.spec_dag())
    }

    pub open spec fn wf(&self) -> bool {
        &&& self.spec_spans().wf()
        &&& self.spec_map().wf()
        &&& self.hints_hold()
    }

    /// The set iterated the other way, with its order hints swapped.
    pub closed spec fn spec_reversed(self) -> IdStaticSet {
        let o = flip(self.iteration_order);
        IdStaticSet { hints: reversed_hints(self.hints, self.iteration_order), iteration_order: o, ..self }
    }

    proof fn lemma_reversed_twice_fields(self)
        requires
            self.wf(),
        ensures
            self.spec_reversed().spec_reversed() == self,
    {
        let t = self.spec_reversed().spec_reversed();
        assert(t.hints.flags == self.hints.flags);
        assert(t.hints == self.hints);
    }

    /// Wraps `spans` with its map and graph, iterated from larger ids to smaller ids.
    pub fn from_spans_idmap_dag(spans: IdSet, map: Arc<IdMap>, dag: DagHandle) -> (r: IdStaticSet)
        requires
            spans.wf(),
            map.wf(),
        ensures
            r.wf(),
            r.spec_spans() == spans,
            r.spec_map() == map,
            r.spec_dag() == dag,
            r.spec_order() == IterationOrder::Desc,
            r.ids() == spans@,
            r.spec_hints() == fresh_hints(spans@, map.spec_version(), dag),
    {
        let mut hints = Hints::new_with_idmap_dag(map.version(), dag);
        hints.add_flags(
            Flags { id_desc: true, id_asc: false, topo_desc: true, ancestors: false, empty: false, full: false },
        );
        proof {
            spans.lemma_wf();
        }
        if spans.is_empty() {
            hints.add_flags(
                Flags { id_desc: false, id_asc: false, topo_desc: false, ancestors: false, empty: true, full: false },
            );
        } else {
            let lo = spans.min();
            let hi = spans.max();
            if let (Some(lo), Some(hi)) = (lo, hi) {
                hints.set_min_id(lo);
                hints.set_max_id(hi);
                proof {
                    assert forall|x: u64| #[trigger] spans@.contains(x) implies lo <= x && x <= hi by {
                        let k = choose|k: int| 0 <= k < spans@.len() && spans@[k] == x;
                        if k > 0 {
                            assert(spans@[k] < spans@[0]);
                        }
                        if k < spans@.len() - 1 {
                            assert(spans@[spans@.len() - 1] < spans@[k]);
                        }
                    }
                }
            }
        }
        IdStaticSet { spans, map, dag, hints, iteration_order: IterationOrder::Desc }
    }

    /// The low-level `IdSet`, which no longer tells the iteration order.
    pub fn id_set_losing_order(&self) -> (r: &IdSet)
        ensures
            *r == self.spec_spans(),
    {
        &self.spans
    }

    /// The low-level `IdSet`, or `None` when the hints do not tell an id order.
    pub fn id_set_try_preserving_order(&self) -> (r: Option<&IdSet>)
        ensures
            r is Some <==> (self.spec_hints().flags.id_desc || self.spec_hints().flags.id_asc),
            r is Some ==> *r->0 == self.spec_spans(),
    {
        if self.hints.flags.id_desc || self.hints.flags.id_asc {
            Some(&self.spans)
        } else {
            None
        }
    }

    /// Changes the iteration order between descending (the default) and ascending.
    pub fn reversed(self) -> (r: IdStaticSet)
        requires
            self.wf(),
        ensures
            r == self.spec_reversed(),
            r.wf(),
            r.ids() == rev(self.ids()),
            r.spec_order() == flip(self.spec_order()),
            r.spec_spans() == self.spec_spans(),
            r.spec_map() == self.spec_map(),
            r.spec_dag() == self.spec_dag(),
            r.spec_hints() == reversed_hints(self.spec_hints(), self.spec_order()),
    {
        let mut s = self;
        match s.iteration_order {
            IterationOrder::Desc => {
                s.hints.remove_flags(
                    Flags { id_desc: true, id_asc: false, topo_desc: true, ancestors: false, empty: false, full: false },
                );
                s.hints.add_flags(
                    Flags { id_desc: false, id_asc: true, topo_desc: false, ancestors: false, empty: false, full: false },
                );
                s.iteration_order = IterationOrder::Asc;
            },
            IterationOrder::Asc => {
                s.hints.remove_flags(
                    Flags { id_desc: false, id_asc: true, topo_desc: false, ancestors: false, empty: false, full: false },
                );
                s.hints.add_flags(
                    Flags { id_desc: true, id_asc: false, topo_desc: true, ancestors: false, empty: false, full: false },
                );
                s.iteration_order = IterationOrder::Desc;
            },
        }
        proof {
            assert(rev(rev(self.spans@)) =~= self.spans@);
            assert(s.ids() =~= rev(self.ids()));
        }
        s
    }

    /// Whether the set iterates in ascending order.
    pub fn is_reversed(&self) -> (r: bool)
        ensures
            r == (self.spec_order() == IterationOrder::Asc),
    {
        match self.iteration_order {
            IterationOrder::Asc => true,
            IterationOrder::Desc => false,
        }
    }

    /// The map that names the ids of the set.
    pub fn map(&self) -> (r: &Arc<IdMap>)
        ensures
            *r == self.spec_map(),
    {
        &self.map
    }

    /// The graph the set was computed on.
    pub fn dag(&self) -> (r: DagHandle)
        ensures
            r == self.spec_dag(),
    {
        self.dag
    }

    pub fn hints(&self) -> (r: &Hints)
        ensures
            *r == self.spec_hints(),
    {
        &self.hints
    }

    /// If the maps of `lhs` and `rhs` are comparable, the set of the ids that `op` gives,
    /// bound to the newer map and graph (to those of `lhs` on a tie) and iterated in the
    /// order of `lhs`. Otherwise `None`.
    pub fn from_edit_spans(lhs: &IdStaticSet, rhs: &IdStaticSet, op: EditOp) -> (r: Option<
        IdStaticSet,
    >)
        requires
            lhs.wf(),
            rhs.wf(),
        ensures
            r is None <==> !compatible(*lhs, *rhs),
            r matches Some(s) ==> edit_result(*lhs, *rhs, op, s),
    {
        let order = lhs.map.version().compare(&rhs.map.version());
        match order {
            None => None,
            Some(o) => {
                let spans = match op {
                    EditOp::Union => lhs.spans.union(&rhs.spans),
                    EditOp::Intersection => lhs.spans.intersection(&rhs.spans),
                    EditOp::Difference => lhs.spans.difference(&rhs.spans),
                };
                let picked = match o {
                    Ordering::Less => rhs,
                    _ => lhs,
                };
                let map = picked.map.clone();
                let dag = picked.dag;
                let mut result = IdStaticSet::from_spans_idmap_dag(spans, map, dag);
                if lhs.is_reversed() {
                    result = result.reversed();
                }
                Some(result)
            },
        }
    }

    /// Skips `skip` ids and keeps the next `take` ids, counted in iteration order.
    pub fn slice_spans(self, skip: u64, take: u64) -> (r: IdStaticSet)
        requires
            self.wf(),
        ensures
            r.wf(),
            r.ids() == slice_ids(self.ids(), skip as int, take as int),
            r.spec_order() == self.spec_order(),
            r.spec_map() == self.spec_map(),
            r.spec_dag() == self.spec_dag(),
            r.spec_hints() == self.spec_hints(),
    {
        let mut s = self;
        proof {
            s.spans.lemma_wf();
        }
        let (skip2, take2) = match s.iteration_order {
            IterationOrder::Asc => {
                let len = s.spans.count();
                // [---take1----][skip]
                // [skip2][take2][skip]
                // [--------len-------]
                let take1 = if len > skip {
                    len - skip
                } else {
                    0
                };
                let take2 = if take1 < take {
                    take1
                } else {
                    take
                };
                (take1 - take2, take2)
            },
            IterationOrder::Desc => (skip, take),
        };
        let ghost before = s.spans@;
        if skip2 == 0 && take2 == u64::MAX {
            proof {
                assert(slice_ids(before, 0, u64::MAX as int) =~= before);
            }
        } else {
            if skip2 == 0 {
                s.spans = s.spans.take(take2);
                proof {
                    assert(skip_ids(before, 0) =~= before);
                }
            } else if take2 == u64::MAX {
                s.spans = s.spans.skip(skip2);
                proof {
                    assert(take_ids(skip_ids(before, skip2 as int), take2 as int) =~= skip_ids(before, skip2 as int));
                }
            } else {
                let skipped = s.spans.skip(skip2);
                s.spans = skipped.take(take2);
            }
        }
        proof {
            assert(s.spans@ == slice_ids(before, skip2 as int, take2 as int));
            lemma_slice_subset(before, skip2 as int, take2 as int);
            if self.iteration_order == IterationOrder::Asc {
                lemma_rev_slice(before, skip as int, take as int);
            }
        }
        s
    }

    /// Number of ids in the set.
    pub fn count(&self) -> (r: u64)
        requires
            self.wf(),
        ensures
            r == self.ids().len(),
    {
        self.spans.count()
    }

    /// Lower and upper bounds of the number of ids; both exact here.
    pub fn size_hint(&self) -> (r: (u64, Option<u64>))
        requires
            self.wf(),
        ensures
            r == (self.ids().len() as u64, Some(self.ids().len() as u64)),
    {
        let n = self.spans.count();
        (n, Some(n))
    }

    pub fn is_empty(&self) -> (r: bool)
        requires
            self.wf(),
        ensures
            r == (self.ids().len() == 0),
    {
        self.spans.is_empty()
    }

    /// The largest id, if any.
    pub fn max_id(&self) -> (r: Option<u64>)
        requires
            self.wf(),
        ensures
            r == (if self.spec_spans()@.len() == 0 {
                None
            } else {
                Some(self.spec_spans()@[0])
            }),
    {
        self.spans.max()
    }

    /// The smallest id, if any.
    pub fn min_id(&self) -> (r: Option<u64>)
        requires
            self.wf(),
        ensures
            r == (if self.spec_spans()@.len() == 0 {
                None
            } else {
                Some(self.spec_spans()@.last())
            }),
    {
        self.spans.min()
    }

    /// The first id in iteration order: the largest under descending order, the
    /// smallest under ascending order.
    pub fn first_id(&self) -> (r: Option<u64>)
        requires
            self.wf(),
        ensures
            r == (if self.ids().len() == 0 {
                None
            } else {
                Some(self.ids()[0])
            }),
    {
        match self.iteration_order {
            IterationOrder::Asc => self.spans.min(),
            IterationOrder::Desc => self.spans.max(),
        }
    }

    /// The last id in iteration order.
    pub fn last_id(&self) -> (r: Option<u64>)
        requires
            self.wf(),
        ensures
            r == (if self.ids().len() == 0 {
                None
            } else {
                Some(self.ids().last())
            }),
    {
        match self.iteration_order {
            IterationOrder::Asc => self.spans.max(),
            IterationOrder::Desc => self.spans.min(),
        }
    }

    /// Whether `id` is in the set.
    pub fn contains_id(&self, id: u64) -> (r: bool)
        requires
            self.wf(),
        ensures
            r == self.ids().contains(id),
    {
        proof {
            lemma_rev_contains(self.spans@, id);
        }
        self.spans.contains(id)
    }

    /// Whether the vertex that the map resolved to `id` is in the set; `None` means that
    /// the map does not know the vertex.
    pub fn contains_resolved(&self, id: Option<u64>) -> (r: bool)
        requires
            self.wf(),
        ensures
            r == (id matches Some(i) && self.ids().contains(i)),
    {
        match id {
            Some(i) => self.contains_id(i),
            None => false,
        }
    }

    /// Whether `name` is in the set, when its id is known locally; `None` when the id of
    /// `name` has to be resolved by the host first (see `contains_resolved`).
    pub fn contains_local(&self, name: &Vertex) -> (r: Option<bool>)
        requires
            self.wf(),
        ensures
            r is Some <==> self.spec_map().has_name(name@),
            r matches Some(b) ==> (b <==> exists|i: u64|
                self.spec_map()@.contains_key(i) && self.spec_map()@[i] == name@ && #[trigger] self.ids().contains(i)),
    {
        match self.map.vertex_id_local(name) {
            Some(i) => {
                let b = self.contains_id(i);
                proof {
                    if !b {
                        assert forall|j: u64| self.spec_map()@.contains_key(j) && self.spec_map()@[j] == name@
                            implies !#[trigger] self.ids().contains(j) by {
                            self.spec_map().lemma_name_unique(i, j);
                        }
                    }
                }
                Some(b)
            },
            None => None,
        }
    }

    /// A copy that shares the map.
    pub fn duplicate(&self) -> (r: IdStaticSet)
        requires
            self.wf(),
        ensures
            r.wf(),
            r.same_as(*self),
    {
        IdStaticSet {
            spans: self.spans.duplicate(),
            map: self.map.clone(),
            dag: self.dag,
            hints: self.hints,
            iteration_order: self.iteration_order,
        }
    }

    /// The same ids, map, graph, hints and order.
    pub open spec fn same_as(&self, other: IdStaticSet) -> bool {
        &&& self.spec_spans().span_seq() == other.spec_spans().span_seq()
        &&& self.spec_map() == other.spec_map()
        &&& self.spec_dag() == other.spec_dag()
        &&& self.spec_hints() == other.spec_hints()
        &&& self.spec_order() == other.spec_order()
    }

    /// The set iterated the other way.
    pub fn specialized_reverse(&self) -> (r: IdStaticSet)
        requires
            self.wf(),
        ensures
            r.wf(),
            r.ids() == rev(self.ids()),
    {
        self.duplicate().reversed()
    }

    /// The first `take` ids in iteration order.
    pub fn specialized_take(&self, take: u64) -> (r: IdStaticSet)
        requires
            self.wf(),
        ensures
            r.wf(),
            r.ids() == take_ids(self.ids(), take as int),
    {
        let r = self.duplicate().slice_spans(0, take);
        proof {
            assert(skip_ids(self.ids(), 0) =~= self.ids());
        }
        r
    }

    /// The set without its first `skip` ids in iteration order.
    pub fn specialized_skip(&self, skip: u64) -> (r: IdStaticSet)
        requires
            self.wf(),
        ensures
            r.wf(),
            r.ids() == skip_ids(self.ids(), skip as int),
    {
        proof {
            self.spans.lemma_wf();
        }
        let r = self.duplicate().slice_spans(skip, u64::MAX);
        proof {
            assert(take_ids(skip_ids(self.ids(), skip as int), u64::MAX as int) =~= skip_ids(self.ids(), skip as int));
        }
        r
    }

    /// The ids in both sets, in the order of `self`; `None` when the maps are not comparable.
    pub fn intersection(&self, other: &IdStaticSet) -> (r: Option<IdStaticSet>)
        requires
            self.wf(),
            other.wf(),
        ensures
            r is None <==> !compatible(*self, *other),
            r matches Some(s) ==> edit_result(*self, *other, EditOp::Intersection, s),
    {
        IdStaticSet::from_edit_spans(self, other, EditOp::Intersection)
    }

    /// The ids in either set, in the order of `self`; `None` when the maps are not comparable.
    pub fn union(&self, other: &IdStaticSet) -> (r: Option<IdStaticSet>)
        requires
            self.wf(),
            other.wf(),
        ensures
            r is None <==> !compatible(*self, *other),
            r matches Some(s) ==> edit_result(*self, *other, EditOp::Union, s),
    {
        IdStaticSet::from_edit_spans(self, other, EditOp::Union)
    }

    /// The ids in `self` but not in `other`, in the order of `self`; `None` when the maps
    /// are not comparable.
    pub fn difference(&self, other: &IdStaticSet) -> (r: Option<IdStaticSet>)
        requires
            self.wf(),
            other.wf(),
        ensures
            r is None <==> !compatible(*self, *other),
            r matches Some(s) ==> edit_result(*self, *other, EditOp::Difference, s),
    {
        IdStaticSet::from_edit_spans(self, other, EditOp::Difference)
    }

    /// The vertices of the set in iteration order, resolving unknown ids in batches of
    /// up to `batch_size` (one when `batch_size` is 0).
    pub fn iter(&self, batch_size: usize) -> (r: Iter)
        requires
            self.wf(),
        ensures
            r.wf(),
            r.upcoming() == self.ids(),
            r.spec_walk() == self.ids(),
            r.spec_yielded() == Seq::<u64>::empty(),
            r.spec_map() == self.spec_map(),
            r.spec_batch_size() == if batch_size == 0 {
                1
            } else {
                batch_size
            },
            !r.awaiting(),
            !r.is_finished(),
            r.spec_batch().len() == 0,
    {
        let asc = self.is_reversed();
        let walk = IdSetIter::new(self.spans.duplicate(), asc);
        proof {
            assert(rev(self.spans@) =~= Seq::new(self.spans@.len(), |i: int| self.spans@[self.spans@.len() - 1 - i]));
        }
        Iter::new(walk, self.map.clone(), batch_size)
    }

    /// The vertices of the set against iteration order.
    pub fn iter_rev(&self, batch_size: usize) -> (r: Iter)
        requires
            self.wf(),
        ensures
            r.wf(),
            r.upcoming() == rev(self.ids()),
            r.spec_walk() == rev(self.ids()),
            r.spec_yielded() == Seq::<u64>::empty(),
            r.spec_map() == self.spec_map(),
            r.spec_batch_size() == if batch_size == 0 {
                1
            } else {
                batch_size
            },
            !r.awaiting(),
            !r.is_finished(),
            r.spec_batch().len() == 0,
    {
        let asc = !self.is_reversed();
        let walk = IdSetIter::new(self.spans.duplicate(), asc);
        proof {
            assert(rev(self.spans@) =~= Seq::new(self.spans@.len(), |i: int| self.spans@[self.spans@.len() - 1 - i]));
            assert(rev(rev(self.spans@)) =~= self.spans@);
        }
        Iter::new(walk, self.map.clone(), batch_size)
    }

    /// Records properties that the caller knows of the set: ancestor closure, fullness,
    /// or emptiness of a set that has no ids. Order flags follow the iteration order and
    /// are not set here.
    pub fn add_hint_flags(&mut self, flags: Flags)
        requires
            old(self).wf(),
            !flags.id_desc && !flags.id_asc && !flags.topo_desc,
            flags.empty ==> old(self).ids().len() == 0,
        ensures
            final(self).wf(),
            final(self).spec_hints() == (Hints { flags: flags_union(old(self).spec_hints().flags, flags), ..old(self).spec_hints() }),
            final(self).spec_spans() == old(self).spec_spans(),
            final(self).spec_map() == old(self).spec_map(),
            final(self).spec_dag() == old(self).spec_dag(),
            final(self).spec_order() == old(self).spec_order(),
            final(self).ids() == old(self).ids(),
    {
        self.hints.add_flags(flags);
    }
}

} // verus!
