use vstd::prelude::*;

use crate::hints::{flags_none, Flags};
use crate::id_static::{edit_ids, flip, EditOp, IdStaticSet, IterationOrder};
use crate::map::{version_cmp, DagHandle, MapVersion};
use std::cmp::Ordering;
use crate::id_set::{skip_ids, take_ids};
use crate::render::{
    chars_to_string, dec_text, name_text, push_dec, push_id_static, push_name, set_text, DEBUG_SPAN_LIMIT,
};
use crate::vertex::Vertex;

verus! {

/// How a union node orders its vertices.
#[derive(Clone, Copy, Debug, PartialEq, Eq, Structural)]
pub enum UnionOrder {
    /// The left side, then what the right side adds.
    LeftThenRight,
    /// The left vertices and the new right vertices taken in turn.
    Zip,
}

/// A node of a lazy set expression. Operations on two id-backed sets with comparable
/// maps collapse into one id-backed set; otherwise they build a node that a generic
/// evaluation walks later.
#[derive(Debug)]
pub enum LazySet {
    Empty,
    /// Ids with their map, in an explicit order.
    IdStatic(IdStaticSet),
    /// An explicit list of vertices.
    Static(Vec<Vertex>),
    Intersection(Box<LazySet>, Box<LazySet>),
    Union(Box<LazySet>, Box<LazySet>, UnionOrder),
    Difference(Box<LazySet>, Box<LazySet>),
    Reverse(Box<LazySet>),
    /// The vertices left after skipping some and keeping up to a count (all when `None`).
    Slice(Box<LazySet>, u64, Option<u64>),
}

/// Vertex names separated by `", "`.
pub open spec fn names_text(names: Seq<Vertex>) -> Seq<char>
    decreases names.len(),
{
    if names.len() == 0 {
        Seq::empty()
    } else if names.len() == 1 {
        name_text(names[0]@)
    } else {
        names_text(names.drop_last()) + seq![',', ' '] + name_text(names.last()@)
    }
}

/// The newer of two comparable versions; the first on a tie.
pub open spec fn newer(a: MapVersion, b: MapVersion) -> MapVersion {
    if version_cmp(a, b) == Some(Ordering::Less) {
        b
    } else {
        a
    }
}

/// ` skip=N`, then ` take=M` when the count is bounded.
pub open spec fn slice_bounds_text(skip: u64, take: Option<u64>) -> Seq<char> {
    seq![' ', 's', 'k', 'i', 'p', '='] + dec_text(skip) + match take {
        Some(t) => seq![' ', 't', 'a', 'k', 'e', '='] + dec_text(t),
        None => Seq::empty(),
    }
}

fn push_slice_bounds(out: &mut Vec<char>, skip: u64, take: Option<u64>)
    ensures
        final(out)@ == old(out)@ + slice_bounds_text(skip, take),
{
    let ghost start = out@;
    out.push(' ');
    out.push('s');
    out.push('k');
    out.push('i');
    out.push('p');
    out.push('=');
    push_dec(out, skip);
    if let Some(t) = take {
        out.push(' ');
        out.push('t');
        out.push('a');
        out.push('k');
        out.push('e');
        out.push('=');
        push_dec(out, t);
    }
    proof {
        assert(out@ =~= start + slice_bounds_text(skip, take));
    }
}

/// ` (order=Zip)` marks a union that zips its sides.
pub open spec fn zip_text(o: UnionOrder) -> Seq<char> {
    match o {
        UnionOrder::Zip => seq![' ', '(', 'o', 'r', 'd', 'e', 'r', '=', 'Z', 'i', 'p', ')'],
        UnionOrder::LeftThenRight => Seq::empty(),
    }
}

fn push_zip(out: &mut Vec<char>)
    ensures
        final(out)@ == old(out)@ + zip_text(UnionOrder::Zip),
{
    out.push(' ');
    out.push('(');
    out.push('o');
    out.push('r');
    out.push('d');
    out.push('e');
    out.push('r');
    out.push('=');
    out.push('Z');
    out.push('i');
    out.push('p');
    out.push(')');
    proof {
        assert(final(out)@ =~= old(out)@ + zip_text(UnionOrder::Zip));
    }
}

/// The common graph of two sides, if they have one.
pub open spec fn same_dag(a: Option<DagHandle>, b: Option<DagHandle>) -> Option<DagHandle> {
    if a == b {
        a
    } else {
        None
    }
}

fn same_handle(a: Option<DagHandle>, b: Option<DagHandle>) -> (r: bool)
    ensures
        r == (a == b),
{
    match (a, b) {
        (Some(x), Some(y)) => x.id == y.id,
        (None, None) => true,
        _ => false,
    }
}

fn pick_same_dag(a: Option<DagHandle>, b: Option<DagHandle>) -> (r: Option<DagHandle>)
    ensures
        r == same_dag(a, b),
{
    if same_handle(a, b) {
        a
    } else {
        None
    }
}

impl LazySet {
    pub open spec fn wf(&self) -> bool
        decreases self,
    {
        match self {
            LazySet::IdStatic(s) => s.wf(),
            LazySet::Intersection(a, b) => a.wf() && b.wf(),
            LazySet::Union(a, b, _) => a.wf() && b.wf(),
            LazySet::Difference(a, b) => a.wf() && b.wf(),
            LazySet::Reverse(a) => a.wf(),
            LazySet::Slice(a, _, _) => a.wf(),
            _ => true,
        }
    }

    /// The set is known to be empty, from its kind or its hints.
    pub open spec fn known_empty(&self) -> bool {
        match self {
            LazySet::Empty => true,
            LazySet::IdStatic(s) => s.spec_hints().flags.empty,
            _ => false,
        }
    }

    /// Every leaf is id-backed and the maps met at each node are comparable, so that the
    /// expression has one id-backed equivalent.
    pub open spec fn flattenable(&self) -> bool
        decreases self,
    {
        match self {
            LazySet::IdStatic(_) => true,
            LazySet::Intersection(a, b) => a.flattenable() && b.flattenable() && version_cmp(
                a.flat_version(),
                b.flat_version(),
            ) is Some,
            LazySet::Union(a, b, _) => a.flattenable() && b.flattenable() && version_cmp(
                a.flat_version(),
                b.flat_version(),
            ) is Some,
            LazySet::Difference(a, b) => a.flattenable() && b.flattenable() && version_cmp(
                a.flat_version(),
                b.flat_version(),
            ) is Some,
            LazySet::Reverse(a) => a.flattenable(),
            _ => false,
        }
    }

    /// The map version of the id-backed equivalent: the newer one at each node, the left
    /// one on a tie.
    pub open spec fn flat_version(&self) -> MapVersion
        decreases self,
    {
        match self {
            LazySet::IdStatic(s) => s.spec_map().spec_version(),
            LazySet::Intersection(a, b) => newer(a.flat_version(), b.flat_version()),
            LazySet::Union(a, b, _) => newer(a.flat_version(), b.flat_version()),
            LazySet::Difference(a, b) => newer(a.flat_version(), b.flat_version()),
            LazySet::Reverse(a) => a.flat_version(),
            _ => MapVersion { lineage: 0, generation: 0 },
        }
    }

    /// The iteration order of the id-backed equivalent: that of the leftmost leaf,
    /// flipped by each reversal on the way.
    pub open spec fn flat_order(&self) -> IterationOrder
        decreases self,
    {
        match self {
            LazySet::IdStatic(s) => s.spec_order(),
            LazySet::Intersection(a, _) => a.flat_order(),
            LazySet::Union(a, _, _) => a.flat_order(),
            LazySet::Difference(a, _) => a.flat_order(),
            LazySet::Reverse(a) => flip(a.flat_order()),
            _ => IterationOrder::Desc,
        }
    }

    /// The ids of the expression, where its leaves are id-backed.
    pub open spec fn id_model(&self) -> Set<u64>
        decreases self,
    {
        match self {
            LazySet::IdStatic(s) => s.spec_spans().id_set(),
            LazySet::Intersection(a, b) => a.id_model().intersect(b.id_model()),
            LazySet::Union(a, b, _) => a.id_model().union(b.id_model()),
            LazySet::Difference(a, b) => a.id_model().difference(b.id_model()),
            LazySet::Reverse(a) => a.id_model(),
            _ => Set::empty(),
        }
    }

    /// An operation of `a` and `b` has a fast path: the right side flattens, and the
    /// left side is id-backed (or flattens, when its order may be dropped), with
    /// comparable maps.
    pub open spec fn has_fast_path(a: LazySet, b: LazySet, keep_left_order: bool) -> bool {
        &&& if keep_left_order {
            a is IdStatic
        } else {
            a.flattenable()
        }
        &&& b.flattenable()
        &&& version_cmp(a.flat_version(), b.flat_version()) is Some
    }

    /// `s` is the fast-path result of `op` on `a` and `b`: their ids combined by `op`,
    /// in the order of `a`, bound to the newer map (that of `a` on a tie).
    pub open spec fn fast_result(op: EditOp, a: LazySet, b: LazySet, s: IdStaticSet) -> bool {
        &&& s.wf()
        &&& s.spec_map().spec_version() == newer(a.flat_version(), b.flat_version())
        &&& s.spec_spans().id_set() == edit_ids(op, a.id_model(), b.id_model())
        &&& s.spec_order() == a.flat_order()
    }

    /// The text that `debug_string` returns.
    pub open spec fn debug_text(&self) -> Seq<char>
        decreases self,
    {
        match self {
            LazySet::Empty => seq!['<', 'e', 'm', 'p', 't', 'y', '>'],
            LazySet::IdStatic(s) => set_text(
                s.spec_spans().span_seq(),
                s.spec_map()@,
                DEBUG_SPAN_LIMIT as nat,
                s.spec_order() == IterationOrder::Asc,
            ),
            LazySet::Static(v) => seq!['<', 's', 't', 'a', 't', 'i', 'c', ' ', '['] + names_text(v@) + seq![
                ']',
                '>',
            ],
            LazySet::Intersection(a, b) => seq!['<', 'a', 'n', 'd', ' '] + a.debug_text() + seq![' ']
                + b.debug_text() + seq!['>'],
            LazySet::Union(a, b, o) => seq!['<', 'o', 'r', ' '] + a.debug_text() + seq![' '] + b.debug_text()
                + zip_text(*o) + seq!['>'],
            LazySet::Difference(a, b) => seq!['<', 'd', 'i', 'f', 'f', ' '] + a.debug_text() + seq![' ']
                + b.debug_text() + seq!['>'],
            LazySet::Reverse(a) => seq!['<', 'r', 'e', 'v', 'e', 'r', 's', 'e', ' '] + a.debug_text()
                + seq!['>'],
            LazySet::Slice(a, skip, take) => seq!['<', 's', 'l', 'i', 'c', 'e', ' '] + a.debug_text()
                + slice_bounds_text(*skip, *take) + seq!['>'],
        }
    }

    /// The graph that all id-backed leaves of the expression come from, if there is one.
    pub open spec fn spec_dag(&self) -> Option<DagHandle>
        decreases self,
    {
        match self {
            LazySet::IdStatic(s) => Some(s.spec_dag()),
            LazySet::Intersection(a, b) => same_dag(a.spec_dag(), b.spec_dag()),
            LazySet::Union(a, b, _) => same_dag(a.spec_dag(), b.spec_dag()),
            LazySet::Difference(a, b) => same_dag(a.spec_dag(), b.spec_dag()),
            LazySet::Reverse(a) => a.spec_dag(),
            LazySet::Slice(a, _, _) => a.spec_dag(),
            _ => None,
        }
    }

    /// The flags known of the expression. Ancestor closure survives an intersection or
    /// a union of two ancestor-closed sets of one graph, and a reversal; an intersection
    /// or a difference iterates in the order of its left side; a reversal swaps the id
    /// orders.
    pub open spec fn spec_flags(&self) -> Flags
        decreases self,
    {
        match self {
            LazySet::Empty => Flags { empty: true, ..flags_none() },
            LazySet::IdStatic(s) => s.spec_hints().flags,
            LazySet::Static(_) => flags_none(),
            LazySet::Intersection(a, b) => Flags {
                id_desc: a.spec_flags().id_desc,
                id_asc: a.spec_flags().id_asc,
                topo_desc: a.spec_flags().topo_desc,
                ancestors: a.spec_flags().ancestors && b.spec_flags().ancestors && a.spec_dag() is Some
                    && a.spec_dag() == b.spec_dag(),
                ..flags_none()
            },
            LazySet::Union(a, b, _) => Flags {
                ancestors: a.spec_flags().ancestors && b.spec_flags().ancestors && a.spec_dag() is Some
                    && a.spec_dag() == b.spec_dag(),
                ..flags_none()
            },
            LazySet::Difference(a, _) => Flags {
                id_desc: a.spec_flags().id_desc,
                id_asc: a.spec_flags().id_asc,
                topo_desc: a.spec_flags().topo_desc,
                ..flags_none()
            },
            LazySet::Reverse(a) => Flags {
                id_desc: a.spec_flags().id_asc,
                id_asc: a.spec_flags().id_desc,
                ancestors: a.spec_flags().ancestors,
                ..flags_none()
            },
            LazySet::Slice(a, _, _) => Flags {
                id_desc: a.spec_flags().id_desc,
                id_asc: a.spec_flags().id_asc,
                topo_desc: a.spec_flags().topo_desc,
                ..flags_none()
            },
        }
    }

    pub fn dag(&self) -> (r: Option<DagHandle>)
        requires
            self.wf(),
        ensures
            r == self.spec_dag(),
        decreases self,
    {
        match self {
            LazySet::IdStatic(s) => Some(s.dag()),
            LazySet::Intersection(a, b) => pick_same_dag(a.dag(), b.dag()),
            LazySet::Union(a, b, _) => pick_same_dag(a.dag(), b.dag()),
            LazySet::Difference(a, b) => pick_same_dag(a.dag(), b.dag()),
            LazySet::Reverse(a) => a.dag(),
            LazySet::Slice(a, _, _) => a.dag(),
            _ => None,
        }
    }

    pub fn flags(&self) -> (r: Flags)
        requires
            self.wf(),
        ensures
            r == self.spec_flags(),
        decreases self,
    {
        match self {
            LazySet::Empty => Flags { empty: true, ..Flags::none() },
            LazySet::IdStatic(s) => s.hints().flags,
            LazySet::Static(_) => Flags::none(),
            LazySet::Intersection(a, b) => {
                let fa = a.flags();
                let fb = b.flags();
                let da = a.dag();
                let same = da.is_some() && same_handle(da, b.dag());
                Flags {
                    id_desc: fa.id_desc,
                    id_asc: fa.id_asc,
                    topo_desc: fa.topo_desc,
                    ancestors: fa.ancestors && fb.ancestors && same,
                    ..Flags::none()
                }
            },
            LazySet::Union(a, b, _) => {
                let fa = a.flags();
                let fb = b.flags();
                let da = a.dag();
                let same = da.is_some() && same_handle(da, b.dag());
                Flags { ancestors: fa.ancestors && fb.ancestors && same, ..Flags::none() }
            },
            LazySet::Difference(a, _) => {
                let fa = a.flags();
                Flags { id_desc: fa.id_desc, id_asc: fa.id_asc, topo_desc: fa.topo_desc, ..Flags::none() }
            },
            LazySet::Reverse(a) => {
                let fa = a.flags();
                Flags { id_desc: fa.id_asc, id_asc: fa.id_desc, ancestors: fa.ancestors, ..Flags::none() }
            },
            LazySet::Slice(a, _, _) => {
                let fa = a.flags();
                Flags { id_desc: fa.id_desc, id_asc: fa.id_asc, topo_desc: fa.topo_desc, ..Flags::none() }
            },
        }
    }

    pub fn is_known_empty(&self) -> (r: bool)
        ensures
            r == self.known_empty(),
    {
        match self {
            LazySet::Empty => true,
            LazySet::IdStatic(s) => s.hints().flags.empty,
            _ => false,
        }
    }

    /// The id-backed set with the same ids, when there is one: each node is computed
    /// from the flattened sides on the newer map, in the order of its left side.
    pub fn flatten_id(&self) -> (r: Option<IdStaticSet>)
        requires
            self.wf(),
        ensures
            r is Some <==> self.flattenable(),
            r matches Some(s) ==> s.wf() && s.spec_spans().id_set() == self.id_model()
                && s.spec_order() == self.flat_order() && s.spec_map().spec_version()
                == self.flat_version(),
            self matches LazySet::IdStatic(x) ==> (r matches Some(s) && s.same_as(*x)),
        decreases self,
    {
        match self {
            LazySet::IdStatic(s) => Some(s.duplicate()),
            LazySet::Intersection(a, b) => LazySet::combine(a.flatten_id(), b.flatten_id(), EditOp::Intersection),
            LazySet::Union(a, b, _) => LazySet::combine(a.flatten_id(), b.flatten_id(), EditOp::Union),
            LazySet::Difference(a, b) => LazySet::combine(a.flatten_id(), b.flatten_id(), EditOp::Difference),
            LazySet::Reverse(a) => match a.flatten_id() {
                Some(s) => Some(s.reversed()),
                None => None,
            },
            _ => None,
        }
    }

    fn combine(x: Option<IdStaticSet>, y: Option<IdStaticSet>, op: EditOp) -> (r: Option<IdStaticSet>)
        requires
            x matches Some(a) ==> a.wf(),
            y matches Some(b) ==> b.wf(),
        ensures
            r is Some <==> (x is Some && y is Some && version_cmp(
                x->0.spec_map().spec_version(),
                y->0.spec_map().spec_version(),
            ) is Some),
            r matches Some(s) ==> s.wf() && s.spec_spans().id_set() == edit_ids(
                op,
                x->0.spec_spans().id_set(),
                y->0.spec_spans().id_set(),
            ) && s.spec_order() == x->0.spec_order() && s.spec_map().spec_version() == newer(
                x->0.spec_map().spec_version(),
                y->0.spec_map().spec_version(),
            ),
    {
        match (x, y) {
            (Some(a), Some(b)) => IdStaticSet::from_edit_spans(&a, &b, op),
            _ => None,
        }
    }

    fn fast_path(a: &LazySet, b: &LazySet, op: EditOp, keep_left_order: bool) -> (r: Option<IdStaticSet>)
        requires
            a.wf(),
            b.wf(),
        ensures
            r is Some <==> LazySet::has_fast_path(*a, *b, keep_left_order),
            r matches Some(s) ==> LazySet::fast_result(op, *a, *b, s),
    {
        let left = if keep_left_order {
            match a {
                LazySet::IdStatic(s) => Some(s.duplicate()),
                _ => None,
            }
        } else {
            a.flatten_id()
        };
        LazySet::combine(left, b.flatten_id(), op)
    }

    /// The vertices in both sets, in the order of `self`; a set known to hold every
    /// vertex of its graph goes to the right, where it is only asked for membership.
    pub fn intersection(self, other: LazySet) -> (r: LazySet)
        requires
            self.wf(),
            other.wf(),
        ensures
            r.wf(),
            self.known_empty() || other.known_empty() ==> r is Empty,
            !(self.known_empty() || other.known_empty()) && LazySet::has_fast_path(self, other, true)
                ==> (r matches LazySet::IdStatic(s) && LazySet::fast_result(
                EditOp::Intersection,
                self,
                other,
                s,
            )),
            !(self.known_empty() || other.known_empty()) && !LazySet::has_fast_path(self, other, true)
                ==> r == if self.spec_flags().full && !other.spec_flags().full {
                LazySet::Intersection(Box::new(other), Box::new(self))
            } else {
                LazySet::Intersection(Box::new(self), Box::new(other))
            },
    {
        if self.is_known_empty() || other.is_known_empty() {
            return LazySet::Empty;
        }
        match LazySet::fast_path(&self, &other, EditOp::Intersection, true) {
            Some(s) => LazySet::IdStatic(s),
            None => {
                // Everything intersected with a set is that set: walk the smaller side.
                if self.flags().full && !other.flags().full {
                    LazySet::Intersection(Box::new(other), Box::new(self))
                } else {
                    LazySet::Intersection(Box::new(self), Box::new(other))
                }
            },
        }
    }

    /// The vertices in either set. With a fast path the order is that of `self`.
    pub fn union(self, other: LazySet) -> (r: LazySet)
        requires
            self.wf(),
            other.wf(),
        ensures
            r.wf(),
            self.known_empty() ==> r == other,
            !self.known_empty() && other.known_empty() ==> r == self,
            !(self.known_empty() || other.known_empty()) && LazySet::has_fast_path(self, other, false)
                ==> (r matches LazySet::IdStatic(s) && LazySet::fast_result(EditOp::Union, self, other, s)),
            !(self.known_empty() || other.known_empty()) && !LazySet::has_fast_path(self, other, false)
                ==> r == LazySet::Union(Box::new(self), Box::new(other), UnionOrder::LeftThenRight),
    {
        if self.is_known_empty() {
            return other;
        }
        if other.is_known_empty() {
            return self;
        }
        match LazySet::fast_path(&self, &other, EditOp::Union, false) {
            Some(s) => LazySet::IdStatic(s),
            None => LazySet::Union(Box::new(self), Box::new(other), UnionOrder::LeftThenRight),
        }
    }

    /// The vertices of `self` that are not in `other`, in the order of `self`.
    pub fn difference(self, other: LazySet) -> (r: LazySet)
        requires
            self.wf(),
            other.wf(),
        ensures
            r.wf(),
            self.known_empty() ==> r is Empty,
            !self.known_empty() && other.known_empty() ==> r == self,
            !(self.known_empty() || other.known_empty()) && LazySet::has_fast_path(self, other, true)
                ==> (r matches LazySet::IdStatic(s) && LazySet::fast_result(
                EditOp::Difference,
                self,
                other,
                s,
            )),
            !(self.known_empty() || other.known_empty()) && !LazySet::has_fast_path(self, other, true)
                ==> r == LazySet::Difference(Box::new(self), Box::new(other)),
    {
        if self.is_known_empty() {
            return LazySet::Empty;
        }
        if other.is_known_empty() {
            return self;
        }
        match LazySet::fast_path(&self, &other, EditOp::Difference, true) {
            Some(s) => LazySet::IdStatic(s),
            None => LazySet::Difference(Box::new(self), Box::new(other)),
        }
    }

    /// The vertices of `self`, then those of `other` that `self` lacks. Never flattened,
    /// since that would lose the order.
    pub fn union_preserving_order(self, other: LazySet) -> (r: LazySet)
        requires
            self.wf(),
            other.wf(),
        ensures
            r.wf(),
            r == LazySet::Union(Box::new(self), Box::new(other), UnionOrder::LeftThenRight),
    {
        LazySet::Union(Box::new(self), Box::new(other), UnionOrder::LeftThenRight)
    }

    /// The vertices of both sets merged so that each keeps its relative order. Never
    /// flattened.
    pub fn union_zip(self, other: LazySet) -> (r: LazySet)
        requires
            self.wf(),
            other.wf(),
        ensures
            r.wf(),
            r == LazySet::Union(Box::new(self), Box::new(other), UnionOrder::Zip),
    {
        LazySet::Union(Box::new(self), Box::new(other), UnionOrder::Zip)
    }

    /// The first `n` vertices: pushed into an id-backed set, else a slice node.
    pub fn take(self, n: u64) -> (r: LazySet)
        requires
            self.wf(),
        ensures
            r.wf(),
            match self {
                LazySet::Empty => r is Empty,
                LazySet::IdStatic(s) => r matches LazySet::IdStatic(t) && t.wf() && t.ids() == take_ids(
                    s.ids(),
                    n as int,
                ),
                _ => r == LazySet::Slice(Box::new(self), 0, Some(n)),
            },
    {
        match self {
            LazySet::Empty => LazySet::Empty,
            LazySet::IdStatic(s) => LazySet::IdStatic(s.specialized_take(n)),
            other => LazySet::Slice(Box::new(other), 0, Some(n)),
        }
    }

    /// The vertices after the first `n`: pushed into an id-backed set, else a slice node.
    pub fn skip(self, n: u64) -> (r: LazySet)
        requires
            self.wf(),
        ensures
            r.wf(),
            match self {
                LazySet::Empty => r is Empty,
                LazySet::IdStatic(s) => r matches LazySet::IdStatic(t) && t.wf() && t.ids() == skip_ids(
                    s.ids(),
                    n as int,
                ),
                _ => r == LazySet::Slice(Box::new(self), n, None),
            },
    {
        match self {
            LazySet::Empty => LazySet::Empty,
            LazySet::IdStatic(s) => LazySet::IdStatic(s.specialized_skip(n)),
            other => LazySet::Slice(Box::new(other), n, None),
        }
    }

    /// The set iterated the other way: pushed into an id-backed set, undone on a
    /// reversed node, else wrapped.
    pub fn reverse(self) -> (r: LazySet)
        requires
            self.wf(),
        ensures
            r.wf(),
            match self {
                LazySet::Empty => r is Empty,
                LazySet::IdStatic(s) => r == LazySet::IdStatic(s.spec_reversed()),
                LazySet::Reverse(inner) => r == *inner,
                _ => r == LazySet::Reverse(Box::new(self)),
            },
    {
        match self {
            LazySet::Empty => LazySet::Empty,
            LazySet::IdStatic(s) => LazySet::IdStatic(s.reversed()),
            LazySet::Reverse(inner) => *inner,
            other => LazySet::Reverse(Box::new(other)),
        }
    }

    #[verifier::rlimit(30)]
    fn push_text(&self, out: &mut Vec<char>)
        requires
            self.wf(),
        ensures
            final(out)@ == old(out)@ + self.debug_text(),
        decreases self,
    {
        let ghost start = out@;
        match self {
            LazySet::Empty => {
                out.push('<');
                out.push('e');
                out.push('m');
                out.push('p');
                out.push('t');
                out.push('y');
                out.push('>');
            },
            LazySet::IdStatic(s) => {
                push_id_static(out, s, DEBUG_SPAN_LIMIT);
            },
            LazySet::Static(v) => {
                out.push('<');
                out.push('s');
                out.push('t');
                out.push('a');
                out.push('t');
                out.push('i');
                out.push('c');
                out.push(' ');
                out.push('[');
                let ghost mid = out@;
                let mut i: usize = 0;
                while i < v.len()
                    invariant
                        0 <= i <= v.len(),
                        out@ == mid + names_text(v@.take(i as int)),
                    decreases v.len() - i,
                {
                    if i > 0 {
                        out.push(',');
                        out.push(' ');
                    }
                    push_name(out, v[i].as_bytes());
                    proof {
                        let t = v@.take(i + 1);
                        assert(t.drop_last() =~= v@.take(i as int));
                        if i == 0 {
                            assert(v@.take(0) =~= Seq::<Vertex>::empty());
                        }
                        assert(out@ =~= mid + names_text(t));
                    }
                    i = i + 1;
                }
                out.push(']');
                out.push('>');
                proof {
                    if v@.len() == 0 {
                        assert(v@.take(0) =~= Seq::<Vertex>::empty());
                    }
                    assert(v@.take(i as int) =~= v@);
                }
            },
            LazySet::Intersection(a, b) => {
                out.push('<');
                out.push('a');
                out.push('n');
                out.push('d');
                out.push(' ');
                a.push_text(out);
                out.push(' ');
                b.push_text(out);
                out.push('>');
            },
            LazySet::Union(a, b, o) => {
                out.push('<');
                out.push('o');
                out.push('r');
                out.push(' ');
                a.push_text(out);
                out.push(' ');
                b.push_text(out);
                if let UnionOrder::Zip = o {
                    push_zip(out);
                }
                out.push('>');
            },
            LazySet::Difference(a, b) => {
                out.push('<');
                out.push('d');
                out.push('i');
                out.push('f');
                out.push('f');
                out.push(' ');
                a.push_text(out);
                out.push(' ');
                b.push_text(out);
                out.push('>');
            },
            LazySet::Reverse(a) => {
                out.push('<');
                out.push('r');
                out.push('e');
                out.push('v');
                out.push('e');
                out.push('r');
                out.push('s');
                out.push('e');
                out.push(' ');
                a.push_text(out);
                out.push('>');
            },
            LazySet::Slice(a, skip, take) => {
                out.push('<');
                out.push('s');
                out.push('l');
                out.push('i');
                out.push('c');
                out.push('e');
                out.push(' ');
                a.push_text(out);
                push_slice_bounds(out, *skip, *take);
                out.push('>');
            },
        }
        proof {
            assert(out@ =~= start + self.debug_text());
        }
    }

    /// A description of the expression: `<spans ..>` for an id-backed set, `<static
    /// [..]>` for listed vertices, `<and ..>`, `<or ..>`, `<diff ..>` and `<reverse ..>`
    /// for unevaluated operations, `<empty>` for the empty set.
    pub fn debug_string(&self) -> (r: String)
        requires
            self.wf(),
        ensures
            r@ == self.debug_text(),
    {
        let mut out: Vec<char> = Vec::new();
        self.push_text(&mut out);
        proof {
            assert(out@ =~= self.debug_text());
        }
        chars_to_string(&out)
    }
}

} // verus!
