use std::sync::Arc;

use dag::id_set::IdSet;
use dag::id_static::IdStaticSet;
use dag::map::{DagHandle, IdMap, MapVersion};
use dag::set::LazySet;
use dag::span::IdSpan;
use dag::vertex::Vertex;

// Each graph below: A--B--C--D and B--E--F--G, numbered 0..=6 in that order.

fn v(s: &str) -> Vertex {
    Vertex::new(s.as_bytes().to_vec())
}

fn graph_map(lineage: u64) -> Arc<IdMap> {
    let mut map = IdMap::new(MapVersion { lineage, generation: 1 });
    for (i, name) in ["A", "B", "C", "D", "E", "F", "G"].iter().enumerate() {
        assert!(map.insert(i as u64, v(name)));
    }
    Arc::new(map)
}

fn ids(map: &Arc<IdMap>, list: &[u64]) -> LazySet {
    let spans: Vec<IdSpan> = list.iter().map(|&i| IdSpan { low: i, high: i }).collect();
    let s = IdStaticSet::from_spans_idmap_dag(
        IdSet::from_spans(&spans),
        map.clone(),
        DagHandle { id: map.version().lineage },
    );
    LazySet::IdStatic(s)
}

#[test]
fn sets_of_unrelated_graphs_never_collapse() {
    let dag1 = graph_map(1);
    let dag2 = graph_map(2);
    let abcd = || ids(&dag1, &[0, 1, 2, 3]);
    let abefg = || ids(&dag2, &[0, 1, 4, 5, 6]);
    assert_eq!(
        abcd().intersection(abefg()).debug_string(),
        "<and <spans [A:D+0:3]> <spans [E:G+4:6, A:B+0:1]>>"
    );
    assert_eq!(
        abcd().union(abefg()).debug_string(),
        "<or <spans [A:D+0:3]> <spans [E:G+4:6, A:B+0:1]>>"
    );
    assert_eq!(
        abcd().difference(abefg()).debug_string(),
        "<diff <spans [A:D+0:3]> <spans [E:G+4:6, A:B+0:1]>>"
    );
    let all1 = || ids(&dag1, &[0, 1, 2, 3, 4, 5, 6]);
    let all2 = || ids(&dag2, &[0, 1, 2, 3, 4, 5, 6]);
    assert_eq!(all1().intersection(all2()).debug_string(), "<and <spans [A:G+0:6]> <spans [A:G+0:6]>>");
    assert_eq!(all1().union(all2()).debug_string(), "<or <spans [A:G+0:6]> <spans [A:G+0:6]>>");
    assert_eq!(all1().difference(all2()).debug_string(), "<diff <spans [A:G+0:6]> <spans [A:G+0:6]>>");
}

#[test]
fn sets_of_one_graph_collapse() {
    let dag = graph_map(1);
    let abcd = || ids(&dag, &[0, 1, 2, 3]);
    let abefg = || ids(&dag, &[0, 1, 4, 5, 6]);
    assert_eq!(abcd().intersection(abefg()).debug_string(), "<spans [A:B+0:1]>");
    assert_eq!(abcd().union(abefg()).debug_string(), "<spans [A:G+0:6]>");
    assert_eq!(abcd().difference(abefg()).debug_string(), "<spans [C:D+2:3]>");
}

#[test]
fn static_sets_have_no_fast_path() {
    let dag = graph_map(1);
    let z = || LazySet::Static(vec![v("Z")]);
    let all = || ids(&dag, &[0, 1, 2, 3, 4, 5, 6]);
    assert_eq!(z().intersection(all()).debug_string(), "<and <static [Z]> <spans [A:G+0:6]>>");
    assert_eq!(z().union(all()).debug_string(), "<or <static [Z]> <spans [A:G+0:6]>>");
    assert_eq!(z().difference(all()).debug_string(), "<diff <static [Z]> <spans [A:G+0:6]>>");
    assert_eq!(all().union(z()).debug_string(), "<or <spans [A:G+0:6]> <static [Z]>>");
    assert_eq!(all().difference(z()).debug_string(), "<diff <spans [A:G+0:6]> <static [Z]>>");
    assert_eq!(LazySet::Static(vec![v("B"), v("F"), v("G")]).debug_string(), "<static [B, F, G]>");
}

#[test]
fn empty_sets_short_circuit() {
    let dag = graph_map(1);
    let a = || ids(&dag, &[0, 1, 2, 3, 4, 5, 6]);
    let e = || LazySet::Empty;
    assert_eq!(e().intersection(a()).debug_string(), "<empty>");
    assert_eq!(e().union(a()).debug_string(), "<spans [A:G+0:6]>");
    assert_eq!(e().difference(a()).debug_string(), "<empty>");
    assert_eq!(a().intersection(e()).debug_string(), "<empty>");
    assert_eq!(a().union(e()).debug_string(), "<spans [A:G+0:6]>");
    assert_eq!(a().difference(e()).debug_string(), "<spans [A:G+0:6]>");
    // An id-backed set with the empty hint counts as empty too.
    let other = graph_map(2);
    assert_eq!(ids(&other, &[]).intersection(a()).debug_string(), "<empty>");
    assert!(ids(&other, &[]).is_known_empty());
}

#[test]
fn reverse_pushes_down_or_wraps() {
    let dag = graph_map(1);
    let a = ids(&dag, &[0, 1]);
    assert_eq!(a.reverse().debug_string(), "<spans [A:B+0:1] +>");
    let z = LazySet::Static(vec![v("Z")]);
    let rz = z.reverse();
    assert_eq!(rz.debug_string(), "<reverse <static [Z]>>");
    assert_eq!(rz.reverse().debug_string(), "<static [Z]>");
    assert_eq!(LazySet::Empty.reverse().debug_string(), "<empty>");
}

fn with_ancestors(map: &Arc<IdMap>, dag: u64, list: &[u64]) -> LazySet {
    let spans: Vec<IdSpan> = list.iter().map(|&i| IdSpan { low: i, high: i }).collect();
    let mut s = IdStaticSet::from_spans_idmap_dag(IdSet::from_spans(&spans), map.clone(), DagHandle { id: dag });
    let mut f = dag::hints::Flags::none();
    f.ancestors = true;
    s.add_hint_flags(f);
    LazySet::IdStatic(s)
}

#[test]
fn ancestors_flag_needs_one_graph() {
    let m1 = graph_map(1);
    let m2 = graph_map(2);
    // Same graph, maps that cannot be compared: the node keeps the flag.
    let same = with_ancestors(&m1, 9, &[0, 1]).intersection(with_ancestors(&m2, 9, &[0, 1, 2]));
    assert!(same.flags().ancestors);
    assert!(same.flags().id_desc);
    assert_eq!(same.dag().map(|d| d.id), Some(9));
    let u = with_ancestors(&m1, 9, &[0, 1]).union(with_ancestors(&m2, 9, &[0, 1, 2]));
    assert!(u.flags().ancestors);
    assert!(!u.flags().id_desc);
    // Different graphs: the flag is dropped.
    let other = with_ancestors(&m1, 1, &[0, 1]).intersection(with_ancestors(&m2, 2, &[0, 1, 2]));
    assert!(!other.flags().ancestors);
    assert_eq!(other.dag(), None);
    // A difference is not ancestor-closed; a reversal is, and swaps the order.
    let d = with_ancestors(&m1, 9, &[0, 1]).difference(with_ancestors(&m2, 9, &[0]));
    assert!(!d.flags().ancestors);
    let r = LazySet::Static(vec![v("Z")]).union(with_ancestors(&m1, 9, &[0])).reverse();
    assert!(!r.flags().ancestors);
    let r2 = same.reverse();
    assert!(r2.flags().ancestors && r2.flags().id_asc && !r2.flags().id_desc);
    assert!(LazySet::Empty.flags().empty);
}

fn leaf(map: &Arc<IdMap>, list: &[u64]) -> IdStaticSet {
    let spans: Vec<IdSpan> = list.iter().map(|&i| IdSpan { low: i, high: i }).collect();
    IdStaticSet::from_spans_idmap_dag(IdSet::from_spans(&spans), map.clone(), DagHandle { id: 1 })
}

#[test]
fn test_dag_fast_path_set_ops() {
    let dag = graph_map(1);
    // ancestors(D), iterated in ascending order.
    let abcd = || LazySet::IdStatic(leaf(&dag, &[0, 1, 2, 3])).reverse();
    let unordered = || {
        let s = leaf(&dag, &[0, 1, 2, 3]).reversed();
        LazySet::IdStatic(s.specialized_take(2)).union_zip(LazySet::IdStatic(s.specialized_skip(3)))
    };
    assert_eq!(abcd().debug_string(), "<spans [A:D+0:3] +>");

    // Intersection and difference can flatten the "unordered" set because rhs order does
    // not matter.
    assert_eq!(abcd().intersection(unordered()).debug_string(), "<spans [D+3, A:B+0:1] +>");
    assert_eq!(abcd().difference(unordered()).debug_string(), "<spans [C+2] +>");

    // but lhs order matters (no fast path if lhs order is to be preserved).
    assert_eq!(
        unordered().intersection(abcd()).debug_string(),
        "<and <or <spans [A:B+0:1] +> <spans [D+3] +> (order=Zip)> <spans [A:D+0:3] +>>"
    );
    assert_eq!(
        unordered().difference(abcd()).debug_string(),
        "<diff <or <spans [A:B+0:1] +> <spans [D+3] +> (order=Zip)> <spans [A:D+0:3] +>>"
    );

    // Union drops order (by flattening) aggresively on both sides.
    assert_eq!(abcd().union(unordered()).debug_string(), "<spans [A:D+0:3] +>");

    // Union (preserving order) cannot flatten sets for fast paths.
    assert_eq!(
        abcd().union_preserving_order(unordered()).debug_string(),
        "<or <spans [A:D+0:3] +> <or <spans [A:B+0:1] +> <spans [D+3] +> (order=Zip)>>"
    );
}

#[test]
fn nested_expression_flattens_to_one_set() {
    let dag = graph_map(1);
    let one = |i: u64| LazySet::IdStatic(leaf(&dag, &[i]));
    let acb = || one(0).union_preserving_order(one(1).union_preserving_order(one(2)).reverse());
    let bcd = || one(1).union_preserving_order(one(2)).union_preserving_order(one(3));
    let diff = || acb().difference(bcd());
    let intersect = || acb().intersection(bcd());
    let union1 = diff().union_preserving_order(intersect());
    let reversed1 = union1.reverse();
    let union2 = reversed1.union_zip(diff());
    let reversed2 = union2.reverse();
    let acb_text = "<or <spans [A+0]> <reverse <or <spans [B+1]> <spans [C+2]>>>>";
    let bcd_text = "<or <or <spans [B+1]> <spans [C+2]>> <spans [D+3]>>";
    let diff_text = format!("<diff {} {}>", acb_text, bcd_text);
    let and_text = format!("<and {} {}>", acb_text, bcd_text);
    assert_eq!(
        reversed2.debug_string(),
        format!(
            "<reverse <or <reverse <or {} {}>> {} (order=Zip)>>",
            diff_text, and_text, diff_text
        )
    );
    let flattened = reversed2.flatten_id().unwrap();
    assert_eq!(flattened.debug_string(), "<spans [A:C+0:2]>");
    assert_eq!(diff().flatten_id().unwrap().debug_string(), "<spans [A+0]>");
    assert_eq!(intersect().flatten_id().unwrap().debug_string(), "<spans [B:C+1:2]>");
}

#[test]
fn flatten_needs_id_backed_leaves_and_comparable_maps() {
    let m1 = graph_map(1);
    let m2 = graph_map(2);
    assert!(LazySet::Static(vec![v("A")]).flatten_id().is_none());
    assert!(LazySet::Empty.flatten_id().is_none());
    let mixed = LazySet::IdStatic(leaf(&m1, &[0])).union_zip(LazySet::IdStatic(leaf(&m2, &[1])));
    assert!(mixed.flatten_id().is_none());
    let zipped = LazySet::IdStatic(leaf(&m1, &[0])).union_zip(LazySet::IdStatic(leaf(&m1, &[3])));
    assert_eq!(zipped.flatten_id().unwrap().debug_string(), "<spans [D+3, A+0]>");
}

fn fmt_iter(s: &LazySet) -> String {
    let names: Vec<String> = s
        .local_vertices()
        .unwrap()
        .iter()
        .map(|x| String::from_utf8(x.as_bytes().clone()).unwrap())
        .collect();
    format!("[{}]", names.join(", "))
}

/// Iteration of the set, and of its flattened form when there is one.
fn dbg_flat(s: &LazySet) -> String {
    let flat = match s.flatten_id() {
        Some(f) => format!(" flat:{}", fmt_iter(&LazySet::IdStatic(f))),
        None => String::new(),
    };
    format!("{}{}", fmt_iter(s), flat)
}

#[test]
fn generic_evaluation_matches_flattened_sets() {
    let dag = graph_map(1);
    let one = |i: u64| LazySet::IdStatic(leaf(&dag, &[i]));
    let acb = || one(0).union_preserving_order(one(1).union_preserving_order(one(2)).reverse());
    let bcd = || one(1).union_preserving_order(one(2)).union_preserving_order(one(3));
    let diff = || acb().difference(bcd());
    let intersect = || acb().intersection(bcd());
    let union1 = || diff().union_preserving_order(intersect());
    let reversed1 = || union1().reverse();
    let union2 = || reversed1().union_zip(diff());
    let reversed2 = || union2().reverse();
    assert_eq!(dbg_flat(&diff()), "[A] flat:[A]");
    assert_eq!(dbg_flat(&intersect()), "[C, B] flat:[C, B]");
    assert_eq!(dbg_flat(&union1()), "[A, C, B] flat:[C, B, A]");
    assert_eq!(dbg_flat(&reversed1()), "[B, C, A] flat:[A, B, C]");
    assert_eq!(dbg_flat(&union2()), "[B, C, A] flat:[A, B, C]");
    assert_eq!(dbg_flat(&reversed2()), "[A, C, B] flat:[C, B, A]");
}

#[test]
fn generic_evaluation_of_slices() {
    let dag = graph_map(1);
    let abcd = || LazySet::IdStatic(leaf(&dag, &[0, 1, 2, 3]).reversed());
    let abefg = || LazySet::IdStatic(leaf(&dag, &[0, 1, 4, 5, 6]).reversed());
    let slice12 = |s: LazySet| s.skip(1).take(2);
    let d = || abcd().difference(abefg());
    let i = || abcd().intersection(abefg());
    let u = || abcd().union_preserving_order(abefg());
    assert_eq!(dbg_flat(&d()), "[C, D] flat:[C, D]");
    assert_eq!(dbg_flat(&i()), "[A, B] flat:[A, B]");
    assert_eq!(dbg_flat(&u()), "[A, B, C, D, E, F, G] flat:[A, B, C, D, E, F, G]");
    assert_eq!(fmt_iter(&slice12(d())), "[D]");
    assert_eq!(fmt_iter(&slice12(i())), "[B]");
    let us = slice12(u());
    assert_eq!(dbg_flat(&us), "[B, C]");
    assert_eq!(
        us.debug_string(),
        "<slice <slice <or <spans [A:D+0:3] +> <spans [E:G+4:6, A:B+0:1] +>> skip=1> skip=0 take=2>"
    );
    let unordered = abcd().skip(1).take(2).union_zip(abefg().take(2));
    assert!(!unordered.flags().id_asc && !unordered.flags().id_desc);
    assert_eq!(dbg_flat(&unordered), "[B, A, C] flat:[A, B, C]");
    assert_eq!(fmt_iter(&abcd().union_zip(LazySet::Static(vec![v("Z")])).reverse()), "[D, C, B, Z, A]");
}

#[test]
fn generic_evaluation_needs_local_names() {
    let mut partial = IdMap::new(MapVersion { lineage: 3, generation: 1 });
    assert!(partial.insert(0, v("A")));
    let partial = Arc::new(partial);
    let s = LazySet::IdStatic(leaf(&partial, &[0, 1]));
    assert!(s.local_vertices().is_none());
    let known = LazySet::IdStatic(leaf(&partial, &[0]));
    assert_eq!(fmt_iter(&known.difference(LazySet::Static(vec![v("B")]))), "[A]");
    assert_eq!(fmt_iter(&LazySet::Empty), "[]");
}

#[test]
fn full_set_moves_to_the_right_of_an_intersection() {
    let dag = graph_map(2);
    let all = || {
        let mut s = leaf(&dag, &[0, 1, 2, 3, 4, 5, 6]);
        let mut f = dag::hints::Flags::none();
        f.full = true;
        s.add_hint_flags(f);
        LazySet::IdStatic(s)
    };
    let z = || LazySet::Static(vec![v("Z")]);
    assert_eq!(all().intersection(z()).debug_string(), "<and <static [Z]> <spans [A:G+0:6]>>");
    assert_eq!(z().intersection(all()).debug_string(), "<and <static [Z]> <spans [A:G+0:6]>>");
    assert_eq!(all().union(z()).debug_string(), "<or <spans [A:G+0:6]> <static [Z]>>");
    assert_eq!(all().difference(z()).debug_string(), "<diff <spans [A:G+0:6]> <static [Z]>>");
}
