use std::sync::Arc;

use dag::id_set::IdSet;
use dag::id_static::{EditOp, IdStaticSet};
use dag::map::{DagHandle, IdMap, MapVersion};
use dag::resolve::Step;
use dag::span::IdSpan;
use dag::vertex::Vertex;

// The graph used below, with its ids:
//
//   A--B--C--D        0--1--2--3
//       \--E--F--G        \--4--5--6

fn v(s: &str) -> Vertex {
    Vertex::new(s.as_bytes().to_vec())
}

fn graph_map(lineage: u64) -> Arc<IdMap> {
    let mut map = IdMap::new(MapVersion { lineage, generation: 1 });
    for (i, name) in ["A", "B", "C", "D", "E", "F", "G"].iter().enumerate() {
        assert!(map.insert(i as u64, v(name)));
    }
    Arc::new(map)
}

fn ids(list: &[u64]) -> IdSet {
    let spans: Vec<IdSpan> = list.iter().map(|&i| IdSpan { low: i, high: i }).collect();
    IdSet::from_spans(&spans)
}

fn set(map: &Arc<IdMap>, list: &[u64]) -> IdStaticSet {
    IdStaticSet::from_spans_idmap_dag(ids(list), map.clone(), DagHandle { id: map.version().lineage })
}

/// Names of the set in iteration order; every id is known locally.
fn names(s: &IdStaticSet) -> String {
    let mut it = s.iter(10);
    let mut out = Vec::new();
    loop {
        match it.next_step() {
            Step::Vertex(x) => out.push(String::from_utf8(x.as_bytes().clone()).unwrap()),
            Step::Done => break,
            Step::ResolveBatch(_) => panic!("all ids are known locally"),
        }
    }
    format!("[{}]", out.join(", "))
}

fn id_list(s: &IdStaticSet) -> Vec<u64> {
    let mut it = s.iter(1);
    let mut out = Vec::new();
    let map = s.map().clone();
    loop {
        match it.next_step() {
            Step::Vertex(x) => out.push(map.vertex_id_local(&x).unwrap()),
            Step::Done => break,
            Step::ResolveBatch(_) => panic!("all ids are known locally"),
        }
    }
    out
}

#[test]
fn test_dag_fast_paths() {
    let map = graph_map(1);
    let abcd = set(&map, &[0, 1, 2, 3]);
    let abefg = set(&map, &[0, 1, 4, 5, 6]);

    let ab = abcd.intersection(&abefg).unwrap();
    assert_eq!(abcd.contains_local(&v("A")), Some(true));
    assert_eq!(abcd.contains_local(&v("E")), Some(false));
    assert_eq!(ab.debug_string(), "<spans [A:B+0:1]>");

    let abcdefg = abcd.union(&abefg).unwrap();
    assert_eq!(abcdefg.debug_string(), "<spans [A:G+0:6]>");

    let cd = abcd.difference(&abefg).unwrap();
    assert_eq!(cd.debug_string(), "<spans [C:D+2:3]>");
}

#[test]
fn test_dag_all() {
    let map = graph_map(1);
    let all = set(&map, &[0, 1, 2, 3, 4, 5, 6]);
    assert_eq!(all.debug_string(), "<spans [A:G+0:6]>");
    let ac = set(&map, &[0, 2]);
    let intersection = all.intersection(&ac).unwrap();
    assert_eq!(intersection.debug_string(), "<spans [C+2, A+0]>");
}

#[test]
fn test_sort() {
    let map = graph_map(1);
    let sorted = set(&map, &[6, 2, 0, 4]);
    assert_eq!(sorted.debug_string(), "<spans [G+6, E+4, C+2] + 1 span>");
}

#[test]
fn test_reversed() {
    let map = graph_map(1);
    let desc = set(&map, &[0, 1, 2, 3, 4, 5, 6]);
    let asc = desc.reversed();
    assert!(asc.is_reversed());
    assert_eq!(asc.debug_string(), "<spans [A:G+0:6] +>");
    assert_eq!(names(&asc), "[A, B, C, D, E, F, G]");
}

#[test]
fn test_intersect_difference_preserve_reverse_order() {
    let map = graph_map(1);
    let cba = set(&map, &[0, 1, 2]);
    let dc = set(&map, &[2, 3]);
    let abc = cba.specialized_reverse();

    let ab = abc.difference(&dc).unwrap();
    assert_eq!(names(&ab), "[A, B]");

    let abc2 = abc.intersection(&cba).unwrap();
    assert_eq!(names(&abc2), "[A, B, C]");

    let cba2 = cba.intersection(&abc).unwrap();
    assert_eq!(names(&cba2), "[C, B, A]");
}

#[test]
fn test_skip_take_reverse() {
    let map = graph_map(1);
    let set = set(&map, &[0, 1, 2]);
    for s in [set.duplicate(), set.specialized_reverse()] {
        let all = id_list(&s);
        let rev: Vec<u64> = all.iter().rev().cloned().collect();
        assert_eq!(id_list(&s.specialized_reverse()), rev);
        for skip in 0..5u64 {
            for take in 0..5u64 {
                let expected: Vec<u64> =
                    all.iter().skip(skip as usize).take(take as usize).cloned().collect();
                assert_eq!(id_list(&s.duplicate().slice_spans(skip, take)), expected);
                let skipped: Vec<u64> = all.iter().skip(skip as usize).cloned().collect();
                assert_eq!(id_list(&s.specialized_skip(skip)), skipped);
                let taken: Vec<u64> = all.iter().take(take as usize).cloned().collect();
                assert_eq!(id_list(&s.specialized_take(take)), taken);
            }
        }
    }
}

#[test]
fn ascending_slice_translates_skip_and_take() {
    let map = graph_map(1);
    let desc = set(&map, &[0, 1, 2, 3, 4, 5, 6]);
    assert_eq!(id_list(&desc), vec![6, 5, 4, 3, 2, 1, 0]);
    let sliced = desc.reversed().slice_spans(1, 2);
    assert_eq!(id_list(&sliced), vec![1, 2]);
    assert_eq!(sliced.debug_string(), "<spans [B:C+1:2] +>");
}

#[test]
fn reversed_twice_is_unchanged() {
    let map = graph_map(1);
    let x = set(&map, &[0, 2, 3, 6]);
    let before = x.debug_string();
    let hints = *x.hints();
    let order = id_list(&x);
    let y = x.reversed().reversed();
    assert_eq!(y.debug_string(), before);
    assert_eq!(*y.hints(), hints);
    assert_eq!(id_list(&y), order);
    assert!(!y.is_reversed());
}

#[test]
fn reversing_swaps_order_hints() {
    let map = graph_map(1);
    let x = set(&map, &[1, 2]);
    assert!(x.hints().flags.id_desc && x.hints().flags.topo_desc && !x.hints().flags.id_asc);
    let y = x.reversed();
    assert!(!y.hints().flags.id_desc && !y.hints().flags.topo_desc && y.hints().flags.id_asc);
    assert_eq!(y.hints().min_id, Some(1));
    assert_eq!(y.hints().max_id, Some(2));
    assert!(y.id_set_try_preserving_order().is_some());
    assert_eq!(y.id_set_losing_order().count(), 2);
}

#[test]
fn empty_set_hints() {
    let map = graph_map(1);
    let e = set(&map, &[]);
    assert!(e.hints().flags.empty);
    assert!(e.is_empty());
    assert_eq!(e.first_id(), None);
    assert_eq!(e.last_id(), None);
    assert_eq!(e.hints().min_id, None);
    assert_eq!(e.debug_string(), "<spans []>");
}

#[test]
fn first_and_last_follow_iteration_order() {
    let map = graph_map(1);
    let x = set(&map, &[1, 3, 5]);
    assert_eq!(x.first_id(), Some(5));
    assert_eq!(x.last_id(), Some(1));
    assert_eq!(x.max_id(), Some(5));
    assert_eq!(x.min_id(), Some(1));
    let y = x.reversed();
    assert_eq!(y.first_id(), Some(1));
    assert_eq!(y.last_id(), Some(5));
    assert_eq!(y.count(), 3);
}

#[test]
fn contains_by_id_and_by_vertex() {
    let map = graph_map(1);
    let x = set(&map, &[1, 3]);
    assert!(x.contains_id(3));
    assert!(!x.contains_id(2));
    assert!(x.contains_resolved(Some(1)));
    assert!(!x.contains_resolved(None));
    assert_eq!(x.contains_local(&v("Z")), None);
    assert_eq!(x.contains_local(&v("D")), Some(true));
}

/// The generic evaluation: left items kept or dropped by membership in the right.
fn generic(op: EditOp, a: &[u64], b: &[u64]) -> Vec<u64> {
    match op {
        EditOp::Intersection => a.iter().filter(|x| b.contains(x)).cloned().collect(),
        EditOp::Difference => a.iter().filter(|x| !b.contains(x)).cloned().collect(),
        EditOp::Union => {
            let mut out = a.to_vec();
            out.extend(b.iter().filter(|x| !a.contains(x)));
            out
        }
    }
}

#[test]
fn fast_paths_agree_with_generic_evaluation() {
    let map = graph_map(1);
    let a = set(&map, &[0, 1, 2, 3]).reversed();
    let b = set(&map, &[0, 1, 4, 5, 6]);
    let (ia, ib) = (id_list(&a), id_list(&b));
    for op in [EditOp::Intersection, EditOp::Difference] {
        let fast = IdStaticSet::from_edit_spans(&a, &b, op).unwrap();
        assert_eq!(id_list(&fast), generic(op, &ia, &ib));
    }
    // For union the orders agree when the right set's new ids follow the left order.
    let b_asc = b.specialized_reverse();
    let union = IdStaticSet::from_edit_spans(&a, &b_asc, EditOp::Union).unwrap();
    assert_eq!(id_list(&union), generic(EditOp::Union, &ia, &id_list(&b_asc)));
    assert_eq!(union.debug_string(), "<spans [A:G+0:6] +>");
    // Otherwise only the ids agree.
    let union = IdStaticSet::from_edit_spans(&a, &b, EditOp::Union).unwrap();
    assert_eq!(id_list(&union), vec![0, 1, 2, 3, 4, 5, 6]);
    assert_eq!(generic(EditOp::Union, &ia, &ib), vec![0, 1, 2, 3, 6, 5, 4]);
}

#[test]
fn incompatible_maps_have_no_fast_path() {
    let map1 = graph_map(1);
    let map2 = graph_map(2);
    let abcd = set(&map1, &[0, 1, 2, 3]);
    let abefg = set(&map2, &[0, 1, 4, 5, 6]);
    assert!(abcd.intersection(&abefg).is_none());
    assert!(abcd.union(&abefg).is_none());
    assert!(abcd.difference(&abefg).is_none());
}

#[test]
fn newer_map_is_kept_and_left_wins_ties() {
    let old = graph_map(1);
    let mut newer = IdMap::new(MapVersion { lineage: 1, generation: 2 });
    for (i, name) in ["A", "B", "C", "D", "E", "F", "G", "H"].iter().enumerate() {
        assert!(newer.insert(i as u64, v(name)));
    }
    let newer = Arc::new(newer);
    let a = set(&old, &[0, 1]);
    let b = set(&newer, &[7]);
    let u = a.union(&b).unwrap();
    assert_eq!(u.map().version().generation, 2);
    assert_eq!(u.debug_string(), "<spans [H+7, A:B+0:1]>");
    let u2 = b.union(&a).unwrap();
    assert_eq!(u2.map().version().generation, 2);
    let same = set(&old, &[5]);
    let t = IdStaticSet::from_edit_spans(&a, &same, EditOp::Union).unwrap();
    assert_eq!(t.dag(), a.dag());
    assert!(std::ptr::eq(t.map().as_ref(), a.map().as_ref()));
}

#[test]
fn fast_path_set_ops_keep_left_order() {
    let map = graph_map(1);
    let abcd = set(&map, &[0, 1, 2, 3]).reversed();
    let unordered = abcd
        .specialized_take(2)
        .union(&abcd.specialized_skip(3))
        .unwrap();
    assert_eq!(
        abcd.intersection(&unordered).unwrap().debug_string(),
        "<spans [D+3, A:B+0:1] +>"
    );
    assert_eq!(abcd.difference(&unordered).unwrap().debug_string(), "<spans [C+2] +>");
    assert_eq!(abcd.union(&unordered).unwrap().debug_string(), "<spans [A:D+0:3] +>");
}

#[test]
fn size_hint_is_exact() {
    let map = graph_map(1);
    // range(B, F): B, E, F
    let bef = set(&map, &[1, 4, 5]);
    assert_eq!(bef.size_hint(), (3, Some(3)));
    assert_eq!(bef.count(), 3);
}

fn ancestors_flag() -> dag::hints::Flags {
    let mut f = dag::hints::Flags::none();
    f.ancestors = true;
    f
}

#[test]
fn edit_result_has_fresh_hints() {
    let map = graph_map(1);
    let mut a = set(&map, &[0, 1, 2, 3]).reversed();
    a.add_hint_flags(ancestors_flag());
    let b = set(&map, &[2, 3]);
    let r = a.difference(&b).unwrap();
    let h = r.hints();
    assert!(!h.flags.ancestors && !h.flags.full && !h.flags.empty);
    assert!(h.flags.id_asc && !h.flags.id_desc && !h.flags.topo_desc);
    assert_eq!((h.min_id, h.max_id), (Some(0), Some(1)));
    let e = a.difference(&a).unwrap();
    assert!(e.hints().flags.empty);
    assert_eq!((e.hints().min_id, e.hints().max_id), (None, None));
}

#[test]
fn slicing_keeps_hints() {
    let map = graph_map(1);
    let mut abcd = set(&map, &[0, 1, 2, 3]);
    abcd.add_hint_flags(ancestors_flag());
    let hints = *abcd.hints();
    let part = abcd.duplicate().slice_spans(1, u64::MAX);
    assert_eq!(id_list(&part), vec![2, 1, 0]);
    assert_eq!(*part.hints(), hints);
    let one = abcd.duplicate().slice_spans(0, 1);
    assert_eq!(id_list(&one), vec![3]);
    assert_eq!(*one.hints(), hints);
    let rev = abcd.reversed();
    let rev_hints = *rev.hints();
    assert!(rev_hints.flags.ancestors);
    assert_eq!(*rev.slice_spans(1, 10).hints(), rev_hints);
}
