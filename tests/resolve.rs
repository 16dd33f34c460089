use std::sync::Arc;

use dag::id_set::IdSet;
use dag::id_static::IdStaticSet;
use dag::map::{DagHandle, IdMap, MapVersion};
use dag::resolve::{DagError, Step};
use dag::span::IdSpan;
use dag::vertex::Vertex;

fn v(s: &str) -> Vertex {
    Vertex::new(s.as_bytes().to_vec())
}

fn name(x: &Vertex) -> String {
    String::from_utf8(x.as_bytes().clone()).unwrap()
}

const NAMES: [&str; 7] = ["A", "B", "C", "D", "E", "F", "G"];

/// A map that knows only the given ids of 0..=6 (named A..G).
fn partial_map(known: &[u64]) -> Arc<IdMap> {
    let mut map = IdMap::new(MapVersion { lineage: 1, generation: 1 });
    for &i in known {
        assert!(map.insert(i, v(NAMES[i as usize])));
    }
    Arc::new(map)
}

fn all_ids(map: &Arc<IdMap>) -> IdStaticSet {
    let set = IdSet::from_span(IdSpan { low: 0, high: 6 });
    IdStaticSet::from_spans_idmap_dag(set, map.clone(), DagHandle { id: 1 })
}

#[test]
fn one_batch_for_an_unknown_run() {
    // Walk order 6,5,4,3,2,1,0: the first two are known, the next three are not.
    let map = partial_map(&[6, 5, 1, 0]);
    let set = all_ids(&map);
    let mut it = set.iter(4);
    let mut out = Vec::new();
    let mut requests = Vec::new();
    loop {
        match it.next_step() {
            Step::Vertex(x) => out.push(name(&x)),
            Step::Done => break,
            Step::ResolveBatch(ids) => {
                requests.push(ids.clone());
                let names: Vec<Vertex> = ids.iter().map(|&i| v(NAMES[i as usize])).collect();
                out.push(name(&it.feed_batch(Ok(names)).unwrap()));
            }
        }
    }
    assert_eq!(requests, vec![vec![1, 2, 3, 4]]);
    assert_eq!(out, vec!["G", "F", "E", "D", "C", "B", "A"]);
}

#[test]
fn batches_are_cut_at_the_batch_size() {
    let map = partial_map(&[]);
    let set = all_ids(&map).reversed();
    let mut it = set.iter(3);
    let mut out = Vec::new();
    let mut requests = Vec::new();
    loop {
        match it.next_step() {
            Step::Vertex(x) => out.push(name(&x)),
            Step::Done => break,
            Step::ResolveBatch(ids) => {
                requests.push(ids.clone());
                let names: Vec<Vertex> = ids.iter().map(|&i| v(NAMES[i as usize])).collect();
                out.push(name(&it.feed_batch(Ok(names)).unwrap()));
            }
        }
    }
    assert_eq!(requests, vec![vec![2, 1, 0], vec![5, 4, 3], vec![6]]);
    assert_eq!(out, vec!["A", "B", "C", "D", "E", "F", "G"]);
}

#[test]
fn iter_rev_walks_against_the_order() {
    let map = partial_map(&[0, 1, 2, 3, 4, 5, 6]);
    let set = all_ids(&map);
    let mut it = set.iter_rev(2);
    let mut out = Vec::new();
    while let Step::Vertex(x) = it.next_step() {
        out.push(name(&x));
    }
    assert_eq!(out, vec!["A", "B", "C", "D", "E", "F", "G"]);
}

#[test]
fn backend_error_ends_the_walk() {
    let map = partial_map(&[6]);
    let set = all_ids(&map);
    let mut it = set.iter(2);
    assert!(matches!(it.next_step(), Step::Vertex(_)));
    match it.next_step() {
        Step::ResolveBatch(ids) => assert_eq!(ids, vec![4, 5]),
        _ => panic!("expected a batch"),
    }
    match it.feed_batch(Err(DagError::Backend("offline".to_string()))) {
        Err(DagError::Backend(m)) => assert_eq!(m, "offline"),
        _ => panic!("expected the backend error"),
    }
    assert!(matches!(it.next_step(), Step::Done));
}

#[test]
fn short_batch_answer_is_a_bug() {
    let map = partial_map(&[]);
    let set = all_ids(&map);
    let mut it = set.iter(3);
    match it.next_step() {
        Step::ResolveBatch(ids) => assert_eq!(ids, vec![4, 5, 6]),
        _ => panic!("expected a batch"),
    }
    match it.feed_batch(Ok(vec![v("G")])) {
        Err(DagError::Bug(m)) => assert_eq!(m, "vertex_name_batch does not return enough items"),
        _ => panic!("expected a bug error"),
    }
    assert!(matches!(it.next_step(), Step::Done));
}

#[test]
fn empty_set_is_done_at_once() {
    let map = partial_map(&[]);
    let set = IdStaticSet::from_spans_idmap_dag(IdSet::new(), map, DagHandle { id: 1 });
    let mut it = set.iter(5);
    assert!(matches!(it.next_step(), Step::Done));
}

#[test]
fn batch_lists_ids_in_reverse_walk_order() {
    // Walk 2, 1, 0; only 2 is known locally; batches of two.
    let map = partial_map(&[2]);
    let set = IdStaticSet::from_spans_idmap_dag(
        IdSet::from_span(IdSpan { low: 0, high: 2 }),
        map,
        DagHandle { id: 1 },
    );
    let mut it = set.iter(2);
    match it.next_step() {
        Step::Vertex(x) => assert_eq!(name(&x), "C"),
        _ => panic!("expected a local vertex"),
    }
    match it.next_step() {
        Step::ResolveBatch(ids) => assert_eq!(ids, vec![0, 1]),
        _ => panic!("expected a batch"),
    }
    // Names come back in the order of the request; the last one is handed out first.
    assert_eq!(name(&it.feed_batch(Ok(vec![v("A"), v("B")])).unwrap()), "B");
    match it.next_step() {
        Step::Vertex(x) => assert_eq!(name(&x), "A"),
        _ => panic!("expected the buffered vertex"),
    }
    assert!(matches!(it.next_step(), Step::Done));
}

#[test]
fn batch_size_zero_asks_for_one_id() {
    let map = partial_map(&[]);
    let set = all_ids(&map);
    let mut it = set.iter(0);
    match it.next_step() {
        Step::ResolveBatch(ids) => assert_eq!(ids, vec![6]),
        _ => panic!("expected a batch"),
    }
    assert_eq!(name(&it.feed_batch(Ok(vec![v("G")])).unwrap()), "G");
}
