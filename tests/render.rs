use std::sync::Arc;

use dag::id::NON_MASTER_MIN_ID;
use dag::id_set::IdSet;
use dag::id_static::IdStaticSet;
use dag::map::{DagHandle, IdMap, MapVersion};
use dag::span::IdSpan;
use dag::vertex::Vertex;

fn v(s: &str) -> Vertex {
    Vertex::new(s.as_bytes().to_vec())
}

fn set_of(map: &Arc<IdMap>, spans: &[(u64, u64)]) -> IdStaticSet {
    let v: Vec<IdSpan> = spans.iter().map(|&(l, h)| IdSpan { low: l, high: h }).collect();
    IdStaticSet::from_spans_idmap_dag(IdSet::from_spans(&v), map.clone(), DagHandle { id: 1 })
}

/// A-B-C-D-E-F with branches C->G-H-I and G->J-K-L, numbered with reserved head space
/// after each branch: A..F are 0..=5, G..I are 106..=108, J..L are 159..=161.
fn branches_map() -> Arc<IdMap> {
    let mut map = IdMap::new(MapVersion { lineage: 7, generation: 1 });
    let layout: [(&str, u64); 12] = [
        ("A", 0), ("B", 1), ("C", 2), ("D", 3), ("E", 4), ("F", 5),
        ("G", 106), ("H", 107), ("I", 108),
        ("J", 159), ("K", 160), ("L", 161),
    ];
    for (name, id) in layout {
        assert!(map.insert(id, v(name)));
    }
    Arc::new(map)
}

#[test]
fn discontinuous_spans_render_per_branch() {
    let map = branches_map();
    // ancestors(I)
    assert_eq!(
        set_of(&map, &[(0, 2), (106, 108)]).debug_string(),
        "<spans [G:I+106:108, A:C+0:2]>"
    );
    // descendants(B)
    assert_eq!(
        set_of(&map, &[(1, 5), (106, 108), (159, 161)]).debug_string(),
        "<spans [J:L+159:161, G:I+106:108, B:F+1:5]>"
    );
    // range(C, K)
    assert_eq!(
        set_of(&map, &[(2, 2), (106, 106), (159, 160)]).debug_string(),
        "<spans [J:K+159:160, G+106, C+2]>"
    );
    // parents(G), children(C)
    assert_eq!(set_of(&map, &[(2, 2)]).debug_string(), "<spans [C+2]>");
    assert_eq!(set_of(&map, &[(3, 3), (106, 106)]).debug_string(), "<spans [G+106, D+3]>");
    // parents(all), range(all, all)
    assert_eq!(
        set_of(&map, &[(0, 4), (106, 107), (159, 160)]).debug_string(),
        "<spans [J:K+159:160, G:H+106:107, A:E+0:4]>"
    );
    assert_eq!(
        set_of(&map, &[(0, 5), (106, 108), (159, 161)]).debug_string(),
        "<spans [J:L+159:161, G:I+106:108, A:F+0:5]>"
    );
}

#[test]
fn unknown_names_are_left_out() {
    let map = branches_map();
    assert_eq!(set_of(&map, &[(6, 9)]).debug_string(), "<spans [6:9]>");
    assert_eq!(set_of(&map, &[(50, 50)]).debug_string(), "<spans [50]>");
    // Only one end known: no names.
    assert_eq!(set_of(&map, &[(5, 6)]).debug_string(), "<spans [5:6]>");
}

#[test]
fn non_master_ids_and_span_counts() {
    let map = branches_map();
    let n = NON_MASTER_MIN_ID;
    let s = set_of(&map, &[(n, n + 2), (n + 10, n + 10), (0, 0), (2, 2), (4, 4)]);
    assert_eq!(s.debug_string(), "<spans [N10, N0:N2, E+4] + 2 spans>");
    assert_eq!(s.debug_string_with_limit(1), "<spans [N10] + 4 spans>");
    assert_eq!(s.debug_string_with_limit(10), "<spans [N10, N0:N2, E+4, C+2, A+0]>");
    assert_eq!(s.reversed().debug_string_with_limit(0), "<spans [] + 5 spans +>");
}

#[test]
fn long_or_binary_names_are_hex() {
    let mut map = IdMap::new(MapVersion { lineage: 1, generation: 1 });
    assert!(map.insert(0, Vertex::new(vec![0xab; 20])));
    assert!(map.insert(1, Vertex::new(vec![0x01, 0xff])));
    assert!(!map.insert(2, Vertex::new(vec![0x01, 0xff])));
    assert!(!map.insert(1, Vertex::new(vec![0x02])));
    let map = Arc::new(map);
    assert_eq!(
        set_of(&map, &[(0, 0)]).debug_string(),
        format!("<spans [{}+0]>", "ab".repeat(20))
    );
    assert_eq!(set_of(&map, &[(1, 1)]).debug_string(), "<spans [01ff+1]>");
}
