use vstd::prelude::*;

use std::cmp::Ordering;

use crate::vertex::Vertex;

verus! {

/// How complete a vertex/id map is. Versions of one lineage extend each other and are
/// ordered by generation; versions of different lineages are incomparable.
#[derive(Clone, Copy, Debug, PartialEq, Eq, Structural)]
pub struct MapVersion {
    pub lineage: u64,
    pub generation: u64,
}

pub open spec fn version_cmp(a: MapVersion, b: MapVersion) -> Option<Ordering> {
    if a.lineage != b.lineage {
        None
    } else if a.generation < b.generation {
        Some(Ordering::Less)
    } else if a.generation == b.generation {
        Some(Ordering::Equal)
    } else {
        Some(Ordering::Greater)
    }
}

impl MapVersion {
    /// Compares two versions; `None` when neither extends the other.
    pub fn compare(&self, other: &MapVersion) -> (r: Option<Ordering>)
        ensures
            r == version_cmp(*self, *other),
    {
        if self.lineage != other.lineage {
            None
        } else if self.generation < other.generation {
            Some(Ordering::Less)
        } else if self.generation == other.generation {
            Some(Ordering::Equal)
        } else {
            Some(Ordering::Greater)
        }
    }
}

/// Identity of the graph snapshot that a set was computed on.
#[derive(Clone, Copy, Debug, PartialEq, Eq, Structural)]
pub struct DagHandle {
    pub id: u64,
}

/// The locally known part of a vertex/id mapping, with its version. Each id names one
/// vertex and each vertex has one id. Ids that are not known here are resolved by the
/// host, in batches.
#[derive(Clone, Debug)]
pub struct IdMap {
    entries: Vec<(u64, Vertex)>,
    version: MapVersion,
}

impl View for IdMap {
    type V = Map<u64, Seq<u8>>;

    open spec fn view(&self) -> Map<u64, Seq<u8>> {
        Map::new(|id: u64| self.has_id(id), |id: u64| self.name_of(id))
    }
}

impl IdMap {
    pub closed spec fn entry_seq(&self) -> Seq<(u64, Vertex)> {
        self.entries@
    }

    pub closed spec fn has_id(&self, id: u64) -> bool {
        exists|i: int| 0 <= i < self.entries@.len() && #[trigger] self.entries@[i].0 == id
    }

    pub closed spec fn name_of(&self, id: u64) -> Seq<u8> {
        let i = choose|i: int| 0 <= i < self.entries@.len() && #[trigger] self.entries@[i].0 == id;
        self.entries@[i].1@
    }

    pub closed spec fn wf(&self) -> bool {
        forall|i: int, j: int|
            0 <= i < j < self.entries@.len() ==> self.entries@[i].0 != self.entries@[j].0
                && self.entries@[i].1@ != self.entries@[j].1@
    }

    pub closed spec fn spec_version(&self) -> MapVersion {
        self.version
    }

    /// Whether some id names `name`.
    pub open spec fn has_name(&self, name: Seq<u8>) -> bool {
        exists|id: u64| #[trigger] self@.contains_key(id) && self@[id] == name
    }

    pub fn new(version: MapVersion) -> (r: IdMap)
        ensures
            r.wf(),
            r@ == Map::<u64, Seq<u8>>::empty(),
            r.spec_version() == version,
    {
        let r = IdMap { entries: Vec::new(), version };
        proof {
            assert(r@ =~= Map::<u64, Seq<u8>>::empty());
        }
        r
    }

    pub fn version(&self) -> (r: MapVersion)
        ensures
            r == self.spec_version(),
    {
        self.version
    }

    proof fn lemma_lookup(&self, i: int)
        requires
            self.wf(),
            0 <= i < self.entries@.len(),
        ensures
            self@.contains_key(self.entries@[i].0),
            self@[self.entries@[i].0] == self.entries@[i].1@,
    {
        let id = self.entries@[i].0;
        assert(self.has_id(id));
        let k = choose|k: int| 0 <= k < self.entries@.len() && #[trigger] self.entries@[k].0 == id;
        assert(k == i);
    }

    /// Two ids never name the same vertex.
    pub proof fn lemma_name_unique(&self, a: u64, b: u64)
        requires
            self.wf(),
            self@.contains_key(a),
            self@.contains_key(b),
            self@[a] == self@[b],
        ensures
            a == b,
    {
        let i = choose|i: int| 0 <= i < self.entries@.len() && #[trigger] self.entries@[i].0 == a;
        let j = choose|j: int| 0 <= j < self.entries@.len() && #[trigger] self.entries@[j].0 == b;
        self.lemma_lookup(i);
        self.lemma_lookup(j);
    }

    /// Adds `name` under `id`, unless the id or the name is already known.
    pub fn insert(&mut self, id: u64, name: Vertex) -> (r: bool)
        requires
            old(self).wf(),
        ensures
            final(self).wf(),
            final(self).spec_version() == old(self).spec_version(),
            r == (!old(self)@.contains_key(id) && !old(self).has_name(name@)),
            r ==> final(self)@ == old(self)@.insert(id, name@),
            !r ==> final(self)@ == old(self)@,
    {
        proof {
            assert forall|i: int| 0 <= i < self.entries@.len() implies self@.contains_key(
                #[trigger] self.entries@[i].0,
            ) && self@[self.entries@[i].0] == self.entries@[i].1@ by {
                self.lemma_lookup(i);
            }
        }
        let mut i: usize = 0;
        while i < self.entries.len()
            invariant
                0 <= i <= self.entries.len(),
                self.wf(),
                *self == *old(self),
                forall|k: int| 0 <= k < i ==> self.entries@[k].0 != id && self.entries@[k].1@ != name@,
            decreases self.entries.len() - i,
        {
            if self.entries[i].0 == id || self.entries[i].1.same_as(&name) {
                proof {
                    let e = self.entries@[i as int];
                    self.lemma_lookup(i as int);
                    if e.0 != id {
                        assert(self@.contains_key(e.0) && self@[e.0] == name@);
                    }
                }
                return false;
            }
            i = i + 1;
        }
        let ghost before = *self;
        proof {
            assert(!before@.contains_key(id));
            assert(!before.has_name(name@)) by {
                if before.has_name(name@) {
                    let x = choose|x: u64| #[trigger] before@.contains_key(x) && before@[x] == name@;
                    let k = choose|k: int| 0 <= k < before.entries@.len() && #[trigger] before.entries@[k].0 == x;
                    before.lemma_lookup(k);
                }
            }
        }
        self.entries.push((id, name));
        proof {
            assert forall|a: int, b: int| 0 <= a < b < self.entries@.len() implies self.entries@[a].0
                != self.entries@[b].0 && self.entries@[a].1@ != self.entries@[b].1@ by {
                if b < self.entries@.len() - 1 {
                    assert(before.entries@[a] == self.entries@[a]);
                    assert(before.entries@[b] == self.entries@[b]);
                }
            }
            assert forall|x: u64| #[trigger] self@.contains_key(x) <==> before@.insert(id, name@).contains_key(x) by {
                if before.has_id(x) {
                    let k = choose|k: int| 0 <= k < before.entries@.len() && #[trigger] before.entries@[k].0 == x;
                    assert(self.entries@[k].0 == x);
                }
                if x == id {
                    assert(self.entries@[self.entries@.len() - 1].0 == id);
                }
                if self.has_id(x) && x != id {
                    let k = choose|k: int| 0 <= k < self.entries@.len() && #[trigger] self.entries@[k].0 == x;
                    assert(before.entries@[k].0 == x);
                }
            }
            assert forall|x: u64| #[trigger] self@.contains_key(x) implies self@[x] == before@.insert(id, name@)[x] by {
                let k = choose|k: int| 0 <= k < self.entries@.len() && #[trigger] self.entries@[k].0 == x;
                self.lemma_lookup(k);
                if x != id {
                    before.lemma_lookup(k);
                }
            }
            assert(self@ =~= before@.insert(id, name@));
        }
        true
    }

    /// The locally known name of `id`.
    pub fn vertex_name_local(&self, id: u64) -> (r: Option<&Vertex>)
        requires
            self.wf(),
        ensures
            r is Some <==> self@.contains_key(id),
            r is Some ==> r->0@ == self@[id],
    {
        let mut i: usize = 0;
        while i < self.entries.len()
            invariant
                0 <= i <= self.entries.len(),
                self.wf(),
                forall|k: int| 0 <= k < i ==> self.entries@[k].0 != id,
            decreases self.entries.len() - i,
        {
            if self.entries[i].0 == id {
                proof {
                    self.lemma_lookup(i as int);
                }
                return Some(&self.entries[i].1);
            }
            i = i + 1;
        }
        None
    }

    /// Whether `id` is known locally.
    pub fn contains_id_locally(&self, id: u64) -> (r: bool)
        requires
            self.wf(),
        ensures
            r == self@.contains_key(id),
    {
        self.vertex_name_local(id).is_some()
    }

    /// The locally known id of `name`.
    pub fn vertex_id_local(&self, name: &Vertex) -> (r: Option<u64>)
        requires
            self.wf(),
        ensures
            r is Some <==> self.has_name(name@),
            r is Some ==> self@.contains_key(r->0) && self@[r->0] == name@,
    {
        let mut i: usize = 0;
        while i < self.entries.len()
            invariant
                0 <= i <= self.entries.len(),
                self.wf(),
                forall|k: int| 0 <= k < i ==> self.entries@[k].1@ != name@,
            decreases self.entries.len() - i,
        {
            if self.entries[i].1.same_as(name) {
                proof {
                    self.lemma_lookup(i as int);
                }
                return Some(self.entries[i].0);
            }
            i = i + 1;
        }
        proof {
            if self.has_name(name@) {
                let x = choose|x: u64| #[trigger] self@.contains_key(x) && self@[x] == name@;
                let k = choose|k: int| 0 <= k < self.entries@.len() && #[trigger] self.entries@[k].0 == x;
                self.lemma_lookup(k);
            }
        }
        None
    }
}

} // verus!
