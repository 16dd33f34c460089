use vstd::prelude::*;

use crate::map::{DagHandle, MapVersion};

verus! {

/// Known properties of a set. A flag that is not set means "not known", never "false".
#[derive(Clone, Copy, Debug, PartialEq, Eq, Structural)]
pub struct Flags {
    /// Iteration goes from larger ids to smaller ids.
    pub id_desc: bool,
    /// Iteration goes from smaller ids to larger ids.
    pub id_asc: bool,
    /// Iteration is in reverse topological order (heads first).
    pub topo_desc: bool,
    /// The set holds all ancestors of its members.
    pub ancestors: bool,
    /// The set is empty.
    pub empty: bool,
    /// The set holds every vertex of its graph.
    pub full: bool,
}

impl Flags {
    /// No flag set.
    pub fn none() -> (r: Flags)
        ensures
            r == flags_none(),
    {
        Flags { id_desc: false, id_asc: false, topo_desc: false, ancestors: false, empty: false, full: false }
    }

    /// The flags set in either.
    pub fn union(self, other: Flags) -> (r: Flags)
        ensures
            r == flags_union(self, other),
    {
        Flags {
            id_desc: self.id_desc || other.id_desc,
            id_asc: self.id_asc || other.id_asc,
            topo_desc: self.topo_desc || other.topo_desc,
            ancestors: self.ancestors || other.ancestors,
            empty: self.empty || other.empty,
            full: self.full || other.full,
        }
    }

    /// The flags of `self` that `other` does not set.
    pub fn without(self, other: Flags) -> (r: Flags)
        ensures
            r == flags_without(self, other),
    {
        Flags {
            id_desc: self.id_desc && !other.id_desc,
            id_asc: self.id_asc && !other.id_asc,
            topo_desc: self.topo_desc && !other.topo_desc,
            ancestors: self.ancestors && !other.ancestors,
            empty: self.empty && !other.empty,
            full: self.full && !other.full,
        }
    }

    /// Whether every flag of `other` is set in `self`.
    pub fn contains(self, other: Flags) -> (r: bool)
        ensures
            r == flags_contain(self, other),
    {
        (self.id_desc || !other.id_desc) && (self.id_asc || !other.id_asc) && (self.topo_desc
            || !other.topo_desc) && (self.ancestors || !other.ancestors) && (self.empty
            || !other.empty) && (self.full || !other.full)
    }

    /// Whether some flag of `other` is set in `self`.
    pub fn intersects(self, other: Flags) -> (r: bool)
        ensures
            r == flags_intersect(self, other),
    {
        (self.id_desc && other.id_desc) || (self.id_asc && other.id_asc) || (self.topo_desc
            && other.topo_desc) || (self.ancestors && other.ancestors) || (self.empty
            && other.empty) || (self.full && other.full)
    }
}

pub open spec fn flags_none() -> Flags {
    Flags { id_desc: false, id_asc: false, topo_desc: false, ancestors: false, empty: false, full: false }
}

pub open spec fn flags_union(a: Flags, b: Flags) -> Flags {
    Flags {
        id_desc: a.id_desc || b.id_desc,
        id_asc: a.id_asc || b.id_asc,
        topo_desc: a.topo_desc || b.topo_desc,
        ancestors: a.ancestors || b.ancestors,
        empty: a.empty || b.empty,
        full: a.full || b.full,
    }
}

pub open spec fn flags_without(a: Flags, b: Flags) -> Flags {
    Flags {
        id_desc: a.id_desc && !b.id_desc,
        id_asc: a.id_asc && !b.id_asc,
        topo_desc: a.topo_desc && !b.topo_desc,
        ancestors: a.ancestors && !b.ancestors,
        empty: a.empty && !b.empty,
        full: a.full && !b.full,
    }
}

pub open spec fn flags_contain(a: Flags, b: Flags) -> bool {
    (b.id_desc ==> a.id_desc) && (b.id_asc ==> a.id_asc) && (b.topo_desc ==> a.topo_desc) && (
    b.ancestors ==> a.ancestors) && (b.empty ==> a.empty) && (b.full ==> a.full)
}

pub open spec fn flags_intersect(a: Flags, b: Flags) -> bool {
    (a.id_desc && b.id_desc) || (a.id_asc && b.id_asc) || (a.topo_desc && b.topo_desc) || (
    a.ancestors && b.ancestors) || (a.empty && b.empty) || (a.full && b.full)
}

/// Cached metadata of a set: known flags, bounds of its ids, and the map and graph it
/// was computed on.
#[derive(Clone, Copy, Debug, PartialEq, Eq, Structural)]
pub struct Hints {
    pub flags: Flags,
    /// Every id of the set is at least this.
    pub min_id: Option<u64>,
    /// Every id of the set is at most this.
    pub max_id: Option<u64>,
    pub map_version: Option<MapVersion>,
    pub dag: Option<DagHandle>,
}

impl Hints {
    /// Hints that know nothing but the map and graph.
    pub fn new_with_idmap_dag(version: MapVersion, dag: DagHandle) -> (r: Hints)
        ensures
            r == (Hints {
                flags: flags_none(),
                min_id: None,
                max_id: None,
                map_version: Some(version),
                dag: Some(dag),
            }),
    {
        Hints { flags: Flags::none(), min_id: None, max_id: None, map_version: Some(version), dag: Some(dag) }
    }

    pub fn add_flags(&mut self, flags: Flags)
        ensures
            *final(self) == (Hints { flags: flags_union(old(self).flags, flags), ..*old(self) }),
    {
        self.flags = self.flags.union(flags);
    }

    pub fn remove_flags(&mut self, flags: Flags)
        ensures
            *final(self) == (Hints { flags: flags_without(old(self).flags, flags), ..*old(self) }),
    {
        self.flags = self.flags.without(flags);
    }

    pub fn contains(&self, flags: Flags) -> (r: bool)
        ensures
            r == flags_contain(self.flags, flags),
    {
        self.flags.contains(flags)
    }

    pub fn set_min_id(&mut self, id: u64)
        ensures
            *final(self) == (Hints { min_id: Some(id), ..*old(self) }),
    {
        self.min_id = Some(id);
    }

    pub fn set_max_id(&mut self, id: u64)
        ensures
            *final(self) == (Hints { max_id: Some(id), ..*old(self) }),
    {
        self.max_id = Some(id);
    }
}

} // verus!
