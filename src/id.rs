use vstd::prelude::*;

verus! {

/// First id of the non-master group.
pub const NON_MASTER_MIN_ID: u64 = 0x0100_0000_0000_0000;

/// Largest id of any group.
pub const MAX_ID: u64 = 0x01FF_FFFF_FFFF_FFFF;

/// A numbering partition of the id space.
#[derive(Clone, Copy, Debug, PartialEq, Eq, Structural)]
pub enum Group {
    /// Long-lived trunk ids.
    Master,
    /// Ephemeral ids.
    NonMaster,
}

impl Group {
    /// The lowest id of the group.
    pub fn min_id(self) -> (r: u64)
        ensures
            r == group_min_id(self),
    {
        match self {
            Group::Master => 0,
            Group::NonMaster => NON_MASTER_MIN_ID,
        }
    }

    /// The highest id of the group.
    pub fn max_id(self) -> (r: u64)
        ensures
            r == group_max_id(self),
    {
        match self {
            Group::Master => NON_MASTER_MIN_ID - 1,
            Group::NonMaster => MAX_ID,
        }
    }
}

pub open spec fn group_min_id(g: Group) -> u64 {
    match g {
        Group::Master => 0,
        Group::NonMaster => NON_MASTER_MIN_ID,
    }
}

pub open spec fn group_max_id(g: Group) -> u64 {
    match g {
        Group::Master => (NON_MASTER_MIN_ID - 1) as u64,
        Group::NonMaster => MAX_ID,
    }
}

/// The group an id belongs to, for ids up to `MAX_ID`.
pub open spec fn group_of(id: u64) -> Group {
    if id < NON_MASTER_MIN_ID {
        Group::Master
    } else {
        Group::NonMaster
    }
}

/// The group of `id`.
pub fn id_group(id: u64) -> (r: Group)
    ensures
        r == group_of(id),
{
    if id < NON_MASTER_MIN_ID {
        Group::Master
    } else {
        Group::NonMaster
    }
}

} // verus!
