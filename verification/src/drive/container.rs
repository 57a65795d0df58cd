//! A container: the slab on one device, as the unit a node registers.
use crate::bits;
use crate::drive::slab;
use crate::drive::slab::{Slab, SlabId};
use crate::placement::StorageTier;
use vstd::prelude::*;

verus! {

/// Unique identifier for a container: that of its slab.
pub type ContainerId = SlabId;

/// A slab that is registered as a unit.
pub struct Container {
    pub slab: Slab,
}

impl Container {
    /// The slab's bookkeeping holds.
    pub open spec fn wf(&self) -> bool {
        self.slab.wf()
    }

    /// The container's identity.
    pub open spec fn spec_id(&self) -> ContainerId {
        self.slab.spec_id()
    }

    /// The tier of the container's device.
    pub open spec fn spec_tier(&self) -> StorageTier {
        self.slab.spec_header().tier
    }

    /// How many slots are free.
    pub open spec fn spec_free(&self) -> int {
        bits::count_set(slab::free_flags(self.slab@.slots)) as int
    }

    /// How many slots there are.
    pub open spec fn spec_total(&self) -> int {
        self.slab@.slots.len() as int
    }

    /// The container's identity.
    pub fn container_id(&self) -> (id: ContainerId)
        ensures
            id == self.spec_id(),
    {
        self.slab.slab_id()
    }

    /// The tier of the container's device.
    pub fn tier(&self) -> (t: StorageTier)
        ensures
            t == self.spec_tier(),
    {
        self.slab.tier()
    }

    /// How many slots are free.
    pub fn free_slots(&self) -> (n: u64)
        requires
            self.wf(),
        ensures
            n == self.spec_free(),
    {
        self.slab.free_slots()
    }

    /// How many slots there are.
    pub fn total_slots(&self) -> (n: u64)
        requires
            self.wf(),
        ensures
            n == self.spec_total(),
    {
        self.slab.total_slots()
    }
}

} // verus!
