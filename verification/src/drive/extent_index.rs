//! Which slot holds a volume's virtual extent.
use crate::ids::VolumeId;
use std::collections::HashMap;
use vstd::prelude::*;

verus! {

/// A map from volume and virtual extent to slot, kept as one map of extents
/// for each volume.
pub struct ExtentIndex {
    volumes: HashMap<u128, HashMap<u64, u32>>,
}

impl View for ExtentIndex {
    type V = Map<(VolumeId, u64), u32>;

    closed spec fn view(&self) -> Map<(VolumeId, u64), u32> {
        Map::new(
            |k: (VolumeId, u64)|
                self.volumes@.contains_key(k.0.0.bits) && self.volumes@[k.0.0.bits]@.contains_key(
                    k.1,
                ),
            |k: (VolumeId, u64)| self.volumes@[k.0.0.bits]@[k.1],
        )
    }
}

impl ExtentIndex {
    /// An index of nothing.
    pub fn new() -> (x: Self)
        ensures
            x@ == Map::<(VolumeId, u64), u32>::empty(),
    {
        broadcast use vstd::std_specs::hash::group_hash_axioms;

        let x = ExtentIndex { volumes: HashMap::new() };
        assert(x@ =~= Map::<(VolumeId, u64), u32>::empty());
        x
    }

    /// The slot of an extent, where it has one.
    pub fn get(&self, volume: VolumeId, vext: u64) -> (slot: Option<u32>)
        ensures
            slot == (if self@.contains_key((volume, vext)) {
                Some(self@[(volume, vext)])
            } else {
                None
            }),
    {
        broadcast use vstd::std_specs::hash::group_hash_axioms;

        match self.volumes.get(&volume.0.bits) {
            Some(extents) => match extents.get(&vext) {
                Some(slot) => Some(*slot),
                None => None,
            },
            None => None,
        }
    }

    /// Maps an extent to a slot, in place of whatever it was mapped to.
    pub fn insert(&mut self, volume: VolumeId, vext: u64, slot: u32)
        ensures
            final(self)@ == old(self)@.insert((volume, vext), slot),
    {
        broadcast use vstd::std_specs::hash::group_hash_axioms;

        let ghost before = self@;
        let mut extents: HashMap<u64, u32> = match self.volumes.remove(&volume.0.bits) {
            Some(extents) => extents,
            None => HashMap::new(),
        };
        extents.insert(vext, slot);
        self.volumes.insert(volume.0.bits, extents);
        assert(self@ =~= before.insert((volume, vext), slot));
    }

    /// Forgets an extent.
    pub fn remove(&mut self, volume: VolumeId, vext: u64)
        ensures
            final(self)@ == old(self)@.remove((volume, vext)),
    {
        broadcast use vstd::std_specs::hash::group_hash_axioms;

        let ghost before = self@;
        match self.volumes.remove(&volume.0.bits) {
            Some(extents) => {
                let mut extents = extents;
                extents.remove(&vext);
                self.volumes.insert(volume.0.bits, extents);
            },
            None => {},
        }
        assert(self@ =~= before.remove((volume, vext)));
    }
}

} // verus!
