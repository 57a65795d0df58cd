//! What the next server needs to know, written by the one that has it.
//!
//! A ublk device outlives the process that created it, which is what makes a
//! handover possible, but the kernel remembers only the device, not what is
//! behind it. So the server that creates the devices writes the mapping down,
//! and the server that adopts them reads it.
use vstd::prelude::*;

verus! {

/// One exported device.
#[derive(Debug)]
pub struct Device {
    /// The ublk device id.
    pub dev_id: u32,
    /// The volume behind it, by name.
    pub volume: String,
}

/// A local disk the boot laid out but did not fill.
#[derive(Debug)]
pub struct FlowOver {
    /// The disk, for the log line.
    pub disk: String,
    /// The slab the goldens are migrating into, by id.
    pub system_slab: String,
    /// The local data slab, laid at the same time.
    pub data_slab: String,
}

/// Everything the successor needs to take over without being told.
#[derive(Debug)]
pub struct Record {
    /// The slabs the volumes live on, as they were opened.
    pub slabs: Vec<String>,
    /// An explicit metadata directory, if one was used.
    pub meta: Option<String>,
    /// Every device that was exported.
    pub devices: Vec<Device>,
    /// A local disk laid out by this boot, waiting to be filled.
    pub flow_over: Option<FlowOver>,
}

/// Whether device `i` comes before device `j`: by id, and among equal ids by
/// place.
pub open spec fn goes_before(d: Seq<Device>, i: int, j: int) -> bool {
    d[i].dev_id < d[j].dev_id || (d[i].dev_id == d[j].dev_id && i < j)
}

/// Whether `order` names each of the first `n` devices once, each before
/// those that come after it.
pub open spec fn in_device_order(d: Seq<Device>, order: Seq<usize>, n: int) -> bool {
    &&& order.len() == n
    &&& forall|k: int| 0 <= k < n ==> (#[trigger] order[k]) < n
    &&& forall|a: int, b: int|
        0 <= a < b < n ==> goes_before(d, #[trigger] order[a] as int, #[trigger] order[b] as int)
}

impl Record {
    /// The volume names in device order, which is the order an adopting server
    /// must present them in.
    pub fn volumes_in_device_order(&self) -> (names: Vec<String>)
        ensures
            exists|order: Seq<usize>| #[trigger]
                in_device_order(self.devices@, order, self.devices@.len() as int)
                    && names@.len() == order.len() && forall|k: int|
                    0 <= k < order.len() ==> #[trigger] names@[k]@
                        == self.devices@[order[k] as int].volume@,
    {
        let ghost d = self.devices@;
        let mut order: Vec<usize> = Vec::new();
        let mut n: usize = 0;
        while n < self.devices.len()
            invariant
                n <= d.len(),
                d == self.devices@,
                in_device_order(d, order@, n as int),
            decreases d.len() - n,
        {
            let id: u32 = self.devices[n].dev_id;
            let mut at: usize = order.len();
            while at > 0 && self.devices[order[at - 1]].dev_id > id
                invariant
                    at <= order@.len() == n < d.len(),
                    d == self.devices@,
                    id == d[n as int].dev_id,
                    in_device_order(d, order@, n as int),
                    forall|k: int| at <= k < n ==> d[#[trigger] order@[k] as int].dev_id > id,
                decreases at,
            {
                at = at - 1;
            }
            let ghost before = order@;
            proof {
                assert forall|k: int| 0 <= k < at implies d[#[trigger] before[k] as int].dev_id
                    <= id by {
                    if k < at - 1 {
                        assert(goes_before(d, before[k] as int, before[at - 1] as int));
                    }
                }
            }
            order.insert(at, n);
            proof {
                assert forall|a: int, b: int| 0 <= a < b < n + 1 implies goes_before(
                    d,
                    #[trigger] order@[a] as int,
                    #[trigger] order@[b] as int,
                ) by {
                    let x = if a < at {
                        a
                    } else {
                        a - 1
                    };
                    let y = if b < at {
                        b
                    } else {
                        b - 1
                    };
                    if a != at {
                        assert(order@[a] == before[x]);
                    }
                    if b != at {
                        assert(order@[b] == before[y]);
                    }
                    if a != at && b != at {
                        assert(goes_before(d, before[x] as int, before[y] as int));
                    }
                }
                assert forall|k: int| 0 <= k < n + 1 implies (#[trigger] order@[k]) < n + 1 by {
                    if k < at {
                        assert(order@[k] == before[k]);
                    } else if k > at {
                        assert(order@[k] == before[k - 1]);
                    }
                }
            }
            n = n + 1;
        }
        let mut names: Vec<String> = Vec::new();
        let mut k: usize = 0;
        while k < order.len()
            invariant
                k <= order@.len() == d.len(),
                d == self.devices@,
                in_device_order(d, order@, d.len() as int),
                names@.len() == k,
                forall|m: int|
                    0 <= m < k ==> #[trigger] names@[m]@ == d[order@[m] as int].volume@,
            decreases order@.len() - k,
        {
            names.push(self.devices[order[k]].volume.clone());
            k = k + 1;
        }
        names
    }
}

} // verus!
