//! How changed slot entries reach the disk.
//!
//! A slot entry is 64 bytes while a sector is 512 or 4096, so 8 to 64
//! consecutive entries live in one sector. Entries that share a sector are
//! written together, and a sector whose every byte is known needs no read.
use crate::bytes;
use crate::drive::slab::Slot;
use crate::order;
use vstd::prelude::*;

verus! {

/// One write of the slot table: the `len` bytes at `offset`, with the entries
/// of `slots` put in. When `read_first` is set the bytes are read before;
/// otherwise the entries fill them completely.
pub struct SectorPlan {
    pub offset: u64,
    pub len: u64,
    pub read_first: bool,
    pub slots: Vec<u32>,
}

/// Where the entry of slot `i` stands.
pub open spec fn entry_pos(table: int, i: int) -> int {
    table + 64 * i
}

/// The block sizes a table at `table` can be written with: entries do not
/// straddle blocks, and the table begins on a block.
pub open spec fn block_ok(table: int, bs: int) -> bool {
    0 <= table && (bs > 64 ==> bs % 64 == 0 && table % bs == 0)
}

/// Whether a plan writes entries of a table of `n` slots, all of them inside
/// the bytes it covers, and skips the read only where they fill those bytes.
pub open spec fn plan_ok(plan: SectorPlan, table: int, n: int) -> bool {
    &&& table <= plan.offset
    &&& (plan.offset - table) % 64 == 0
    &&& order::ascending(plan.slots@)
    &&& plan.slots@.len() > 0
    &&& forall|k: int|
        0 <= k < plan.slots@.len() ==> {
            &&& #[trigger] plan.slots@[k] < n
            &&& plan.offset <= entry_pos(table, plan.slots@[k] as int)
            &&& entry_pos(table, plan.slots@[k] as int) + 64 <= plan.offset + plan.len
        }
    &&& !plan.read_first ==> plan.slots@.len() * 64 == plan.len
}

/// `cur`, the bytes at `offset`, with the entries of the first `k` slots of
/// `idxs` put in.
pub open spec fn patched(
    cur: Seq<u8>,
    offset: int,
    table: int,
    slots: Seq<Slot>,
    idxs: Seq<u32>,
    k: nat,
) -> Seq<u8>
    decreases k,
{
    if k == 0 {
        cur
    } else {
        let i = idxs[k - 1] as int;
        bytes::splice(
            patched(cur, offset, table, slots, idxs, (k - 1) as nat),
            entry_pos(table, i) - offset,
            slots[i].encoded(),
        )
    }
}

/// What a disk holds after a plan was carried out.
pub open spec fn performed(
    img: Seq<u8>,
    plan: SectorPlan,
    table: int,
    slots: Seq<Slot>,
) -> Seq<u8> {
    let cur = if plan.read_first {
        img.subrange(plan.offset as int, plan.offset + plan.len)
    } else {
        bytes::zeros(plan.len as nat)
    };
    bytes::splice(
        img,
        plan.offset as int,
        patched(cur, plan.offset as int, table, slots, plan.slots@, plan.slots@.len()),
    )
}

/// What a disk holds after the first `k` plans were carried out in turn.
pub open spec fn performed_all(
    img: Seq<u8>,
    plans: Seq<SectorPlan>,
    table: int,
    slots: Seq<Slot>,
    k: nat,
) -> Seq<u8>
    decreases k,
{
    if k == 0 {
        img
    } else {
        performed(
            performed_all(img, plans, table, slots, (k - 1) as nat),
            plans[k - 1],
            table,
            slots,
        )
    }
}

/// The sector's new bytes: `current`, which is what the disk holds where the
/// plan says to read first, with the plan's entries put in.
pub fn patch_sector(plan: &SectorPlan, table: u64, slots: &[Slot], current: Vec<u8>) -> (r: Vec<u8>)
    requires
        plan_ok(*plan, table as int, slots@.len() as int),
        current@.len() == plan.len,
        plan.offset + plan.len <= u64::MAX,
    ensures
        r@ == patched(
            current@,
            plan.offset as int,
            table as int,
            slots@,
            plan.slots@,
            plan.slots@.len(),
        ),
        r@.len() == plan.len,
{
    let mut r = current;
    let mut k: usize = 0;
    while k < plan.slots.len()
        invariant
            k <= plan.slots@.len(),
            plan_ok(*plan, table as int, slots@.len() as int),
            plan.offset + plan.len <= u64::MAX,
            r@.len() == plan.len,
            r@ == patched(
                current@,
                plan.offset as int,
                table as int,
                slots@,
                plan.slots@,
                k as nat,
            ),
        decreases plan.slots@.len() - k,
    {
        let i: u32 = plan.slots[k];
        let entry = slots[i as usize].to_bytes();
        let total: usize = r.len();
        let at: usize = (table + 64 * i as u64 - plan.offset) as usize;
        bytes::write_at(&mut r, at, &entry);
        k = k + 1;
    }
    r
}

/// The `i`-th number among ascending ones that all lie in `lo..hi`, as many
/// as there are numbers there, is `lo + i`.
proof fn lemma_dense(s: Seq<u32>, lo: int, hi: int, i: int)
    requires
        order::ascending(s),
        s.len() == hi - lo,
        forall|k: int| 0 <= k < s.len() ==> lo <= #[trigger] s[k] < hi,
        0 <= i < s.len(),
    ensures
        s[i] == lo + i,
{
    lemma_above(s, lo, i);
    lemma_below(s, hi, i);
}

proof fn lemma_above(s: Seq<u32>, lo: int, i: int)
    requires
        order::ascending(s),
        forall|k: int| 0 <= k < s.len() ==> lo <= #[trigger] s[k],
        0 <= i < s.len(),
    ensures
        s[i] >= lo + i,
    decreases i,
{
    if i > 0 {
        lemma_above(s, lo, i - 1);
        assert(s[i - 1] < s[i]);
    }
}

proof fn lemma_below(s: Seq<u32>, hi: int, i: int)
    requires
        order::ascending(s),
        forall|k: int| 0 <= k < s.len() ==> #[trigger] s[k] < hi,
        0 <= i < s.len(),
    ensures
        s[i] <= hi - (s.len() - i),
    decreases s.len() - i,
{
    if i < s.len() - 1 {
        lemma_below(s, hi, i + 1);
        assert(s[i] < s[i + 1]);
    }
}

/// Each byte after patching: an entry's byte where a patched entry stands,
/// the old byte elsewhere.
proof fn lemma_patched(
    cur: Seq<u8>,
    offset: int,
    table: int,
    slots: Seq<Slot>,
    idxs: Seq<u32>,
    k: nat,
    p: int,
)
    requires
        table <= offset,
        (offset - table) % 64 == 0,
        k <= idxs.len(),
        0 <= p < cur.len(),
        forall|m: int|
            0 <= m < idxs.len() ==> {
                &&& #[trigger] idxs[m] < slots.len()
                &&& offset <= entry_pos(table, idxs[m] as int)
                &&& entry_pos(table, idxs[m] as int) + 64 <= offset + cur.len()
            },
    ensures
        patched(cur, offset, table, slots, idxs, k).len() == cur.len(),
        patched(cur, offset, table, slots, idxs, k)[p] == ({
            let i = (offset + p - table) / 64;
            if exists|m: int| 0 <= m < k && #[trigger] idxs[m] == i {
                slots[i].encoded()[(offset + p - table) % 64]
            } else {
                cur[p]
            }
        }),
    decreases k,
{
    if k > 0 {
        let before = patched(cur, offset, table, slots, idxs, (k - 1) as nat);
        lemma_patched(cur, offset, table, slots, idxs, (k - 1) as nat, p);
        let j = idxs[k - 1] as int;
        let i = (offset + p - table) / 64;
        crate::drive::slab::slot_round_trip(slots[j]);
        assert(entry_pos(table, j) + 64 <= offset + cur.len());
        let at = entry_pos(table, j) - offset;
        assert(at <= p < at + 64 <==> i == j);
        if i == j {
            assert(idxs[k - 1] == i);
            assert(p - at == (offset + p - table) % 64);
        } else {
            if exists|m: int| 0 <= m < k && #[trigger] idxs[m] == i {
                let m = choose|m: int| 0 <= m < k && #[trigger] idxs[m] == i;
                assert(m < k - 1);
            }
        }
    }
}

/// Whether byte `p` of the disk lies in the entry of a slot that `batch`
/// names.
pub open spec fn in_entry_of(p: int, table: int, batch: Seq<u32>) -> bool {
    table <= p && exists|m: int| 0 <= m < batch.len() && #[trigger] batch[m] == (p - table) / 64
}

/// Carrying out a plan changes the entries it names, each to what the slot
/// table says, and not one byte else.
pub proof fn plan_changes_only_its_entries(
    img: Seq<u8>,
    plan: SectorPlan,
    table: int,
    slots: Seq<Slot>,
)
    requires
        0 <= table,
        plan_ok(plan, table, slots.len() as int),
        plan.offset + plan.len <= img.len(),
    ensures
        performed(img, plan, table, slots).len() == img.len(),
        forall|p: int|
            0 <= p < img.len() ==> #[trigger] performed(img, plan, table, slots)[p] == (
            if in_entry_of(p, table, plan.slots@) {
                slots[(p - table) / 64].encoded()[(p - table) % 64]
            } else {
                img[p]
            }),
{
    let idxs = plan.slots@;
    let off = plan.offset as int;
    let cur = if plan.read_first {
        img.subrange(off, off + plan.len)
    } else {
        bytes::zeros(plan.len as nat)
    };
    let new = patched(cur, off, table, slots, idxs, idxs.len());
    let m0 = idxs[0];
    lemma_patched(cur, off, table, slots, idxs, idxs.len(), 0);
    let after = performed(img, plan, table, slots);
    assert forall|p: int| 0 <= p < img.len() implies #[trigger] after[p] == (if in_entry_of(
        p,
        table,
        idxs,
    ) {
        slots[(p - table) / 64].encoded()[(p - table) % 64]
    } else {
        img[p]
    }) by {
        if off <= p < off + plan.len {
            lemma_patched(cur, off, table, slots, idxs, idxs.len(), p - off);
            assert(after[p] == new[p - off]);
            let i = (p - table) / 64;
            if !plan.read_first {
                let lo = (off - table) / 64;
                let hi = lo + idxs.len();
                assert(lo <= i < hi);
                assert forall|k: int| 0 <= k < idxs.len() implies lo <= #[trigger] idxs[k] < hi by {}
                lemma_dense(idxs, lo, hi, i - lo);
                assert(idxs[i - lo] == i);
            }
        } else {
            assert(after[p] == img[p]);
            if in_entry_of(p, table, idxs) {
                let m = choose|m: int|
                    0 <= m < idxs.len() && #[trigger] idxs[m] == (p - table) / 64;
                assert(off <= entry_pos(table, idxs[m] as int));
            }
        }
    }
}

/// Carrying out plans in turn changes the entries they name, each to what the
/// slot table says, and not one byte else.
pub proof fn plans_change_only_their_entries(
    img: Seq<u8>,
    plans: Seq<SectorPlan>,
    table: int,
    slots: Seq<Slot>,
    k: nat,
)
    requires
        0 <= table,
        k <= plans.len(),
        forall|j: int|
            0 <= j < plans.len() ==> plan_ok(#[trigger] plans[j], table, slots.len() as int)
                && plans[j].offset + plans[j].len <= img.len(),
    ensures
        performed_all(img, plans, table, slots, k).len() == img.len(),
        forall|p: int|
            0 <= p < img.len() ==> #[trigger] performed_all(img, plans, table, slots, k)[p] == (
            if exists|j: int| 0 <= j < k && in_entry_of(p, table, #[trigger] plans[j].slots@) {
                slots[(p - table) / 64].encoded()[(p - table) % 64]
            } else {
                img[p]
            }),
    decreases k,
{
    if k > 0 {
        let before = performed_all(img, plans, table, slots, (k - 1) as nat);
        plans_change_only_their_entries(img, plans, table, slots, (k - 1) as nat);
        assert(plan_ok(plans[k - 1], table, slots.len() as int));
        plan_changes_only_its_entries(before, plans[k - 1], table, slots);
        let after = performed_all(img, plans, table, slots, k);
        assert forall|p: int| 0 <= p < img.len() implies #[trigger] after[p] == (if exists|j: int|
            0 <= j < k && in_entry_of(p, table, #[trigger] plans[j].slots@) {
            slots[(p - table) / 64].encoded()[(p - table) % 64]
        } else {
            img[p]
        }) by {
            assert(after[p] == performed(before, plans[k - 1], table, slots)[p]);
            let b = before[p];
            if in_entry_of(p, table, plans[k - 1].slots@) {
            } else if exists|j: int| 0 <= j < k && in_entry_of(p, table, #[trigger] plans[j].slots@) {
                let j = choose|j: int| 0 <= j < k && in_entry_of(p, table, #[trigger] plans[j].slots@);
                assert(j < k - 1);
            }
        }
    }
}

/// In a table of blocks, the entry of slot `i` stands in block `i / e`, where
/// `e` entries fill a block.
proof fn lemma_sector(table: int, bs: int, i: int)
    requires
        block_ok(table, bs),
        bs > 64,
        0 <= i,
    ensures
        bs == 64 * (bs / 64),
        (entry_pos(table, i) / bs) * bs == table + (i / (bs / 64)) * bs,
        (i / (bs / 64)) * bs == 64 * ((i / (bs / 64)) * (bs / 64)),
        (i / (bs / 64)) * (bs / 64) <= i < (i / (bs / 64) + 1) * (bs / 64),
        (i / (bs / 64) + 1) * (bs / 64) == (i / (bs / 64)) * (bs / 64) + bs / 64,
        i / (bs / 64) >= 0,
{
    let e = bs / 64;
    let q = i / e;
    let r = i % e;
    let a = table / bs;
    vstd::arithmetic::div_mod::lemma_fundamental_div_mod(i, e);
    vstd::arithmetic::div_mod::lemma_fundamental_div_mod(table, bs);
    vstd::arithmetic::div_mod::lemma_div_pos_is_pos(i, e);
    assert(q * bs == 64 * (q * e)) by (nonlinear_arith)
        requires
            bs == 64 * e,
    ;
    assert((q + 1) * e == q * e + e && q * e == e * q) by (nonlinear_arith);
    assert(entry_pos(table, i) == (a + q) * bs + 64 * r) by (nonlinear_arith)
        requires
            entry_pos(table, i) == table + 64 * i,
            table == bs * a,
            i == e * q + r,
            bs == 64 * e,
    ;
    vstd::arithmetic::div_mod::lemma_fundamental_div_mod_converse(
        entry_pos(table, i),
        bs,
        a + q,
        64 * r,
    );
    assert((a + q) * bs == bs * a + q * bs) by (nonlinear_arith);
}

/// The plan that writes the entry of slot `idx`: the whole block where the
/// table covers it, the entry alone, read first, in a last block that the
/// table covers in part.
pub open spec fn is_slot_plan(plan: SectorPlan, table: int, n: int, bs: int, idx: u32) -> bool {
    let e = bs / 64;
    let q = idx as int / e;
    if bs <= 64 {
        &&& plan.offset == entry_pos(table, idx as int)
        &&& plan.len == 64
        &&& !plan.read_first
        &&& plan.slots@ == seq![idx]
    } else {
        &&& plan.offset == table + q * bs
        &&& plan.len == bs
        &&& plan.read_first == ((q + 1) * e > n)
        &&& plan.slots@ == if plan.read_first {
            seq![idx]
        } else {
            Seq::new(e as nat, |k: int| (q * e + k) as u32)
        }
    }
}

/// How to persist the entry of slot `idx` in a table of `n` slots, on a
/// device of `bs`-byte blocks.
pub fn plan_slot(table: u64, n: usize, bs: u64, idx: u32) -> (plan: SectorPlan)
    requires
        block_ok(table as int, bs as int),
        bs <= u32::MAX,
        idx < n <= u32::MAX,
        table + 64 * n + bs <= u64::MAX,
    ensures
        is_slot_plan(plan, table as int, n as int, bs as int, idx),
        plan_ok(plan, table as int, n as int),
{
    if bs <= 64 {
        let mut one: Vec<u32> = Vec::new();
        one.push(idx);
        return SectorPlan { offset: table + 64 * idx as u64, len: 64, read_first: false, slots: one };
    }
    proof {
        lemma_sector(table as int, bs as int, idx as int);
    }
    let e: u64 = bs / 64;
    let entry_offset: u64 = table + 64 * idx as u64;
    proof {
        vstd::arithmetic::div_mod::lemma_fundamental_div_mod(entry_offset as int, bs as int);
        assert((entry_offset as int / bs as int) * bs <= entry_offset) by (nonlinear_arith)
            requires
                entry_offset as int == bs as int * (entry_offset as int / bs as int)
                    + entry_offset as int % bs as int,
                entry_offset as int % bs as int >= 0,
        ;
    }
    let sector_start: u64 = (entry_offset / bs) * bs;
    let first_entry: u64 = (sector_start - table) / 64;
    let ghost q = idx as int / (bs as int / 64);
    assert(first_entry == q * e);
    let mut slots: Vec<u32> = Vec::new();
    if first_entry + e <= n as u64 {
        let mut k: u64 = 0;
        while k < e
            invariant
                k <= e,
                first_entry + e <= n <= u32::MAX,
                slots@ == Seq::new(k as nat, |m: int| (first_entry + m) as u32),
            decreases e - k,
        {
            slots.push((first_entry + k) as u32);
            k = k + 1;
            assert(slots@ =~= Seq::new(k as nat, |m: int| (first_entry + m) as u32));
        }
        assert(slots@ =~= Seq::new(e as nat, |m: int| (q * e + m) as u32));
        let plan = SectorPlan { offset: sector_start, len: bs, read_first: false, slots };
        assert(plan_ok(plan, table as int, n as int));
        plan
    } else {
        slots.push(idx);
        SectorPlan { offset: sector_start, len: bs, read_first: true, slots }
    }
}

/// Whether `plans` persist the entries that `batch` names: one plan for each
/// block touched, in ascending order, with the entries of `batch` in it, read
/// first unless they fill the block. Blocks no larger than an entry are
/// written one by one as the batch names them.
pub open spec fn is_batch_plan(
    plans: Seq<SectorPlan>,
    table: int,
    n: int,
    bs: int,
    batch: Seq<u32>,
) -> bool {
    let e = bs / 64;
    if bs <= 64 {
        &&& plans.len() == batch.len()
        &&& forall|j: int|
            0 <= j < plans.len() ==> is_slot_plan(#[trigger] plans[j], table, n, bs, batch[j])
    } else {
        &&& forall|j: int, k: int|
            0 <= j < k < plans.len() ==> (#[trigger] plans[j]).offset < (
            #[trigger] plans[k]).offset
        &&& forall|j: int|
            0 <= j < plans.len() ==> {
                &&& (#[trigger] plans[j]).len == bs
                &&& plans[j].read_first == (plans[j].slots@.len() != e)
                &&& forall|m: int|
                    0 <= m < plans[j].slots@.len() ==> plans[j].offset == table + (
                    #[trigger] plans[j].slots@[m] as int / e) * bs
            }
        &&& forall|x: u32|
            batch.contains(x) <==> exists|j: int|
                0 <= j < plans.len() && #[trigger] plans[j].slots@.contains(x)
    }
}

/// How to persist the entries that `batch` names in a table of `n` slots, on
/// a device of `bs`-byte blocks.
pub fn plan_slots(table: u64, n: usize, bs: u64, batch: &[u32]) -> (plans: Vec<SectorPlan>)
    requires
        block_ok(table as int, bs as int),
        bs <= u32::MAX,
        n <= u32::MAX,
        table + 64 * n + bs <= u64::MAX,
        forall|k: int| 0 <= k < batch@.len() ==> #[trigger] batch@[k] < n,
    ensures
        is_batch_plan(plans@, table as int, n as int, bs as int, batch@),
        forall|j: int|
            0 <= j < plans@.len() ==> plan_ok(#[trigger] plans@[j], table as int, n as int),
{
    let mut plans: Vec<SectorPlan> = Vec::new();
    if bs <= 64 {
        let mut k: usize = 0;
        while k < batch.len()
            invariant
                block_ok(table as int, bs as int),
                bs <= 64,
                n <= u32::MAX,
                table + 64 * n + bs <= u64::MAX,
                forall|m: int| 0 <= m < batch@.len() ==> #[trigger] batch@[m] < n,
                k <= batch@.len(),
                plans@.len() == k,
                forall|j: int|
                    0 <= j < k ==> is_slot_plan(
                        #[trigger] plans@[j],
                        table as int,
                        n as int,
                        bs as int,
                        batch@[j],
                    ) && plan_ok(plans@[j], table as int, n as int),
            decreases batch@.len() - k,
        {
            plans.push(plan_slot(table, n, bs, batch[k]));
            k = k + 1;
        }
        return plans;
    }
    let e: u64 = bs / 64;
    let sorted = order::sorted_distinct(batch);
    let ghost all = sorted@;
    assert forall|k: int| 0 <= k < all.len() implies #[trigger] all[k] < n by {
        assert(all.contains(all[k]));
        let m = batch@.index_of(all[k]);
        assert(batch@[m] == all[k]);
    }
    let mut k: usize = 0;
    while k < sorted.len()
        invariant
            block_ok(table as int, bs as int),
            64 < bs <= u32::MAX,
            e == bs / 64,
            n <= u32::MAX,
            table + 64 * n + bs <= u64::MAX,
            all == sorted@,
            order::ascending(all),
            forall|m: int| 0 <= m < all.len() ==> #[trigger] all[m] < n,
            k <= all.len(),
            forall|j: int|
                0 <= j < plans@.len() ==> {
                    &&& (#[trigger] plans@[j]).len == bs
                    &&& plans@[j].read_first == (plans@[j].slots@.len() != e)
                    &&& forall|m: int|
                        0 <= m < plans@[j].slots@.len() ==> plans@[j].offset == table + (
                        #[trigger] plans@[j].slots@[m] as int / e as int) * bs
                },
            forall|i: int, j: int|
                0 <= i < j < plans@.len() ==> (#[trigger] plans@[i]).offset < (
                #[trigger] plans@[j]).offset,
            forall|j: int|
                0 <= j < plans@.len() ==> plan_ok(#[trigger] plans@[j], table as int, n as int),
            forall|x: u32|
                all.take(k as int).contains(x) <==> exists|j: int|
                    0 <= j < plans@.len() && #[trigger] plans@[j].slots@.contains(x),
            plans@.len() > 0 && k < all.len() ==> plans@.last().offset < table + (all[k as int]
                as int / e as int) * bs,
        decreases all.len() - k,
    {
        let first: u32 = sorted[k];
        let ghost start = k as int;
        proof {
            lemma_sector(table as int, bs as int, first as int);
        }
        let entry_offset: u64 = table + 64 * first as u64;
        proof {
            vstd::arithmetic::div_mod::lemma_fundamental_div_mod(entry_offset as int, bs as int);
            assert((entry_offset as int / bs as int) * bs <= entry_offset) by (nonlinear_arith)
                requires
                    entry_offset as int == bs as int * (entry_offset as int / bs as int)
                        + entry_offset as int % bs as int,
                    entry_offset as int % bs as int >= 0,
            ;
        }
        let sector_start: u64 = (entry_offset / bs) * bs;
        let ghost q = first as int / e as int;
        assert(sector_start == table + q * bs);
        let mut slots: Vec<u32> = Vec::new();
        while k < sorted.len() && (sorted[k] as u64) / e == (first as u64) / e
            invariant
                64 < bs,
                e == bs / 64,
                all == sorted@,
                order::ascending(all),
                0 <= start <= k <= all.len(),
                slots@ == all.subrange(start, k as int),
                q == first as int / e as int,
                forall|m: int| start <= m < k ==> #[trigger] all[m] as int / e as int == q,
            decreases all.len() - k,
        {
            slots.push(sorted[k]);
            k = k + 1;
            assert(slots@ =~= all.subrange(start, k as int));
        }
        let ghost here = slots@;
        assert(here[0] == first);
        assert forall|m: int| 0 <= m < here.len() implies {
            &&& #[trigger] here[m] < n
            &&& sector_start == table + (here[m] as int / e as int) * bs
            &&& sector_start <= entry_pos(table as int, here[m] as int)
            &&& entry_pos(table as int, here[m] as int) + 64 <= sector_start + bs
        } by {
            assert(here[m] == all[start + m]);
            lemma_sector(table as int, bs as int, here[m] as int);
        }
        let full: bool = slots.len() as u64 == e;
        let ghost before = plans@;
        let plan = SectorPlan { offset: sector_start, len: bs, read_first: !full, slots };
        assert((sector_start - table) % 64 == 0);
        assert(plan_ok(plan, table as int, n as int));
        plans.push(plan);
        proof {
            assert forall|x: u32|
                all.take(k as int).contains(x) <==> exists|j: int|
                    0 <= j < plans@.len() && #[trigger] plans@[j].slots@.contains(x) by {
                if all.take(k as int).contains(x) {
                    let m = all.take(k as int).index_of(x);
                    if m < start {
                        assert(all.take(start)[m] == x);
                        assert(all.take(start).contains(x));
                        let j = choose|j: int| 0 <= j < before.len() && #[trigger] before[j].slots@.contains(x);
                        assert(plans@[j].slots@.contains(x));
                    } else {
                        assert(here[m - start] == x);
                        assert(plans@[before.len() as int].slots@.contains(x));
                    }
                }
                if exists|j: int| 0 <= j < plans@.len() && #[trigger] plans@[j].slots@.contains(x) {
                    let j = choose|j: int| 0 <= j < plans@.len() && #[trigger] plans@[j].slots@.contains(x);
                    if j < before.len() {
                        assert(before[j].slots@.contains(x));
                        assert(all.take(start).contains(x));
                        let m = all.take(start).index_of(x);
                        assert(all.take(k as int)[m] == x);
                    } else {
                        let m = here.index_of(x);
                        assert(all.take(k as int)[start + m] == x);
                    }
                }
            }
            if k < all.len() {
                assert(first < all[k as int]);
                let q2 = all[k as int] as int / e as int;
                vstd::arithmetic::div_mod::lemma_div_is_ordered(first as int, all[k as int] as int, e as int);
                assert(q2 != q);
                assert(q * bs < q2 * bs) by (nonlinear_arith)
                    requires
                        q < q2,
                        bs > 0,
                ;
            }
        }
    }
    proof {
        assert(all.take(all.len() as int) =~= all);
    }
    plans
}

} // verus!
