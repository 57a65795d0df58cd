//! What the parties of a session tell each other, and what is made of it.
use crate::bytes;
use crate::digest;
use crate::drive::iscsi_dev;
use crate::drive::nvme_pdu;
use crate::drive::nvmeof_dev;
use crate::drive::nvmeof_dev::CommonHeader;
use crate::drive::pool;
use crate::drive::pool::{EntryView, PoolError, PoolHeader, VDriveState};
use crate::drive::slab;
use crate::drive::slab::SlotState;
use crate::drive::slab_registry;
use crate::drive::slab_registry::SlabRecord;
use crate::drive::ublk;
use crate::drive::ublk::NodeText;
use crate::fs::template;
use crate::fs::template::{FsTemplate, StandingStatus};
use crate::placement;
use crate::placement::SlabRole;
use crate::text;
use vstd::prelude::*;

verus! {

/// The numbers of a node are what stands before and behind the colon, whatever
/// white space is around them.
pub proof fn the_numbers_of_a_node_are_read(major: u32, minor: u32, s: Seq<char>)
    requires
        text::trimmed(s) == text::decimal(major as nat) + seq![':'] + text::decimal(minor as nat),
    ensures
        ublk::node_text(s) == (NodeText::Numbers { major, minor }),
        ublk::block_numbers(s) == Some((major, minor)),
{
    let a = text::decimal(major as nat);
    let b = text::decimal(minor as nat);
    let t = a + seq![':'] + b;
    lemma_digits(major as nat);
    lemma_digits(minor as nat);
    text::decimal_round_trip(major as nat, u32::MAX as nat);
    text::decimal_round_trip(minor as nat, u32::MAX as nat);
    text::lemma_first_at(t, ':');
    text::lemma_first_at(b, ':');
    let i = text::first_at(t, ':');
    assert(t[a.len() as int] == ':');
    if i < a.len() {
        assert(t[i] == a[i]);
    }
    assert(i == a.len());
    assert(t.take(i) =~= a);
    assert(t.skip(i + 1) =~= b);
    let j = text::first_at(b, ':');
    assert(j == b.len());
    assert(text::pieces(b, ':') =~= seq![b]);
    assert(text::pieces(t, ':') =~= seq![a, b]);
}

proof fn lemma_digits(n: nat)
    ensures
        text::decimal(n).len() > 0,
        forall|i: int|
            0 <= i < text::decimal(n).len() ==> '0' <= (#[trigger] text::decimal(n)[i]) <= '9',
    decreases n,
{
    if n >= 10 {
        lemma_digits(n / 10);
        let d = text::decimal(n / 10);
        assert forall|i: int| 0 <= i < text::decimal(n).len() implies '0' <= (
        #[trigger] text::decimal(n)[i]) <= '9' by {
            if i < d.len() {
                assert(text::decimal(n)[i] == d[i]);
            }
        }
    }
}

/// A device is found by the name of its character device and its number; another
/// name adds none.
pub proof fn a_device_is_found_by_its_name(names: Seq<String>, s: String, id: u32)
    ensures
        ublk::ids_in(Seq::<String>::empty()).len() == 0,
        s@ == "ublkc"@ + text::decimal(id as nat) ==> ublk::ids_in(names.push(s)) == ublk::ids_in(
            names,
        ).push(id),
        text::without_prefix(s@, "ublkc"@) is None ==> ublk::ids_in(names.push(s)) == ublk::ids_in(
            names,
        ),
{
    assert(names.push(s).drop_last() =~= names);
    crate::text_promises::a_prefix_is_taken_off(text::decimal(id as nat), "ublkc"@);
    text::decimal_round_trip(id as nat, u32::MAX as nat);
}

/// A number below zero is written with a minus sign.
pub proof fn signs_are_written(n: nat)
    ensures
        ublk::signed(n as int) == text::decimal(n),
        n > 0 ==> ublk::signed(-(n as int)) == seq!['-'] + text::decimal(n),
{
}

/// The largest segment is the one that the target named last; where it named
/// none that can be read, it stays.
pub proof fn the_last_segment_size_counts(
    params: Seq<Seq<char>>,
    before: u32,
    n: nat,
    v: u32,
)
    requires
        n < params.len(),
    ensures
        iscsi_dev::max_segment(params, before, 0) == before,
        params[n as int] == "MaxRecvDataSegmentLength"@ + seq!['='] + text::decimal(v as nat)
            ==> iscsi_dev::max_segment(params, before, n + 1) == v,
        text::split_once(params[n as int], '=') is None ==> iscsi_dev::max_segment(
            params,
            before,
            n + 1,
        ) == iscsi_dev::max_segment(params, before, n),
        text::split_once(params[n as int], '=') matches Some((key, value)) ==> (key
            != "MaxRecvDataSegmentLength"@ ==> iscsi_dev::max_segment(params, before, n + 1)
            == iscsi_dev::max_segment(params, before, n)),
{
    let key = "MaxRecvDataSegmentLength"@;
    reveal_strlit("MaxRecvDataSegmentLength");
    assert(!key.contains('='));
    crate::text_promises::a_text_is_split_at_the_first(key, '=', text::decimal(v as nat));
    text::decimal_round_trip(v as nat, u32::MAX as nat);
}

/// Data is filled up to whole words of four bytes, with no more than is needed;
/// a length to whole blocks likewise.
pub proof fn filling_up_is_least(len: int, bs: int)
    requires
        0 <= len,
        0 < bs,
    ensures
        0 <= iscsi_dev::padding_of(len) < 4,
        (len + iscsi_dev::padding_of(len)) % 4 == 0,
        len <= iscsi_dev::padded_len(len, bs) < len + bs,
        iscsi_dev::padded_len(len, bs) % bs == 0,
{
    crate::align::round_up_is_least_multiple(len, bs);
}

/// A field of a drive's data is its text without white space around it; where the
/// data ends before, it is not made up from what is there.
pub proof fn a_field_is_read_whole(data: Seq<u8>, from: int, to: int, otherwise: Seq<char>)
    requires
        0 <= from <= to,
    ensures
        data.len() < to ==> iscsi_dev::inquiry_field(data, from, to, otherwise) == otherwise
            && nvmeof_dev::field_of(data, from, to).len() == 0,
        data.len() >= to ==> iscsi_dev::inquiry_field(data, from, to, otherwise) == text::trimmed(
            text::lossy(data.subrange(from, to)),
        ) && nvmeof_dev::field_of(data, from, to) == text::trimmed(
            text::lossy(data.subrange(from, to)),
        ),
{
}

/// A setting of an address names the namespace or the host, the last of each
/// counting; a namespace that is no number spoils all, an empty host changes
/// nothing, and what is not known is passed over.
pub proof fn the_last_settings_count(
    q: Seq<Seq<char>>,
    n: nat,
    id: u32,
    host: Seq<char>,
    was: u32,
    by: Option<Seq<char>>,
)
    requires
        n < q.len(),
        nvmeof_dev::settings(q, n) == Some((was, by)),
    ensures
        nvmeof_dev::settings(q, 0) == Some((1u32, None::<Seq<char>>)),
        q[n as int] == "nsid="@ + text::decimal(id as nat) ==> nvmeof_dev::settings(q, n + 1)
            == Some((id, by)),
        q[n as int] == "hostnqn="@ + host && host.len() > 0 ==> nvmeof_dev::settings(q, n + 1)
            == Some((was, Some(host))),
        q[n as int] == "hostnqn="@ ==> nvmeof_dev::settings(q, n + 1) == Some((was, by)),
        text::without_prefix(q[n as int], "nsid="@) is None && text::without_prefix(
            q[n as int],
            "hostnqn="@,
        ) is None ==> nvmeof_dev::settings(q, n + 1) == Some((was, by)),
        text::without_prefix(q[n as int], "nsid="@) matches Some(v) ==> (text::parsed(
            v,
            u32::MAX as nat,
        ) is None ==> nvmeof_dev::settings(q, n + 1) is None),
{
    reveal_strlit("nsid=");
    reveal_strlit("hostnqn=");
    crate::text_promises::a_prefix_is_taken_off(text::decimal(id as nat), "nsid="@);
    crate::text_promises::a_prefix_is_taken_off(host, "hostnqn="@);
    crate::text_promises::a_prefix_is_taken_off(Seq::<char>::empty(), "hostnqn="@);
    text::decimal_round_trip(id as nat, u32::MAX as nat);
    let s = q[n as int];
    if s == "hostnqn="@ + host || s == "hostnqn="@ {
        assert(s[0] == 'h');
        assert(s.take(5)[0] == 'h');
        assert("nsid="@[0] == 'n');
        assert(text::without_prefix(s, "nsid="@) is None);
    }
    assert("hostnqn="@ + Seq::<char>::empty() =~= "hostnqn="@);
}

/// The states of slots and drives are numbered from zero, free first, and a
/// number that is none of theirs is free.
pub proof fn states_are_numbered(v: u8)
    ensures
        slab::slot_state_of(0) == SlotState::Free,
        slab::slot_state_of(1) == SlotState::Allocated,
        slab::slot_state_of(2) == SlotState::Moving,
        v > 2 ==> slab::slot_state_of(v) == SlotState::Free,
        pool::vdrive_state_of(0) == VDriveState::Free,
        pool::vdrive_state_of(1) == VDriveState::Active,
        pool::vdrive_state_of(2) == VDriveState::InArray,
        v > 2 ==> pool::vdrive_state_of(v) == VDriveState::Free,
{
}

/// A pool's header is taken only where it is one: long enough, with its mark, of
/// the version that is known, and with its checksum.
pub proof fn what_is_no_pool_is_not_taken(d: Seq<u8>)
    ensures
        d.len() < 80 ==> PoolHeader::decoded(d) == Err::<PoolHeader, PoolError>(
            PoolError::HeaderTooShort,
        ),
        d.len() >= 80 && d.subrange(0, 8) != seq![
            0x53u8,
            0x54,
            0x52,
            0x4d,
            0x50,
            0x4f,
            0x4f,
            0x4c,
        ] ==> PoolHeader::decoded(d) == Err::<PoolHeader, PoolError>(PoolError::BadMagic),
        PoolHeader::decoded(d) is Ok ==> d.len() >= 80 && bytes::le_value(d.subrange(8, 12)) == 1
            && bytes::le_value(d.subrange(76, 80)) == digest::crc32c_of(d.subrange(0, 76)),
        PoolHeader::decoded(d) matches Ok(h) ==> h.pool_uuid.bits == bytes::be_value(
            d.subrange(12, 28),
        ) && h.total_capacity == bytes::le_value(d.subrange(28, 36)) && h.data_offset
            == bytes::le_value(d.subrange(36, 44)) && h.alignment == bytes::le_value(
            d.subrange(44, 52),
        ) && h.vdrive_count == bytes::le_value(d.subrange(52, 56)) && h.max_vdrives
            == bytes::le_value(d.subrange(56, 60)),
{
    assert(pool::POOL_MAGIC@ =~= seq![0x53u8, 0x54, 0x52, 0x4d, 0x50, 0x4f, 0x4f, 0x4c]);
    if d.len() >= 80 {
        bytes::lemma_radix();
        bytes::le_value_round_trip(d.subrange(8, 12));
        bytes::be_value_round_trip(d.subrange(12, 28));
        bytes::le_value_round_trip(d.subrange(28, 36));
        bytes::le_value_round_trip(d.subrange(36, 44));
        bytes::le_value_round_trip(d.subrange(44, 52));
        bytes::le_value_round_trip(d.subrange(52, 56));
        bytes::le_value_round_trip(d.subrange(56, 60));
    }
}

/// An entry is taken only where it names a drive and holds its checksum.
pub proof fn what_is_no_drive_is_not_taken(d: Seq<u8>)
    ensures
        EntryView::decoded(d) is Some ==> d.len() >= 128 && bytes::be_value(d.subrange(0, 16)) != 0
            && bytes::le_value(d.subrange(120, 124)) == digest::crc32c_of(d.subrange(0, 120)),
        d.len() >= 128 && bytes::be_value(d.subrange(0, 16)) != 0 && bytes::le_value(
            d.subrange(120, 124),
        ) == digest::crc32c_of(d.subrange(0, 120)) ==> (EntryView::decoded(d) matches Some(e)
            && e.uuid.bits == bytes::be_value(d.subrange(0, 16)) && e.start_offset
            == bytes::le_value(d.subrange(16, 24)) && e.size == bytes::le_value(d.subrange(24, 32))
            && e.array_uuid.bits == bytes::be_value(d.subrange(33, 49)) && e.create_time
            == bytes::le_value(d.subrange(112, 120))),
{
    if d.len() >= 128 {
        bytes::lemma_radix();
        bytes::be_value_round_trip(d.subrange(0, 16));
        bytes::le_value_round_trip(d.subrange(16, 24));
        bytes::le_value_round_trip(d.subrange(24, 32));
        bytes::be_value_round_trip(d.subrange(33, 49));
        bytes::le_value_round_trip(d.subrange(112, 120));
    }
}

/// What stands before the first zero has none in it and is followed by one, or by
/// nothing.
pub proof fn a_name_ends_at_its_zero(s: Seq<u8>)
    ensures
        ({
            let b = pool::before_zero(s);
            &&& b.len() <= s.len()
            &&& b == s.take(b.len() as int)
            &&& forall|i: int| 0 <= i < b.len() ==> #[trigger] b[i] != 0
            &&& b.len() < s.len() ==> s[b.len() as int] == 0
        }),
    decreases s.len(),
{
    let b = pool::before_zero(s);
    if s.len() > 0 && s[0] != 0 {
        let rest = s.drop_first();
        a_name_ends_at_its_zero(rest);
        let r = pool::before_zero(rest);
        assert(b =~= seq![s[0]] + r);
        assert(b =~= s.take(b.len() as int));
        assert forall|i: int| 0 <= i < b.len() implies #[trigger] b[i] != 0 by {
            if i > 0 {
                assert(b[i] == r[i - 1]);
            }
        }
        if b.len() < s.len() {
            assert(s[b.len() as int] == rest[r.len() as int]);
        }
    } else {
        assert(b =~= s.take(0));
    }
}

/// The regions of drives begin and end where the drives do.
pub proof fn regions_are_those_of_drives(es: Seq<EntryView>, i: int)
    requires
        0 <= i < es.len(),
        es[i].start_offset + es[i].size <= u64::MAX,
    ensures
        pool::regions_of(es).len() == es.len(),
        pool::regions_of(es)[i].0 == es[i].start_offset,
        pool::regions_of(es)[i].1 == es[i].start_offset + es[i].size,
{
}

/// The places of the templates that lack a clone are listed in order, each once
/// and no others.
pub proof fn templates_that_lack_a_clone_are_listed(ts: Seq<FsTemplate>, n: nat, i: int)
    requires
        n <= ts.len(),
    ensures
        ({
            let l = template::lacking(ts, n);
            &&& forall|a: int, b: int| 0 <= a < b < l.len() ==> l[a] < l[b]
            &&& forall|a: int| 0 <= a < l.len() ==> 0 <= #[trigger] l[a] < n
            &&& l.contains(i) <==> 0 <= i < n && ts[i].lacks_clone()
        }),
    decreases n,
{
    if n > 0 {
        templates_that_lack_a_clone_are_listed(ts, (n - 1) as nat, i);
        let before = template::lacking(ts, (n - 1) as nat);
        let l = template::lacking(ts, n);
        if ts[n - 1].lacks_clone() {
            assert(l[before.len() as int] == n - 1);
            if before.contains(i) {
                let k = choose|k: int| 0 <= k < before.len() && before[k] == i;
                assert(l[k] == i);
            }
            if l.contains(i) {
                let k = choose|k: int| 0 <= k < l.len() && l[k] == i;
                if k < before.len() {
                    assert(before[k] == i);
                }
            }
        }
    }
}

/// The status of a template tells of that template.
pub proof fn a_status_is_its_templates(s: StandingStatus, t: FsTemplate)
    requires
        template::status_of(s, t),
    ensures
        s.template_id == t.id,
        s.name@ == t.name@,
        s.state == t.state,
        s.minting == t.minting,
        t.standing is None ==> s.standing is None,
        t.standing matches Some(c) ==> s.standing == Some(c.volume_id),
{
}

/// Capital letters of ASCII become small ones, and nothing else changes.
pub proof fn letters_are_lowered(s: Seq<char>, i: int)
    requires
        0 <= i < s.len(),
    ensures
        template::lowered(s).len() == s.len(),
        'A' <= s[i] <= 'Z' ==> template::lowered(s)[i] as int == s[i] as int + 32,
        !('A' <= s[i] <= 'Z') ==> template::lowered(s)[i] == s[i],
{
}

/// Domains are counted by their names at a rung, each once; a slab that says
/// nothing there is a domain of its own; and only slabs with room count.
pub proof fn domains_are_counted_by_name(
    m: Map<u128, SlabRecord>,
    rung: Seq<char>,
    role: Option<SlabRole>,
    k: u128,
    v: Seq<char>,
)
    ensures
        slab_registry::domains_unknown(m, rung, role).contains(k) <==> m.contains_key(k)
            && slab_registry::room_at(m, k, role) > 0 && placement::value_at(m[k].domain@, rung)
            is None,
        m.contains_key(k) && slab_registry::room_at(m, k, role) > 0 && placement::value_at(
            m[k].domain@,
            rung,
        ) == Some(v) ==> slab_registry::domain_values(m, rung, role).contains(v),
        slab_registry::domain_values(m, rung, role).contains(v) ==> exists|j: u128| #[trigger]
            m.contains_key(j) && slab_registry::room_at(m, j, role) > 0 && placement::value_at(
                m[j].domain@,
                rung,
            ) == Some(v),
        slab_registry::distinct_domains(m, rung, role) == slab_registry::domain_values(
            m,
            rung,
            role,
        ).len() + slab_registry::domains_unknown(m, rung, role).len(),
{
}

/// A PDU of data is no shorter than its header, and one with a completion no
/// shorter than that.
pub proof fn a_pdu_is_long_enough(h: CommonHeader)
    ensures
        h.pdu_type == 7 ==> (nvme_pdu::is_sane(h) <==> h.hlen <= h.plen),
        h.pdu_type == 5 ==> (nvme_pdu::is_sane(h) <==> 24 <= h.plen),
        h.pdu_type != 7 && h.pdu_type != 5 ==> nvme_pdu::is_sane(h),
{
}

/// A host names its port with a colon and digits behind it; one that ends in
/// anything else, or has no colon, names none.
pub proof fn a_host_names_its_port(host: Seq<char>, port: nat, addr: Seq<char>)
    ensures
        nvmeof_dev::names_port(host + seq![':'] + text::decimal(port)),
        addr.len() > 0 && !(48 <= addr.last() as u32 <= 57) ==> !nvmeof_dev::names_port(addr),
        !addr.contains(':') ==> !nvmeof_dev::names_port(addr),
{
    let d = text::decimal(port);
    lemma_digits(port);
    let a = host + seq![':'] + d;
    let i = host.len() as int;
    assert(a[i] == ':');
    assert forall|j: int| i < j < a.len() implies nvmeof_dev::is_decimal(#[trigger] a[j]) by {
        assert(a[j] == d[j - i - 1]);
    }
    if nvmeof_dev::names_port(addr) {
        let w = choose|w: int|
            0 <= w < addr.len() - 1 && #[trigger] addr[w] == ':' && forall|j: int|
                w < j < addr.len() ==> nvmeof_dev::is_decimal(#[trigger] addr[j]);
        assert(addr[w] == ':');
        let c = addr[addr.len() - 1];
        assert(nvmeof_dev::is_decimal(c));
        assert(c == addr.last());
    }
}

} // verus!
