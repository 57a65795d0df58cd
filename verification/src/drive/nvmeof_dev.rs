//! The initiator side of NVMe over TCP: a remote namespace as a local drive.
//!
//! One admin connection is used to identify the namespace and dropped; one
//! I/O connection is kept. This module knows the addresses, the bytes of the
//! commands and what the responses mean; the sockets are the caller's.
use crate::bytes;
use crate::drive::{DeviceId, DriveError, DriveResult};
use crate::ids;
use crate::ids::Uuid;
use crate::text;
use vstd::prelude::*;

verus! {

/// What an initiator calls itself when nothing more specific is set.
pub const HOST_NQN: &'static str = "nqn.2024.io.stormblock:initiator";

/// Per-operation transfer cap.
pub const MAX_CHUNK: usize = 131072;

/// The name a node presents: set once, at boot.
pub struct HostIdentity {
    pub nqn: Option<String>,
}

impl HostIdentity {
    /// No name set yet.
    pub fn new() -> (h: Self)
        ensures
            h.nqn is None,
    {
        HostIdentity { nqn: None }
    }
}

/// Sets the host name every connection presents unless its address names one,
/// and gives the one that holds. The first call wins: this is boot-time
/// identity, not a runtime knob.
pub fn set_default_host_nqn(host: &mut HostIdentity, nqn: &str) -> (r: String)
    ensures
        final(host).nqn is Some,
        final(host).nqn->0@ == match old(host).nqn {
            Some(n) => n@,
            None => nqn@,
        },
        r@ == final(host).nqn->0@,
{
    match &host.nqn {
        Some(n) => n.clone(),
        None => {
            host.nqn = Some(nqn.to_owned());
            nqn.to_owned()
        },
    }
}

/// The host name to present when an address does not name one: the one that
/// was set, or else the one the environment gives, or else the constant. It
/// then holds for good.
pub fn default_host_nqn(host: &mut HostIdentity, environment: Option<&str>) -> (r: String)
    ensures
        final(host).nqn is Some,
        final(host).nqn->0@ == match old(host).nqn {
            Some(n) => n@,
            None => match environment {
                Some(e) => e@,
                None => HOST_NQN@,
            },
        },
        r@ == final(host).nqn->0@,
{
    match environment {
        Some(e) => set_default_host_nqn(host, e),
        None => set_default_host_nqn(host, HOST_NQN),
    }
}

/// A parsed `nvme-tcp://host:port/<nqn>?nsid=N` address.
#[derive(Debug)]
pub struct NvmeTcpSpec {
    pub addr: String,
    pub nqn: String,
    pub nsid: u32,
    /// What to call ourselves on this connection; the node's name where it is
    /// absent.
    pub host_nqn: Option<String>,
}

/// What an address says.
pub struct SpecView {
    pub addr: Seq<char>,
    pub nqn: Seq<char>,
    pub nsid: u32,
    pub host_nqn: Option<Seq<char>>,
}

impl View for NvmeTcpSpec {
    type V = SpecView;

    open spec fn view(&self) -> SpecView {
        SpecView {
            addr: self.addr@,
            nqn: self.nqn@,
            nsid: self.nsid,
            host_nqn: match self.host_nqn {
                Some(h) => Some(h@),
                None => None,
            },
        }
    }
}

/// What the first `n` settings of a query make of namespace and host. An
/// unreadable namespace spoils the whole; an empty host is not an identity.
pub open spec fn settings(q: Seq<Seq<char>>, n: nat) -> Option<(u32, Option<Seq<char>>)>
    decreases n,
{
    if n == 0 {
        Some((1u32, None))
    } else {
        match settings(q, (n - 1) as nat) {
            None => None,
            Some((nsid, host)) => match text::without_prefix(q[n - 1], "nsid="@) {
                Some(v) => match text::parsed(v, u32::MAX as nat) {
                    Some(id) => Some((id as u32, host)),
                    None => None,
                },
                None => match text::without_prefix(q[n - 1], "hostnqn="@) {
                    Some(v) => if v.len() > 0 {
                        Some((nsid, Some(v)))
                    } else {
                        Some((nsid, host))
                    },
                    None => Some((nsid, host)),
                },
            },
        }
    }
}

/// Whether a character is a decimal digit.
pub open spec fn is_decimal(c: char) -> bool {
    48 <= c as u32 <= 57
}

/// Whether a host names its port: it ends in a colon and decimal digits, one at
/// least.
pub open spec fn names_port(addr: Seq<char>) -> bool {
    exists|i: int|
        0 <= i < addr.len() - 1 && #[trigger] addr[i] == ':' && forall|j: int|
            i < j < addr.len() ==> is_decimal(#[trigger] addr[j])
}

/// Whether a host names its port.
fn has_port(addr: &[char]) -> (yes: bool)
    ensures
        yes == names_port(addr@),
{
    let n: usize = addr.len();
    let mut i: usize = n;
    while i > 0 && 48 <= addr[i - 1] as u32 && addr[i - 1] as u32 <= 57
        invariant
            i <= n == addr@.len(),
            forall|j: int| i <= j < n ==> is_decimal(#[trigger] addr@[j]),
        decreases i,
    {
        i = i - 1;
    }
    let yes: bool = i > 0 && i < n && addr[i - 1] == ':';
    proof {
        if yes {
            assert(addr@[i - 1] == ':');
        } else if names_port(addr@) {
            let w = choose|w: int|
                0 <= w < addr@.len() - 1 && #[trigger] addr@[w] == ':' && forall|j: int|
                    w < j < addr@.len() ==> is_decimal(#[trigger] addr@[j]);
            assert(!is_decimal(addr@[w]));
            assert(w < i);
            if w < i - 1 {
                assert(is_decimal(addr@[i - 1]));
            }
        }
    }
    yes
}

/// What an address says, where it is one.
pub open spec fn spec_of(uri: Seq<char>) -> Option<SpecView> {
    match text::without_prefix(uri, "nvme-tcp://"@) {
        None => None,
        Some(rest) => match text::split_once(rest, '/') {
            None => None,
            Some((addr, path)) => {
                let (nqn, set) = match text::split_once(path, '?') {
                    Some((n, q)) => {
                        let p = text::pieces(q, '&');
                        (n, settings(p, p.len()))
                    },
                    None => (path, Some((1u32, None::<Seq<char>>))),
                };
                if !names_port(addr) || nqn.len() == 0 {
                    None
                } else {
                    match set {
                        None => None,
                        Some((nsid, host_nqn)) => Some(SpecView { addr, nqn, nsid, host_nqn }),
                    }
                }
            },
        },
    }
}

/// The address in writing.
pub open spec fn uri_of(v: SpecView) -> Seq<char> {
    let u = "nvme-tcp://"@ + v.addr + "/"@ + v.nqn + "?nsid="@ + text::decimal(v.nsid as nat);
    match v.host_nqn {
        Some(h) => u + "&hostnqn="@ + h,
        None => u,
    }
}

/// What the settings of a query make of namespace and host.
fn read_settings(q: &[char]) -> (r: Option<(u32, Option<String>)>)
    ensures
        ({
            let p = text::pieces(q@, '&');
            match r {
                Some((nsid, host)) => settings(p, p.len()) == Some(
                    (
                        nsid,
                        match host {
                            Some(h) => Some(h@),
                            None => None,
                        },
                    ),
                ),
                None => settings(p, p.len()) is None,
            }
        }),
{
    let mut nsid: u32 = 1;
    let mut host_nqn: Option<String> = None;
    let set = text::split_all(q, '&');
    let ghost all = text::pieces(q@, '&');
    let mut i: usize = 0;
    while i < set.len()
        invariant
            i <= set@.len() == all.len(),
            all == text::pieces(q@, '&'),
            forall|k: int| 0 <= k < set@.len() ==> (#[trigger] set@[k])@ == all[k],
            settings(all, i as nat) == Some(
                (
                    nsid,
                    match host_nqn {
                        Some(h) => Some(h@),
                        None => None,
                    },
                ),
            ),
        decreases set@.len() - i,
    {
        let kv = &set[i];
        i = i + 1;
        match text::strip_prefix(kv, "nsid=") {
            Some(x) => match text::parse_number(&x, 0xffff_ffff) {
                Some(id) => {
                    nsid = id as u32;
                },
                None => {
                    proof {
                        lemma_spoiled(all, i as nat, all.len());
                    }
                    return None;
                },
            },
            None => match text::strip_prefix(kv, "hostnqn=") {
                Some(x) => {
                    if x.len() > 0 {
                        host_nqn = Some(text::text_of(&x));
                    }
                },
                None => {},
            },
        }
    }
    Some((nsid, host_nqn))
}

impl NvmeTcpSpec {
    /// Parses an address. The namespace defaults to 1; the port is required.
    pub fn parse(uri: &str) -> (r: Option<Self>)
        ensures
            match r {
                Some(s) => spec_of(uri@) == Some(s@),
                None => spec_of(uri@) is None,
            },
    {
        let v = text::to_chars(uri);
        let rest = text::strip_prefix(&v, "nvme-tcp://")?;
        let (addr, path) = text::split(&rest, '/')?;
        let (nqn, query) = match text::split(&path, '?') {
            Some((n, q)) => (n, Some(q)),
            None => (path, None),
        };
        let (nsid, host_nqn) = match query {
            None => (1u32, None),
            Some(q) => read_settings(&q)?,
        };
        if !has_port(&addr) || nqn.len() == 0 {
            return None;
        }
        Some(
            NvmeTcpSpec {
                addr: text::text_of(&addr),
                nqn: text::text_of(&nqn),
                nsid,
                host_nqn,
            },
        )
    }

    /// The address in writing.
    pub fn uri(&self) -> (u: String)
        ensures
            u@ == uri_of(self@),
    {
        let mut u = "nvme-tcp://".to_owned();
        u.append(&self.addr);
        u.append("/");
        u.append(&self.nqn);
        u.append("?nsid=");
        text::push_decimal(&mut u, self.nsid as u64);
        match &self.host_nqn {
            Some(h) => {
                u.append("&hostnqn=");
                u.append(h);
            },
            None => {},
        }
        u
    }

    /// The name to present on this connection: the address's own, or the
    /// node's.
    pub fn effective_host_nqn<'a>(&'a self, default: &'a str) -> (s: &'a str)
        ensures
            s@ == match self.host_nqn {
                Some(h) => h@,
                None => default@,
            },
    {
        match &self.host_nqn {
            Some(h) => h.as_str(),
            None => default,
        }
    }
}

proof fn lemma_spoiled(q: Seq<Seq<char>>, n: nat, m: nat)
    requires
        n <= m,
        settings(q, n) is None,
    ensures
        settings(q, m) is None,
    decreases m - n,
{
    if n < m {
        lemma_spoiled(q, n, (m - 1) as nat);
    }
}

/// Whether an address can be written so that it reads back: it has a port, no
/// part holds what would end it, and a host name is not empty.
pub open spec fn writable(v: SpecView) -> bool {
    &&& names_port(v.addr)
    &&& !v.addr.contains('/')
    &&& v.nqn.len() > 0
    &&& !v.nqn.contains('?')
    &&& v.host_nqn matches Some(h) ==> h.len() > 0 && !h.contains('&')
}

/// The query of a written address.
spec fn query_of(v: SpecView) -> Seq<char> {
    let n0 = "nsid="@ + text::decimal(v.nsid as nat);
    match v.host_nqn {
        Some(h) => n0 + seq!['&'] + ("hostnqn="@ + h),
        None => n0,
    }
}

proof fn lemma_setting_nsid(nsid: u32)
    ensures
        ({
            let n0 = "nsid="@ + text::decimal(nsid as nat);
            &&& !n0.contains('&')
            &&& text::without_prefix(n0, "nsid="@) == Some(text::decimal(nsid as nat))
            &&& text::parsed(text::decimal(nsid as nat), u32::MAX as nat) == Some(nsid as nat)
        }),
{
    reveal_strlit("nsid=");
    let dec = text::decimal(nsid as nat);
    text::decimal_round_trip(nsid as nat, u32::MAX as nat);
    let n0 = "nsid="@ + dec;
    if n0.contains('&') {
        let i = n0.index_of('&');
        if i >= 5 {
            assert(dec[i - 5] == '&');
            assert(text::is_digit(dec[i - 5]));
        }
    }
    assert(n0.take(5) =~= "nsid="@);
    assert(n0.skip(5) =~= dec);
}

proof fn lemma_setting_host(h: Seq<char>)
    requires
        !h.contains('&'),
    ensures
        ({
            let h0 = "hostnqn="@ + h;
            &&& !h0.contains('&')
            &&& text::without_prefix(h0, "nsid="@) is None
            &&& text::without_prefix(h0, "hostnqn="@) == Some(h)
        }),
{
    reveal_strlit("nsid=");
    reveal_strlit("hostnqn=");
    let h0 = "hostnqn="@ + h;
    if h0.contains('&') {
        let i = h0.index_of('&');
        if i >= 8 {
            assert(h[i - 8] == '&');
        }
    }
    assert(h0.take(8) =~= "hostnqn="@);
    assert(h0.skip(8) =~= h);
    assert(h0.take(5)[0] == 'h');
    assert("nsid="@[0] == 'n');
}

proof fn lemma_query(v: SpecView)
    requires
        writable(v),
    ensures
        ({
            let p = text::pieces(query_of(v), '&');
            settings(p, p.len()) == Some((v.nsid, v.host_nqn))
        }),
{
    let n0 = "nsid="@ + text::decimal(v.nsid as nat);
    lemma_setting_nsid(v.nsid);
    let p = text::pieces(query_of(v), '&');
    assert(settings(p, 0) == Some((1u32, None::<Seq<char>>)));
    match v.host_nqn {
        None => {
            text::lemma_one_piece(n0, '&');
            assert(p[0] == n0);
            assert(settings(p, 1) == Some((v.nsid, None::<Seq<char>>)));
        },
        Some(h) => {
            let h0 = "hostnqn="@ + h;
            lemma_setting_host(h);
            text::lemma_first_of_joined(n0, '&', h0);
            text::lemma_one_piece(h0, '&');
            assert(p =~= seq![n0, h0]);
            assert(settings(p, 1) == Some((v.nsid, None::<Seq<char>>)));
            assert(settings(p, 2) == Some((v.nsid, Some(h))));
        },
    }
}

/// An address that was written reads back as itself.
pub proof fn an_address_reads_back(v: SpecView)
    requires
        writable(v),
    ensures
        spec_of(uri_of(v)) == Some(v),
{
    let query = query_of(v);
    let path = v.nqn + seq!['?'] + query;
    let rest = v.addr + seq!['/'] + path;
    let u = uri_of(v);
    assert(u =~= "nvme-tcp://"@ + rest) by {
        reveal_strlit("/");
        reveal_strlit("?nsid=");
        reveal_strlit("&hostnqn=");
        reveal_strlit("nsid=");
        reveal_strlit("hostnqn=");
        match v.host_nqn {
            None => {},
            Some(h) => {},
        }
    }
    let pre = "nvme-tcp://"@;
    assert(u.take(pre.len() as int) =~= pre);
    assert(u.skip(pre.len() as int) =~= rest);
    text::lemma_first_of_joined(v.addr, '/', path);
    text::lemma_first_of_joined(v.nqn, '?', query);
    lemma_query(v);
}

/// Two to the power `n`.
pub open spec fn two_to(n: nat) -> nat
    decreases n,
{
    if n == 0 {
        1
    } else {
        2 * two_to((n - 1) as nat)
    }
}

/// What Identify Namespace data says: size in blocks, and block size. The data
/// has to be long enough, and the block size between 512 bytes and 64 KB.
pub open spec fn identified_ns(data: Seq<u8>) -> Option<(u64, u32)> {
    let lbads = data[128 + (data[26] as int % 16) * 4 + 2];
    if data.len() < 384 || lbads < 9 || lbads > 16 {
        None
    } else {
        Some((bytes::le_value(data.subrange(0, 8)) as u64, two_to(lbads as nat) as u32))
    }
}

/// Decodes Identify Namespace: size in blocks, and block size in bytes.
pub fn decode_identify_ns(data: &[u8]) -> (r: Option<(u64, u32)>)
    ensures
        r == identified_ns(data@),
{
    if data.len() < 384 {
        return None;
    }
    proof {
        bytes::lemma_radix();
        reveal_with_fuel(two_to, 17);
    }
    let nsze: u64 = bytes::get_le(data, 0, 8);
    let at: usize = 128 + (data[26] as usize % 16) * 4;
    let lbads: u8 = data[at + 2];
    if lbads < 9 || lbads > 16 {
        return None;
    }
    let mut size: u32 = 1;
    let mut k: u8 = 0;
    while k < lbads
        invariant
            k <= lbads <= 16,
            size == two_to(k as nat),
            size <= 65536,
            two_to(16) == 65536,
        decreases lbads - k,
    {
        proof {
            lemma_two_to_grows((k + 1) as nat, 16);
        }
        size = 2 * size;
        k = k + 1;
    }
    Some((nsze, size))
}

proof fn lemma_two_to_grows(a: nat, b: nat)
    requires
        a <= b,
    ensures
        0 < two_to(a) <= two_to(b),
    decreases b,
{
    if a < b {
        lemma_two_to_grows(a, (b - 1) as nat);
    } else if a > 0 {
        lemma_two_to_grows((a - 1) as nat, (a - 1) as nat);
    }
}

/// The text of the bytes `from..to`, trimmed; empty where the data ends
/// before.
pub open spec fn field_of(data: Seq<u8>, from: int, to: int) -> Seq<char> {
    if to <= data.len() {
        text::trimmed(text::lossy(data.subrange(from, to)))
    } else {
        Seq::empty()
    }
}

fn field(data: &[u8], from: usize, to: usize) -> (s: String)
    requires
        from <= to,
    ensures
        s@ == field_of(data@, from as int, to as int),
{
    if to <= data.len() {
        text::trim_text(&text::lossy_text(&data[from..to]))
    } else {
        String::new()
    }
}

/// Decodes Identify Controller: serial and model, trimmed.
pub fn decode_identify_ctrl(data: &[u8]) -> (r: (String, String))
    ensures
        r.0@ == field_of(data@, 4, 24),
        r.1@ == field_of(data@, 24, 64),
{
    (field(data, 4, 24), field(data, 24, 64))
}

/// The status field of a completion, without its phase bit.
pub open spec fn status_of(cqe: Seq<u8>) -> int {
    let raw = bytes::le_value(cqe.subrange(14, 16)) as int;
    raw - raw % 2
}

/// The status field of a completion: zero is success.
pub fn cqe_status(cqe: &[u8]) -> (s: u16)
    requires
        cqe@.len() == 16,
    ensures
        s == status_of(cqe@),
{
    proof {
        bytes::lemma_radix();
    }
    let raw: u64 = bytes::get_le(cqe, 14, 2);
    (raw - raw % 2) as u16
}

/// PDU types of NVMe over TCP.
pub const PDU_IC_REQ: u8 = 0x00;

pub const PDU_IC_RESP: u8 = 0x01;

pub const PDU_CAPSULE_CMD: u8 = 0x04;

pub const PDU_CAPSULE_RESP: u8 = 0x05;

pub const PDU_C2H_DATA: u8 = 0x07;

/// The header that begins every PDU.
#[derive(Debug, Clone, Copy, PartialEq, Eq, Structural)]
pub struct CommonHeader {
    pub pdu_type: u8,
    pub flags: u8,
    pub hlen: u8,
    pub pdo: u8,
    pub plen: u32,
}

/// The header that eight bytes hold.
pub open spec fn header_in(b: Seq<u8>) -> CommonHeader {
    CommonHeader {
        pdu_type: b[0],
        flags: b[1],
        hlen: b[2],
        pdo: b[3],
        plen: bytes::le_value(b.subrange(4, 8)) as u32,
    }
}

impl CommonHeader {
    /// The header as it is sent.
    pub open spec fn encoded(self) -> Seq<u8> {
        seq![self.pdu_type, self.flags, self.hlen, self.pdo] + bytes::le_bytes(self.plen as nat, 4)
    }

    /// The header as it is sent.
    pub fn to_bytes(&self) -> (buf: Vec<u8>)
        ensures
            buf@ == self.encoded(),
            buf@.len() == 8,
    {
        let mut buf: Vec<u8> = Vec::new();
        buf.push(self.pdu_type);
        buf.push(self.flags);
        buf.push(self.hlen);
        buf.push(self.pdo);
        bytes::push_le(&mut buf, self.plen as u64, 4);
        proof {
            bytes::lemma_le_bytes_len(self.plen as nat, 4);
        }
        assert(buf@ =~= self.encoded());
        buf
    }

    /// The header in the first eight bytes.
    pub fn from_bytes(buf: &[u8]) -> (h: Self)
        requires
            buf@.len() >= 8,
        ensures
            h == header_in(buf@),
            h.encoded() == buf@.subrange(0, 8),
    {
        proof {
            bytes::lemma_radix();
            bytes::le_value_round_trip(buf@.subrange(4, 8));
        }
        let h = CommonHeader {
            pdu_type: buf[0],
            flags: buf[1],
            hlen: buf[2],
            pdo: buf[3],
            plen: bytes::get_le(buf, 4, 4) as u32,
        };
        assert(h.encoded() =~= buf@.subrange(0, 8));
        h
    }
}

/// The connection request: 128 bytes that ask for up to four transfers in
/// flight.
pub open spec fn ic_req() -> Seq<u8> {
    (CommonHeader { pdu_type: PDU_IC_REQ, flags: 0, hlen: 128, pdo: 0, plen: 128 }).encoded()
        + bytes::zeros(4) + bytes::le_bytes(4, 4) + bytes::zeros(112)
}

/// The connection request.
pub fn ic_request() -> (buf: Vec<u8>)
    ensures
        buf@ == ic_req(),
        buf@.len() == 128,
{
    let mut buf = (CommonHeader { pdu_type: PDU_IC_REQ, flags: 0, hlen: 128, pdo: 0, plen: 128 }).to_bytes();
    bytes::push_zeros(&mut buf, 4);
    bytes::push_le(&mut buf, 4, 4);
    bytes::push_zeros(&mut buf, 112);
    proof {
        bytes::lemma_le_bytes_len(4, 4);
    }
    buf
}

/// Whether a reply accepts the connection.
pub fn ic_accepted(reply: &[u8]) -> (yes: bool)
    requires
        reply@.len() >= 8,
    ensures
        yes == (reply@[0] == PDU_IC_RESP),
{
    reply[0] == PDU_IC_RESP
}

/// The header of a command capsule that carries `data_len` bytes.
pub fn capsule_header(data_len: u32) -> (h: CommonHeader)
    requires
        data_len <= u32::MAX - 72,
    ensures
        h == (CommonHeader {
            pdu_type: PDU_CAPSULE_CMD,
            flags: 0,
            hlen: 72,
            pdo: if data_len == 0 {
                0
            } else {
                72
            },
            plen: (72 + data_len) as u32,
        }),
        h.pdu_type == 4,
        h.plen == h.hlen + data_len,
        data_len > 0 ==> h.pdo == h.hlen,
{
    CommonHeader {
        pdu_type: PDU_CAPSULE_CMD,
        flags: 0,
        hlen: 72,
        pdo: if data_len == 0 {
            0
        } else {
            72
        },
        plen: 72 + data_len,
    }
}

/// The command id after `cid`: zero is left out.
pub fn next_cid(cid: u16) -> (r: u16)
    ensures
        r == (if cid == u16::MAX {
            1
        } else {
            cid + 1
        }),
        r != 0,
        r != cid,
{
    if cid == u16::MAX {
        1
    } else {
        cid + 1
    }
}

/// A fabrics Connect command for queue `qid`.
pub open spec fn connect_sqe(cid: u16, qid: u16) -> Seq<u8> {
    seq![0x7fu8, 0] + bytes::le_bytes(cid as nat, 2) + seq![1u8] + bytes::zeros(37)
        + bytes::le_bytes(qid as nat, 2) + bytes::le_bytes(127, 2) + bytes::zeros(18)
}

/// A fabrics Connect command.
pub fn connect_command(cid: u16, qid: u16) -> (sqe: Vec<u8>)
    ensures
        sqe@ == connect_sqe(cid, qid),
        sqe@.len() == 64,
{
    broadcast use bytes::lemma_le_bytes_len;

    let mut sqe: Vec<u8> = Vec::new();
    sqe.push(0x7f);
    sqe.push(0);
    bytes::push_le(&mut sqe, cid as u64, 2);
    sqe.push(1);
    bytes::push_zeros(&mut sqe, 37);
    bytes::push_le(&mut sqe, qid as u64, 2);
    bytes::push_le(&mut sqe, 127, 2);
    bytes::push_zeros(&mut sqe, 18);
    assert(sqe@ =~= connect_sqe(cid, qid));
    sqe
}

/// The first `n` bytes of a text, filled up with zeros.
pub open spec fn name_field(name: Seq<char>, n: nat) -> Seq<u8> {
    let b = vstd::utf8::encode_utf8(name);
    if b.len() < n {
        b + bytes::zeros((n - b.len()) as nat)
    } else {
        b.take(n as int)
    }
}

/// The data of a Connect command: host number and tail, any controller, the
/// subsystem's name and the host's. The host's name is the identity the
/// target sees.
pub open spec fn connect_data_of(host: u32, nqn: Seq<char>, host_nqn: Seq<char>) -> Seq<u8> {
    bytes::le_bytes(host as nat, 4) + Seq::new(12, |i: int| 0x53u8) + seq![0xffu8, 0xff]
        + bytes::zeros(238) + name_field(nqn, 256) + name_field(host_nqn, 256) + bytes::zeros(256)
}

fn push_name(buf: &mut Vec<u8>, name: &str, n: usize)
    ensures
        final(buf)@ == old(buf)@ + name_field(name@, n as nat),
{
    let b = name.as_bytes();
    if b.len() < n {
        buf.extend_from_slice(b);
        bytes::push_zeros(buf, n - b.len());
    } else {
        buf.extend_from_slice(&b[0..n]);
        assert(b@.subrange(0, n as int) =~= b@.take(n as int));
    }
    assert(buf@ =~= old(buf)@ + name_field(name@, n as nat));
}

/// The data of a Connect command.
pub fn connect_data(host: u32, nqn: &str, host_nqn: &str) -> (data: Vec<u8>)
    ensures
        data@ == connect_data_of(host, nqn@, host_nqn@),
        data@.len() == 1024,
{
    broadcast use bytes::lemma_le_bytes_len;

    let mut data: Vec<u8> = Vec::new();
    bytes::push_le(&mut data, host as u64, 4);
    let mut k: usize = 0;
    let ghost head = data@;
    while k < 12
        invariant
            k <= 12,
            data@ == head + Seq::new(k as nat, |i: int| 0x53u8),
        decreases 12 - k,
    {
        data.push(0x53);
        k = k + 1;
        assert(data@ =~= head + Seq::new(k as nat, |i: int| 0x53u8));
    }
    data.push(0xff);
    data.push(0xff);
    bytes::push_zeros(&mut data, 238);
    push_name(&mut data, nqn, 256);
    push_name(&mut data, host_nqn, 256);
    bytes::push_zeros(&mut data, 256);
    assert(data@ =~= connect_data_of(host, nqn@, host_nqn@));
    data
}

/// A command with an opcode, a namespace and the dwords 10 to 12.
pub open spec fn sqe_of(opcode: u8, cid: u16, nsid: u32, dw10: u32, dw11: u32, dw12: u32) -> Seq<
    u8,
> {
    seq![opcode, 0u8] + bytes::le_bytes(cid as nat, 2) + bytes::le_bytes(nsid as nat, 4)
        + bytes::zeros(32) + bytes::le_bytes(dw10 as nat, 4) + bytes::le_bytes(dw11 as nat, 4)
        + bytes::le_bytes(dw12 as nat, 4) + bytes::zeros(12)
}

/// A command is read where the controller reads it: the opcode in byte 0, the
/// command id in 2 and 3, the namespace in 4 to 7 and the dwords 10 to 12 from
/// byte 40 on, least significant byte first; dwords 10 and 11 together are one
/// number of 64 bits. All else is zero.
pub proof fn a_command_is_laid_out(
    opcode: u8,
    cid: u16,
    nsid: u32,
    dw10: u32,
    dw11: u32,
    dw12: u32,
)
    ensures
        ({
            let b = sqe_of(opcode, cid, nsid, dw10, dw11, dw12);
            &&& b.len() == 64
            &&& b[0] == opcode
            &&& b[1] == 0
            &&& bytes::le_value(b.subrange(2, 4)) == cid
            &&& bytes::le_value(b.subrange(4, 8)) == nsid
            &&& bytes::le_value(b.subrange(40, 44)) == dw10
            &&& bytes::le_value(b.subrange(44, 48)) == dw11
            &&& bytes::le_value(b.subrange(40, 48)) == dw10 + 0x1_0000_0000 * dw11
            &&& bytes::le_value(b.subrange(48, 52)) == dw12
            &&& forall|i: int| 8 <= i < 40 || 52 <= i < 64 ==> #[trigger] b[i] == 0
        }),
{
    broadcast use bytes::lemma_le_bytes_len;

    bytes::lemma_radix();
    let b = sqe_of(opcode, cid, nsid, dw10, dw11, dw12);
    assert(b.len() == 64);
    assert(b.subrange(2, 4) =~= bytes::le_bytes(cid as nat, 2));
    assert(b.subrange(4, 8) =~= bytes::le_bytes(nsid as nat, 4));
    assert(b.subrange(40, 44) =~= bytes::le_bytes(dw10 as nat, 4));
    assert(b.subrange(44, 48) =~= bytes::le_bytes(dw11 as nat, 4));
    assert(b.subrange(48, 52) =~= bytes::le_bytes(dw12 as nat, 4));
    assert(b.subrange(40, 48) =~= b.subrange(40, 44) + b.subrange(44, 48));
    bytes::later_bytes_weigh_more(b.subrange(40, 44), b.subrange(44, 48), 0);
    bytes::le_round_trip(cid as nat, 2);
    bytes::le_round_trip(nsid as nat, 4);
    bytes::le_round_trip(dw10 as nat, 4);
    bytes::le_round_trip(dw11 as nat, 4);
    bytes::le_round_trip(dw12 as nat, 4);
}

fn command(opcode: u8, cid: u16, nsid: u32, dw10: u32, dw11: u32, dw12: u32) -> (sqe: Vec<u8>)
    ensures
        sqe@ == sqe_of(opcode, cid, nsid, dw10, dw11, dw12),
        sqe@.len() == 64,
{
    broadcast use bytes::lemma_le_bytes_len;

    let mut sqe: Vec<u8> = Vec::new();
    sqe.push(opcode);
    sqe.push(0);
    bytes::push_le(&mut sqe, cid as u64, 2);
    bytes::push_le(&mut sqe, nsid as u64, 4);
    bytes::push_zeros(&mut sqe, 32);
    bytes::push_le(&mut sqe, dw10 as u64, 4);
    bytes::push_le(&mut sqe, dw11 as u64, 4);
    bytes::push_le(&mut sqe, dw12 as u64, 4);
    bytes::push_zeros(&mut sqe, 12);
    assert(sqe@ =~= sqe_of(opcode, cid, nsid, dw10, dw11, dw12));
    sqe
}

/// An Identify command for structure `cns`.
pub fn identify_command(cid: u16, cns: u8, nsid: u32) -> (sqe: Vec<u8>)
    ensures
        sqe@ == sqe_of(6, cid, nsid, cns as u32, 0, 0),
        sqe@.len() == 64,
        sqe@[0] == 6,
        bytes::le_value(sqe@.subrange(2, 4)) == cid,
        bytes::le_value(sqe@.subrange(4, 8)) == nsid,
        bytes::le_value(sqe@.subrange(40, 44)) == cns,
{
    proof {
        a_command_is_laid_out(6, cid, nsid, cns as u32, 0, 0);
    }
    command(6, cid, nsid, cns as u32, 0, 0)
}

/// A Read command for `nlb` blocks from `slba` on.
pub fn read_command(cid: u16, nsid: u32, slba: u64, nlb: u16) -> (sqe: Vec<u8>)
    requires
        nlb > 0,
    ensures
        sqe@ == sqe_of(
            2,
            cid,
            nsid,
            (slba % 0x1_0000_0000) as u32,
            (slba / 0x1_0000_0000) as u32,
            (nlb - 1) as u32,
        ),
        sqe@.len() == 64,
        sqe@[0] == 2,
        bytes::le_value(sqe@.subrange(2, 4)) == cid,
        bytes::le_value(sqe@.subrange(4, 8)) == nsid,
        bytes::le_value(sqe@.subrange(40, 48)) == slba,
        bytes::le_value(sqe@.subrange(48, 52)) + 1 == nlb,
{
    proof {
        a_command_is_laid_out(
            2,
            cid,
            nsid,
            (slba % 0x1_0000_0000) as u32,
            (slba / 0x1_0000_0000) as u32,
            (nlb - 1) as u32,
        );
    }
    command(
        2,
        cid,
        nsid,
        (slba % 0x1_0000_0000) as u32,
        (slba / 0x1_0000_0000) as u32,
        (nlb - 1) as u32,
    )
}

/// A Write command for `nlb` blocks from `slba` on.
pub fn write_command(cid: u16, nsid: u32, slba: u64, nlb: u16) -> (sqe: Vec<u8>)
    requires
        nlb > 0,
    ensures
        sqe@ == sqe_of(
            1,
            cid,
            nsid,
            (slba % 0x1_0000_0000) as u32,
            (slba / 0x1_0000_0000) as u32,
            (nlb - 1) as u32,
        ),
        sqe@.len() == 64,
        sqe@[0] == 1,
        bytes::le_value(sqe@.subrange(2, 4)) == cid,
        bytes::le_value(sqe@.subrange(4, 8)) == nsid,
        bytes::le_value(sqe@.subrange(40, 48)) == slba,
        bytes::le_value(sqe@.subrange(48, 52)) + 1 == nlb,
{
    proof {
        a_command_is_laid_out(
            1,
            cid,
            nsid,
            (slba % 0x1_0000_0000) as u32,
            (slba / 0x1_0000_0000) as u32,
            (nlb - 1) as u32,
        );
    }
    command(
        1,
        cid,
        nsid,
        (slba % 0x1_0000_0000) as u32,
        (slba / 0x1_0000_0000) as u32,
        (nlb - 1) as u32,
    )
}

/// A Flush command.
pub fn flush_command(cid: u16, nsid: u32) -> (sqe: Vec<u8>)
    ensures
        sqe@ == sqe_of(0, cid, nsid, 0, 0, 0),
        sqe@.len() == 64,
        sqe@[0] == 0,
        bytes::le_value(sqe@.subrange(2, 4)) == cid,
        bytes::le_value(sqe@.subrange(4, 8)) == nsid,
{
    proof {
        a_command_is_laid_out(0, cid, nsid, 0, 0, 0);
    }
    command(0, cid, nsid, 0, 0, 0)
}

/// A Dataset Management command that deallocates one range, and the range.
pub fn deallocate_command(cid: u16, nsid: u32, slba: u64, nlb: u32) -> (r: (Vec<u8>, Vec<u8>))
    ensures
        r.0@ == sqe_of(9, cid, nsid, 0, 4, 0),
        r.0@.len() == 64,
        r.1@ == bytes::zeros(4) + bytes::le_bytes(nlb as nat, 4) + bytes::le_bytes(slba as nat, 8),
        r.1@.len() == 16,
        r.0@[0] == 9,
        bytes::le_value(r.0@.subrange(2, 4)) == cid,
        bytes::le_value(r.0@.subrange(4, 8)) == nsid,
        bytes::le_value(r.0@.subrange(40, 44)) == 0,
        bytes::le_value(r.0@.subrange(44, 48)) == 4,
        bytes::le_value(r.1@.subrange(0, 4)) == 0,
        bytes::le_value(r.1@.subrange(4, 8)) == nlb,
        bytes::le_value(r.1@.subrange(8, 16)) == slba,
{
    broadcast use bytes::lemma_le_bytes_len;

    proof {
        a_command_is_laid_out(9, cid, nsid, 0, 4, 0);
    }

    let mut range: Vec<u8> = Vec::new();
    bytes::push_zeros(&mut range, 4);
    bytes::push_le(&mut range, nlb as u64, 4);
    bytes::push_le(&mut range, slba, 8);
    assert(range@ =~= bytes::zeros(4) + bytes::le_bytes(nlb as nat, 4) + bytes::le_bytes(
        slba as nat,
        8,
    ));
    proof {
        bytes::lemma_radix();
        assert(range@.subrange(0, 4) =~= bytes::zeros(4));
        assert(range@.subrange(4, 8) =~= bytes::le_bytes(nlb as nat, 4));
        assert(range@.subrange(8, 16) =~= bytes::le_bytes(slba as nat, 8));
        bytes::zeros_are_nothing(4);
        bytes::le_round_trip(nlb as nat, 4);
        bytes::le_round_trip(slba as nat, 8);
    }
    (command(9, cid, nsid, 0, 4, 0), range)
}

/// Why a command failed.
#[derive(Debug, Clone, Copy, PartialEq, Eq, Structural)]
pub enum CommandFault {
    /// The target answered with this status.
    Status(u16),
    /// Data came with a failing status behind it.
    ReadStatus(u16),
    /// A PDU of this type where only a completion could stand.
    NotACompletion(u8),
    /// A PDU of this type that has no place in a data response.
    Unexpected(u8),
    /// Less data than asked for: wanted, and got.
    ShortRead { wanted: usize, got: usize },
}

impl CommandFault {
    /// The fault in words.
    pub open spec fn message(self) -> Seq<char> {
        match self {
            CommandFault::Status(s) => "command failed: status 0x"@ + text::hex(s as nat),
            CommandFault::ReadStatus(s) => "read failed: status 0x"@ + text::hex(s as nat),
            CommandFault::NotACompletion(t) => "expected CapsuleResp, got PDU type "@
                + text::decimal(t as nat),
            CommandFault::Unexpected(t) => "unexpected PDU type "@ + text::decimal(t as nat)
                + " in data response"@,
            CommandFault::ShortRead { wanted, got } => "short read: wanted "@ + text::decimal(
                wanted as nat,
            ) + ", got "@ + text::decimal(got as nat),
        }
    }

    /// The fault in words.
    pub fn to_string(&self) -> (s: String)
        ensures
            s@ == self.message(),
    {
        match *self {
            CommandFault::Status(x) => {
                let mut s = "command failed: status 0x".to_owned();
                text::push_hex(&mut s, x as u64);
                s
            },
            CommandFault::ReadStatus(x) => {
                let mut s = "read failed: status 0x".to_owned();
                text::push_hex(&mut s, x as u64);
                s
            },
            CommandFault::NotACompletion(t) => {
                let mut s = "expected CapsuleResp, got PDU type ".to_owned();
                text::push_decimal(&mut s, t as u64);
                s
            },
            CommandFault::Unexpected(t) => {
                let mut s = "unexpected PDU type ".to_owned();
                text::push_decimal(&mut s, t as u64);
                s.append(" in data response");
                s
            },
            CommandFault::ShortRead { wanted, got } => {
                let mut s = "short read: wanted ".to_owned();
                text::push_decimal(&mut s, wanted as u64);
                s.append(", got ");
                text::push_decimal(&mut s, got as u64);
                s
            },
        }
    }
}

/// A PDU that arrived in answer to a command that reads.
pub enum DataPdu {
    /// Data: the flags, how much of the payload counts, and the payload.
    Data { flags: u8, datal: u32, payload: Vec<u8> },
    /// A completion with this status.
    Completion { status: u16 },
    /// Anything else, by its type.
    Other { pdu_type: u8 },
}

/// How far the answer to a command that reads has come.
pub struct DataResponse {
    pub data: Vec<u8>,
    /// All data is there and a completion has to follow.
    pub awaiting_status: bool,
}

/// What to do after a PDU.
#[derive(Debug, Clone, Copy, PartialEq, Eq, Structural)]
pub enum DataNext {
    More,
    Done,
    Failed(CommandFault),
}

/// What stays of a payload: its first `datal` bytes.
pub open spec fn counted(payload: Seq<u8>, datal: u32) -> Seq<u8> {
    if datal < payload.len() {
        payload.take(datal as int)
    } else {
        payload
    }
}

/// Whether bit `b`, a power of two, is set in `flags`.
pub open spec fn flag_set(flags: u8, b: int) -> bool {
    (flags as int / b) % 2 == 1
}

/// What a PDU makes of a response: data is added up; the last data PDU ends
/// the response, or announces that a completion follows; a completion ends it
/// with its status.
pub open spec fn data_step(data: Seq<u8>, awaiting: bool, pdu: DataPdu) -> (
    Seq<u8>,
    bool,
    DataNext,
) {
    match pdu {
        DataPdu::Completion { status } => (
            data,
            awaiting,
            if status == 0 {
                DataNext::Done
            } else if awaiting {
                DataNext::Failed(CommandFault::ReadStatus(status))
            } else {
                DataNext::Failed(CommandFault::Status(status))
            },
        ),
        DataPdu::Other { pdu_type } => (
            data,
            awaiting,
            DataNext::Failed(
                if awaiting {
                    CommandFault::NotACompletion(pdu_type)
                } else {
                    CommandFault::Unexpected(pdu_type)
                },
            ),
        ),
        DataPdu::Data { flags, datal, payload } => if awaiting {
            (data, awaiting, DataNext::Failed(CommandFault::NotACompletion(PDU_C2H_DATA)))
        } else {
            (
                data + counted(payload@, datal),
                flag_set(flags, 4) && !flag_set(flags, 8),
                if flag_set(flags, 4) && flag_set(flags, 8) {
                    DataNext::Done
                } else {
                    DataNext::More
                },
            )
        },
    }
}

impl DataResponse {
    /// Nothing has arrived yet.
    pub fn new() -> (r: Self)
        ensures
            r.data@.len() == 0,
            !r.awaiting_status,
    {
        DataResponse { data: Vec::new(), awaiting_status: false }
    }

    /// Takes in one PDU.
    pub fn step(&mut self, pdu: DataPdu) -> (next: DataNext)
        ensures
            (final(self).data@, final(self).awaiting_status, next) == data_step(
                old(self).data@,
                old(self).awaiting_status,
                pdu,
            ),
    {
        match pdu {
            DataPdu::Completion { status } => if status == 0 {
                DataNext::Done
            } else if self.awaiting_status {
                DataNext::Failed(CommandFault::ReadStatus(status))
            } else {
                DataNext::Failed(CommandFault::Status(status))
            },
            DataPdu::Other { pdu_type } => if self.awaiting_status {
                DataNext::Failed(CommandFault::NotACompletion(pdu_type))
            } else {
                DataNext::Failed(CommandFault::Unexpected(pdu_type))
            },
            DataPdu::Data { flags, datal, payload } => {
                if self.awaiting_status {
                    return DataNext::Failed(CommandFault::NotACompletion(PDU_C2H_DATA));
                }
                let ghost all = payload@;
                let mut payload = payload;
                if (datal as u64) < payload.len() as u64 {
                    payload.truncate(datal as usize);
                    assert(payload@ =~= all.take(datal as int));
                }
                self.data.extend_from_slice(&payload);
                assert(self.data@ =~= old(self).data@ + counted(all, datal));
                let last: bool = (flags / 4) % 2 == 1;
                let success: bool = (flags / 8) % 2 == 1;
                self.awaiting_status = last && !success;
                if last && success {
                    DataNext::Done
                } else {
                    DataNext::More
                }
            },
        }
    }

    /// The data, where there is as much of it as was asked for.
    pub fn finish(self, wanted: usize) -> (r: Result<Vec<u8>, CommandFault>)
        ensures
            match r {
                Ok(d) => d@ == self.data@ && d@.len() == wanted,
                Err(e) => self.data@.len() != wanted && e == (CommandFault::ShortRead {
                    wanted,
                    got: self.data@.len() as usize,
                }),
            },
    {
        if self.data.len() != wanted {
            return Err(CommandFault::ShortRead { wanted, got: self.data.len() });
        }
        Ok(self.data)
    }
}

/// What a completion says of a command without data.
pub fn completion_result(status: u16) -> (r: Result<(), CommandFault>)
    ensures
        r == (if status == 0 {
            Ok(())
        } else {
            Err(CommandFault::Status(status))
        }),
{
    if status == 0 {
        Ok(())
    } else {
        Err(CommandFault::Status(status))
    }
}

/// A remote namespace attached as a local drive.
pub struct NvmeofDevice {
    pub spec: NvmeTcpSpec,
    pub capacity: u64,
    pub block_size: u32,
    pub id: DeviceId,
}

/// Why a namespace could not be attached.
#[derive(Debug, Clone, Copy, PartialEq, Eq, Structural)]
pub enum AttachFault {
    /// The namespace's data could not be read.
    Unparseable,
    /// The namespace has no blocks.
    ZeroSize,
}

impl NvmeofDevice {
    /// The drive that the controller's and the namespace's data describe. Its
    /// identity comes from the address, never minted fresh, so it is the same
    /// after every reconnect.
    pub fn attach(spec: NvmeTcpSpec, ctrl: &[u8], ns: &[u8]) -> (r: Result<Self, AttachFault>)
        requires
            identified_ns(ns@) matches Some((blocks, size)) ==> blocks * size <= u64::MAX,
        ensures
            match r {
                Err(e) => match identified_ns(ns@) {
                    None => e == AttachFault::Unparseable,
                    Some((blocks, size)) => blocks == 0 && e == AttachFault::ZeroSize,
                },
                Ok(d) => {
                    let serial = field_of(ctrl@, 4, 24);
                    let model = field_of(ctrl@, 24, 64);
                    &&& identified_ns(ns@) matches Some((blocks, size))
                    &&& blocks > 0
                    &&& d.capacity == blocks * size
                    &&& d.block_size == size
                    &&& d.spec@ == spec@
                    &&& d.id.uuid.bits == ids::uuid_v5_url(
                        vstd::utf8::encode_utf8(uri_of(spec@)),
                    )
                    &&& d.id.path@ == uri_of(spec@)
                    &&& d.id.serial@ == if serial.len() == 0 {
                        "nvme-tcp-"@ + text::decimal(spec.nsid as nat)
                    } else {
                        serial
                    }
                    &&& d.id.model@ == if model.len() == 0 {
                        "NVMe-TCP"@
                    } else {
                        model
                    }
                },
            },
    {
        let (blocks, block_size) = match decode_identify_ns(ns) {
            None => {
                return Err(AttachFault::Unparseable);
            },
            Some(x) => x,
        };
        if blocks == 0 {
            return Err(AttachFault::ZeroSize);
        }
        let capacity: u64 = blocks * block_size as u64;
        let (serial, model) = decode_identify_ctrl(ctrl);
        let uri = spec.uri();
        let serial = if serial.as_str().is_empty() {
            let mut s = "nvme-tcp-".to_owned();
            text::push_decimal(&mut s, spec.nsid as u64);
            s
        } else {
            serial
        };
        let model = if model.as_str().is_empty() {
            "NVMe-TCP".to_owned()
        } else {
            model
        };
        let id = DeviceId { uuid: Uuid::for_url(&uri), serial, model, path: uri };
        Ok(NvmeofDevice { spec, capacity, block_size, id })
    }

    /// Whether a request is in blocks and inside the namespace.
    pub fn check_aligned(&self, offset: u64, len: u64) -> (r: DriveResult<()>)
        requires
            self.block_size > 0,
            offset + len <= u64::MAX,
        ensures
            match r {
                Ok(_) => {
                    &&& offset % self.block_size as u64 == 0
                    &&& len % self.block_size as u64 == 0
                    &&& offset + len <= self.capacity
                },
                Err(e) => if offset % self.block_size as u64 != 0 || len % self.block_size as u64
                    != 0 {
                    e == (DriveError::NotAligned { offset, block_size: self.block_size })
                } else {
                    offset + len > self.capacity && e == (DriveError::OutOfRange {
                        offset,
                        len,
                        capacity: self.capacity,
                    })
                },
            },
    {
        let bs: u64 = self.block_size as u64;
        if offset % bs != 0 || len % bs != 0 {
            return Err(DriveError::NotAligned { offset, block_size: self.block_size });
        }
        if offset + len > self.capacity {
            return Err(DriveError::OutOfRange { offset, len, capacity: self.capacity });
        }
        Ok(())
    }
}

/// One command's share of a transfer: which blocks, and which bytes of the
/// buffer.
#[derive(Debug, Clone, Copy, PartialEq, Eq, Structural)]
pub struct Chunk {
    pub slba: u64,
    pub nlb: u16,
    pub from: u64,
    pub len: u64,
}

/// Whether `chunks` carry `len` bytes at `offset`: in order, without a gap,
/// each in whole blocks and no larger than the cap, each but the last exactly
/// the cap.
pub open spec fn carries(chunks: Seq<Chunk>, offset: int, len: int, bs: int) -> bool {
    &&& chunks.len() == (len + MAX_CHUNK - 1) / MAX_CHUNK as int
    &&& forall|i: int|
        0 <= i < chunks.len() ==> {
            let c = #[trigger] chunks[i];
            &&& c.from == i * MAX_CHUNK
            &&& c.len == if len - c.from < MAX_CHUNK {
                len - c.from
            } else {
                MAX_CHUNK as int
            }
            &&& c.slba == (offset + c.from) / bs
            &&& c.nlb == c.len as int / bs as int
        }
}

/// The commands that carry `len` bytes at `offset`.
pub fn plan_transfer(offset: u64, len: u64, bs: u32) -> (chunks: Vec<Chunk>)
    requires
        bs >= 4,
        offset + len <= u64::MAX - MAX_CHUNK,
    ensures
        carries(chunks@, offset as int, len as int, bs as int),
{
    let mut chunks: Vec<Chunk> = Vec::new();
    let mut done: u64 = 0;
    let size: u64 = bs as u64;
    while done < len
        invariant
            size == bs >= 4,
            offset + len <= u64::MAX - MAX_CHUNK,
            done == chunks@.len() * MAX_CHUNK || (done == len && chunks@.len() == (len + MAX_CHUNK
                - 1) / MAX_CHUNK as int),
            done <= len,
            forall|i: int|
                0 <= i < chunks@.len() ==> {
                    let c = #[trigger] chunks@[i];
                    &&& c.from == i * MAX_CHUNK
                    &&& c.from < len
                    &&& c.len == if len - c.from < MAX_CHUNK {
                        len - c.from
                    } else {
                        MAX_CHUNK as int
                    }
                    &&& c.slba == (offset + c.from) / bs as int
                    &&& c.nlb == c.len as int / bs as int
                },
        decreases len - done,
    {
        let chunk: u64 = if len - done < MAX_CHUNK as u64 {
            len - done
        } else {
            MAX_CHUNK as u64
        };
        assert(chunk / size <= 32768) by (nonlinear_arith)
            requires
                chunk <= 131072,
                size >= 4,
        ;
        chunks.push(
            Chunk {
                slba: (offset + done) / size,
                nlb: (chunk / size) as u16,
                from: done,
                len: chunk,
            },
        );
        done = done + chunk;
    }
    chunks
}

/// Whether `ranges`, first block and count of each, are the blocks
/// `first..first + count` cut into counts that fit 32 bits.
pub open spec fn covers_blocks(ranges: Seq<(u64, u32)>, first: int, count: int) -> bool {
    &&& forall|i: int|
        0 <= i < ranges.len() ==> {
            let r = #[trigger] ranges[i];
            &&& r.0 == first + i * u32::MAX
            &&& r.1 == if count - i * u32::MAX < u32::MAX {
                count - i * u32::MAX
            } else {
                u32::MAX as int
            }
            &&& r.1 > 0
        }
    &&& ranges.len() == (count + u32::MAX - 1) / u32::MAX as int
}

/// The ranges to deallocate for `len` bytes at `offset`.
pub fn plan_discard(offset: u64, len: u64, bs: u32) -> (ranges: Vec<(u64, u32)>)
    requires
        bs > 0,
        offset + len <= u64::MAX,
    ensures
        covers_blocks(ranges@, offset as int / bs as int, len as int / bs as int),
{
    let first: u64 = offset / bs as u64;
    let count: u64 = len / bs as u64;
    let mut ranges: Vec<(u64, u32)> = Vec::new();
    let mut done: u64 = 0;
    proof {
        assert(first <= offset) by (nonlinear_arith)
            requires
                first == offset as int / bs as int,
                bs > 0,
                offset >= 0,
        ;
        assert(count <= len) by (nonlinear_arith)
            requires
                count == len as int / bs as int,
                bs > 0,
                len >= 0,
        ;
    }
    while done < count
        invariant
            done <= count,
            first + count <= u64::MAX,
            done == ranges@.len() * u32::MAX || (done == count && ranges@.len() == (count
                + u32::MAX - 1) / u32::MAX as int),
            forall|i: int|
                0 <= i < ranges@.len() ==> {
                    let r = #[trigger] ranges@[i];
                    &&& r.0 == first + i * u32::MAX
                    &&& r.1 == if count - i * u32::MAX < u32::MAX {
                        count - i * u32::MAX
                    } else {
                        u32::MAX as int
                    }
                    &&& r.1 > 0
                },
        decreases count - done,
    {
        let n: u64 = if count - done < u32::MAX as u64 {
            count - done
        } else {
            u32::MAX as u64
        };
        ranges.push((first + done, n as u32));
        done = done + n;
    }
    ranges
}

/// The chunks of a transfer cover every byte of it exactly once.
pub proof fn a_transfer_moves_every_byte_once(
    chunks: Seq<Chunk>,
    offset: int,
    len: int,
    bs: int,
    p: int,
)
    requires
        0 <= len,
        carries(chunks, offset, len, bs),
        0 <= p < len,
    ensures
        exists|i: int|
            0 <= i < chunks.len() && (#[trigger] chunks[i]).from <= p < chunks[i].from
                + chunks[i].len,
        forall|i: int, j: int|
            0 <= i < j < chunks.len() ==> (#[trigger] chunks[i]).from + chunks[i].len <= (
            #[trigger] chunks[j]).from,
{
    let i = p / MAX_CHUNK as int;
    assert(chunks[i].from <= p < chunks[i].from + chunks[i].len);
}

} // verus!
