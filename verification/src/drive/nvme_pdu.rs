//! The answer to a command that reads, byte by byte: data PDUs, and a
//! completion that may follow them.
//!
//! A reader says how many bytes it needs next and is fed just those. A header
//! that claims less than it takes up is the caller's to refuse.
use crate::bytes;
use crate::drive::nvmeof_dev;
use crate::drive::nvmeof_dev::{
    cqe_status, CommandFault, CommonHeader, DataNext, DataPdu, DataResponse, PDU_CAPSULE_RESP,
    PDU_C2H_DATA,
};
use vstd::prelude::*;

verus! {

/// Bytes of the header that every PDU begins with.
pub const HEADER_BYTES: usize = 8;

/// Bytes of what a data PDU's header adds to it.
pub const DATA_HEAD_BYTES: usize = 16;

/// Bytes of a completion.
pub const COMPLETION_BYTES: usize = 16;

/// Bytes of a PDU that is a completion and nothing more.
pub const BARE_COMPLETION: u32 = 24;

/// Whether a PDU is at least as long as its header says of itself and its type
/// has it.
pub open spec fn is_sane(h: CommonHeader) -> bool {
    if h.pdu_type == PDU_C2H_DATA {
        h.plen >= h.hlen
    } else if h.pdu_type == PDU_CAPSULE_RESP {
        h.plen >= BARE_COMPLETION
    } else {
        true
    }
}

/// Whether a PDU is at least as long as its header says.
pub fn sane(h: &CommonHeader) -> (yes: bool)
    ensures
        yes == is_sane(*h),
{
    if h.pdu_type == PDU_C2H_DATA {
        h.plen >= h.hlen as u32
    } else if h.pdu_type == PDU_CAPSULE_RESP {
        h.plen >= BARE_COMPLETION
    } else {
        true
    }
}

/// How many bytes follow a completion; or what stands in its place.
pub fn after_completion(h: &CommonHeader) -> (r: Result<u32, CommandFault>)
    requires
        is_sane(*h),
    ensures
        r == (if h.pdu_type == PDU_CAPSULE_RESP {
            Ok((h.plen - BARE_COMPLETION) as u32)
        } else {
            Err(CommandFault::NotACompletion(h.pdu_type))
        }),
{
    if h.pdu_type == PDU_CAPSULE_RESP {
        Ok(h.plen - BARE_COMPLETION)
    } else {
        Err(CommandFault::NotACompletion(h.pdu_type))
    }
}

/// What a reader waits for.
#[derive(Debug, Clone, Copy, PartialEq, Eq, Structural)]
pub enum Part {
    /// The header of a PDU.
    Header,
    /// The rest of a data PDU's header. So much payload comes behind it.
    DataHead { flags: u8, len: u32 },
    /// The payload, of which the first `datal` bytes count.
    Payload { flags: u8, datal: u32, len: u32 },
    /// A completion. So much comes behind it.
    Completion { extra: u32 },
    /// What comes behind a completion, and counts for nothing.
    Extra { status: u16, len: u32 },
}

/// How many bytes a part has.
pub open spec fn part_len(p: Part) -> int {
    match p {
        Part::Header => HEADER_BYTES as int,
        Part::DataHead { .. } => DATA_HEAD_BYTES as int,
        Part::Payload { len, .. } => len as int,
        Part::Completion { .. } => COMPLETION_BYTES as int,
        Part::Extra { len, .. } => len as int,
    }
}

/// How far a response has been read: the data so far, whether a completion has
/// to follow, and what comes next.
pub struct Progress {
    pub data: Seq<u8>,
    pub awaiting: bool,
    pub part: Part,
}

/// A whole PDU is taken in, and the next one begins.
pub open spec fn took(p: Progress, pdu: DataPdu) -> (Progress, DataNext) {
    let (data, awaiting, next) = nvmeof_dev::data_step(p.data, p.awaiting, pdu);
    (Progress { data, awaiting, part: Part::Header }, next)
}

/// A whole data PDU is taken in. None may come once a completion is awaited.
pub open spec fn took_data(p: Progress, flags: u8, datal: u32, payload: Seq<u8>) -> (
    Progress,
    DataNext,
) {
    let last = nvmeof_dev::flag_set(flags, 4);
    let success = nvmeof_dev::flag_set(flags, 8);
    if p.awaiting {
        (
            Progress { part: Part::Header, ..p },
            DataNext::Failed(CommandFault::NotACompletion(PDU_C2H_DATA)),
        )
    } else {
        (
            Progress {
                data: p.data + nvmeof_dev::counted(payload, datal),
                awaiting: last && !success,
                part: Part::Header,
            },
            if last && success {
                DataNext::Done
            } else {
                DataNext::More
            },
        )
    }
}

/// What bytes make of a response.
pub open spec fn fed(p: Progress, b: Seq<u8>) -> (Progress, DataNext) {
    let h = nvmeof_dev::header_in(b);
    match p.part {
        Part::Header => if h.pdu_type == PDU_CAPSULE_RESP {
            (
                Progress {
                    part: Part::Completion { extra: (h.plen - BARE_COMPLETION) as u32 },
                    ..p
                },
                DataNext::More,
            )
        } else if h.pdu_type == PDU_C2H_DATA && !p.awaiting {
            (
                Progress {
                    part: Part::DataHead { flags: h.flags, len: (h.plen - h.hlen) as u32 },
                    ..p
                },
                DataNext::More,
            )
        } else {
            took(p, DataPdu::Other { pdu_type: h.pdu_type })
        },
        Part::DataHead { flags, len } => {
            let datal = bytes::le_value(b.subrange(8, 12)) as u32;
            if len == 0 {
                took_data(p, flags, datal, Seq::empty())
            } else {
                (Progress { part: Part::Payload { flags, datal, len }, ..p }, DataNext::More)
            }
        },
        Part::Payload { flags, datal, len } => took_data(p, flags, datal, b),
        Part::Completion { extra } => {
            let status = nvmeof_dev::status_of(b) as u16;
            if extra == 0 {
                took(p, DataPdu::Completion { status })
            } else {
                (Progress { part: Part::Extra { status, len: extra }, ..p }, DataNext::More)
            }
        },
        Part::Extra { status, len } => took(p, DataPdu::Completion { status }),
    }
}

/// Reads the answer to a command that reads.
pub struct DataReader {
    pub response: DataResponse,
    pub part: Part,
}

impl DataReader {
    /// How far the reader has come.
    pub open spec fn progress(self) -> Progress {
        Progress {
            data: self.response.data@,
            awaiting: self.response.awaiting_status,
            part: self.part,
        }
    }

    /// A reader before the first byte.
    pub fn new() -> (r: Self)
        ensures
            r.progress() == (Progress {
                data: Seq::empty(),
                awaiting: false,
                part: Part::Header,
            }),
    {
        let r = DataReader { response: DataResponse::new(), part: Part::Header };
        assert(r.response.data@ =~= Seq::empty());
        r
    }

    /// How many bytes come next.
    pub fn wanted(&self) -> (n: usize)
        ensures
            n == part_len(self.part),
    {
        match self.part {
            Part::Header => HEADER_BYTES,
            Part::DataHead { .. } => DATA_HEAD_BYTES,
            Part::Payload { len, .. } => len as usize,
            Part::Completion { .. } => COMPLETION_BYTES,
            Part::Extra { len, .. } => len as usize,
        }
    }

    fn take(&mut self, pdu: DataPdu) -> (next: DataNext)
        ensures
            (final(self).progress(), next) == took(old(self).progress(), pdu),
    {
        self.part = Part::Header;
        self.response.step(pdu)
    }

    /// Takes in the bytes that were asked for.
    pub fn feed(&mut self, b: Vec<u8>) -> (next: DataNext)
        requires
            b@.len() == part_len(old(self).part),
            old(self).part is Header ==> is_sane(nvmeof_dev::header_in(b@)),
        ensures
            (final(self).progress(), next) == fed(old(self).progress(), b@),
    {
        match self.part {
            Part::Header => {
                let h = CommonHeader::from_bytes(&b);
                if h.pdu_type == PDU_CAPSULE_RESP {
                    self.part = Part::Completion { extra: h.plen - BARE_COMPLETION };
                    DataNext::More
                } else if h.pdu_type == PDU_C2H_DATA && !self.response.awaiting_status {
                    self.part = Part::DataHead { flags: h.flags, len: h.plen - h.hlen as u32 };
                    DataNext::More
                } else {
                    self.take(DataPdu::Other { pdu_type: h.pdu_type })
                }
            },
            Part::DataHead { flags, len } => {
                proof {
                    bytes::lemma_radix();
                }
                let datal: u32 = bytes::get_le(&b, 8, 4) as u32;
                if len == 0 {
                    let payload: Vec<u8> = Vec::new();
                    assert(payload@ =~= Seq::empty());
                    self.take(DataPdu::Data { flags, datal, payload })
                } else {
                    self.part = Part::Payload { flags, datal, len };
                    DataNext::More
                }
            },
            Part::Payload { flags, datal, len } => {
                self.take(DataPdu::Data { flags, datal, payload: b })
            },
            Part::Completion { extra } => {
                let status: u16 = cqe_status(&b);
                if extra == 0 {
                    self.take(DataPdu::Completion { status })
                } else {
                    self.part = Part::Extra { status, len: extra };
                    DataNext::More
                }
            },
            Part::Extra { status, len } => self.take(DataPdu::Completion { status }),
        }
    }
}

/// A data PDU adds its payload, whole, to what there is: it is read in three
/// parts, and the last of them ends the response where the PDU says so.
pub proof fn a_data_pdu_is_taken_whole(p: Progress, h: Seq<u8>, head: Seq<u8>, payload: Seq<u8>)
    requires
        p.part is Header,
        !p.awaiting,
        nvmeof_dev::header_in(h).pdu_type == PDU_C2H_DATA,
        nvmeof_dev::header_in(h).plen == nvmeof_dev::header_in(h).hlen + payload.len(),
        bytes::le_value(head.subrange(8, 12)) as u32 == payload.len(),
        payload.len() > 0,
    ensures
        ({
            let (p1, n1) = fed(p, h);
            let (p2, n2) = fed(p1, head);
            let (p3, n3) = fed(p2, payload);
            let flags = nvmeof_dev::header_in(h).flags;
            &&& n1 == DataNext::More && part_len(p1.part) == DATA_HEAD_BYTES
            &&& n2 == DataNext::More && part_len(p2.part) == payload.len()
            &&& p3.data == p.data + payload && p3.part is Header
            &&& n3 == (if nvmeof_dev::flag_set(flags, 4) && nvmeof_dev::flag_set(flags, 8) {
                DataNext::Done
            } else {
                DataNext::More
            })
        }),
{
}

/// What has been read stays in front, whatever comes; and once a completion is
/// awaited nothing is added.
pub proof fn data_only_grows(p: Progress, b: Seq<u8>)
    ensures
        ({
            let (after, next) = fed(p, b);
            &&& p.data.len() <= after.data.len()
            &&& after.data.take(p.data.len() as int) == p.data
            &&& p.awaiting ==> after.data == p.data
            &&& next is Done ==> !(p.part is Header)
        }),
{
    let (after, next) = fed(p, b);
    assert(after.data.take(p.data.len() as int) =~= p.data);
}

} // verus!
