//! The initiator side of iSCSI: a remote target as a local drive.
//!
//! Login without authentication, READ(10), WRITE(10), READ CAPACITY, UNMAP and
//! keep-alives. This module knows the bytes of the requests and what the
//! responses mean; the sockets are the caller's.
use crate::bytes;
use crate::drive::{DeviceId, DriveError, DriveResult};
use crate::ids;
use crate::ids::Uuid;
use crate::text;
use vstd::prelude::*;

verus! {

/// Opcodes of requests. A ping, a login and a logout carry the flag of what is
/// not to wait its turn.
pub const OP_NOP_OUT: u8 = 0x40;

pub const OP_SCSI_COMMAND: u8 = 0x01;

pub const OP_LOGIN_REQUEST: u8 = 0x43;

pub const OP_LOGOUT_REQUEST: u8 = 0x46;

/// Opcodes of responses.
pub const OP_NOP_IN: u8 = 0x20;

pub const OP_SCSI_RESPONSE: u8 = 0x21;

pub const OP_LOGIN_RESPONSE: u8 = 0x23;

pub const OP_DATA_IN: u8 = 0x25;

pub const OP_LOGOUT_RESPONSE: u8 = 0x26;

/// Login stages.
pub const STAGE_SECURITY: u8 = 0;

pub const STAGE_OPERATIONAL: u8 = 1;

pub const STAGE_FULL_FEATURE: u8 = 3;

/// The tag that stands for no task.
pub const NO_TAG: u32 = 0xffff_ffff;

/// The most a single command carries.
pub const MAX_TRANSFER: u64 = 65536;

/// Hands out a number to each connection, so that no two have the same
/// session identity.
pub struct IsidCounter {
    pub next: u32,
}

impl IsidCounter {
    /// Begins at one.
    pub fn new() -> (c: Self)
        ensures
            c.next == 1,
    {
        IsidCounter { next: 1 }
    }

    /// The next number.
    pub fn take(&mut self) -> (n: u32)
        ensures
            n == old(self).next,
            final(self).next == if n == u32::MAX {
                0
            } else {
                n + 1
            },
    {
        let n: u32 = self.next;
        self.next = if n == u32::MAX {
            0
        } else {
            n + 1
        };
        n
    }
}

/// The session identity of connection number `qualifier`.
pub open spec fn isid_of(qualifier: u32) -> Seq<u8> {
    seq![
        0x40u8,
        0,
        0,
        1,
        ((qualifier / 256) % 256) as u8,
        (qualifier % 256) as u8,
    ]
}

/// What is known of a session.
#[derive(Debug, Clone, Copy, PartialEq, Eq, Structural)]
pub struct Session {
    pub cmd_sn: u32,
    pub exp_stat_sn: u32,
    pub tsih: u16,
    pub itt: u32,
    pub max_recv_data_seg: u32,
    pub block_size: u32,
    pub qualifier: u32,
}

/// The bytes of a request's header, all 48, but for what the opcode adds.
pub open spec fn request_header(
    opcode: u8,
    flags: u8,
    data_len: u32,
    mid: Seq<u8>,
    itt: u32,
    word: u32,
    cmd_sn: u32,
    exp_stat_sn: u32,
    tail: Seq<u8>,
) -> Seq<u8> {
    seq![opcode, flags, 0u8, 0, 0] + bytes::be_bytes(data_len as nat, 3) + mid + bytes::be_bytes(
        itt as nat,
        4,
    ) + bytes::be_bytes(word as nat, 4) + bytes::be_bytes(cmd_sn as nat, 4) + bytes::be_bytes(
        exp_stat_sn as nat,
        4,
    ) + tail
}

fn build_header(
    opcode: u8,
    flags: u8,
    data_len: u32,
    mid: &[u8],
    itt: u32,
    word: u32,
    cmd_sn: u32,
    exp_stat_sn: u32,
    tail: &[u8],
) -> (buf: Vec<u8>)
    ensures
        buf@ == request_header(
            opcode,
            flags,
            data_len,
            mid@,
            itt,
            word,
            cmd_sn,
            exp_stat_sn,
            tail@,
        ),
        buf@.len() == 24 + mid@.len() + tail@.len(),
{
    broadcast use bytes::lemma_be_bytes_len;

    let mut buf: Vec<u8> = Vec::new();
    buf.push(opcode);
    buf.push(flags);
    buf.push(0);
    buf.push(0);
    buf.push(0);
    bytes::push_be(&mut buf, data_len as u128, 3);
    buf.extend_from_slice(mid);
    bytes::push_be(&mut buf, itt as u128, 4);
    bytes::push_be(&mut buf, word as u128, 4);
    bytes::push_be(&mut buf, cmd_sn as u128, 4);
    bytes::push_be(&mut buf, exp_stat_sn as u128, 4);
    buf.extend_from_slice(tail);
    assert(buf@ =~= request_header(
        opcode,
        flags,
        data_len,
        mid@,
        itt,
        word,
        cmd_sn,
        exp_stat_sn,
        tail@,
    ));
    buf
}

/// The session part of a login header.
pub open spec fn login_mid(s: Session) -> Seq<u8> {
    isid_of(s.qualifier) + bytes::be_bytes(s.tsih as nat, 2)
}

impl Session {
    /// A session that has not logged in yet.
    pub fn new(qualifier: u32) -> (s: Self)
        ensures
            s == (Session {
                cmd_sn: 1,
                exp_stat_sn: 0,
                tsih: 0,
                itt: 1,
                max_recv_data_seg: 8192,
                block_size: 512,
                qualifier,
            }),
    {
        Session {
            cmd_sn: 1,
            exp_stat_sn: 0,
            tsih: 0,
            itt: 1,
            max_recv_data_seg: 8192,
            block_size: 512,
            qualifier,
        }
    }

    /// The next task tag.
    pub fn next_itt(&mut self) -> (itt: u32)
        requires
            old(self).itt < u32::MAX,
        ensures
            itt == old(self).itt,
            *final(self) == (Session { itt: (itt + 1) as u32, ..*old(self) }),
    {
        let itt: u32 = self.itt;
        self.itt = itt + 1;
        itt
    }

    /// A command was sent.
    pub fn sent_command(&mut self)
        requires
            old(self).cmd_sn < u32::MAX,
        ensures
            *final(self) == (Session { cmd_sn: (old(self).cmd_sn + 1) as u32, ..*old(self) }),
    {
        self.cmd_sn = self.cmd_sn + 1;
    }

    /// A login request from stage `csg` to stage `nsg`, with `data_len` bytes
    /// of parameters behind it.
    pub fn login_request(&self, itt: u32, csg: u8, nsg: u8, data_len: u32) -> (buf: Vec<u8>)
        requires
            csg < 4,
            nsg < 4,
        ensures
            buf@ == request_header(
                OP_LOGIN_REQUEST,
                (0x80 + 4 * csg + nsg) as u8,
                data_len,
                login_mid(*self),
                itt,
                0,
                self.cmd_sn,
                self.exp_stat_sn,
                bytes::zeros(16),
            ),
            buf@.len() == 48,
            buf@[0] == 0x43,
            buf@[1] as int / 128 == 1,
            buf@[1] as int / 4 % 4 == csg,
            buf@[1] as int % 4 == nsg,
            data_len < 0x100_0000 ==> bytes::be_value(buf@.subrange(5, 8)) == data_len,
            bytes::be_value(buf@.subrange(14, 16)) == self.tsih,
            bytes::be_value(buf@.subrange(16, 20)) == itt,
            bytes::be_value(buf@.subrange(24, 28)) == self.cmd_sn,
            bytes::be_value(buf@.subrange(28, 32)) == self.exp_stat_sn,
    {
        broadcast use bytes::lemma_be_bytes_len;

        proof {
            let mid = login_mid(*self);
            assert(mid.len() == 8);
            a_header_is_laid_out(
                OP_LOGIN_REQUEST,
                (0x80 + 4 * csg + nsg) as u8,
                data_len,
                mid,
                itt,
                0,
                self.cmd_sn,
                self.exp_stat_sn,
                bytes::zeros(16),
            );
            bytes::lemma_radix();
            let h = request_header(
                OP_LOGIN_REQUEST,
                (0x80 + 4 * csg + nsg) as u8,
                data_len,
                mid,
                itt,
                0,
                self.cmd_sn,
                self.exp_stat_sn,
                bytes::zeros(16),
            );
            assert(h.subrange(8, 16) == mid);
            assert(h.subrange(14, 16) =~= mid.subrange(6, 8));
            assert(mid.subrange(6, 8) =~= bytes::be_bytes(self.tsih as nat, 2));
            bytes::be_round_trip(self.tsih as nat, 2);
        }
        let mut mid: Vec<u8> = Vec::new();
        mid.push(0x40);
        mid.push(0);
        mid.push(0);
        mid.push(1);
        mid.push(((self.qualifier / 256) % 256) as u8);
        mid.push((self.qualifier % 256) as u8);
        assert(mid@ =~= isid_of(self.qualifier));
        bytes::push_be(&mut mid, self.tsih as u128, 2);
        let mut tail: Vec<u8> = Vec::new();
        bytes::push_zeros(&mut tail, 16);
        assert(tail@ =~= bytes::zeros(16));
        build_header(
            OP_LOGIN_REQUEST,
            0x80 + 4 * csg + nsg,
            data_len,
            &mid,
            itt,
            0,
            self.cmd_sn,
            self.exp_stat_sn,
            &tail,
        )
    }

    /// A SCSI command with its 16-byte descriptor block; `flags` says which
    /// way the `transfer` bytes go.
    fn scsi_command(&self, itt: u32, flags: u8, data_len: u32, transfer: u32, cdb: &[u8]) -> (buf:
        Vec<u8>)
        requires
            cdb@.len() == 16,
        ensures
            buf@ == scsi_header(*self, itt, flags, data_len, transfer, cdb@),
            buf@.len() == 48,
    {
        let mut lun: Vec<u8> = Vec::new();
        bytes::push_zeros(&mut lun, 8);
        assert(lun@ =~= bytes::zeros(8));
        build_header(
            OP_SCSI_COMMAND,
            flags,
            data_len,
            &lun,
            itt,
            transfer,
            self.cmd_sn,
            self.exp_stat_sn,
            cdb,
        )
    }

    /// READ CAPACITY(10).
    pub fn read_capacity_request(&self, itt: u32) -> (buf: Vec<u8>)
        ensures
            buf@ == scsi_header(*self, itt, 0xc0, 0, 8, cdb_of(0x25, 0, 0, 0)),
            buf@.len() == 48,
            buf@[0] == 0x01,
            buf@[1] == 0xc0,
            buf@[32] == 0x25,
            bytes::be_value(buf@.subrange(16, 20)) == itt,
            bytes::be_value(buf@.subrange(20, 24)) == 8,
    {
        proof {
            a_command_names_its_blocks(*self, itt, 0xc0, 0, 8, 0x25, 0, 0);
        }
        let cdb = build_cdb(0x25, 0, 0, 0);
        self.scsi_command(itt, 0xc0, 0, 8, &cdb)
    }

    /// INQUIRY, for 96 bytes.
    pub fn inquiry_request(&self, itt: u32) -> (buf: Vec<u8>)
        ensures
            buf@ == scsi_header(*self, itt, 0xc0, 0, 96, seq![0x12u8, 0, 0, 0, 96] + bytes::zeros(11)),
            buf@.len() == 48,
            buf@[0] == 0x01,
            buf@[1] == 0xc0,
            buf@[32] == 0x12,
            buf@[36] == 96,
            bytes::be_value(buf@.subrange(16, 20)) == itt,
            bytes::be_value(buf@.subrange(20, 24)) == 96,
    {
        let mut cdb: Vec<u8> = Vec::new();
        cdb.push(0x12);
        cdb.push(0);
        cdb.push(0);
        cdb.push(0);
        cdb.push(96);
        bytes::push_zeros(&mut cdb, 11);
        assert(cdb@ =~= seq![0x12u8, 0, 0, 0, 96] + bytes::zeros(11));
        proof {
            a_header_is_laid_out(
                OP_SCSI_COMMAND,
                0xc0,
                0,
                bytes::zeros(8),
                itt,
                96,
                self.cmd_sn,
                self.exp_stat_sn,
                cdb@,
            );
        }
        self.scsi_command(itt, 0xc0, 0, 96, &cdb)
    }

    /// READ(10) of `count` blocks from `lba` on. Ten-byte commands carry the
    /// low 32 bits of an address.
    pub fn read_request(&self, itt: u32, lba: u64, count: u16) -> (buf: Vec<u8>)
        requires
            count * self.block_size <= u32::MAX,
        ensures
            buf@ == scsi_header(
                *self,
                itt,
                0xc0,
                0,
                (count * self.block_size) as u32,
                cdb_of(0x28, 0, (lba % 0x1_0000_0000) as u32, count),
            ),
            buf@.len() == 48,
            buf@[0] == 0x01,
            buf@[1] == 0xc0,
            buf@[32] == 0x28,
            bytes::be_value(buf@.subrange(16, 20)) == itt,
            bytes::be_value(buf@.subrange(20, 24)) == count * self.block_size,
            bytes::be_value(buf@.subrange(34, 38)) == lba % 0x1_0000_0000,
            bytes::be_value(buf@.subrange(39, 41)) == count,
    {
        proof {
            a_command_names_its_blocks(
                *self,
                itt,
                0xc0,
                0,
                (count * self.block_size) as u32,
                0x28,
                (lba % 0x1_0000_0000) as u32,
                count,
            );
        }
        let cdb = build_cdb(0x28, 0, (lba % 0x1_0000_0000) as u32, count);
        self.scsi_command(itt, 0xc0, 0, count as u32 * self.block_size, &cdb)
    }

    /// WRITE(10) of `data` from `lba` on: the header, and the data padded with
    /// zeros to whole blocks.
    pub fn write_request(&self, itt: u32, lba: u64, data: &[u8]) -> (r: (Vec<u8>, Vec<u8>))
        requires
            self.block_size > 0,
            padded_len(data@.len() as int, self.block_size as int) <= 0xff_ffff,
            padded_len(data@.len() as int, self.block_size as int) / self.block_size as int
                <= u16::MAX,
        ensures
            r.1@.len() == padded_len(data@.len() as int, self.block_size as int),
            r.1@ == data@ + bytes::zeros((r.1@.len() - data@.len()) as nat),
            r.0@ == scsi_header(
                *self,
                itt,
                0xa0,
                r.1@.len() as u32,
                r.1@.len() as u32,
                cdb_of(
                    0x2a,
                    0,
                    (lba % 0x1_0000_0000) as u32,
                    (r.1@.len() as int / self.block_size as int) as u16,
                ),
            ),
            r.0@.len() == 48,
            r.0@[0] == 0x01,
            r.0@[1] == 0xa0,
            r.0@[32] == 0x2a,
            bytes::be_value(r.0@.subrange(5, 8)) == r.1@.len(),
            bytes::be_value(r.0@.subrange(16, 20)) == itt,
            bytes::be_value(r.0@.subrange(20, 24)) == r.1@.len(),
            bytes::be_value(r.0@.subrange(34, 38)) == lba % 0x1_0000_0000,
            bytes::be_value(r.0@.subrange(39, 41)) * self.block_size == r.1@.len(),
            r.1@.take(data@.len() as int) == data@,
            data@.len() <= r.1@.len() < data@.len() + self.block_size,
    {
        proof {
            crate::align::round_up_is_least_multiple(data@.len() as int, self.block_size as int);
        }
        let bs: u64 = self.block_size as u64;
        let total: u64 = crate::align::align_up(data.len() as u64, bs);
        let mut padded: Vec<u8> = Vec::new();
        padded.extend_from_slice(data);
        bytes::push_zeros(&mut padded, total as usize - data.len());
        assert(padded@ =~= data@ + bytes::zeros((total - data@.len()) as nat));
        let cdb = build_cdb(0x2a, 0, (lba % 0x1_0000_0000) as u32, (total / bs) as u16);
        let header = self.scsi_command(itt, 0xa0, total as u32, total as u32, &cdb);
        proof {
            a_command_names_its_blocks(
                *self,
                itt,
                0xa0,
                total as u32,
                total as u32,
                0x2a,
                (lba % 0x1_0000_0000) as u32,
                (total / bs) as u16,
            );
            vstd::arithmetic::div_mod::lemma_fundamental_div_mod(total as int, bs as int);
            assert((total as int / bs as int) * bs == total) by (nonlinear_arith)
                requires
                    total as int == bs as int * (total as int / bs as int) + total as int % bs as int,
                    total as int % bs as int == 0,
            ;
            assert(padded@.take(data@.len() as int) =~= data@);
        }
        (header, padded)
    }

    /// UNMAP of `count` blocks from `lba` on: the header and the parameter
    /// list.
    pub fn unmap_request(&self, itt: u32, lba: u64, count: u32) -> (r: (Vec<u8>, Vec<u8>))
        ensures
            r.0@ == scsi_header(*self, itt, 0xa0, 24, 24, cdb_of(0x42, 0, 0, 24)),
            r.0@.len() == 48,
            r.1@ == bytes::be_bytes(22, 2) + bytes::be_bytes(16, 2) + bytes::zeros(4)
                + bytes::be_bytes(lba as nat, 8) + bytes::be_bytes(count as nat, 4) + bytes::zeros(
                4,
            ),
            r.1@.len() == 24,
            r.0@[0] == 0x01,
            r.0@[1] == 0xa0,
            r.0@[32] == 0x42,
            bytes::be_value(r.0@.subrange(5, 8)) == 24,
            bytes::be_value(r.0@.subrange(16, 20)) == itt,
            bytes::be_value(r.0@.subrange(20, 24)) == 24,
            bytes::be_value(r.0@.subrange(39, 41)) == 24,
            bytes::be_value(r.1@.subrange(0, 2)) == 22,
            bytes::be_value(r.1@.subrange(2, 4)) == 16,
            bytes::be_value(r.1@.subrange(8, 16)) == lba,
            bytes::be_value(r.1@.subrange(16, 20)) == count,
    {
        broadcast use bytes::lemma_be_bytes_len;

        let mut list: Vec<u8> = Vec::new();
        bytes::push_be(&mut list, 22, 2);
        bytes::push_be(&mut list, 16, 2);
        bytes::push_zeros(&mut list, 4);
        bytes::push_be(&mut list, lba as u128, 8);
        bytes::push_be(&mut list, count as u128, 4);
        bytes::push_zeros(&mut list, 4);
        assert(list@ =~= bytes::be_bytes(22, 2) + bytes::be_bytes(16, 2) + bytes::zeros(4)
            + bytes::be_bytes(lba as nat, 8) + bytes::be_bytes(count as nat, 4) + bytes::zeros(4));
        let cdb = build_cdb(0x42, 0, 0, 24);
        proof {
            a_command_names_its_blocks(*self, itt, 0xa0, 24, 24, 0x42, 0, 24);
            bytes::lemma_radix();
            assert(list@.subrange(0, 2) =~= bytes::be_bytes(22, 2));
            assert(list@.subrange(2, 4) =~= bytes::be_bytes(16, 2));
            assert(list@.subrange(8, 16) =~= bytes::be_bytes(lba as nat, 8));
            assert(list@.subrange(16, 20) =~= bytes::be_bytes(count as nat, 4));
            bytes::be_round_trip(22, 2);
            bytes::be_round_trip(16, 2);
            bytes::be_round_trip(lba as nat, 8);
            bytes::be_round_trip(count as nat, 4);
        }
        (self.scsi_command(itt, 0xa0, 24, 24, &cdb), list)
    }

    /// A NOP-Out: a ping of ours, or the answer to one of the target's.
    pub fn nop_out(&self, itt: u32, ttt: u32) -> (buf: Vec<u8>)
        ensures
            buf@ == request_header(
                OP_NOP_OUT,
                0x80,
                0,
                bytes::zeros(8),
                itt,
                ttt,
                self.cmd_sn,
                self.exp_stat_sn,
                bytes::zeros(16),
            ),
            buf@.len() == 48,
            buf@[0] == 0x40,
            buf@[1] == 0x80,
            bytes::be_value(buf@.subrange(5, 8)) == 0,
            bytes::be_value(buf@.subrange(16, 20)) == itt,
            bytes::be_value(buf@.subrange(20, 24)) == ttt,
            bytes::be_value(buf@.subrange(24, 28)) == self.cmd_sn,
            bytes::be_value(buf@.subrange(28, 32)) == self.exp_stat_sn,
    {
        proof {
            a_header_is_laid_out(
                OP_NOP_OUT,
                0x80,
                0,
                bytes::zeros(8),
                itt,
                ttt,
                self.cmd_sn,
                self.exp_stat_sn,
                bytes::zeros(16),
            );
        }
        let mut lun: Vec<u8> = Vec::new();
        bytes::push_zeros(&mut lun, 8);
        assert(lun@ =~= bytes::zeros(8));
        let mut tail: Vec<u8> = Vec::new();
        bytes::push_zeros(&mut tail, 16);
        assert(tail@ =~= bytes::zeros(16));
        build_header(OP_NOP_OUT, 0x80, 0, &lun, itt, ttt, self.cmd_sn, self.exp_stat_sn, &tail)
    }

    /// A logout that closes the session.
    pub fn logout_request(&self, itt: u32) -> (buf: Vec<u8>)
        ensures
            buf@ == request_header(
                OP_LOGOUT_REQUEST,
                0x80,
                0,
                bytes::zeros(8),
                itt,
                0,
                self.cmd_sn,
                self.exp_stat_sn,
                bytes::zeros(16),
            ),
            buf@.len() == 48,
            buf@[0] == 0x46,
            buf@[1] == 0x80,
            bytes::be_value(buf@.subrange(5, 8)) == 0,
            bytes::be_value(buf@.subrange(16, 20)) == itt,
            bytes::be_value(buf@.subrange(24, 28)) == self.cmd_sn,
            bytes::be_value(buf@.subrange(28, 32)) == self.exp_stat_sn,
    {
        proof {
            a_header_is_laid_out(
                OP_LOGOUT_REQUEST,
                0x80,
                0,
                bytes::zeros(8),
                itt,
                0,
                self.cmd_sn,
                self.exp_stat_sn,
                bytes::zeros(16),
            );
        }
        let mut lun: Vec<u8> = Vec::new();
        bytes::push_zeros(&mut lun, 8);
        assert(lun@ =~= bytes::zeros(8));
        let mut tail: Vec<u8> = Vec::new();
        bytes::push_zeros(&mut tail, 16);
        assert(tail@ =~= bytes::zeros(16));
        build_header(OP_LOGOUT_REQUEST, 0x80, 0, &lun, itt, 0, self.cmd_sn, self.exp_stat_sn, &tail)
    }
}

/// Every number of a request's header is read where the protocol has it: the
/// length of the data in bytes 5 to 7, the tag in 16 to 19, what the opcode
/// makes of 20 to 23, the counters in 24 to 31, each most significant first.
pub proof fn a_header_is_laid_out(
    opcode: u8,
    flags: u8,
    data_len: u32,
    mid: Seq<u8>,
    itt: u32,
    word: u32,
    cmd_sn: u32,
    exp_stat_sn: u32,
    tail: Seq<u8>,
)
    requires
        mid.len() == 8,
        tail.len() == 16,
    ensures
        ({
            let h = request_header(
                opcode,
                flags,
                data_len,
                mid,
                itt,
                word,
                cmd_sn,
                exp_stat_sn,
                tail,
            );
            &&& h.len() == 48
            &&& h[0] == opcode
            &&& h[1] == flags
            &&& h[2] == 0 && h[3] == 0 && h[4] == 0
            &&& data_len < 0x100_0000 ==> bytes::be_value(h.subrange(5, 8)) == data_len
            &&& h.subrange(8, 16) == mid
            &&& bytes::be_value(h.subrange(16, 20)) == itt
            &&& bytes::be_value(h.subrange(20, 24)) == word
            &&& bytes::be_value(h.subrange(24, 28)) == cmd_sn
            &&& bytes::be_value(h.subrange(28, 32)) == exp_stat_sn
            &&& h.subrange(32, 48) == tail
        }),
{
    broadcast use bytes::lemma_be_bytes_len;

    bytes::lemma_radix();
    let h = request_header(opcode, flags, data_len, mid, itt, word, cmd_sn, exp_stat_sn, tail);
    assert(h.len() == 48);
    assert(h.subrange(5, 8) =~= bytes::be_bytes(data_len as nat, 3));
    assert(h.subrange(8, 16) =~= mid);
    assert(h.subrange(16, 20) =~= bytes::be_bytes(itt as nat, 4));
    assert(h.subrange(20, 24) =~= bytes::be_bytes(word as nat, 4));
    assert(h.subrange(24, 28) =~= bytes::be_bytes(cmd_sn as nat, 4));
    assert(h.subrange(28, 32) =~= bytes::be_bytes(exp_stat_sn as nat, 4));
    assert(h.subrange(32, 48) =~= tail);
    if data_len < 0x100_0000 {
        bytes::be_round_trip(data_len as nat, 3);
    }
    bytes::be_round_trip(itt as nat, 4);
    bytes::be_round_trip(word as nat, 4);
    bytes::be_round_trip(cmd_sn as nat, 4);
    bytes::be_round_trip(exp_stat_sn as nat, 4);
}

/// Read as SCSI reads it, a command names what was asked for: its opcode is in
/// byte 32 of the header, the address in 34 to 37 and the block count in 39 and
/// 40, most significant byte first.
pub proof fn a_command_names_its_blocks(
    s: Session,
    itt: u32,
    flags: u8,
    data_len: u32,
    transfer: u32,
    opcode: u8,
    lba: u32,
    count: u16,
)
    ensures
        ({
            let h = scsi_header(s, itt, flags, data_len, transfer, cdb_of(opcode, 0, lba, count));
            &&& h.len() == 48
            &&& h[0] == 0x01
            &&& h[1] == flags
            &&& data_len < 0x100_0000 ==> bytes::be_value(h.subrange(5, 8)) == data_len
            &&& forall|i: int| 8 <= i < 16 ==> #[trigger] h[i] == 0
            &&& bytes::be_value(h.subrange(16, 20)) == itt
            &&& bytes::be_value(h.subrange(20, 24)) == transfer
            &&& bytes::be_value(h.subrange(24, 28)) == s.cmd_sn
            &&& bytes::be_value(h.subrange(28, 32)) == s.exp_stat_sn
            &&& h[32] == opcode
            &&& h[33] == 0
            &&& bytes::be_value(h.subrange(34, 38)) == lba
            &&& h[38] == 0
            &&& bytes::be_value(h.subrange(39, 41)) == count
            &&& forall|i: int| 41 <= i < 48 ==> #[trigger] h[i] == 0
        }),
{
    broadcast use bytes::lemma_be_bytes_len;

    bytes::lemma_radix();
    let cdb = cdb_of(opcode, 0, lba, count);
    let h = scsi_header(s, itt, flags, data_len, transfer, cdb);
    assert(cdb.len() == 16);
    a_header_is_laid_out(
        OP_SCSI_COMMAND,
        flags,
        data_len,
        bytes::zeros(8),
        itt,
        transfer,
        s.cmd_sn,
        s.exp_stat_sn,
        cdb,
    );
    assert forall|i: int| 8 <= i < 16 implies #[trigger] h[i] == 0 by {
        assert(h.subrange(8, 16)[i - 8] == bytes::zeros(8)[i - 8]);
    }
    assert forall|i: int| 32 <= i < 48 implies #[trigger] h[i] == cdb[i - 32] by {
        assert(h.subrange(32, 48)[i - 32] == cdb[i - 32]);
    }
    assert(h.subrange(34, 38) =~= bytes::be_bytes(lba as nat, 4));
    assert(h.subrange(39, 41) =~= bytes::be_bytes(count as nat, 2));
    bytes::be_round_trip(lba as nat, 4);
    bytes::be_round_trip(count as nat, 2);
}

/// `len` rounded up to whole blocks.
pub open spec fn padded_len(len: int, bs: int) -> int {
    crate::align::round_up(len, bs)
}

/// The header of a SCSI command.
pub open spec fn scsi_header(
    s: Session,
    itt: u32,
    flags: u8,
    data_len: u32,
    transfer: u32,
    cdb: Seq<u8>,
) -> Seq<u8> {
    request_header(
        OP_SCSI_COMMAND,
        flags,
        data_len,
        bytes::zeros(8),
        itt,
        transfer,
        s.cmd_sn,
        s.exp_stat_sn,
        cdb,
    )
}

/// A descriptor block: opcode, one byte, address, one byte, count.
pub open spec fn cdb_of(opcode: u8, one: u8, lba: u32, count: u16) -> Seq<u8> {
    seq![opcode, one] + bytes::be_bytes(lba as nat, 4) + seq![0u8] + bytes::be_bytes(
        count as nat,
        2,
    ) + bytes::zeros(7)
}

fn build_cdb(opcode: u8, one: u8, lba: u32, count: u16) -> (cdb: Vec<u8>)
    ensures
        cdb@ == cdb_of(opcode, one, lba, count),
        cdb@.len() == 16,
{
    broadcast use bytes::lemma_be_bytes_len;

    let mut cdb: Vec<u8> = Vec::new();
    cdb.push(opcode);
    cdb.push(one);
    bytes::push_be(&mut cdb, lba as u128, 4);
    cdb.push(0);
    bytes::push_be(&mut cdb, count as u128, 2);
    bytes::push_zeros(&mut cdb, 7);
    assert(cdb@ =~= cdb_of(opcode, one, lba, count));
    cdb
}

/// The bytes of one `key=value` parameter.
pub open spec fn param_bytes(key: Seq<char>, value: Seq<char>) -> Seq<u8> {
    vstd::utf8::encode_utf8(key) + seq![61u8] + vstd::utf8::encode_utf8(value) + seq![0u8]
}

fn push_param(buf: &mut Vec<u8>, key: &str, value: &str)
    ensures
        final(buf)@ == old(buf)@ + param_bytes(key@, value@),
{
    buf.extend_from_slice(key.as_bytes());
    buf.push(61);
    buf.extend_from_slice(value.as_bytes());
    buf.push(0);
    assert(buf@ =~= old(buf)@ + param_bytes(key@, value@));
}

/// The parameters of the security stage: who asks, for what, and how.
pub fn security_params(initiator: &str, target: &str) -> (buf: Vec<u8>)
    ensures
        buf@ == param_bytes("InitiatorName"@, initiator@) + param_bytes("TargetName"@, target@)
            + param_bytes("SessionType"@, "Normal"@) + param_bytes("AuthMethod"@, "None"@),
{
    let mut buf: Vec<u8> = Vec::new();
    push_param(&mut buf, "InitiatorName", initiator);
    push_param(&mut buf, "TargetName", target);
    push_param(&mut buf, "SessionType", "Normal");
    push_param(&mut buf, "AuthMethod", "None");
    assert(buf@ =~= param_bytes("InitiatorName"@, initiator@) + param_bytes("TargetName"@, target@)
        + param_bytes("SessionType"@, "Normal"@) + param_bytes("AuthMethod"@, "None"@));
    buf
}

/// The parameters of the operational stage.
pub open spec fn operational() -> Seq<u8> {
    param_bytes("HeaderDigest"@, "None"@) + param_bytes("DataDigest"@, "None"@) + param_bytes(
        "MaxRecvDataSegmentLength"@,
        "65536"@,
    ) + param_bytes("MaxBurstLength"@, "262144"@) + param_bytes("FirstBurstLength"@, "65536"@)
        + param_bytes("DefaultTime2Wait"@, "2"@) + param_bytes("DefaultTime2Retain"@, "0"@)
        + param_bytes("MaxOutstandingR2T"@, "1"@) + param_bytes("MaxConnections"@, "1"@)
        + param_bytes("ImmediateData"@, "Yes"@) + param_bytes("InitialR2T"@, "No"@) + param_bytes(
        "ErrorRecoveryLevel"@,
        "0"@,
    )
}

/// The parameters of the operational stage.
pub fn operational_params() -> (buf: Vec<u8>)
    ensures
        buf@ == operational(),
{
    let mut buf: Vec<u8> = Vec::new();
    push_param(&mut buf, "HeaderDigest", "None");
    push_param(&mut buf, "DataDigest", "None");
    push_param(&mut buf, "MaxRecvDataSegmentLength", "65536");
    push_param(&mut buf, "MaxBurstLength", "262144");
    push_param(&mut buf, "FirstBurstLength", "65536");
    push_param(&mut buf, "DefaultTime2Wait", "2");
    push_param(&mut buf, "DefaultTime2Retain", "0");
    push_param(&mut buf, "MaxOutstandingR2T", "1");
    push_param(&mut buf, "MaxConnections", "1");
    push_param(&mut buf, "ImmediateData", "Yes");
    push_param(&mut buf, "InitialR2T", "No");
    push_param(&mut buf, "ErrorRecoveryLevel", "0");
    assert(Seq::<u8>::empty() + param_bytes("HeaderDigest"@, "None"@) =~= param_bytes(
        "HeaderDigest"@,
        "None"@,
    ));
    buf
}

/// The opcode of a header.
pub open spec fn opcode_of(h: Seq<u8>) -> int {
    h[0] as int % 64
}

/// The opcode of a header.
pub fn opcode(h: &[u8]) -> (op: u8)
    requires
        h@.len() == 48,
    ensures
        op == opcode_of(h@),
{
    h[0] % 64
}

/// The largest segment the target takes, as the first `n` parameters of its
/// answer say; an unreadable number is passed over.
pub open spec fn max_segment(params: Seq<Seq<char>>, before: u32, n: nat) -> u32
    decreases n,
{
    if n == 0 {
        before
    } else {
        let so_far = max_segment(params, before, (n - 1) as nat);
        match text::split_once(params[n - 1], '=') {
            Some((key, value)) => if key == "MaxRecvDataSegmentLength"@ {
                match text::parsed(value, u32::MAX as nat) {
                    Some(v) => v as u32,
                    None => so_far,
                }
            } else {
                so_far
            },
            None => so_far,
        }
    }
}

/// What a login response makes of a session: its counters, its handle where
/// the target gives one, and the segment size.
pub open spec fn after_response(s: Session, h: Seq<u8>, data: Seq<u8>) -> Session {
    let tsih = bytes::be_value(h.subrange(14, 16)) as u16;
    let params = text::pieces(text::lossy(data), '\0');
    Session {
        exp_stat_sn: bytes::be_value(h.subrange(24, 28)) as u32,
        cmd_sn: bytes::be_value(h.subrange(28, 32)) as u32,
        tsih: if tsih != 0 {
            tsih
        } else {
            s.tsih
        },
        max_recv_data_seg: max_segment(params, s.max_recv_data_seg, params.len()),
        ..s
    }
}

/// Why a login failed.
#[derive(Debug, Clone, Copy, PartialEq, Eq, Structural)]
pub enum LoginFault {
    /// Another PDU than a login response, by its opcode.
    NotALoginResponse(u8),
    /// The target refused, with this status class.
    Refused(u8),
}

/// How far a login has come after a response.
#[derive(Debug, Clone, Copy, PartialEq, Eq, Structural)]
pub enum LoginNext {
    /// Send the operational parameters.
    Operational,
    /// The session is open.
    Open,
    Failed(LoginFault),
}

/// Whether a response takes the session straight to its full feature phase.
pub open spec fn to_full_feature(h: Seq<u8>) -> bool {
    h[1] >= 128 && h[1] as int % 4 == STAGE_FULL_FEATURE
}

/// What a login response leads to. `second` tells the answer to the
/// operational parameters from that to the first request.
pub open spec fn login_next(h: Seq<u8>, second: bool) -> LoginNext {
    if opcode_of(h) != OP_LOGIN_RESPONSE {
        LoginNext::Failed(LoginFault::NotALoginResponse(opcode_of(h) as u8))
    } else if h[36] != 0 {
        LoginNext::Failed(LoginFault::Refused(h[36]))
    } else if second || to_full_feature(h) {
        LoginNext::Open
    } else {
        LoginNext::Operational
    }
}

impl Session {
    /// Takes over what a login response says.
    pub fn parse_login_response(&mut self, h: &[u8], data: &[u8])
        requires
            h@.len() == 48,
        ensures
            *final(self) == after_response(*old(self), h@, data@),
    {
        proof {
            bytes::lemma_radix();
        }
        let before = *self;
        self.exp_stat_sn = bytes::get_be(h, 24, 4) as u32;
        self.cmd_sn = bytes::get_be(h, 28, 4) as u32;
        let tsih: u16 = bytes::get_be(h, 14, 2) as u16;
        if tsih != 0 {
            self.tsih = tsih;
        }
        let params = text::split_all(&text::to_chars(&text::lossy_text(data)), '\0');
        let ghost all = text::pieces(text::lossy(data@), '\0');
        let mut seg: u32 = self.max_recv_data_seg;
        let mut i: usize = 0;
        while i < params.len()
            invariant
                i <= params@.len() == all.len(),
                forall|k: int| 0 <= k < params@.len() ==> (#[trigger] params@[k])@ == all[k],
                seg == max_segment(all, before.max_recv_data_seg, i as nat),
            decreases params@.len() - i,
        {
            match text::split(&params[i], '=') {
                Some((key, value)) => {
                    if text::same_text(&text::text_of(&key), "MaxRecvDataSegmentLength") {
                        match text::parse_number(&value, 0xffff_ffff) {
                            Some(v) => {
                                seg = v as u32;
                            },
                            None => {},
                        }
                    }
                },
                None => {},
            }
            i = i + 1;
        }
        self.max_recv_data_seg = seg;
    }

    /// Takes in a login response. Once the session is open its status counter
    /// moves on by one.
    pub fn login_step(&mut self, h: &[u8], data: &[u8], second: bool) -> (next: LoginNext)
        requires
            h@.len() == 48,
            login_next(h@, second) == LoginNext::Open ==> after_response(
                *old(self),
                h@,
                data@,
            ).exp_stat_sn < u32::MAX,
        ensures
            next == login_next(h@, second),
            *final(self) == match next {
                LoginNext::Failed(_) => *old(self),
                LoginNext::Operational => after_response(*old(self), h@, data@),
                LoginNext::Open => Session {
                    exp_stat_sn: (after_response(*old(self), h@, data@).exp_stat_sn + 1) as u32,
                    ..after_response(*old(self), h@, data@)
                },
            },
    {
        if opcode(h) != OP_LOGIN_RESPONSE {
            return LoginNext::Failed(LoginFault::NotALoginResponse(opcode(h)));
        }
        if h[36] != 0 {
            return LoginNext::Failed(LoginFault::Refused(h[36]));
        }
        self.parse_login_response(h, data);
        if second || (h[1] >= 128 && h[1] % 4 == STAGE_FULL_FEATURE) {
            self.exp_stat_sn = self.exp_stat_sn + 1;
            LoginNext::Open
        } else {
            LoginNext::Operational
        }
    }
}

/// What to do with a PDU that arrived.
#[derive(Debug, Clone, Copy, PartialEq, Eq, Structural)]
pub enum Arrival {
    /// It is for the caller.
    Deliver,
    /// A ping that wants no answer: read on.
    Skip,
    /// A ping to be answered under this tag: answer, then read on.
    Answer(u32),
}

/// What to do with a PDU: a ping of the target's is answered and passed over;
/// the answer to a ping of ours is for the caller, as everything else is.
pub open spec fn arrival_of(h: Seq<u8>) -> Arrival {
    let itt = bytes::be_value(h.subrange(16, 20));
    let ttt = bytes::be_value(h.subrange(20, 24));
    if opcode_of(h) == OP_NOP_IN && itt == NO_TAG {
        if ttt != NO_TAG {
            Arrival::Answer(ttt as u32)
        } else {
            Arrival::Skip
        }
    } else {
        Arrival::Deliver
    }
}

/// What to do with a PDU that arrived.
pub fn read_response(h: &[u8]) -> (a: Arrival)
    requires
        h@.len() == 48,
    ensures
        a == arrival_of(h@),
{
    proof {
        bytes::lemma_radix();
    }
    if opcode(h) == OP_NOP_IN {
        let itt: u32 = bytes::get_be(h, 16, 4) as u32;
        if itt == NO_TAG {
            let ttt: u32 = bytes::get_be(h, 20, 4) as u32;
            if ttt != NO_TAG {
                return Arrival::Answer(ttt);
            }
            return Arrival::Skip;
        }
    }
    Arrival::Deliver
}

/// How far the answer to a command that reads has come.
#[derive(Debug, Clone, Copy, PartialEq, Eq, Structural)]
pub enum DataNext {
    More,
    Done,
    /// A PDU that has no place here, by its opcode.
    Unexpected(u8),
}

/// Takes in one PDU of the answer to a command that reads: data is added up
/// until one carries the status, or a response ends it.
pub fn data_step(data: &mut Vec<u8>, h: &[u8], payload: &[u8]) -> (next: DataNext)
    requires
        h@.len() == 48,
    ensures
        next == (if opcode_of(h@) == OP_DATA_IN {
            if h@[1] as int % 2 == 1 {
                DataNext::Done
            } else {
                DataNext::More
            }
        } else if opcode_of(h@) == OP_SCSI_RESPONSE {
            DataNext::Done
        } else {
            DataNext::Unexpected(opcode_of(h@) as u8)
        }),
        final(data)@ == if opcode_of(h@) == OP_DATA_IN {
            old(data)@ + payload@
        } else {
            old(data)@
        },
        h@[0] as int % 64 == 0x25 ==> (next is Done <==> h@[1] as int % 2 == 1) && final(data)@.len()
            == old(data)@.len() + payload@.len() && final(data)@.skip(old(data)@.len() as int)
            == payload@,
        h@[0] as int % 64 == 0x21 ==> next is Done && final(data)@ == old(data)@,
        h@[0] as int % 64 != 0x25 && h@[0] as int % 64 != 0x21 ==> next is Unexpected,
{
    let op: u8 = opcode(h);
    if op == OP_DATA_IN {
        data.extend_from_slice(payload);
        assert(data@ =~= old(data)@ + payload@);
        if h[1] % 2 == 1 {
            DataNext::Done
        } else {
            DataNext::More
        }
    } else if op == OP_SCSI_RESPONSE {
        DataNext::Done
    } else {
        DataNext::Unexpected(op)
    }
}

/// What READ CAPACITY(10) data says: blocks, and block size.
pub open spec fn capacity_of(data: Seq<u8>) -> Option<(u64, u32)> {
    if data.len() < 8 {
        None
    } else {
        Some(
            (
                (bytes::be_value(data.subrange(0, 4)) + 1) as u64,
                bytes::be_value(data.subrange(4, 8)) as u32,
            ),
        )
    }
}

/// Decodes READ CAPACITY(10) data: blocks, and block size. Nothing where it is
/// too short.
pub fn read_capacity(data: &[u8]) -> (r: Option<(u64, u32)>)
    ensures
        r == capacity_of(data@),
{
    if data.len() < 8 {
        return None;
    }
    proof {
        bytes::lemma_radix();
    }
    let last: u64 = bytes::get_be(data, 0, 4) as u64;
    let size: u32 = bytes::get_be(data, 4, 4) as u32;
    Some((last + 1, size))
}

/// Why a command failed.
#[derive(Debug, Clone, Copy, PartialEq, Eq, Structural)]
pub enum ScsiFault {
    /// The target answered with this status.
    Status(u8),
    /// A PDU that is no response, by its opcode.
    NotAResponse(u8),
}

/// What the answer to a write says.
pub fn write_result(h: &[u8]) -> (r: Result<(), ScsiFault>)
    requires
        h@.len() == 48,
    ensures
        r == (if opcode_of(h@) != OP_SCSI_RESPONSE {
            Err(ScsiFault::NotAResponse(opcode_of(h@) as u8))
        } else if h@[3] != 0 {
            Err(ScsiFault::Status(h@[3]))
        } else {
            Ok(())
        }),
        r is Ok <==> h@[0] as int % 64 == 0x21 && h@[3] == 0,
{
    if opcode(h) != OP_SCSI_RESPONSE {
        return Err(ScsiFault::NotAResponse(opcode(h)));
    }
    if h[3] != 0 {
        return Err(ScsiFault::Status(h[3]));
    }
    Ok(())
}

/// What the answer to an UNMAP says. A target may not support it, so a failing
/// status is no failure.
pub fn unmap_result(h: &[u8]) -> (r: Result<(), ScsiFault>)
    requires
        h@.len() == 48,
    ensures
        r == (if opcode_of(h@) != OP_SCSI_RESPONSE {
            Err(ScsiFault::NotAResponse(opcode_of(h@) as u8))
        } else {
            Ok(())
        }),
        r is Ok <==> h@[0] as int % 64 == 0x21,
{
    if opcode(h) != OP_SCSI_RESPONSE {
        return Err(ScsiFault::NotAResponse(opcode(h)));
    }
    Ok(())
}

/// Whether the answer to a logout is one.
pub fn logged_out(h: &[u8]) -> (yes: bool)
    requires
        h@.len() == 48,
    ensures
        yes == (opcode_of(h@) == OP_LOGOUT_RESPONSE),
        yes <==> h@[0] as int % 64 == 0x26,
{
    opcode(h) == OP_LOGOUT_RESPONSE
}

/// A remote target attached as a local drive.
pub struct IscsiDevice {
    pub portal: String,
    pub iqn: String,
    pub capacity: u64,
    pub block_size: u32,
    pub id: DeviceId,
}

/// The trimmed text of the bytes `from..to`, or a stand-in where the data ends
/// before.
pub open spec fn inquiry_field(data: Seq<u8>, from: int, to: int, otherwise: Seq<char>) -> Seq<
    char,
> {
    if data.len() >= to {
        text::trimmed(text::lossy(data.subrange(from, to)))
    } else {
        otherwise
    }
}

fn inquiry_text(data: &[u8], from: usize, to: usize, otherwise: &str) -> (s: String)
    requires
        from <= to,
    ensures
        s@ == inquiry_field(data@, from as int, to as int, otherwise@),
{
    if data.len() >= to {
        text::trim_text(&text::lossy_text(&data[from..to]))
    } else {
        otherwise.to_owned()
    }
}

/// Where a portal listens.
pub open spec fn portal_of(host: Seq<char>, port: u16) -> Seq<char> {
    host + seq![':'] + text::decimal(port as nat)
}

/// The serial number under which a drive goes: the first eight hexadecimal
/// digits of a UUID, behind a prefix.
pub open spec fn serial_of(tag: Uuid) -> Seq<char> {
    "iscsi-"@ + text::hex_digits(tag.bits as nat / 0x1_0000_0000_0000_0000_0000_0000, 8)
}

impl IscsiDevice {
    /// The drive that capacity and inquiry data describe, under a fresh
    /// identity.
    pub fn attach(host: &str, port: u16, iqn: &str, blocks: u64, block_size: u32, inquiry: &[u8]) -> (d:
        Self)
        requires
            blocks * block_size <= u64::MAX,
        ensures
            d.portal@ == portal_of(host@, port),
            d.iqn@ == iqn@,
            d.capacity == blocks * block_size,
            d.block_size == block_size,
            ids::uuid_version(d.id.uuid.bits) == 4,
            ids::uuid_variant(d.id.uuid.bits) == 2,
            exists|tag: Uuid|
                d.id.serial@ == #[trigger] serial_of(tag) && ids::uuid_version(tag.bits) == 4
                    && ids::uuid_variant(tag.bits) == 2,
            d.id.serial@.len() == 14,
            d.id.model@ == inquiry_field(inquiry@, 8, 16, "iSCSI"@) + seq![' '] + inquiry_field(
                inquiry@,
                16,
                32,
                "Disk"@,
            ),
            d.id.path@ == "iscsi://"@ + portal_of(host@, port) + seq!['/'] + iqn@,
    {
        let mut portal = host.to_owned();
        portal.push(':');
        text::push_decimal(&mut portal, port as u64);
        let mut model = inquiry_text(inquiry, 8, 16, "iSCSI");
        model.push(' ');
        model.append(&inquiry_text(inquiry, 16, 32, "Disk"));
        let mut path = "iscsi://".to_owned();
        path.append(&portal);
        path.push('/');
        path.append(iqn);
        let mut serial = "iscsi-".to_owned();
        let tag = Uuid::new_v4();
        let first: u128 = tag.bits / 0x1_0000_0000_0000_0000_0000_0000;
        text::push_hex_digits(&mut serial, first, 8);
        proof {
            reveal_strlit("iscsi-");
            ids::lemma_hex_digits_len(first as nat, 8);
            assert(serial@ == serial_of(tag));
        }
        let id = DeviceId { uuid: Uuid::new_v4(), serial, model, path };
        IscsiDevice {
            portal,
            iqn: iqn.to_owned(),
            capacity: blocks * block_size as u64,
            block_size,
            id,
        }
    }

    /// The portal address.
    pub fn portal(&self) -> (s: &str)
        ensures
            s@ == self.portal@,
    {
        self.portal.as_str()
    }

    /// The target's name.
    pub fn iqn(&self) -> (s: &str)
        ensures
            s@ == self.iqn@,
    {
        self.iqn.as_str()
    }

    /// Whether a request begins on a block.
    pub fn check_offset(&self, offset: u64) -> (r: DriveResult<()>)
        requires
            self.block_size > 0,
        ensures
            match r {
                Ok(_) => offset % self.block_size as u64 == 0,
                Err(e) => offset % self.block_size as u64 != 0 && e == (DriveError::NotAligned {
                    offset,
                    block_size: self.block_size,
                }),
            },
    {
        if offset % self.block_size as u64 != 0 {
            return Err(DriveError::NotAligned { offset, block_size: self.block_size });
        }
        Ok(())
    }
}

/// The next command of a read of `total` bytes at `offset` of which `done` are
/// there: address and block count. Nothing when the read is over, or less
/// than a block is left.
pub fn read_step(offset: u64, done: u64, total: u64, bs: u32) -> (r: Option<(u64, u16)>)
    requires
        bs > 0,
        offset + total <= u64::MAX,
    ensures
        r == ({
            let left = total - done;
            let chunk = if left < MAX_TRANSFER {
                left
            } else {
                MAX_TRANSFER as int
            };
            let count = (chunk / bs as int) % 65536;
            if done >= total || count == 0 {
                None
            } else {
                Some((((offset + done) / bs as int) as u64, count as u16))
            }
        }),
        r matches Some((lba, count)) ==> {
            &&& (offset + done) % bs as int == 0 ==> lba * bs == offset + done
            &&& 0 < count * bs <= total - done
            &&& count * bs <= 65536
            &&& (count + 1) * bs > total - done || (count + 1) * bs > 65536
        },
        bs > 1 && done + bs <= total && bs <= 65536 ==> r is Some,
{
    if done >= total {
        return None;
    }
    let left: u64 = total - done;
    let chunk: u64 = if left < MAX_TRANSFER {
        left
    } else {
        MAX_TRANSFER
    };
    let size: u64 = bs as u64;
    let count: u64 = (chunk / size) % 65536;
    proof {
        lemma_whole_blocks((offset + done) as int, bs as int);
        lemma_whole_blocks(chunk as int, bs as int);
        let q = chunk as int / bs as int;
        if bs > 1 {
            assert(q < 65536) by (nonlinear_arith)
                requires
                    q * bs <= chunk <= 65536,
                    bs > 1,
                    q >= 0,
            ;
        } else {
            vstd::arithmetic::div_mod::lemma_div_basics(chunk as int);
            assert(q == chunk);
        }
        assert(q > 0 <==> bs <= chunk) by (nonlinear_arith)
            requires
                q * bs <= chunk,
                chunk < (q + 1) * bs,
                bs > 0,
                q >= 0,
        ;
        assert(q > 0 ==> q * bs > 0) by (nonlinear_arith)
            requires
                bs > 0,
        ;
    }
    if count == 0 {
        return None;
    }
    Some(((offset + done) / size, count as u16))
}

/// How many bytes of what arrived count toward a read.
pub fn read_taken(got: usize, done: u64, total: u64) -> (n: u64)
    requires
        done <= total,
    ensures
        n == if got < total - done {
            got as int
        } else {
            total - done
        },
        n <= got,
        done + n <= total,
        n == got || done + n == total,
{
    if (got as u64) < total - done {
        got as u64
    } else {
        total - done
    }
}

/// The next command of a write of `total` bytes at `offset` of which `done`
/// are out: address and byte count. A chunk in mid-stream is rounded down to
/// whole blocks; the last one may be ragged, and is padded when it is sent.
pub fn write_step(offset: u64, done: u64, total: u64, bs: u32) -> (r: Option<(u64, u64)>)
    requires
        0 < bs,
        done + MAX_TRANSFER < total ==> bs <= MAX_TRANSFER,
        offset + total <= u64::MAX,
    ensures
        r == ({
            let left = total - done;
            if done >= total {
                None
            } else {
                Some(
                    (
                        ((offset + done) / bs as int) as u64,
                        (if left <= MAX_TRANSFER {
                            left
                        } else {
                            (MAX_TRANSFER as int / bs as int) * bs
                        }) as u64,
                    ),
                )
            }
        }),
        r matches Some((lba, chunk)) ==> {
            &&& 0 < chunk <= total - done
            &&& chunk <= 65536
            &&& (offset + done) % bs as int == 0 ==> lba * bs == offset + done
            &&& chunk == total - done || chunk as int % bs as int == 0 && chunk + bs > 65536
        },
        done < total ==> r is Some,
{
    if done >= total {
        return None;
    }
    let left: u64 = total - done;
    let size: u64 = bs as u64;
    let lba: u64 = (offset + done) / size;
    proof {
        lemma_whole_blocks((offset + done) as int, bs as int);
        lemma_whole_blocks(MAX_TRANSFER as int, bs as int);
        let q = MAX_TRANSFER as int / bs as int;
        vstd::arithmetic::div_mod::lemma_mod_multiples_basic(q, bs as int);
        assert((q + 1) * bs == q * bs + bs) by (nonlinear_arith);
    }
    if left <= MAX_TRANSFER {
        return Some((lba, left));
    }
    proof {
        vstd::arithmetic::div_mod::lemma_fundamental_div_mod(MAX_TRANSFER as int, bs as int);
        assert(0 < (MAX_TRANSFER as int / bs as int) * bs <= MAX_TRANSFER) by (nonlinear_arith)
            requires
                MAX_TRANSFER as int == bs as int * (MAX_TRANSFER as int / bs as int)
                    + MAX_TRANSFER as int % bs as int,
                0 <= (MAX_TRANSFER as int % bs as int),
                (MAX_TRANSFER as int % bs as int) < bs,
                0 < bs <= MAX_TRANSFER,
        ;
    }
    Some((lba, (MAX_TRANSFER / size) * size))
}

/// What to unmap for `len` bytes at `offset`: address and block count, of
/// which the command carries 32 bits; nothing when that count is zero.
pub fn discard_step(offset: u64, len: u64, bs: u32) -> (r: Option<(u64, u32)>)
    requires
        bs > 0,
    ensures
        r == ({
            let count = (len as int / bs as int) % 0x1_0000_0000;
            if count == 0 {
                None
            } else {
                Some(((offset as int / bs as int) as u64, count as u32))
            }
        }),
        r matches Some((lba, count)) ==> {
            &&& offset as int % bs as int == 0 ==> lba * bs == offset
            &&& len < 0x1_0000_0000 ==> count * bs <= len < (count + 1) * bs
        },
        len < 0x1_0000_0000 ==> (r is Some <==> bs <= len),
{
    proof {
        lemma_whole_blocks(offset as int, bs as int);
        lemma_whole_blocks(len as int, bs as int);
        let q = len as int / bs as int;
        assert(q > 0 <==> bs <= len) by (nonlinear_arith)
            requires
                q * bs <= len,
                len < (q + 1) * bs,
                bs > 0,
                q >= 0,
        ;
        assert(q <= len) by (nonlinear_arith)
            requires
                q * bs <= len,
                bs > 0,
                q >= 0,
        ;
    }
    let count: u64 = (len / bs as u64) % 0x1_0000_0000;
    if count == 0 {
        return None;
    }
    Some((offset / bs as u64, count as u32))
}

proof fn lemma_whole_blocks(n: int, bs: int)
    requires
        0 <= n,
        0 < bs,
    ensures
        0 <= n / bs,
        (n / bs) * bs <= n < (n / bs + 1) * bs,
        n % bs == 0 ==> (n / bs) * bs == n,
{
    vstd::arithmetic::div_mod::lemma_fundamental_div_mod(n, bs);
    vstd::arithmetic::div_mod::lemma_div_pos_is_pos(n, bs);
    let q = n / bs;
    let r = n % bs;
    assert(q * bs == n - r && (q + 1) * bs == n - r + bs) by (nonlinear_arith)
        requires
            n == bs * q + r,
    ;
}

/// What a target says of its size is taken as it says it: the address of its
/// last block, then the size of one, each in four bytes.
pub proof fn a_capacity_is_read(last: u32, size: u32, rest: Seq<u8>)
    ensures
        capacity_of(bytes::be_bytes(last as nat, 4) + bytes::be_bytes(size as nat, 4) + rest)
            == Some(((last + 1) as u64, size)),
{
    broadcast use bytes::lemma_be_bytes_len;

    bytes::lemma_radix();
    let data = bytes::be_bytes(last as nat, 4) + bytes::be_bytes(size as nat, 4) + rest;
    assert(data.subrange(0, 4) =~= bytes::be_bytes(last as nat, 4));
    assert(data.subrange(4, 8) =~= bytes::be_bytes(size as nat, 4));
    bytes::be_round_trip(last as nat, 4);
    bytes::be_round_trip(size as nat, 4);
}

/// A ping of the target's that names a tag is answered under the tag that it
/// names, one that names none is passed over, and nothing else is kept from the
/// caller.
pub proof fn a_ping_is_answered_under_its_tag(h: Seq<u8>, itt: u32, ttt: u32)
    requires
        h.len() == 48,
        h.subrange(16, 20) == bytes::be_bytes(itt as nat, 4),
        h.subrange(20, 24) == bytes::be_bytes(ttt as nat, 4),
    ensures
        arrival_of(h) == (if h[0] as int % 64 != 0x20 || itt != 0xffff_ffff {
            Arrival::Deliver
        } else if ttt == 0xffff_ffff {
            Arrival::Skip
        } else {
            Arrival::Answer(ttt)
        }),
{
    bytes::lemma_radix();
    bytes::be_round_trip(itt as nat, 4);
    bytes::be_round_trip(ttt as nat, 4);
}

/// A login that the target accepts takes over its counters and, where it names
/// one, its handle; what the target does not speak of stays. It is open once
/// the target goes on to the full feature phase, or has answered the second
/// request; a status other than zero ends it.
pub proof fn a_login_follows_the_target(
    s: Session,
    h: Seq<u8>,
    data: Seq<u8>,
    tsih: u16,
    stat: u32,
    expected: u32,
    second: bool,
)
    requires
        h.len() == 48,
        h.subrange(14, 16) == bytes::be_bytes(tsih as nat, 2),
        h.subrange(24, 28) == bytes::be_bytes(stat as nat, 4),
        h.subrange(28, 32) == bytes::be_bytes(expected as nat, 4),
    ensures
        ({
            let after = after_response(s, h, data);
            &&& after.exp_stat_sn == stat
            &&& after.cmd_sn == expected
            &&& after.tsih == (if tsih != 0 {
                tsih
            } else {
                s.tsih
            })
            &&& after.itt == s.itt
            &&& after.block_size == s.block_size
            &&& after.qualifier == s.qualifier
        }),
        h[0] as int % 64 != 0x23 ==> login_next(h, second) is Failed,
        h[0] as int % 64 == 0x23 && h[36] != 0 ==> login_next(h, second) == LoginNext::Failed(
            LoginFault::Refused(h[36]),
        ),
        h[0] as int % 64 == 0x23 && h[36] == 0 ==> login_next(h, second) == (if second || (h[1]
            >= 0x80 && h[1] as int % 4 == 3) {
            LoginNext::Open
        } else {
            LoginNext::Operational
        }),
{
    bytes::lemma_radix();
    bytes::be_round_trip(tsih as nat, 2);
    bytes::be_round_trip(stat as nat, 4);
    bytes::be_round_trip(expected as nat, 4);
}

/// A parameter is its key, an equals sign, its value and a zero byte.
pub proof fn a_parameter_is_key_equals_value(key: Seq<char>, value: Seq<char>)
    ensures
        ({
            let k = vstd::utf8::encode_utf8(key);
            let v = vstd::utf8::encode_utf8(value);
            let p = param_bytes(key, value);
            &&& p.len() == k.len() + v.len() + 2
            &&& p.take(k.len() as int) == k
            &&& p[k.len() as int] == 0x3d
            &&& p.subrange((k.len() + 1) as int, p.len() - 1) == v
            &&& p.last() == 0
        }),
{
    let k = vstd::utf8::encode_utf8(key);
    let v = vstd::utf8::encode_utf8(value);
    let p = param_bytes(key, value);
    assert(p.take(k.len() as int) =~= k);
    assert(p.subrange((k.len() + 1) as int, p.len() - 1) =~= v);
}

/// The parameters of the operational stage say what they say as text: each key
/// with its value, a zero behind it.
pub proof fn the_operational_parameters_read()
    ensures
        vstd::utf8::encode_utf8(operational_text()) == operational(),
{
    let a = said("HeaderDigest"@, "None"@);
    let b = said("DataDigest"@, "None"@);
    let c = said("MaxRecvDataSegmentLength"@, "65536"@);
    let d = said("MaxBurstLength"@, "262144"@);
    let e = said("FirstBurstLength"@, "65536"@);
    let f = said("DefaultTime2Wait"@, "2"@);
    let g = said("DefaultTime2Retain"@, "0"@);
    let h = said("MaxOutstandingR2T"@, "1"@);
    let i = said("MaxConnections"@, "1"@);
    let j = said("ImmediateData"@, "Yes"@);
    let k = said("InitialR2T"@, "No"@);
    let l = said("ErrorRecoveryLevel"@, "0"@);
    a_parameter_is_text("HeaderDigest"@, "None"@);
    a_parameter_is_text("DataDigest"@, "None"@);
    a_parameter_is_text("MaxRecvDataSegmentLength"@, "65536"@);
    a_parameter_is_text("MaxBurstLength"@, "262144"@);
    a_parameter_is_text("FirstBurstLength"@, "65536"@);
    a_parameter_is_text("DefaultTime2Wait"@, "2"@);
    a_parameter_is_text("DefaultTime2Retain"@, "0"@);
    a_parameter_is_text("MaxOutstandingR2T"@, "1"@);
    a_parameter_is_text("MaxConnections"@, "1"@);
    a_parameter_is_text("ImmediateData"@, "Yes"@);
    a_parameter_is_text("InitialR2T"@, "No"@);
    a_parameter_is_text("ErrorRecoveryLevel"@, "0"@);
    text::lemma_encode_joined(a, b);
    text::lemma_encode_joined(a + b, c);
    text::lemma_encode_joined(a + b + c, d);
    text::lemma_encode_joined(a + b + c + d, e);
    text::lemma_encode_joined(a + b + c + d + e, f);
    text::lemma_encode_joined(a + b + c + d + e + f, g);
    text::lemma_encode_joined(a + b + c + d + e + f + g, h);
    text::lemma_encode_joined(a + b + c + d + e + f + g + h, i);
    text::lemma_encode_joined(a + b + c + d + e + f + g + h + i, j);
    text::lemma_encode_joined(a + b + c + d + e + f + g + h + i + j, k);
    text::lemma_encode_joined(a + b + c + d + e + f + g + h + i + j + k, l);
}

/// A parameter in words.
pub open spec fn said(key: Seq<char>, value: Seq<char>) -> Seq<char> {
    key + seq!['='] + value + seq!['\0']
}

/// The parameters of the operational stage in words.
pub open spec fn operational_text() -> Seq<char> {
    said("HeaderDigest"@, "None"@) + said("DataDigest"@, "None"@) + said(
        "MaxRecvDataSegmentLength"@,
        "65536"@,
    ) + said("MaxBurstLength"@, "262144"@) + said("FirstBurstLength"@, "65536"@) + said(
        "DefaultTime2Wait"@,
        "2"@,
    ) + said("DefaultTime2Retain"@, "0"@) + said("MaxOutstandingR2T"@, "1"@) + said(
        "MaxConnections"@,
        "1"@,
    ) + said("ImmediateData"@, "Yes"@) + said("InitialR2T"@, "No"@) + said(
        "ErrorRecoveryLevel"@,
        "0"@,
    )
}

/// The bytes of a parameter are those of its words.
pub proof fn a_parameter_is_text(key: Seq<char>, value: Seq<char>)
    ensures
        vstd::utf8::encode_utf8(said(key, value)) == param_bytes(key, value),
{
    let eq = seq!['='];
    let end = seq!['\0'];
    assert(61u32 & 0x7F == 61u32 && 0u32 & 0x7F == 0u32) by (bit_vector);
    assert(eq.drop_first() =~= Seq::<char>::empty());
    assert(end.drop_first() =~= Seq::<char>::empty());
    assert(vstd::utf8::encode_utf8(Seq::<char>::empty()) =~= Seq::<u8>::empty());
    assert(vstd::utf8::encode_scalar('=' as u32) =~= seq![61u8]);
    assert(vstd::utf8::encode_scalar('\0' as u32) =~= seq![0u8]);
    assert(vstd::utf8::encode_utf8(eq) =~= seq![61u8]);
    assert(vstd::utf8::encode_utf8(end) =~= seq![0u8]);
    text::lemma_encode_joined(key, eq);
    text::lemma_encode_joined(key + eq, value);
    text::lemma_encode_joined(key + eq + value, end);
}

/// Two connections of one counter never share a session identity, unless
/// 65536 others lie between them.
pub proof fn isids_differ(a: u32, b: u32)
    requires
        a < b < a + 65536,
    ensures
        isid_of(a) != isid_of(b),
        isid_of(a).len() == 6,
        isid_of(a).take(4) == isid_of(b).take(4),
{
    let x = isid_of(a);
    let y = isid_of(b);
    if x == y {
        assert(x[4] == y[4] && x[5] == y[5]);
    }
    assert(x.take(4) =~= y.take(4));
}

/// How many bytes fill data up to whole words.
pub open spec fn padding_of(len: int) -> int {
    (4 - len % 4) % 4
}

/// How many bytes fill data up to whole words.
pub fn padding(len: usize) -> (n: usize)
    ensures
        n == padding_of(len as int),
        (len + n) % 4 == 0,
        n < 4,
{
    (4 - len % 4) % 4
}

/// What follows a header: bytes that extend it, bytes of data, and bytes that
/// fill the data up.
pub fn lengths(h: &[u8]) -> (r: (usize, usize, usize))
    requires
        h@.len() == 48,
    ensures
        r.0 == 4 * h@[4],
        r.1 == bytes::be_value(h@.subrange(5, 8)),
        r.2 == padding_of(r.1 as int),
        (r.1 + r.2) % 4 == 0,
        r.2 < 4,
        forall|n: nat|
            n < 0x100_0000 && h@.subrange(5, 8) == #[trigger] bytes::be_bytes(n, 3) ==> r.1 == n,
{
    proof {
        bytes::lemma_radix();
    }
    let data: usize = bytes::get_be(h, 5, 3) as usize;
    proof {
        assert forall|n: nat|
            n < 0x100_0000 && h@.subrange(5, 8) == #[trigger] bytes::be_bytes(n, 3) implies data == n by {
            bytes::be_round_trip(n, 3);
        }
    }
    (4 * h[4] as usize, data, padding(data))
}

} // verus!
