//! The server side of the network block device protocol, newstyle fixed
//! negotiation.
//!
//! A session is a state machine over bytes. It says how many bytes it wants
//! next, takes them, and answers with what is to be done: bytes to send, an
//! operation on the device, or the end of the connection.
use crate::bytes;
use vstd::prelude::*;

verus! {

/// "NBDMAGIC".
pub const NBD_MAGIC: u64 = 0x4e42444d41474943;

/// "IHAVEOPT".
pub const NBD_OPTS_MAGIC: u64 = 0x49484156454F5054;

pub const NBD_REPLY_MAGIC: u32 = 0x67446698;

pub const NBD_REQUEST_MAGIC: u32 = 0x25609513;

pub const NBD_SIMPLE_REPLY_MAGIC: u32 = 0x67446698;

/// Option types.
pub const NBD_OPT_EXPORT_NAME: u32 = 1;

pub const NBD_OPT_ABORT: u32 = 2;

pub const NBD_OPT_GO: u32 = 7;

/// Option reply types.
pub const NBD_REP_ACK: u32 = 1;

pub const NBD_REP_INFO: u32 = 3;

pub const NBD_REP_ERR_UNSUP: u32 = 0x80000001;

/// Info types.
pub const NBD_INFO_EXPORT: u16 = 0;

/// Command types.
pub const NBD_CMD_READ: u16 = 0;

pub const NBD_CMD_WRITE: u16 = 1;

pub const NBD_CMD_DISC: u16 = 2;

pub const NBD_CMD_FLUSH: u16 = 3;

pub const NBD_CMD_TRIM: u16 = 4;

/// Error codes.
pub const NBD_OK: u32 = 0;

pub const NBD_EIO: u32 = 5;

pub const NBD_EINVAL: u32 = 22;

/// Transmission flags: flags are given, flush and trim are understood.
pub const EXPORT_FLAGS: u16 = 37;

/// Handshake flags: fixed newstyle.
pub const NBD_FLAG_FIXED_NEWSTYLE: u16 = 1;

/// Where a session stands.
#[derive(Debug, Clone, Copy, PartialEq, Eq, Structural)]
pub enum Phase {
    /// The client's flags come next.
    ClientFlags,
    /// The magic of an option comes next.
    OptionMagic,
    /// The head of an option comes next.
    OptionHead,
    /// The data of an option comes next.
    OptionData { option: u32, len: u32 },
    /// The magic of a request comes next.
    RequestMagic,
    /// The head of a request comes next.
    RequestHead,
    /// The data of a write comes next.
    WriteData { handle: u64, offset: u64, len: u32 },
    /// The device is at work for a request; `read` is how much data its answer
    /// carries, where it reads.
    Device { handle: u64, read: Option<u32> },
    /// The session is over.
    Closed,
}

/// An operation on the device.
pub enum DeviceOp {
    Read { offset: u64, len: u32 },
    Write { offset: u64, data: Vec<u8> },
    Flush,
    Trim { offset: u64, len: u32 },
}

/// What is wrong with what a client sent.
#[derive(Debug, Clone, Copy, PartialEq, Eq, Structural)]
pub enum NbdFault {
    BadOptionMagic(u64),
    BadRequestMagic(u32),
}

/// What is to be done.
pub enum NbdAction {
    /// Read on.
    Read,
    /// Send this, then read on.
    Send(Vec<u8>),
    /// Send this, then close.
    SendAndClose(Vec<u8>),
    /// Have the device do this, and tell how it went.
    Run(DeviceOp),
    /// Close.
    Close,
    /// Close: the client broke the protocol.
    Fail(NbdFault),
}

/// The first bytes of a session.
pub open spec fn greeting_bytes() -> Seq<u8> {
    bytes::be_bytes(NBD_MAGIC as nat, 8) + bytes::be_bytes(NBD_OPTS_MAGIC as nat, 8)
        + bytes::be_bytes(NBD_FLAG_FIXED_NEWSTYLE as nat, 2)
}

/// The answer to an export name: size and flags, and padding.
pub open spec fn export_bytes(size: u64) -> Seq<u8> {
    bytes::be_bytes(size as nat, 8) + bytes::be_bytes(EXPORT_FLAGS as nat, 2) + bytes::zeros(124)
}

/// An answer to an option, without data.
pub open spec fn option_reply(option: u32, reply: u32) -> Seq<u8> {
    bytes::be_bytes(NBD_REPLY_MAGIC as nat, 8) + bytes::be_bytes(option as nat, 4)
        + bytes::be_bytes(reply as nat, 4) + bytes::be_bytes(0, 4)
}

/// The answer to a go option: the export's size and flags, then a yes.
pub open spec fn go_bytes(size: u64) -> Seq<u8> {
    bytes::be_bytes(NBD_REPLY_MAGIC as nat, 8) + bytes::be_bytes(NBD_OPT_GO as nat, 4)
        + bytes::be_bytes(NBD_REP_INFO as nat, 4) + bytes::be_bytes(12, 4) + bytes::be_bytes(
        NBD_INFO_EXPORT as nat,
        2,
    ) + bytes::be_bytes(size as nat, 8) + bytes::be_bytes(EXPORT_FLAGS as nat, 2) + option_reply(
        NBD_OPT_GO,
        NBD_REP_ACK,
    )
}

/// The answer to a request.
pub open spec fn simple_reply(error: u32, handle: u64) -> Seq<u8> {
    bytes::be_bytes(NBD_SIMPLE_REPLY_MAGIC as nat, 4) + bytes::be_bytes(error as nat, 4)
        + bytes::be_bytes(handle as nat, 8)
}

fn push_option_reply(buf: &mut Vec<u8>, option: u32, reply: u32)
    ensures
        final(buf)@ == old(buf)@ + option_reply(option, reply),
{
    bytes::push_be(buf, NBD_REPLY_MAGIC as u128, 8);
    bytes::push_be(buf, option as u128, 4);
    bytes::push_be(buf, reply as u128, 4);
    bytes::push_be(buf, 0, 4);
    assert(buf@ =~= old(buf)@ + option_reply(option, reply));
}

/// The answer to a request.
fn reply_to(error: u32, handle: u64) -> (buf: Vec<u8>)
    ensures
        buf@ == simple_reply(error, handle),
{
    let mut buf: Vec<u8> = Vec::new();
    bytes::push_be(&mut buf, NBD_SIMPLE_REPLY_MAGIC as u128, 4);
    bytes::push_be(&mut buf, error as u128, 4);
    bytes::push_be(&mut buf, handle as u128, 8);
    assert(buf@ =~= simple_reply(error, handle));
    buf
}

/// A connection of one client to one device.
pub struct NbdSession {
    pub size: u64,
    pub phase: Phase,
}

/// How many bytes a phase wants next.
pub open spec fn wanted_in(p: Phase) -> int {
    match p {
        Phase::ClientFlags => 4,
        Phase::OptionMagic => 8,
        Phase::OptionHead => 8,
        Phase::OptionData { option, len } => len as int,
        Phase::RequestMagic => 4,
        Phase::RequestHead => 24,
        Phase::WriteData { handle, offset, len } => len as int,
        Phase::Device { handle, read } => 0,
        Phase::Closed => 0,
    }
}

/// What an option leads to: an export name or a go begins transmission, an
/// abort ends the session, anything else is refused and haggling goes on.
pub open spec fn option_next(size: u64, option: u32) -> (Phase, Seq<u8>) {
    if option == NBD_OPT_EXPORT_NAME {
        (Phase::RequestMagic, export_bytes(size))
    } else if option == NBD_OPT_GO {
        (Phase::RequestMagic, go_bytes(size))
    } else if option == NBD_OPT_ABORT {
        (Phase::Closed, option_reply(option, NBD_REP_ACK))
    } else {
        (Phase::OptionMagic, option_reply(option, NBD_REP_ERR_UNSUP))
    }
}

/// Whether an action sends `data` and goes on in `phase`.
pub open spec fn sends(a: NbdAction, phase: Phase, data: Seq<u8>) -> bool {
    match a {
        NbdAction::Send(b) => phase != Phase::Closed && b@ == data,
        NbdAction::SendAndClose(b) => phase == Phase::Closed && b@ == data,
        _ => false,
    }
}

/// Whether `a` and `after` are what `input` leads to in phase `before`.
pub open spec fn is_step(
    size: u64,
    before: Phase,
    input: Seq<u8>,
    after: Phase,
    a: NbdAction,
) -> bool {
    match before {
        Phase::ClientFlags => after == Phase::OptionMagic && a is Read,
        Phase::OptionMagic => {
            let magic = bytes::be_value(input) as u64;
            if magic != NBD_OPTS_MAGIC {
                after == Phase::Closed && a == NbdAction::Fail(NbdFault::BadOptionMagic(magic))
            } else {
                after == Phase::OptionHead && a is Read
            }
        },
        Phase::OptionHead => {
            let option = bytes::be_value(input.subrange(0, 4)) as u32;
            let len = bytes::be_value(input.subrange(4, 8)) as u32;
            if len > 0 {
                after == (Phase::OptionData { option, len }) && a is Read
            } else {
                after == option_next(size, option).0 && sends(a, after, option_next(size, option).1)
            }
        },
        Phase::OptionData { option, len } => after == option_next(size, option).0 && sends(
            a,
            after,
            option_next(size, option).1,
        ),
        Phase::RequestMagic => {
            let magic = bytes::be_value(input) as u32;
            if magic != NBD_REQUEST_MAGIC {
                after == Phase::Closed && a == NbdAction::Fail(NbdFault::BadRequestMagic(magic))
            } else {
                after == Phase::RequestHead && a is Read
            }
        },
        Phase::RequestHead => {
            let command = bytes::be_value(input.subrange(2, 4)) as u16;
            let handle = bytes::be_value(input.subrange(4, 12)) as u64;
            let offset = bytes::be_value(input.subrange(12, 20)) as u64;
            let len = bytes::be_value(input.subrange(20, 24)) as u32;
            if command == NBD_CMD_READ {
                after == (Phase::Device { handle, read: Some(len) }) && a == NbdAction::Run(
                    DeviceOp::Read { offset, len },
                )
            } else if command == NBD_CMD_WRITE {
                after == (Phase::WriteData { handle, offset, len }) && a is Read
            } else if command == NBD_CMD_DISC {
                after == Phase::Closed && a is Close
            } else if command == NBD_CMD_FLUSH {
                after == (Phase::Device { handle, read: None }) && a == NbdAction::Run(
                    DeviceOp::Flush,
                )
            } else if command == NBD_CMD_TRIM {
                after == (Phase::Device { handle, read: None }) && a == NbdAction::Run(
                    DeviceOp::Trim { offset, len },
                )
            } else {
                after == Phase::RequestMagic && sends(a, after, simple_reply(NBD_EINVAL, handle))
            }
        },
        Phase::WriteData { handle, offset, len } => {
            &&& after == (Phase::Device { handle, read: None })
            &&& a matches NbdAction::Run(DeviceOp::Write { offset: o, data })
            &&& o == offset
            &&& data@ == input
        },
        Phase::Device { handle, read } => after == before && a is Read,
        Phase::Closed => after == before && a is Close,
    }
}

impl NbdSession {
    /// A session for a device of `size` bytes.
    pub fn new(size: u64) -> (s: Self)
        ensures
            s.size == size,
            s.phase == Phase::ClientFlags,
    {
        NbdSession { size, phase: Phase::ClientFlags }
    }

    /// The first bytes of the session.
    pub fn greeting(&self) -> (buf: Vec<u8>)
        ensures
            buf@ == greeting_bytes(),
            buf@.len() == 18,
    {
        broadcast use bytes::lemma_be_bytes_len;

        let mut buf: Vec<u8> = Vec::new();
        bytes::push_be(&mut buf, NBD_MAGIC as u128, 8);
        bytes::push_be(&mut buf, NBD_OPTS_MAGIC as u128, 8);
        bytes::push_be(&mut buf, NBD_FLAG_FIXED_NEWSTYLE as u128, 2);
        assert(buf@ =~= greeting_bytes());
        buf
    }

    /// How many bytes the session wants next.
    pub fn wanted(&self) -> (n: usize)
        ensures
            n == wanted_in(self.phase),
    {
        match self.phase {
            Phase::ClientFlags => 4,
            Phase::OptionMagic => 8,
            Phase::OptionHead => 8,
            Phase::OptionData { option: _, len } => len as usize,
            Phase::RequestMagic => 4,
            Phase::RequestHead => 24,
            Phase::WriteData { handle: _, offset: _, len } => len as usize,
            Phase::Device { handle: _, read: _ } => 0,
            Phase::Closed => 0,
        }
    }

    /// Answers an option.
    fn answer_option(&mut self, option: u32) -> (a: NbdAction)
        ensures
            final(self).size == old(self).size,
            final(self).phase == option_next(old(self).size, option).0,
            sends(a, final(self).phase, option_next(old(self).size, option).1),
    {
        let mut buf: Vec<u8> = Vec::new();
        if option == NBD_OPT_EXPORT_NAME {
            bytes::push_be(&mut buf, self.size as u128, 8);
            bytes::push_be(&mut buf, EXPORT_FLAGS as u128, 2);
            bytes::push_zeros(&mut buf, 124);
            assert(buf@ =~= export_bytes(self.size));
            self.phase = Phase::RequestMagic;
            NbdAction::Send(buf)
        } else if option == NBD_OPT_GO {
            bytes::push_be(&mut buf, NBD_REPLY_MAGIC as u128, 8);
            bytes::push_be(&mut buf, NBD_OPT_GO as u128, 4);
            bytes::push_be(&mut buf, NBD_REP_INFO as u128, 4);
            bytes::push_be(&mut buf, 12, 4);
            bytes::push_be(&mut buf, NBD_INFO_EXPORT as u128, 2);
            bytes::push_be(&mut buf, self.size as u128, 8);
            bytes::push_be(&mut buf, EXPORT_FLAGS as u128, 2);
            push_option_reply(&mut buf, NBD_OPT_GO, NBD_REP_ACK);
            assert(buf@ =~= go_bytes(self.size));
            self.phase = Phase::RequestMagic;
            NbdAction::Send(buf)
        } else if option == NBD_OPT_ABORT {
            push_option_reply(&mut buf, option, NBD_REP_ACK);
            assert(buf@ =~= option_reply(option, NBD_REP_ACK));
            self.phase = Phase::Closed;
            NbdAction::SendAndClose(buf)
        } else {
            push_option_reply(&mut buf, option, NBD_REP_ERR_UNSUP);
            assert(buf@ =~= option_reply(option, NBD_REP_ERR_UNSUP));
            self.phase = Phase::OptionMagic;
            NbdAction::Send(buf)
        }
    }

    /// Takes the bytes that were wanted, and says what is to be done.
    pub fn feed(&mut self, input: Vec<u8>) -> (a: NbdAction)
        requires
            input@.len() == wanted_in(old(self).phase),
        ensures
            final(self).size == old(self).size,
            is_step(old(self).size, old(self).phase, input@, final(self).phase, a),
    {
        proof {
            bytes::lemma_radix();
        }
        match self.phase {
            Phase::ClientFlags => {
                self.phase = Phase::OptionMagic;
                NbdAction::Read
            },
            Phase::OptionMagic => {
                assert(input@.subrange(0, 8) =~= input@);
                let magic: u64 = bytes::get_be(&input, 0, 8) as u64;
                if magic != NBD_OPTS_MAGIC {
                    self.phase = Phase::Closed;
                    return NbdAction::Fail(NbdFault::BadOptionMagic(magic));
                }
                self.phase = Phase::OptionHead;
                NbdAction::Read
            },
            Phase::OptionHead => {
                let option: u32 = bytes::get_be(&input, 0, 4) as u32;
                let len: u32 = bytes::get_be(&input, 4, 4) as u32;
                if len > 0 {
                    self.phase = Phase::OptionData { option, len };
                    return NbdAction::Read;
                }
                self.answer_option(option)
            },
            Phase::OptionData { option, len: _ } => self.answer_option(option),
            Phase::RequestMagic => {
                assert(input@.subrange(0, 4) =~= input@);
                let magic: u32 = bytes::get_be(&input, 0, 4) as u32;
                if magic != NBD_REQUEST_MAGIC {
                    self.phase = Phase::Closed;
                    return NbdAction::Fail(NbdFault::BadRequestMagic(magic));
                }
                self.phase = Phase::RequestHead;
                NbdAction::Read
            },
            Phase::RequestHead => {
                let command: u16 = bytes::get_be(&input, 2, 2) as u16;
                let handle: u64 = bytes::get_be(&input, 4, 8) as u64;
                let offset: u64 = bytes::get_be(&input, 12, 8) as u64;
                let len: u32 = bytes::get_be(&input, 20, 4) as u32;
                if command == NBD_CMD_READ {
                    self.phase = Phase::Device { handle, read: Some(len) };
                    NbdAction::Run(DeviceOp::Read { offset, len })
                } else if command == NBD_CMD_WRITE {
                    self.phase = Phase::WriteData { handle, offset, len };
                    NbdAction::Read
                } else if command == NBD_CMD_DISC {
                    self.phase = Phase::Closed;
                    NbdAction::Close
                } else if command == NBD_CMD_FLUSH {
                    self.phase = Phase::Device { handle, read: None };
                    NbdAction::Run(DeviceOp::Flush)
                } else if command == NBD_CMD_TRIM {
                    self.phase = Phase::Device { handle, read: None };
                    NbdAction::Run(DeviceOp::Trim { offset, len })
                } else {
                    self.phase = Phase::RequestMagic;
                    NbdAction::Send(reply_to(NBD_EINVAL, handle))
                }
            },
            Phase::WriteData { handle, offset, len: _ } => {
                self.phase = Phase::Device { handle, read: None };
                NbdAction::Run(DeviceOp::Write { offset, data: input })
            },
            Phase::Device { handle: _, read: _ } => NbdAction::Read,
            Phase::Closed => NbdAction::Close,
        }
    }

    /// The answer to a request once the device is done: an error where it
    /// failed, the data where a read went well.
    pub fn complete(&mut self, ok: bool, data: &[u8]) -> (buf: Vec<u8>)
        requires
            old(self).phase is Device,
            old(self).phase matches Phase::Device { handle, read: Some(len) } ==> ok ==> data@.len()
                == len,
        ensures
            final(self).size == old(self).size,
            final(self).phase == Phase::RequestMagic,
            old(self).phase matches Phase::Device { handle, read } && buf@ == answered(
                handle,
                read,
                ok,
                data@,
            ),
    {
        let (handle, reads) = match self.phase {
            Phase::Device { handle, read } => (handle, read.is_some()),
            _ => (0, false),
        };
        self.phase = Phase::RequestMagic;
        let mut buf = reply_to(
            if ok {
                NBD_OK
            } else {
                NBD_EIO
            },
            handle,
        );
        if ok && reads {
            buf.extend_from_slice(data);
        }
        assert(buf@ =~= answered(handle, old(self).phase->read, ok, data@));
        buf
    }
}

/// The answer to a request once the device is done.
pub open spec fn answered(handle: u64, read: Option<u32>, ok: bool, data: Seq<u8>) -> Seq<u8> {
    if !ok {
        simple_reply(NBD_EIO, handle)
    } else if read is Some {
        simple_reply(NBD_OK, handle) + data
    } else {
        simple_reply(NBD_OK, handle)
    }
}

/// A read that goes well is answered with exactly as many bytes as it asked
/// for behind the head of the answer, and anything else with the head alone.
pub proof fn a_read_is_answered_in_full(
    size: u64,
    input: Seq<u8>,
    handle: u64,
    read: Option<u32>,
    a: NbdAction,
    ok: bool,
    data: Seq<u8>,
)
    requires
        input.len() == 24,
        is_step(size, Phase::RequestHead, input, Phase::Device { handle, read }, a),
        read matches Some(len) ==> ok ==> data.len() == len,
    ensures
        ({
            let command = bytes::be_value(input.subrange(2, 4)) as u16;
            let asked = bytes::be_value(input.subrange(20, 24)) as u32;
            answered(handle, read, ok, data).len() == if command == NBD_CMD_READ && ok {
                16 + asked
            } else {
                16
            }
        }),
{
    broadcast use bytes::lemma_be_bytes_len;

}

/// A request is answered under its own handle, whatever it asks for: by an
/// error at once, or when the device is done. Only a disconnect ends the
/// session.
pub proof fn a_request_is_answered_under_its_handle(
    size: u64,
    input: Seq<u8>,
    after: Phase,
    a: NbdAction,
)
    requires
        input.len() == 24,
        is_step(size, Phase::RequestHead, input, after, a),
        bytes::be_value(input.subrange(2, 4)) as u16 != NBD_CMD_DISC,
    ensures
        ({
            let handle = bytes::be_value(input.subrange(4, 12)) as u64;
            match after {
                Phase::Device { handle: h, read } => h == handle,
                Phase::WriteData { handle: h, offset, len } => h == handle,
                Phase::RequestMagic => sends(a, after, simple_reply(NBD_EINVAL, handle)),
                _ => false,
            }
        }),
{
}

/// Nothing is asked of the device before transmission has begun.
pub proof fn haggling_never_touches_the_device(
    size: u64,
    before: Phase,
    input: Seq<u8>,
    after: Phase,
    a: NbdAction,
)
    requires
        is_step(size, before, input, after, a),
        before is ClientFlags || before is OptionMagic || before is OptionHead
            || before is OptionData,
    ensures
        !(a is Run),
{
}

/// What the device is asked to do for a request lies at the offset that the
/// request names in its bytes 12 to 19, and is as long as its bytes 20 to 23
/// say, most significant byte first; a read, a write and a trim of one offset
/// meet at that offset. The answer will go under the handle in bytes 4 to 11.
pub proof fn a_request_is_carried_out_where_it_names(
    size: u64,
    input: Seq<u8>,
    command: u16,
    handle: u64,
    offset: u64,
    len: u32,
    after: Phase,
    a: NbdAction,
)
    requires
        input.len() == 24,
        input.subrange(2, 4) == bytes::be_bytes(command as nat, 2),
        input.subrange(4, 12) == bytes::be_bytes(handle as nat, 8),
        input.subrange(12, 20) == bytes::be_bytes(offset as nat, 8),
        input.subrange(20, 24) == bytes::be_bytes(len as nat, 4),
        is_step(size, Phase::RequestHead, input, after, a),
    ensures
        command == 0 ==> a == NbdAction::Run(DeviceOp::Read { offset, len }) && after == (
        Phase::Device { handle, read: Some(len) }),
        command == 1 ==> a is Read && after == (Phase::WriteData { handle, offset, len }),
        command == 2 ==> a is Close && after == Phase::Closed,
        command == 3 ==> a == NbdAction::Run(DeviceOp::Flush) && after == (Phase::Device {
            handle,
            read: None,
        }),
        command == 4 ==> a == NbdAction::Run(DeviceOp::Trim { offset, len }) && after == (
        Phase::Device { handle, read: None }),
        command > 4 ==> after == Phase::RequestMagic && (a matches NbdAction::Send(b) && b@
            == simple_reply(22, handle)),
{
    bytes::lemma_radix();
    bytes::be_round_trip(command as nat, 2);
    bytes::be_round_trip(handle as nat, 8);
    bytes::be_round_trip(offset as nat, 8);
    bytes::be_round_trip(len as nat, 4);
}

/// The data of a write is all that its request announced, and goes to the
/// device as it came, at the offset that the request named.
pub proof fn a_write_goes_where_it_was_announced(
    size: u64,
    handle: u64,
    offset: u64,
    len: u32,
    input: Seq<u8>,
    after: Phase,
    a: NbdAction,
)
    requires
        is_step(size, Phase::WriteData { handle, offset, len }, input, after, a),
    ensures
        wanted_in(Phase::WriteData { handle, offset, len }) == len,
        after == (Phase::Device { handle, read: None }),
        a matches NbdAction::Run(DeviceOp::Write { offset: o, data }) && o == offset && data@
            == input,
{
}

/// What a session takes in, piece by piece: the client's four bytes of flags;
/// then options, each a magic number and a head of eight bytes with the length
/// of what follows; then requests of 28 bytes, the first four a magic number. A
/// wrong magic number ends the session, and a right one is followed by what it
/// announces.
pub proof fn the_pieces_follow_the_protocol(
    size: u64,
    input: Seq<u8>,
    magic: u64,
    number: u32,
    after: Phase,
    a: NbdAction,
)
    requires
        input.len() == 8 || input.len() == 4,
        input.len() == 8 ==> input == bytes::be_bytes(magic as nat, 8),
        input.len() == 4 ==> input == bytes::be_bytes(number as nat, 4),
    ensures
        wanted_in(Phase::ClientFlags) == 4,
        wanted_in(Phase::OptionMagic) == 8,
        wanted_in(Phase::OptionHead) == 8,
        wanted_in(Phase::RequestMagic) == 4,
        wanted_in(Phase::RequestHead) == 24,
        is_step(size, Phase::ClientFlags, input, after, a) ==> after == Phase::OptionMagic
            && a is Read,
        input.len() == 8 && is_step(size, Phase::OptionMagic, input, after, a) ==> if magic
            == 0x49484156454F5054 {
            after == Phase::OptionHead && a is Read
        } else {
            after == Phase::Closed && a == NbdAction::Fail(NbdFault::BadOptionMagic(magic))
        },
        input.len() == 4 && is_step(size, Phase::RequestMagic, input, after, a) ==> if number
            == 0x25609513 {
            after == Phase::RequestHead && a is Read
        } else {
            after == Phase::Closed && a == NbdAction::Fail(NbdFault::BadRequestMagic(number))
        },
{
    bytes::lemma_radix();
    bytes::be_round_trip(magic as nat, 8);
    bytes::be_round_trip(number as nat, 4);
}

/// An option is waited for in full, and then answered by what it is: an export
/// name and a go begin transmission, an abort closes, all else is refused and
/// the next option is waited for.
pub proof fn an_option_is_answered(
    size: u64,
    input: Seq<u8>,
    option: u32,
    len: u32,
    after: Phase,
    a: NbdAction,
)
    requires
        input.len() == 8,
        input.subrange(0, 4) == bytes::be_bytes(option as nat, 4),
        input.subrange(4, 8) == bytes::be_bytes(len as nat, 4),
        is_step(size, Phase::OptionHead, input, after, a),
    ensures
        len > 0 ==> after == (Phase::OptionData { option, len }) && a is Read && wanted_in(after)
            == len,
        len == 0 ==> {
            &&& option == 1 ==> after == Phase::RequestMagic && (a matches NbdAction::Send(b) && b@
                == export_bytes(size))
            &&& option == 7 ==> after == Phase::RequestMagic && (a matches NbdAction::Send(b) && b@
                == go_bytes(size))
            &&& option == 2 ==> after == Phase::Closed && (a matches NbdAction::SendAndClose(b)
                && b@ == option_reply(2, 1))
            &&& option != 1 && option != 7 && option != 2 ==> after == Phase::OptionMagic && (
            a matches NbdAction::Send(b) && b@ == option_reply(option, 0x8000_0001))
        },
        forall|data: Seq<u8>, then: Phase, b: NbdAction| #[trigger]
            is_step(size, Phase::OptionData { option, len }, data, then, b) && len > 0 ==> {
                &&& option == 1 ==> then == Phase::RequestMagic && (b matches NbdAction::Send(c)
                    && c@ == export_bytes(size))
                &&& option == 7 ==> then == Phase::RequestMagic && (b matches NbdAction::Send(c)
                    && c@ == go_bytes(size))
                &&& option == 2 ==> then == Phase::Closed && (b matches NbdAction::SendAndClose(c)
                    && c@ == option_reply(2, 1))
                &&& option != 1 && option != 7 && option != 2 ==> then == Phase::OptionMagic && (
                b matches NbdAction::Send(c) && c@ == option_reply(option, 0x8000_0001))
            },
{
    bytes::lemma_radix();
    bytes::be_round_trip(option as nat, 4);
    bytes::be_round_trip(len as nat, 4);
}

/// An answer to a request is sixteen bytes: the magic number, the error and the
/// handle, each most significant byte first.
pub proof fn a_reply_is_laid_out(error: u32, handle: u64)
    ensures
        ({
            let r = simple_reply(error, handle);
            &&& r.len() == 16
            &&& bytes::be_value(r.subrange(0, 4)) == 0x67446698
            &&& bytes::be_value(r.subrange(4, 8)) == error
            &&& bytes::be_value(r.subrange(8, 16)) == handle
        }),
{
    broadcast use bytes::lemma_be_bytes_len;

    bytes::lemma_radix();
    let r = simple_reply(error, handle);
    assert(r.subrange(0, 4) =~= bytes::be_bytes(NBD_SIMPLE_REPLY_MAGIC as nat, 4));
    assert(r.subrange(4, 8) =~= bytes::be_bytes(error as nat, 4));
    assert(r.subrange(8, 16) =~= bytes::be_bytes(handle as nat, 8));
    bytes::be_round_trip(NBD_SIMPLE_REPLY_MAGIC as nat, 4);
    bytes::be_round_trip(error as nat, 4);
    bytes::be_round_trip(handle as nat, 8);
}

/// A device that failed is reported as an error of the protocol, one that did
/// not as none, in either case under the handle of the request.
pub proof fn an_answer_tells_how_it_went(handle: u64, read: Option<u32>, ok: bool, data: Seq<u8>)
    ensures
        ({
            let r = answered(handle, read, ok, data);
            &&& r.len() >= 16
            &&& bytes::be_value(r.subrange(4, 8)) == (if ok {
                0
            } else {
                5int
            })
            &&& bytes::be_value(r.subrange(8, 16)) == handle
            &&& ok && read is Some ==> r.subrange(16, r.len() as int) == data
            &&& !ok || read is None ==> r.len() == 16
        }),
{
    let e = if ok {
        NBD_OK
    } else {
        NBD_EIO
    };
    a_reply_is_laid_out(e, handle);
    let r = answered(handle, read, ok, data);
    assert(r.subrange(4, 8) =~= simple_reply(e, handle).subrange(4, 8));
    assert(r.subrange(8, 16) =~= simple_reply(e, handle).subrange(8, 16));
    if ok && read is Some {
        assert(r.subrange(16, r.len() as int) =~= data);
    }
}

/// What the server tells of itself is read where the protocol has it: the two
/// magic numbers and the flags it begins with, and the size of the device in
/// the answers to an export name and to a go.
pub proof fn the_size_is_told(size: u64)
    ensures
        ({
            let g = greeting_bytes();
            &&& g.len() == 18
            &&& bytes::be_value(g.subrange(0, 8)) == 0x4e42444d41474943
            &&& bytes::be_value(g.subrange(8, 16)) == 0x49484156454F5054
            &&& bytes::be_value(g.subrange(16, 18)) == 1
        }),
        ({
            let e = export_bytes(size);
            &&& e.len() == 134
            &&& bytes::be_value(e.subrange(0, 8)) == size
            &&& bytes::be_value(e.subrange(8, 10)) == 37
            &&& forall|i: int| 10 <= i < 134 ==> #[trigger] e[i] == 0
        }),
        ({
            let b = go_bytes(size);
            &&& b.len() == 52
            &&& bytes::be_value(b.subrange(8, 12)) == 7
            &&& bytes::be_value(b.subrange(12, 16)) == 3
            &&& bytes::be_value(b.subrange(16, 20)) == 12
            &&& bytes::be_value(b.subrange(20, 22)) == 0
            &&& bytes::be_value(b.subrange(22, 30)) == size
            &&& bytes::be_value(b.subrange(30, 32)) == 37
            &&& b.subrange(32, 52) == option_reply(7, 1)
        }),
{
    broadcast use bytes::lemma_be_bytes_len;

    bytes::lemma_radix();
    let g = greeting_bytes();
    assert(g.subrange(0, 8) =~= bytes::be_bytes(NBD_MAGIC as nat, 8));
    assert(g.subrange(8, 16) =~= bytes::be_bytes(NBD_OPTS_MAGIC as nat, 8));
    assert(g.subrange(16, 18) =~= bytes::be_bytes(NBD_FLAG_FIXED_NEWSTYLE as nat, 2));
    bytes::be_round_trip(NBD_MAGIC as nat, 8);
    bytes::be_round_trip(NBD_OPTS_MAGIC as nat, 8);
    bytes::be_round_trip(NBD_FLAG_FIXED_NEWSTYLE as nat, 2);
    let e = export_bytes(size);
    assert(e.subrange(0, 8) =~= bytes::be_bytes(size as nat, 8));
    assert(e.subrange(8, 10) =~= bytes::be_bytes(EXPORT_FLAGS as nat, 2));
    bytes::be_round_trip(size as nat, 8);
    bytes::be_round_trip(EXPORT_FLAGS as nat, 2);
    let b = go_bytes(size);
    assert(b.subrange(8, 12) =~= bytes::be_bytes(NBD_OPT_GO as nat, 4));
    assert(b.subrange(12, 16) =~= bytes::be_bytes(NBD_REP_INFO as nat, 4));
    assert(b.subrange(16, 20) =~= bytes::be_bytes(12, 4));
    assert(b.subrange(20, 22) =~= bytes::be_bytes(NBD_INFO_EXPORT as nat, 2));
    assert(b.subrange(22, 30) =~= bytes::be_bytes(size as nat, 8));
    assert(b.subrange(30, 32) =~= bytes::be_bytes(EXPORT_FLAGS as nat, 2));
    assert(b.subrange(32, 52) =~= option_reply(NBD_OPT_GO, NBD_REP_ACK));
    bytes::be_round_trip(NBD_OPT_GO as nat, 4);
    bytes::be_round_trip(NBD_REP_INFO as nat, 4);
    bytes::be_round_trip(12, 4);
    bytes::be_round_trip(NBD_INFO_EXPORT as nat, 2);
}

/// An answer to an option names the option and says how it was taken.
pub proof fn an_option_reply_is_laid_out(option: u32, reply: u32)
    ensures
        ({
            let r = option_reply(option, reply);
            &&& r.len() == 20
            &&& bytes::be_value(r.subrange(0, 8)) == 0x67446698
            &&& bytes::be_value(r.subrange(8, 12)) == option
            &&& bytes::be_value(r.subrange(12, 16)) == reply
            &&& bytes::be_value(r.subrange(16, 20)) == 0
        }),
{
    broadcast use bytes::lemma_be_bytes_len;

    bytes::lemma_radix();
    let r = option_reply(option, reply);
    assert(r.subrange(0, 8) =~= bytes::be_bytes(NBD_REPLY_MAGIC as nat, 8));
    assert(r.subrange(8, 12) =~= bytes::be_bytes(option as nat, 4));
    assert(r.subrange(12, 16) =~= bytes::be_bytes(reply as nat, 4));
    assert(r.subrange(16, 20) =~= bytes::be_bytes(0, 4));
    bytes::be_round_trip(NBD_REPLY_MAGIC as nat, 8);
    bytes::be_round_trip(option as nat, 4);
    bytes::be_round_trip(reply as nat, 4);
    bytes::be_round_trip(0, 4);
}

} // verus!
