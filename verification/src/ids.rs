//! Identifiers.
use crate::bytes;
use crate::text;
use vstd::prelude::*;

verus! {

/// A UUID, as the 128-bit number whose big-endian bytes it is written with.
#[derive(Debug, Clone, Copy, PartialEq, Eq, Hash, Structural)]
pub struct Uuid {
    pub bits: u128,
}

/// The version field of a UUID.
pub open spec fn uuid_version(bits: u128) -> int {
    (bits as int / 0x1000_0000_0000_0000_0000) % 16
}

/// The variant field of a UUID, its two defined bits.
pub open spec fn uuid_variant(bits: u128) -> int {
    (bits as int / 0x4000_0000_0000_0000) % 4
}

/// `uuid::Uuid::new_v4`: a random UUID. Which one is up to chance; every one
/// carries version four and the RFC 4122 variant.
#[verifier::external_body]
fn uuid_v4() -> (bits: u128)
    ensures
        uuid_version(bits) == 4,
        uuid_variant(bits) == 2,
{
    uuid::Uuid::new_v4().as_u128()
}

/// What `uuid::Uuid::new_v5` gives for a name in the URL namespace.
pub uninterp spec fn uuid_v5_url(name: Seq<u8>) -> u128;

/// `uuid::Uuid::new_v5` under `Uuid::NAMESPACE_URL`: the name-based UUID, a
/// function of the name's bytes alone.
#[verifier::external_body]
fn uuid_v5(name: &[u8]) -> (bits: u128)
    ensures
        bits == uuid_v5_url(name@),
{
    uuid::Uuid::new_v5(&uuid::Uuid::NAMESPACE_URL, name).as_u128()
}

/// What `uuid::Uuid::parse_str` makes of a text.
pub uninterp spec fn uuid_parsed(s: Seq<char>) -> Option<u128>;

/// `uuid::Uuid::parse_str`: the UUID that a text stands for in any of the
/// forms that the crate takes, a function of the text alone. The hyphenated
/// form of a UUID stands for that UUID.
#[verifier::external_body]
fn uuid_parse(s: &str) -> (r: Option<u128>)
    ensures
        r == uuid_parsed(s@),
        forall|u: Uuid| s@ == #[trigger] u.text() ==> r == Some(u.bits),
{
    uuid::Uuid::parse_str(s).ok().map(|u| u.as_u128())
}

/// Sixteen bytes with the order of the bytes reversed in each of the first
/// three fields, of four, two and two bytes.
pub open spec fn field_swapped(b: Seq<u8>) -> Seq<u8> {
    seq![b[3], b[2], b[1], b[0], b[5], b[4], b[7], b[6]] + b.subrange(8, 16)
}

impl Uuid {
    /// The sixteen bytes, in the order they are written.
    pub open spec fn bytes(&self) -> Seq<u8> {
        bytes::be_bytes(self.bits as nat, 16)
    }

    /// The UUID that is all zeros.
    pub fn nil() -> (u: Self)
        ensures
            u.bits == 0,
    {
        Uuid { bits: 0 }
    }

    /// Whether this is the UUID that is all zeros.
    pub fn is_nil(&self) -> (yes: bool)
        ensures
            yes == (self.bits == 0),
    {
        self.bits == 0
    }

    /// A random UUID. It is never the nil one.
    pub fn new_v4() -> (u: Self)
        ensures
            uuid_version(u.bits) == 4,
            uuid_variant(u.bits) == 2,
            u.bits != 0,
    {
        Uuid { bits: uuid_v4() }
    }

    /// The UUID that a URL stands for: the same one every time.
    pub fn for_url(url: &str) -> (u: Self)
        ensures
            u.bits == uuid_v5_url(vstd::utf8::encode_utf8(url@)),
    {
        Uuid { bits: uuid_v5(url.as_bytes()) }
    }

    /// The UUID that a text stands for, if it stands for one.
    pub fn parse(s: &str) -> (r: Option<Uuid>)
        ensures
            r == (match uuid_parsed(s@) {
                Some(bits) => Some(Uuid { bits }),
                None => None,
            }),
            forall|u: Uuid| s@ == #[trigger] u.text() ==> r == Some(u),
    {
        match uuid_parse(s) {
            Some(bits) => Some(Uuid { bits }),
            None => None,
        }
    }

    /// The UUID written in the sixteen bytes at `at`.
    pub fn read(buf: &[u8], at: usize) -> (u: Self)
        requires
            at + 16 <= buf@.len(),
        ensures
            u.bits == bytes::be_value(buf@.subrange(at as int, at + 16)),
            u.bytes() == buf@.subrange(at as int, at + 16),
    {
        proof {
            bytes::be_value_round_trip(buf@.subrange(at as int, at + 16));
        }
        Uuid { bits: bytes::get_be(buf, at, 16) }
    }

    /// Appends the sixteen bytes.
    pub fn push(&self, buf: &mut Vec<u8>)
        ensures
            final(buf)@ == old(buf)@ + self.bytes(),
    {
        bytes::push_be(buf, self.bits, 16)
    }

    /// The sixteen bytes in the order of a GUID partition table: the first
    /// three fields least significant byte first.
    pub open spec fn guid_bytes(&self) -> Seq<u8> {
        field_swapped(self.bytes())
    }

    /// The UUID written at `at` in the order of a GUID partition table.
    pub fn read_guid(buf: &[u8], at: usize) -> (u: Self)
        requires
            at + 16 <= buf@.len(),
        ensures
            u.guid_bytes() == buf@.subrange(at as int, at + 16),
            u.bytes() == field_swapped(buf@.subrange(at as int, at + 16)),
    {
        let total: usize = buf.len();
        let mut v: Vec<u8> = Vec::new();
        v.push(buf[at + 3]);
        v.push(buf[at + 2]);
        v.push(buf[at + 1]);
        v.push(buf[at]);
        v.push(buf[at + 5]);
        v.push(buf[at + 4]);
        v.push(buf[at + 7]);
        v.push(buf[at + 6]);
        v.extend_from_slice(vstd::slice::slice_subrange(buf, at + 8, at + 16));
        let ghost b = buf@.subrange(at as int, at + 16);
        assert(v@ =~= field_swapped(b));
        let u = Uuid::read(&v, 0);
        assert(v@.subrange(0, 16) =~= v@);
        assert(field_swapped(field_swapped(b)) =~= b);
        u
    }

    /// The sixteen bytes in the order of a GUID partition table.
    pub fn to_guid_bytes(&self) -> (v: Vec<u8>)
        ensures
            v@ == self.guid_bytes(),
            v@.len() == 16,
    {
        let mut b: Vec<u8> = Vec::new();
        self.push(&mut b);
        proof {
            bytes::lemma_be_bytes_len(self.bits as nat, 16);
            assert(b@ =~= self.bytes());
        }
        let mut v: Vec<u8> = Vec::new();
        v.push(b[3]);
        v.push(b[2]);
        v.push(b[1]);
        v.push(b[0]);
        v.push(b[5]);
        v.push(b[4]);
        v.push(b[7]);
        v.push(b[6]);
        v.extend_from_slice(vstd::slice::slice_subrange(b.as_slice(), 8, 16));
        assert(v@ =~= self.guid_bytes());
        v
    }

    /// The hyphenated form: 8, 4, 4, 4 and 12 hexadecimal digits.
    pub open spec fn text(&self) -> Seq<char> {
        let h = text::hex_digits(self.bits as nat, 32);
        h.subrange(0, 8) + seq!['-'] + h.subrange(8, 12) + seq!['-'] + h.subrange(12, 16)
            + seq!['-'] + h.subrange(16, 20) + seq!['-'] + h.subrange(20, 32)
    }

    /// The hyphenated form.
    pub fn to_string(&self) -> (s: String)
        ensures
            s@ == self.text(),
    {
        let mut h = String::new();
        text::push_hex_digits(&mut h, self.bits, 32);
        proof {
            lemma_hex_digits_len(self.bits as nat, 32);
            assert(h@ =~= text::hex_digits(self.bits as nat, 32));
        }
        let v = text::to_chars(&h);
        let mut s = text::from_chars(&v, 0, 8);
        s.push('-');
        s.append(&text::from_chars(&v, 8, 12));
        s.push('-');
        s.append(&text::from_chars(&v, 12, 16));
        s.push('-');
        s.append(&text::from_chars(&v, 16, 20));
        s.push('-');
        s.append(&text::from_chars(&v, 20, 32));
        assert(s@ =~= self.text());
        s
    }
}

/// The identity of a volume.
#[derive(Debug, Clone, Copy, PartialEq, Eq, Hash, Structural)]
pub struct VolumeId(pub Uuid);

impl VolumeId {
    /// A fresh identity.
    pub fn new() -> (v: Self)
        ensures
            uuid_version(v.0.bits) == 4,
            uuid_variant(v.0.bits) == 2,
    {
        VolumeId(Uuid::new_v4())
    }
}

/// `hex_digits` gives exactly `width` digits.
pub proof fn lemma_hex_digits_len(n: nat, width: nat)
    ensures
        text::hex_digits(n, width).len() == width,
    decreases width,
{
    if width > 0 {
        lemma_hex_digits_len(n / 16, (width - 1) as nat);
    }
}

/// A UUID is what its bytes in the order of a GUID partition table say.
pub proof fn guid_round_trip(u: Uuid, v: Uuid)
    requires
        v.guid_bytes() == u.guid_bytes(),
    ensures
        v == u,
{
    uuid_round_trip(u);
    uuid_round_trip(v);
    assert(field_swapped(u.guid_bytes()) =~= u.bytes());
    assert(field_swapped(v.guid_bytes()) =~= v.bytes());
}

/// A UUID is what its bytes say.
pub proof fn uuid_round_trip(u: Uuid)
    ensures
        u.bytes().len() == 16,
        bytes::be_value(u.bytes()) == u.bits,
{
    bytes::lemma_radix();
    bytes::lemma_be_bytes_len(u.bits as nat, 16);
    bytes::be_round_trip(u.bits as nat, 16);
}

} // verus!
