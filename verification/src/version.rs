//! The record that the two sides of a handshake exchange, and its wire form.

use crate::errors::NetworkError;
use vstd::prelude::*;

verus! {

/// The number of bytes of a serialized `Version`.
pub const VERSION_LEN: usize = 14;

/// The record that both sides of a handshake exchange.
#[derive(Clone, Copy, Debug, PartialEq, Eq, Structural)]
pub struct Version {
    /// The protocol version of the sender.
    pub version: u32,
    /// The port on which the sender listens for connections.
    pub listening_port: u16,
    /// The identifier that the sender drew when it started.
    pub node_id: u64,
}

/// The four bytes of `x`, the least significant first.
pub open spec fn le_bytes_u32(x: u32) -> Seq<u8> {
    seq![
        (x % 256) as u8,
        (x / 0x100 % 256) as u8,
        (x / 0x1_0000 % 256) as u8,
        (x / 0x100_0000 % 256) as u8,
    ]
}

/// The two bytes of `x`, the least significant first.
pub open spec fn le_bytes_u16(x: u16) -> Seq<u8> {
    seq![(x % 256) as u8, (x / 0x100 % 256) as u8]
}

/// The eight bytes of `x`, the least significant first.
pub open spec fn le_bytes_u64(x: u64) -> Seq<u8> {
    seq![
        (x % 256) as u8,
        (x / 0x100 % 256) as u8,
        (x / 0x1_0000 % 256) as u8,
        (x / 0x100_0000 % 256) as u8,
        (x / 0x1_0000_0000 % 256) as u8,
        (x / 0x100_0000_0000 % 256) as u8,
        (x / 0x1_0000_0000_0000 % 256) as u8,
        (x / 0x100_0000_0000_0000 % 256) as u8,
    ]
}

/// The number that the four bytes of `s` from index `at` on spell, the least
/// significant first.
pub open spec fn le_value_u32(s: Seq<u8>, at: int) -> int {
    s[at] as int + s[at + 1] as int * 0x100 + s[at + 2] as int * 0x1_0000 + s[at + 3] as int
        * 0x100_0000
}

/// The number that the two bytes of `s` from index `at` on spell.
pub open spec fn le_value_u16(s: Seq<u8>, at: int) -> int {
    s[at] as int + s[at + 1] as int * 0x100
}

/// The number that the eight bytes of `s` from index `at` on spell.
pub open spec fn le_value_u64(s: Seq<u8>, at: int) -> int {
    s[at] as int + s[at + 1] as int * 0x100 + s[at + 2] as int * 0x1_0000 + s[at + 3] as int
        * 0x100_0000 + s[at + 4] as int * 0x1_0000_0000 + s[at + 5] as int * 0x100_0000_0000
        + s[at + 6] as int * 0x1_0000_0000_0000 + s[at + 7] as int * 0x100_0000_0000_0000
}

impl Version {
    /// The wire form of a record: the protocol version, the listening port and
    /// the node identifier, each in little-endian order, fourteen bytes in all.
    pub open spec fn spec_serialize(self) -> Seq<u8> {
        le_bytes_u32(self.version) + le_bytes_u16(self.listening_port) + le_bytes_u64(
            self.node_id,
        )
    }

    /// The record that the fourteen bytes of `bytes` hold.
    pub open spec fn spec_deserialize(bytes: Seq<u8>) -> Version {
        Version {
            version: le_value_u32(bytes, 0) as u32,
            listening_port: le_value_u16(bytes, 4) as u16,
            node_id: le_value_u64(bytes, 6) as u64,
        }
    }

    pub fn new(version: u32, listening_port: u16, node_id: u64) -> (v: Version)
        ensures
            v == (Version { version, listening_port, node_id }),
    {
        Version { version, listening_port, node_id }
    }

    /// Writes the record in its wire form. This never fails.
    pub fn serialize(&self) -> (r: Result<Vec<u8>, NetworkError>)
        ensures
            r is Ok,
            r->Ok_0@ == self.spec_serialize(),
    {
        let mut out: Vec<u8> = Vec::with_capacity(VERSION_LEN);
        let v: u32 = self.version;
        out.push((v % 256) as u8);
        out.push((v / 0x100 % 256) as u8);
        out.push((v / 0x1_0000 % 256) as u8);
        out.push((v / 0x100_0000 % 256) as u8);
        let p: u16 = self.listening_port;
        out.push((p % 256) as u8);
        out.push((p / 0x100 % 256) as u8);
        let id: u64 = self.node_id;
        out.push((id % 256) as u8);
        out.push((id / 0x100 % 256) as u8);
        out.push((id / 0x1_0000 % 256) as u8);
        out.push((id / 0x100_0000 % 256) as u8);
        out.push((id / 0x1_0000_0000 % 256) as u8);
        out.push((id / 0x100_0000_0000 % 256) as u8);
        out.push((id / 0x1_0000_0000_0000 % 256) as u8);
        out.push((id / 0x100_0000_0000_0000 % 256) as u8);
        assert(out@ =~= self.spec_serialize());
        Ok(out)
    }

    /// Reads a record from its wire form. Input that is the wire form of no
    /// record is refused as an invalid handshake: that is input of any length
    /// but fourteen bytes.
    pub fn deserialize(bytes: &[u8]) -> (r: Result<Version, NetworkError>)
        ensures
            bytes@.len() == VERSION_LEN ==> r == Ok::<Version, NetworkError>(
                Version::spec_deserialize(bytes@),
            ),
            bytes@.len() != VERSION_LEN ==> r == Err::<Version, NetworkError>(
                NetworkError::InvalidHandshake,
            ),
            r is Ok <==> exists|v: Version| v.spec_serialize() == bytes@,
            r is Ok ==> r->Ok_0.spec_serialize() == bytes@,
    {
        proof {
            if bytes@.len() == VERSION_LEN {
                deserialize_round_trip(bytes@);
            } else {
                assert forall|v: Version| v.spec_serialize() != bytes@ by {
                    serialize_round_trip(v);
                }
            }
        }
        if bytes.len() != VERSION_LEN {
            return Err(NetworkError::InvalidHandshake);
        }
        let version: u32 = (bytes[0] as u32) + (bytes[1] as u32) * 0x100 + (bytes[2] as u32)
            * 0x1_0000 + (bytes[3] as u32) * 0x100_0000;
        let listening_port: u16 = (bytes[4] as u16) + (bytes[5] as u16) * 0x100;
        let node_id: u64 = (bytes[6] as u64) + (bytes[7] as u64) * 0x100 + (bytes[8] as u64)
            * 0x1_0000 + (bytes[9] as u64) * 0x100_0000 + (bytes[10] as u64) * 0x1_0000_0000 + (
        bytes[11] as u64) * 0x100_0000_0000 + (bytes[12] as u64) * 0x1_0000_0000_0000 + (
        bytes[13] as u64) * 0x100_0000_0000_0000;
        Ok(Version { version, listening_port, node_id })
    }
}

proof fn lemma_le_u16(x: u16)
    ensures
        le_value_u16(le_bytes_u16(x), 0) == x,
{
}

proof fn lemma_le_u32(x: u32)
    ensures
        le_value_u32(le_bytes_u32(x), 0) == x,
{
    let lo: u32 = x % 0x1_0000;
    let hi: u32 = x / 0x1_0000;
    assert(x == lo + hi * 0x1_0000);
    assert(lo == lo % 256 + (lo / 0x100 % 256) * 0x100);
    assert(hi == hi % 256 + (hi / 0x100 % 256) * 0x100);
    assert(x % 256 == lo % 256 && x / 0x100 % 256 == lo / 0x100 % 256);
    assert(x / 0x1_0000 % 256 == hi % 256 && x / 0x100_0000 % 256 == hi / 0x100 % 256);
}

proof fn lemma_le_u64(x: u64)
    ensures
        le_value_u64(le_bytes_u64(x), 0) == x,
{
    let lo: u64 = x % 0x1_0000_0000;
    let hi: u64 = x / 0x1_0000_0000;
    assert(x % 256 == lo % 256 && x / 0x100 % 256 == lo / 0x100 % 256 && x / 0x1_0000 % 256 == lo
        / 0x1_0000 % 256 && x / 0x100_0000 % 256 == lo / 0x100_0000 % 256) by (bit_vector)
        requires
            lo == x % 0x1_0000_0000,
    ;
    assert(x / 0x1_0000_0000 % 256 == hi % 256 && x / 0x100_0000_0000 % 256 == hi / 0x100 % 256
        && x / 0x1_0000_0000_0000 % 256 == hi / 0x1_0000 % 256 && x / 0x100_0000_0000_0000 % 256
        == hi / 0x100_0000 % 256) by (bit_vector)
        requires
            hi == x / 0x1_0000_0000,
    ;
    lemma_le_u32(lo as u32);
    lemma_le_u32(hi as u32);
    let l = le_bytes_u32(lo as u32);
    let h = le_bytes_u32(hi as u32);
    let s = le_bytes_u64(x);
    assert(s[0] == l[0] && s[1] == l[1] && s[2] == l[2] && s[3] == l[3]);
    assert(s[4] == h[0] && s[5] == h[1] && s[6] == h[2] && s[7] == h[3]);
    assert(le_value_u64(s, 0) == le_value_u32(l, 0) + le_value_u32(h, 0) * 0x1_0000_0000);
}

/// A record that is written and read back is the record again.
pub proof fn serialize_round_trip(v: Version)
    ensures
        v.spec_serialize().len() == VERSION_LEN,
        Version::spec_deserialize(v.spec_serialize()) == v,
{
    let s = v.spec_serialize();
    assert(s.len() == 14);
    lemma_le_u32(v.version);
    lemma_le_u16(v.listening_port);
    lemma_le_u64(v.node_id);
    assert(s.subrange(0, 4) =~= le_bytes_u32(v.version));
    assert(s.subrange(4, 6) =~= le_bytes_u16(v.listening_port));
    assert(s.subrange(6, 14) =~= le_bytes_u64(v.node_id));
    assert(le_value_u32(s, 0) == le_value_u32(s.subrange(0, 4), 0));
    assert(le_value_u16(s, 4) == le_value_u16(s.subrange(4, 6), 0));
    assert(le_value_u64(s, 6) == le_value_u64(s.subrange(6, 14), 0));
}

proof fn lemma_bytes_of_value_u16(b0: u8, b1: u8)
    ensures
        0 <= b0 + b1 * 0x100 <= u16::MAX,
        le_bytes_u16((b0 + b1 * 0x100) as u16) == seq![b0, b1],
{
    let v: int = b0 + b1 * 0x100;
    assert(v % 256 == b0 as int);
    assert(v / 0x100 % 256 == b1 as int);
    assert(le_bytes_u16(v as u16) =~= seq![b0, b1]);
}

proof fn lemma_bytes_of_value_u32(b0: u8, b1: u8, b2: u8, b3: u8)
    ensures
        0 <= b0 + b1 * 0x100 + b2 * 0x1_0000 + b3 * 0x100_0000 <= u32::MAX,
        le_bytes_u32((b0 + b1 * 0x100 + b2 * 0x1_0000 + b3 * 0x100_0000) as u32) == seq![
            b0,
            b1,
            b2,
            b3,
        ],
{
    let v: int = b0 + b1 * 0x100 + b2 * 0x1_0000 + b3 * 0x100_0000;
    let h: int = b2 + b3 * 0x100;
    let l: int = b0 + b1 * 0x100;
    assert(v == l + h * 0x1_0000);
    assert(v / 0x1_0000 == h);
    assert(v % 0x1_0000 == l);
    assert(v % 256 == b0 as int);
    assert(v / 0x100 % 256 == b1 as int) by {
        assert(v / 0x100 == b1 + h * 0x100);
    }
    assert(v / 0x1_0000 % 256 == b2 as int);
    assert(v / 0x100_0000 % 256 == b3 as int) by {
        assert(v / 0x100_0000 == b3 as int);
    }
    assert(le_bytes_u32(v as u32) =~= seq![b0, b1, b2, b3]);
}

proof fn lemma_bytes_of_value_u64(s: Seq<u8>, at: int)
    requires
        0 <= at,
        at + 8 <= s.len(),
    ensures
        0 <= le_value_u64(s, at) <= u64::MAX,
        le_bytes_u64(le_value_u64(s, at) as u64) == s.subrange(at, at + 8),
{
    let lo: int = le_value_u32(s, at);
    let hi: int = le_value_u32(s, at + 4);
    lemma_bytes_of_value_u32(s[at], s[at + 1], s[at + 2], s[at + 3]);
    lemma_bytes_of_value_u32(s[at + 4], s[at + 5], s[at + 6], s[at + 7]);
    let v: int = le_value_u64(s, at);
    assert(v == lo + hi * 0x1_0000_0000);
    let x: u64 = v as u64;
    let l: u64 = lo as u64;
    let h: u64 = hi as u64;
    assert(x == l + h * 0x1_0000_0000);
    assert(x % 256 == l % 256 && x / 0x100 % 256 == l / 0x100 % 256 && x / 0x1_0000 % 256 == l
        / 0x1_0000 % 256 && x / 0x100_0000 % 256 == l / 0x100_0000 % 256 && x / 0x1_0000_0000
        % 256 == h % 256 && x / 0x100_0000_0000 % 256 == h / 0x100 % 256 && x
        / 0x1_0000_0000_0000 % 256 == h / 0x1_0000 % 256 && x / 0x100_0000_0000_0000 % 256 == h
        / 0x100_0000 % 256) by (bit_vector)
        requires
            l <= 0xffff_ffff,
            h <= 0xffff_ffff,
            x == l + h * 0x1_0000_0000,
    ;
    let bl = le_bytes_u32(lo as u32);
    let bh = le_bytes_u32(hi as u32);
    let out = le_bytes_u64(x);
    assert(out[0] == bl[0] && out[1] == bl[1] && out[2] == bl[2] && out[3] == bl[3]);
    assert(out[4] == bh[0] && out[5] == bh[1] && out[6] == bh[2] && out[7] == bh[3]);
    assert(out =~= s.subrange(at, at + 8));
}

/// Every input of fourteen bytes is the wire form of the record that it is
/// read as: so the only inputs that are no wire form of any record, and the
/// only ones that are refused, are those of another length.
pub proof fn deserialize_round_trip(bytes: Seq<u8>)
    requires
        bytes.len() == VERSION_LEN,
    ensures
        Version::spec_deserialize(bytes).spec_serialize() == bytes,
        forall|v: Version| #[trigger] v.spec_serialize().len() == VERSION_LEN,
{
    lemma_bytes_of_value_u32(bytes[0], bytes[1], bytes[2], bytes[3]);
    lemma_bytes_of_value_u16(bytes[4], bytes[5]);
    lemma_bytes_of_value_u64(bytes, 6);
    let v = Version::spec_deserialize(bytes);
    assert(le_bytes_u32(v.version) =~= bytes.subrange(0, 4));
    assert(le_bytes_u16(v.listening_port) =~= bytes.subrange(4, 6));
    assert(v.spec_serialize() =~= bytes);
    assert forall|w: Version| #[trigger] w.spec_serialize().len() == VERSION_LEN by {
        serialize_round_trip(w);
    }
}

/// Two records with the same wire form are the same record.
pub proof fn serialize_is_injective(a: Version, b: Version)
    requires
        a.spec_serialize() == b.spec_serialize(),
    ensures
        a == b,
{
    serialize_round_trip(a);
    serialize_round_trip(b);
}

} // verus!
