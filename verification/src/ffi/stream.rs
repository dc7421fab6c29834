//! Content-addressed chunk streams: a fixed 48-byte header, then the payload.

use vstd::prelude::*;
use crate::bytes::{push_all, be_bytes, be_vec, to_vec, bytes_eq, arr32};
use crate::crypto::{sha256, sha256_spec};
use crate::apps::drive::CasChunkStore;
use crate::ffi::handle::{NEX_ERR_CAS_CORRUPTION, NEX_ERR_INTERNAL_ERROR};

verus! {

pub const CAS_STREAM_MAGIC: u32 = 0x4E584353;
pub const OP_PUT_CHUNK: u16 = 0x0001;
pub const OP_GET_CHUNK: u16 = 0x0002;
pub const CAS_HEADER_SIZE: usize = 48;

#[derive(Debug, Clone, Copy, PartialEq, Eq)]
pub struct CasStreamHeader {
    pub magic: u32,
    pub opcode: u16,
    pub flags: u16,
    pub payload_len: u32,
    pub reserved: u32,
    pub expected_digest: [u8; 32],
}

/// The big-endian value of two bytes of `s` at `i`.
pub open spec fn be16(s: Seq<u8>, i: int) -> nat {
    (s[i] as nat) * 0x100 + (s[i + 1] as nat)
}

/// The big-endian value of four bytes of `s` at `i`.
pub open spec fn be32(s: Seq<u8>, i: int) -> nat {
    (s[i] as nat) * 0x100_0000 + (s[i + 1] as nat) * 0x1_0000 + (s[i + 2] as nat) * 0x100 + (s[i + 3] as nat)
}

/// Whether `h` holds the fields written, big-endian, in the first 48 bytes of `b`.
pub open spec fn header_fields(h: CasStreamHeader, b: Seq<u8>) -> bool {
    &&& h.magic == be32(b, 0)
    &&& h.opcode == be16(b, 4)
    &&& h.flags == be16(b, 6)
    &&& h.payload_len == be32(b, 8)
    &&& h.reserved == be32(b, 12)
    &&& h.expected_digest@ == b.subrange(16, 48)
}

/// The 48 bytes a header is written as.
pub open spec fn header_bytes(h: CasStreamHeader) -> Seq<u8> {
    be_bytes(h.magic as nat, 4) + be_bytes(h.opcode as nat, 2) + be_bytes(h.flags as nat, 2)
        + be_bytes(h.payload_len as nat, 4) + be_bytes(h.reserved as nat, 4) + h.expected_digest@
}

fn read_be16(b: &[u8], i: usize) -> (r: u16)
    requires
        i + 2 <= b@.len(),
    ensures
        r == be16(b@, i as int),
{
    (b[i] as u16) * 0x100 + (b[i + 1] as u16)
}

fn read_be32(b: &[u8], i: usize) -> (r: u32)
    requires
        i + 4 <= b@.len(),
    ensures
        r == be32(b@, i as int),
{
    (b[i] as u32) * 0x100_0000 + (b[i + 1] as u32) * 0x1_0000 + (b[i + 2] as u32) * 0x100 + (b[i + 3] as u32)
}

impl CasStreamHeader {
    /// Reads a header from the first 48 bytes; an internal error when there are
    /// fewer or the magic number is wrong.
    pub fn parse(bytes: &[u8]) -> (r: Result<Self, i32>)
        ensures
            bytes@.len() < 48 ==> r == Err::<Self, i32>(NEX_ERR_INTERNAL_ERROR),
            bytes@.len() >= 48 && be32(bytes@, 0) != CAS_STREAM_MAGIC ==> r == Err::<Self, i32>(NEX_ERR_INTERNAL_ERROR),
            bytes@.len() >= 48 && be32(bytes@, 0) == CAS_STREAM_MAGIC ==> (r matches Ok(h) && header_fields(h, bytes@)),
    {
        if bytes.len() < CAS_HEADER_SIZE {
            return Err(NEX_ERR_INTERNAL_ERROR);
        }
        let magic = read_be32(bytes, 0);
        if magic != CAS_STREAM_MAGIC {
            return Err(NEX_ERR_INTERNAL_ERROR);
        }
        let opcode = read_be16(bytes, 4);
        let flags = read_be16(bytes, 6);
        let payload_len = read_be32(bytes, 8);
        let reserved = read_be32(bytes, 12);
        let expected_digest = arr32(vstd::slice::slice_subrange(bytes, 16, 48));
        Ok(CasStreamHeader { magic, opcode, flags, payload_len, reserved, expected_digest })
    }

    /// The header's 48 bytes: the numbers big-endian, then the digest.
    pub fn serialize(&self) -> (r: [u8; 48])
        ensures
            r@ == header_bytes(*self),
    {
        let mut buf: Vec<u8> = be_vec(self.magic as u64, 4);
        let b = be_vec(self.opcode as u64, 2);
        push_all(&mut buf, b.as_slice());
        let b = be_vec(self.flags as u64, 2);
        push_all(&mut buf, b.as_slice());
        let b = be_vec(self.payload_len as u64, 4);
        push_all(&mut buf, b.as_slice());
        let b = be_vec(self.reserved as u64, 4);
        push_all(&mut buf, b.as_slice());
        push_all(&mut buf, self.expected_digest.as_slice());
        let mut out = [0u8; 48];
        let mut i: usize = 0;
        while i < 48
            invariant
                i <= 48,
                buf@ == header_bytes(*self),
                buf@.len() == 48,
                forall|j: int| 0 <= j < i ==> out@[j] == buf@[j],
            decreases 48 - i,
        {
            out[i] = buf[i];
            i = i + 1;
        }
        assert(out@ =~= buf@);
        out
    }
}

proof fn lemma_be_bytes_2(x: nat)
    requires
        x < 0x1_0000,
    ensures
        be_bytes(x, 2).len() == 2,
        be16(be_bytes(x, 2), 0) == x,
{
    reveal_with_fuel(be_bytes, 3);
    let b = be_bytes(x, 2);
    assert(b[1] == x % 256);
    assert(b[0] == (x / 256) % 256);
    assert(be16(b, 0) == x) by (nonlinear_arith)
        requires
            x < 0x1_0000,
            b[1] == x % 256,
            b[0] == (x / 256) % 256,
            be16(b, 0) == (b[0] as nat) * 0x100 + (b[1] as nat);
}

proof fn lemma_be_bytes_4(x: nat)
    requires
        x < 0x1_0000_0000,
    ensures
        be_bytes(x, 4).len() == 4,
        be32(be_bytes(x, 4), 0) == x,
{
    reveal_with_fuel(be_bytes, 5);
    let b = be_bytes(x, 4);
    assert(b[3] == x % 256);
    assert(b[2] == ((x / 256) % 256));
    assert(b[1] == ((x / 256 / 256) % 256));
    assert(b[0] == ((x / 256 / 256 / 256) % 256));
    assert(be32(b, 0) == x) by (nonlinear_arith)
        requires
            x < 0x1_0000_0000,
            b[3] == x % 256,
            b[2] == (x / 256) % 256,
            b[1] == (x / 256 / 256) % 256,
            b[0] == (x / 256 / 256 / 256) % 256,
            be32(b, 0) == (b[0] as nat) * 0x100_0000 + (b[1] as nat) * 0x1_0000 + (b[2] as nat) * 0x100 + (b[3] as nat);
}

/// Writing a header and reading it back gives its fields.
pub proof fn lemma_parse_serialized(h: CasStreamHeader)
    ensures
        header_bytes(h).len() == 48,
        header_fields(h, header_bytes(h)),
{
    let b = header_bytes(h);
    lemma_be_bytes_4(h.magic as nat);
    lemma_be_bytes_2(h.opcode as nat);
    lemma_be_bytes_2(h.flags as nat);
    lemma_be_bytes_4(h.payload_len as nat);
    lemma_be_bytes_4(h.reserved as nat);
    let (m, o, f, p, q) = (be_bytes(h.magic as nat, 4), be_bytes(h.opcode as nat, 2), be_bytes(h.flags as nat, 2),
        be_bytes(h.payload_len as nat, 4), be_bytes(h.reserved as nat, 4));
    assert(b.subrange(0, 4) =~= m);
    assert(b.subrange(4, 6) =~= o);
    assert(b.subrange(6, 8) =~= f);
    assert(b.subrange(8, 12) =~= p);
    assert(b.subrange(12, 16) =~= q);
    assert(b.subrange(16, 48) =~= h.expected_digest@);
    assert(be32(b, 0) == be32(m, 0));
    assert(be16(b, 4) == be16(o, 0));
    assert(be16(b, 6) == be16(f, 0));
    assert(be32(b, 8) == be32(p, 0));
    assert(be32(b, 12) == be32(q, 0));
}

proof fn lemma_be16_bytes(s: Seq<u8>, i: int)
    requires
        0 <= i,
        i + 2 <= s.len(),
    ensures
        be_bytes(be16(s, i), 2) == s.subrange(i, i + 2),
{
    reveal_with_fuel(be_bytes, 3);
    let (a, b) = (s[i] as nat, s[i + 1] as nat);
    let x = be16(s, i);
    assert(x % 256 == b && (x / 256) % 256 == a) by (nonlinear_arith)
        requires
            a < 256,
            b < 256,
            x == a * 0x100 + b;
    assert(be_bytes(x, 2) =~= s.subrange(i, i + 2));
}

proof fn lemma_be32_bytes(s: Seq<u8>, i: int)
    requires
        0 <= i,
        i + 4 <= s.len(),
    ensures
        be_bytes(be32(s, i), 4) == s.subrange(i, i + 4),
{
    reveal_with_fuel(be_bytes, 5);
    let (a, b, c, d) = (s[i] as nat, s[i + 1] as nat, s[i + 2] as nat, s[i + 3] as nat);
    let x = be32(s, i);
    assert(x % 256 == d && (x / 256) % 256 == c && (x / 256 / 256) % 256 == b && (x / 256 / 256 / 256) % 256 == a)
        by (nonlinear_arith)
        requires
            a < 256,
            b < 256,
            c < 256,
            d < 256,
            x == a * 0x100_0000 + b * 0x1_0000 + c * 0x100 + d;
    assert(be_bytes(x, 4) =~= s.subrange(i, i + 4));
}

/// Reading a header and writing it again gives back the bytes it was read from.
pub proof fn lemma_serialize_parsed(h: CasStreamHeader, b: Seq<u8>)
    requires
        b.len() >= 48,
        header_fields(h, b),
    ensures
        header_bytes(h) == b.take(48),
{
    lemma_be32_bytes(b, 0);
    lemma_be16_bytes(b, 4);
    lemma_be16_bytes(b, 6);
    lemma_be32_bytes(b, 8);
    lemma_be32_bytes(b, 12);
    assert(header_bytes(h) =~= b.take(48));
}

pub struct CasStreamProcessor;

impl CasStreamProcessor {
    /// Files a streamed chunk under its SHA-256 digest, after checking its length
    /// against the header (an internal error) and its digest against the header's
    /// (a corruption error).
    pub fn process_put_chunk(cas: &mut CasChunkStore, header: &CasStreamHeader, payload: &[u8]) -> (r: Result<[u8; 32], i32>)
        ensures
            payload@.len() != header.payload_len ==> r == Err::<[u8; 32], i32>(NEX_ERR_INTERNAL_ERROR)
                && final(cas).chunks@ == old(cas).chunks@,
            payload@.len() == header.payload_len && sha256_spec(payload@) != header.expected_digest@
                ==> r == Err::<[u8; 32], i32>(NEX_ERR_CAS_CORRUPTION) && final(cas).chunks@ == old(cas).chunks@,
            payload@.len() == header.payload_len && sha256_spec(payload@) == header.expected_digest@ ==> (r matches Ok(d)
                && d@ == sha256_spec(payload@)
                && final(cas).chunks@.dom() == old(cas).chunks@.dom().insert(d@)
                && final(cas).chunks@[d@]@ == payload@
                && forall|k: Seq<u8>| k != d@ && #[trigger] old(cas).chunks@.contains_key(k)
                    ==> final(cas).chunks@[k] == old(cas).chunks@[k]),
    {
        if payload.len() != header.payload_len as usize {
            return Err(NEX_ERR_INTERNAL_ERROR);
        }
        let actual_digest = sha256(payload);
        if !bytes_eq(actual_digest.as_slice(), header.expected_digest.as_slice()) {
            return Err(NEX_ERR_CAS_CORRUPTION);
        }
        cas.chunks.insert(actual_digest, to_vec(payload));
        proof {
            assert(cas.chunks@.dom() =~= old(cas).chunks@.dom().insert(actual_digest@));
        }
        Ok(actual_digest)
    }

    /// A copy of the chunk stored under `digest`; a corruption error when there is none.
    pub fn process_get_chunk(cas: &CasChunkStore, digest: &[u8; 32]) -> (r: Result<Vec<u8>, i32>)
        ensures
            !cas.chunks@.contains_key(digest@) ==> r == Err::<Vec<u8>, i32>(NEX_ERR_CAS_CORRUPTION),
            cas.chunks@.contains_key(digest@) ==> (r matches Ok(v) && v@ == cas.chunks@[digest@]@),
    {
        match cas.get_chunk(digest) {
            Some(data) => Ok(to_vec(data.as_slice())),
            None => Err(NEX_ERR_CAS_CORRUPTION),
        }
    }
}

} // verus!
