//! Strict validation of the deterministic CBOR subset used on the wire:
//! minimal heads, definite lengths, no tags or floats, canonically ordered
//! map keys without duplicates, and bounded resource use.

use vstd::prelude::*;
use crate::bytes::{lex_order, compare_bytes};

verus! {

#[derive(Debug, Clone, Copy, PartialEq, Eq, Structural)]
pub enum CborError {
    NonMinimalEncoding,
    ForbiddenFloat,
    ForbiddenTag,
    IndefiniteLength,
    DuplicateMapKey,
    NonCanonicalMapOrder,
    TrailingBytes,
    TruncatedData,
    InvalidUtf8,
    ForbiddenBreak,
    InvalidSimpleValue,
    ResourceExhaustion,
}

#[derive(Debug, Clone, Copy, PartialEq, Eq, Structural)]
pub enum SchemaError {
    InvalidSchema,
    InvalidHashRef,
    InvalidSignatureEnvelope,
}

#[derive(Debug, Clone, Copy, PartialEq, Eq, Structural)]
pub enum ConsensusError {
    InvalidAuthority,
    GenesisCollision,
    InvalidCapabilityCycle,
    UnauthorizedCapability,
    InvalidDescendant,
    Unresolved,
}

#[derive(Debug, Clone, Copy, PartialEq, Eq, Structural)]
pub enum NexParseError {
    Cbor(CborError),
    Schema(SchemaError),
    Consensus(ConsensusError),
}

impl From<CborError> for NexParseError {
    fn from(err: CborError) -> (r: Self) {
        NexParseError::Cbor(err)
    }
}

impl vstd::std_specs::convert::FromSpecImpl<CborError> for NexParseError {
    open spec fn obeys_from_spec() -> bool {
        true
    }

    open spec fn from_spec(err: CborError) -> Self {
        NexParseError::Cbor(err)
    }
}

impl From<SchemaError> for NexParseError {
    fn from(err: SchemaError) -> (r: Self) {
        NexParseError::Schema(err)
    }
}

impl vstd::std_specs::convert::FromSpecImpl<SchemaError> for NexParseError {
    open spec fn obeys_from_spec() -> bool {
        true
    }

    open spec fn from_spec(err: SchemaError) -> Self {
        NexParseError::Schema(err)
    }
}

impl From<ConsensusError> for NexParseError {
    fn from(err: ConsensusError) -> (r: Self) {
        NexParseError::Consensus(err)
    }
}

impl vstd::std_specs::convert::FromSpecImpl<ConsensusError> for NexParseError {
    open spec fn obeys_from_spec() -> bool {
        true
    }

    open spec fn from_spec(err: ConsensusError) -> Self {
        NexParseError::Consensus(err)
    }
}

pub const MAX_DEPTH: usize = 64;
pub const MAX_CONTAINER_ITEMS: usize = 65536;
pub const MAX_TOTAL_ITEMS: usize = 256000;
pub const MAX_TOTAL_BYTES: usize = 16777216;

/// The big-endian value of the `n` bytes of `s` starting at `start`.
pub open spec fn be_value(s: Seq<u8>, start: int, n: nat) -> int
    decreases n,
{
    if n == 0 {
        0
    } else {
        be_value(s, start, (n - 1) as nat) * 256 + s[start + n - 1]
    }
}

/// `256` to the power `n`.
pub open spec fn byte_bound(n: nat) -> int
    decreases n,
{
    if n == 0 {
        1
    } else {
        256 * byte_bound((n - 1) as nat)
    }
}

/// Major type (top three bits) of an initial byte.
pub open spec fn major_of(b: u8) -> u8 {
    b / 32
}

/// Additional information (low five bits) of an initial byte.
pub open spec fn info_of(b: u8) -> u8 {
    b % 32
}

/// Number of argument bytes that follow the initial byte for a given additional information.
pub open spec fn arg_extra(info: u8) -> nat {
    if info == 24 { 1 } else if info == 25 { 2 } else if info == 26 { 4 } else if info == 27 { 8 } else { 0 }
}

/// The argument of the head at `pos` and the length of the head, as the strict
/// rules read it: values below 24 inline, longer forms only when shorter ones cannot hold the value.
pub open spec fn head_spec(s: Seq<u8>, pos: int) -> Result<(int, int), CborError> {
    let info = info_of(s[pos]);
    if info < 24 {
        Ok((info as int, 1))
    } else if info <= 27 {
        let n = arg_extra(info);
        if s.len() < pos + 1 + n {
            Err(CborError::TruncatedData)
        } else {
            let v = be_value(s, pos + 1, n);
            let floor: int = if info == 24 { 24 } else if info == 25 { 256 } else if info == 26 { 65536 } else { 4294967296 };
            if v < floor {
                Err(CborError::NonMinimalEncoding)
            } else {
                Ok((v, 1 + n as int))
            }
        }
    } else {
        Err(CborError::InvalidSimpleValue)
    }
}

/// Validation of the data item at `pos` nested `depth` containers deep, with `items`
/// items already counted: the end offset of the item and the updated count.
pub open spec fn item_spec(s: Seq<u8>, pos: int, depth: int, items: int) -> Result<(int, int), CborError>
    decreases 66 - depth, 0int,
{
    if depth > MAX_DEPTH {
        Err(CborError::ResourceExhaustion)
    } else if items + 1 > MAX_TOTAL_ITEMS {
        Err(CborError::ResourceExhaustion)
    } else if pos < 0 || pos >= s.len() {
        Err(CborError::TruncatedData)
    } else {
        let first = s[pos];
        let major = major_of(first);
        let info = info_of(first);
        let count = items + 1;
        if info == 31 {
            if major == 7 { Err(CborError::ForbiddenBreak) } else { Err(CborError::IndefiniteLength) }
        } else if major == 6 {
            Err(CborError::ForbiddenTag)
        } else if major == 7 && (info == 25 || info == 26 || info == 27) {
            Err(CborError::ForbiddenFloat)
        } else if major == 7 && info == 24 && s.len() < pos + 2 {
            Err(CborError::TruncatedData)
        } else if major == 7 && info == 24 && s[pos + 1] < 32 {
            Err(CborError::NonMinimalEncoding)
        } else {
            match head_spec(s, pos) {
                Err(e) => Err(e),
                Ok((arg, hlen)) => {
                    let off = pos + hlen;
                    if major == 0 || major == 1 || major == 7 {
                        Ok((off, count))
                    } else if major == 2 || major == 3 {
                        if off + arg > s.len() {
                            Err(CborError::TruncatedData)
                        } else if major == 3 && !vstd::utf8::valid_utf8(s.subrange(off, off + arg)) {
                            Err(CborError::InvalidUtf8)
                        } else {
                            Ok((off + arg, count))
                        }
                    } else if arg > MAX_CONTAINER_ITEMS {
                        Err(CborError::ResourceExhaustion)
                    } else if major == 4 {
                        array_spec(s, off, arg as nat, depth + 1, count)
                    } else {
                        map_spec(s, off, arg as nat, depth + 1, count, None)
                    }
                }
            }
        }
    }
}

/// Validation of `n` consecutive items starting at `pos`.
pub open spec fn array_spec(s: Seq<u8>, pos: int, n: nat, depth: int, items: int) -> Result<(int, int), CborError>
    decreases 66 - depth, n + 1,
{
    if n == 0 {
        Ok((pos, items))
    } else {
        match item_spec(s, pos, depth, items) {
            Err(e) => Err(e),
            Ok((end, count)) => array_spec(s, end, (n - 1) as nat, depth, count),
        }
    }
}

/// Validation of `n` consecutive key/value pairs starting at `pos`; each encoded key
/// must sort strictly after the encoded key before it (`prev`).
pub open spec fn map_spec(
    s: Seq<u8>,
    pos: int,
    n: nat,
    depth: int,
    items: int,
    prev: Option<Seq<u8>>,
) -> Result<(int, int), CborError>
    decreases 66 - depth, n + 1,
{
    if n == 0 {
        Ok((pos, items))
    } else {
        match item_spec(s, pos, depth, items) {
            Err(e) => Err(e),
            Ok((kend, c1)) => {
                let key = s.subrange(pos, kend);
                if prev is Some && lex_order(key, prev->0) < 0 {
                    Err(CborError::NonCanonicalMapOrder)
                } else if prev is Some && lex_order(key, prev->0) == 0 {
                    Err(CborError::DuplicateMapKey)
                } else {
                    match item_spec(s, kend, depth, c1) {
                        Err(e) => Err(e),
                        Ok((vend, c2)) => map_spec(s, vend, (n - 1) as nat, depth, c2, Some(key)),
                    }
                }
            }
        }
    }
}

/// The verdict on a whole buffer: one well-formed item that uses every byte.
pub open spec fn validate_spec(s: Seq<u8>) -> Result<(), CborError> {
    if s.len() > MAX_TOTAL_BYTES {
        Err(CborError::ResourceExhaustion)
    } else {
        match item_spec(s, 0, 0, 0) {
            Err(e) => Err(e),
            Ok((end, _)) => if end != s.len() { Err(CborError::TrailingBytes) } else { Ok(()) },
        }
    }
}

/// Whether `bytes` is valid UTF-8.
/// Calls `std::str::from_utf8`, which returns `Ok` exactly on well-formed UTF-8
/// (no overlong forms, no surrogates, nothing above U+10FFFF).
#[verifier::external_body]
fn utf8_ok(bytes: &[u8]) -> (r: bool)
    ensures
        r == vstd::utf8::valid_utf8(bytes@),
{
    std::str::from_utf8(bytes).is_ok()
}

proof fn lemma_byte_bound_8()
    ensures
        byte_bound(8) == 0x1_0000_0000_0000_0000,
{
    reveal_with_fuel(byte_bound, 9);
}

/// A definite-length text string of fewer than 256 bytes with its minimal head.
pub open spec fn text_item(p: Seq<u8>) -> Seq<u8> {
    if p.len() < 24 { seq![(0x60 + p.len()) as u8] + p } else { seq![0x78u8, p.len() as u8] + p }
}

/// A text string is accepted exactly when its bytes are well-formed UTF-8, alone
/// and inside an array; otherwise the verdict is `InvalidUtf8`.
pub proof fn lemma_text_strings_must_be_utf8(p: Seq<u8>)
    requires
        p.len() < 256,
    ensures
        validate_spec(text_item(p))
            == if vstd::utf8::valid_utf8(p) { Ok::<(), CborError>(()) } else { Err(CborError::InvalidUtf8) },
        validate_spec(seq![0x81u8] + text_item(p))
            == if vstd::utf8::valid_utf8(p) { Ok::<(), CborError>(()) } else { Err(CborError::InvalidUtf8) },
{
    let s = text_item(p);
    let hl: int = if p.len() < 24 { 1 } else { 2 };
    assert(s.subrange(hl, hl + p.len()) =~= p);
    assert(s.len() == hl + p.len());
    reveal_with_fuel(be_value, 2);
    let a = seq![0x81u8] + s;
    assert(a.subrange(1 + hl, 1 + hl + p.len()) =~= p);
    assert(a[1] == s[0]);
    assert(p.len() >= 24 ==> a[2] == s[1]);
    reveal_with_fuel(item_spec, 2);
    reveal_with_fuel(array_spec, 2);
}

/// A buffer accepted whole whose item is a text string is one head followed by
/// exactly its payload, and that payload is well-formed UTF-8.
pub proof fn lemma_validated_text_is_utf8(s: Seq<u8>)
    requires
        validate_spec(s) is Ok,
        s.len() > 0,
        major_of(s[0]) == 3,
    ensures
        head_spec(s, 0) matches Ok((arg, hlen)) && hlen + arg == s.len()
            && vstd::utf8::valid_utf8(s.subrange(hlen, hlen + arg)),
{
}

/// The strict rules on single heads, over every byte they concern: a small unsigned
/// integer alone is accepted and anything after it is trailing; tags, floats and
/// indefinite lengths are refused wherever the item starts; a one-byte argument that
/// would have fitted in the head is not minimal.
pub proof fn lemma_strict_heads(b: u8, v: u8, rest: Seq<u8>)
    ensures
        b < 24 ==> validate_spec(seq![b]) == Ok::<(), CborError>(()),
        b < 24 ==> validate_spec(seq![b, v]) == Err::<(), CborError>(CborError::TrailingBytes),
        rest.len() < 1000 && major_of(b) == 6 && info_of(b) != 31
            ==> validate_spec(seq![b] + rest) == Err::<(), CborError>(CborError::ForbiddenTag),
        rest.len() < 1000 && info_of(b) == 31 ==> validate_spec(seq![b] + rest) == Err::<(), CborError>(
            if major_of(b) == 7 { CborError::ForbiddenBreak } else { CborError::IndefiniteLength }),
        rest.len() < 1000 && (b == 0xF9 || b == 0xFA || b == 0xFB)
            ==> validate_spec(seq![b] + rest) == Err::<(), CborError>(CborError::ForbiddenFloat),
        v < 24 ==> validate_spec(seq![0x18u8, v]) == Err::<(), CborError>(CborError::NonMinimalEncoding)
            && validate_spec(seq![0x38u8, v]) == Err::<(), CborError>(CborError::NonMinimalEncoding),
        v >= 24 ==> validate_spec(seq![0x18u8, v]) == Ok::<(), CborError>(()),
{
    reveal_with_fuel(be_value, 2);
    assert((seq![b] + rest)[0] == b);
}

/// Map keys must be strictly ascending: for a two-entry map of small unsigned keys
/// `k1`, `k2`, the buffer is accepted exactly when `k1 < k2`, refused as a duplicate
/// when they are equal, and as out of order when `k1 > k2`.
pub proof fn lemma_map_keys_ascending(k1: u8, k2: u8)
    requires
        k1 < 24,
        k2 < 24,
    ensures
        validate_spec(seq![0xA2u8, k1, 0u8, k2, 0u8]) == if k1 < k2 {
            Ok::<(), CborError>(())
        } else if k1 == k2 {
            Err(CborError::DuplicateMapKey)
        } else {
            Err(CborError::NonCanonicalMapOrder)
        },
{
    let s = seq![0xA2u8, k1, 0u8, k2, 0u8];
    assert(s.subrange(1, 2) =~= seq![k1]);
    assert(s.subrange(3, 4) =~= seq![k2]);
    assert(seq![k2].drop_first() =~= Seq::<u8>::empty());
    assert(seq![k1].drop_first() =~= Seq::<u8>::empty());
    reveal_with_fuel(lex_order, 2);
    assert(item_spec(s, 1, 1, 1) == Ok::<(int, int), CborError>((2, 2)));
    assert(item_spec(s, 2, 1, 2) == Ok::<(int, int), CborError>((3, 3)));
    assert(item_spec(s, 3, 1, 3) == Ok::<(int, int), CborError>((4, 4)));
    assert(item_spec(s, 4, 1, 4) == Ok::<(int, int), CborError>((5, 5)));
    assert(map_spec(s, 5, 0, 1, 5, Some(seq![k2])) == Ok::<(int, int), CborError>((5, 5)));
    assert(lex_order(seq![k2], seq![k1]) == if k2 < k1 { -1int } else if k2 > k1 { 1int } else { 0int });
    let m1 = map_spec(s, 3, 1, 1, 3, Some(seq![k1]));
    assert(k1 < k2 ==> m1 == Ok::<(int, int), CborError>((5, 5)));
    assert(k1 == k2 ==> m1 == Err::<(int, int), CborError>(CborError::DuplicateMapKey));
    assert(k1 > k2 ==> m1 == Err::<(int, int), CborError>(CborError::NonCanonicalMapOrder));
    assert(map_spec(s, 1, 2, 1, 1, None) == m1);
    assert(item_spec(s, 0, 0, 0) == m1);
}

pub struct NexCborValidator {
    total_items: usize,
    total_bytes: usize,
}

impl NexCborValidator {
    /// Validates a complete strict-CBOR buffer.
    pub fn validate(raw_bytes: &[u8]) -> (r: Result<(), CborError>)
        ensures
            r == validate_spec(raw_bytes@),
    {
        if raw_bytes.len() > MAX_TOTAL_BYTES {
            return Err(CborError::ResourceExhaustion);
        }
        let mut validator = NexCborValidator { total_items: 0, total_bytes: raw_bytes.len() };
        let consumed = validator.validate_item(raw_bytes, 0, 0)?;
        if consumed != raw_bytes.len() {
            return Err(CborError::TrailingBytes);
        }
        Ok(())
    }

    /// Reads the argument of the head at `pos`.
    fn parse_argument(bytes: &[u8], pos: usize) -> (r: Result<(u64, usize), CborError>)
        requires
            pos < bytes.len(),
        ensures
            match (r, head_spec(bytes@, pos as int)) {
                (Ok((a, l)), Ok((sa, sl))) => a == sa && l == sl,
                (Err(e), Err(se)) => e == se,
                _ => false,
            },
    {
        let info = bytes[pos] % 32;
        if info < 24 {
            return Ok((info as u64, 1));
        }
        if info > 27 {
            return Err(CborError::InvalidSimpleValue);
        }
        let n: usize = if info == 24 { 1 } else if info == 25 { 2 } else if info == 26 { 4 } else { 8 };
        if bytes.len() - pos - 1 < n {
            return Err(CborError::TruncatedData);
        }
        let mut v: u64 = 0;
        let mut k: usize = 0;
        while k < n
            invariant
                n <= 8,
                k <= n,
                pos + 1 + n <= bytes.len(),
                v == be_value(bytes@, pos + 1, k as nat),
                v < byte_bound(k as nat),
            decreases n - k,
        {
            proof {
                lemma_byte_bound_8();
                lemma_byte_bound_mono(k as nat + 1, 8);
            }
            v = v * 256 + bytes[pos + 1 + k] as u64;
            k = k + 1;
        }
        let floor: u64 = if info == 24 { 24 } else if info == 25 { 256 } else if info == 26 { 65536 } else { 4294967296 };
        if v < floor {
            return Err(CborError::NonMinimalEncoding);
        }
        Ok((v, 1 + n))
    }

    /// Validates the item at `pos`, returning the offset just past it.
    fn validate_item(&mut self, bytes: &[u8], pos: usize, depth: usize) -> (r: Result<usize, CborError>)
        requires
            pos <= bytes.len(),
            old(self).total_items <= MAX_TOTAL_ITEMS,
        ensures
            match (r, item_spec(bytes@, pos as int, depth as int, old(self).total_items as int)) {
                (Ok(e), Ok((se, sc))) => e == se && final(self).total_items == sc && pos < e <= bytes.len()
                    && final(self).total_items <= MAX_TOTAL_ITEMS,
                (Err(e), Err(se)) => e == se,
                _ => false,
            },
        decreases 66 - depth, 0int,
    {
        if depth > MAX_DEPTH {
            return Err(CborError::ResourceExhaustion);
        }
        if self.total_items + 1 > MAX_TOTAL_ITEMS {
            return Err(CborError::ResourceExhaustion);
        }
        self.total_items = self.total_items + 1;
        if pos >= bytes.len() {
            return Err(CborError::TruncatedData);
        }
        let first = bytes[pos];
        let major = first / 32;
        let info = first % 32;
        if info == 31 {
            if major == 7 {
                return Err(CborError::ForbiddenBreak);
            }
            return Err(CborError::IndefiniteLength);
        }
        if major == 6 {
            return Err(CborError::ForbiddenTag);
        }
        if major == 7 {
            if info == 25 || info == 26 || info == 27 {
                return Err(CborError::ForbiddenFloat);
            }
            if info == 24 {
                if bytes.len() - pos < 2 {
                    return Err(CborError::TruncatedData);
                }
                if bytes[pos + 1] < 32 {
                    return Err(CborError::NonMinimalEncoding);
                }
            }
        }
        let (arg, arg_len) = Self::parse_argument(bytes, pos)?;
        let offset = pos + arg_len;
        if major == 0 || major == 1 || major == 7 {
            return Ok(offset);
        }
        if major == 2 || major == 3 {
            if arg > (bytes.len() - offset) as u64 {
                return Err(CborError::TruncatedData);
            }
            let end = offset + arg as usize;
            if major == 3 && !utf8_ok(&bytes[offset..end]) {
                return Err(CborError::InvalidUtf8);
            }
            return Ok(end);
        }
        if arg > MAX_CONTAINER_ITEMS as u64 {
            return Err(CborError::ResourceExhaustion);
        }
        let count = arg as usize;
        if major == 4 {
            self.validate_array(bytes, offset, count, depth + 1)
        } else {
            self.validate_map(bytes, offset, count, depth + 1)
        }
    }

    /// Validates `count` consecutive items starting at `pos`.
    fn validate_array(&mut self, bytes: &[u8], pos: usize, count: usize, depth: usize) -> (r: Result<usize, CborError>)
        requires
            pos <= bytes.len(),
            old(self).total_items <= MAX_TOTAL_ITEMS,
            depth <= 65,
        ensures
            match (r, array_spec(bytes@, pos as int, count as nat, depth as int, old(self).total_items as int)) {
                (Ok(e), Ok((se, sc))) => e == se && final(self).total_items == sc && pos <= e <= bytes.len()
                    && final(self).total_items <= MAX_TOTAL_ITEMS,
                (Err(e), Err(se)) => e == se,
                _ => false,
            },
        decreases 66 - depth, count + 1,
    {
        let mut offset = pos;
        let mut k: usize = 0;
        while k < count
            invariant
                k <= count,
                pos <= offset <= bytes.len(),
                self.total_items <= MAX_TOTAL_ITEMS,
                depth <= 65,
                array_spec(bytes@, pos as int, count as nat, depth as int, old(self).total_items as int)
                    == array_spec(bytes@, offset as int, (count - k) as nat, depth as int, self.total_items as int),
            decreases count - k,
        {
            let end = self.validate_item(bytes, offset, depth)?;
            offset = end;
            k = k + 1;
        }
        Ok(offset)
    }

    /// Validates `count` key/value pairs starting at `pos`, checking key order.
    fn validate_map(&mut self, bytes: &[u8], pos: usize, count: usize, depth: usize) -> (r: Result<usize, CborError>)
        requires
            pos <= bytes.len(),
            old(self).total_items <= MAX_TOTAL_ITEMS,
            depth <= 65,
        ensures
            match (r, map_spec(bytes@, pos as int, count as nat, depth as int, old(self).total_items as int, None)) {
                (Ok(e), Ok((se, sc))) => e == se && final(self).total_items == sc && pos <= e <= bytes.len()
                    && final(self).total_items <= MAX_TOTAL_ITEMS,
                (Err(e), Err(se)) => e == se,
                _ => false,
            },
        decreases 66 - depth, count + 1,
    {
        let mut offset = pos;
        let mut k: usize = 0;
        let mut has_prev = false;
        let mut prev_start: usize = 0;
        let mut prev_end: usize = 0;
        while k < count
            invariant
                k <= count,
                pos <= offset <= bytes.len(),
                prev_start <= prev_end <= bytes.len(),
                self.total_items <= MAX_TOTAL_ITEMS,
                depth <= 65,
                map_spec(bytes@, pos as int, count as nat, depth as int, old(self).total_items as int, None)
                    == map_spec(bytes@, offset as int, (count - k) as nat, depth as int, self.total_items as int,
                        if has_prev { Some(bytes@.subrange(prev_start as int, prev_end as int)) } else { None }),
            decreases count - k,
        {
            let key_start = offset;
            let key_end = self.validate_item(bytes, offset, depth)?;
            if has_prev {
                let c = compare_bytes(&bytes[key_start..key_end], &bytes[prev_start..prev_end]);
                if c < 0 {
                    return Err(CborError::NonCanonicalMapOrder);
                }
                if c == 0 {
                    return Err(CborError::DuplicateMapKey);
                }
            }
            has_prev = true;
            prev_start = key_start;
            prev_end = key_end;
            let val_end = self.validate_item(bytes, key_end, depth)?;
            offset = val_end;
            k = k + 1;
        }
        Ok(offset)
    }
}

proof fn lemma_byte_bound_mono(a: nat, b: nat)
    requires
        a <= b,
    ensures
        byte_bound(a) <= byte_bound(b),
    decreases b,
{
    if a < b {
        lemma_byte_bound_mono(a, (b - 1) as nat);
        lemma_byte_bound_pos((b - 1) as nat);
    }
}

proof fn lemma_byte_bound_pos(n: nat)
    ensures
        byte_bound(n) >= 1,
    decreases n,
{
    if n > 0 {
        lemma_byte_bound_pos((n - 1) as nat);
    }
}

} // verus!
