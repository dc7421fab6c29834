//! Shared storage: single-parity sharding, storage proofs, bilateral credit, and
//! provider counts per chunk.

use vstd::prelude::*;
use crate::bytes::{push_all, be_bytes, be_vec, id_eq};
use crate::crypto::{sha256, sha256_spec, tagged};
use crate::keyed_map::KeyedMap;
use crate::encoding::{hex_encode, hex_lower};
use crate::apps::erasure::{data_chunk, chunk_size_for, lemma_concat_chunks, concat_chunks};

verus! {

#[derive(Debug, Clone, PartialEq, Eq)]
pub struct ShardDescriptor {
    pub chunk_hash: [u8; 32],
    pub shard_index: u8,
    pub total_shards: u8,
    pub data: Vec<u8>,
}

/// The bytes hashed for a shard's id.
pub open spec fn shard_id_preimage(chunk_hash: Seq<u8>, index: u8) -> Seq<u8> {
    tagged("NEX/SHARD_ID/v1", chunk_hash + seq![index])
}

impl ShardDescriptor {
    /// SHA-256 of the shard-id domain, the chunk hash and the shard index.
    pub fn shard_id(&self) -> (r: [u8; 32])
        ensures
            r@ == sha256_spec(shard_id_preimage(self.chunk_hash@, self.shard_index)),
    {
        let mut buf: Vec<u8> = Vec::new();
        push_all(&mut buf, "NEX/SHARD_ID/v1".as_bytes());
        push_all(&mut buf, self.chunk_hash.as_slice());
        buf.push(self.shard_index);
        assert(buf@ =~= shard_id_preimage(self.chunk_hash@, self.shard_index));
        sha256(buf.as_slice())
    }
}

/// Byte `b` of the XOR of data shards `0..k`.
pub open spec fn xor_parity_byte(payload: Seq<u8>, chunk: int, b: int, k: int) -> u8
    decreases k,
{
    if k <= 0 { 0 } else { xor_parity_byte(payload, chunk, b, k - 1) ^ data_chunk(payload, k - 1, chunk)[b] }
}

/// The parity shard: the bytewise XOR of all `d` data shards.
pub open spec fn xor_parity(payload: Seq<u8>, chunk: int, d: int) -> Seq<u8> {
    Seq::new(chunk as nat, |b: int| xor_parity_byte(payload, chunk, b, d))
}

/// What `split` hands back for `payload` over `d` data shards.
pub open spec fn split_shards(r: Seq<ShardDescriptor>, payload: Seq<u8>, d: int) -> bool {
    let chunk = chunk_size_for(payload.len() as int, d);
    &&& r.len() == d + 1
    &&& forall|i: int| 0 <= i < r.len() ==> {
        &&& (#[trigger] r[i]).chunk_hash@ == sha256_spec(payload)
        &&& r[i].shard_index == (i % 256) as u8
        &&& r[i].total_shards == ((d + 1) % 256) as u8
        &&& i < d ==> r[i].data@ == data_chunk(payload, i, chunk)
        &&& i == d ==> r[i].data@ == xor_parity(payload, chunk, d)
    }
}

/// For each byte index, the position of the last shard filed under it.
pub open spec fn shard_slots(shards: Seq<ShardDescriptor>, k: int) -> Seq<Option<usize>>
    decreases k,
{
    if k <= 0 {
        Seq::new(256, |i: int| None)
    } else {
        shard_slots(shards, k - 1).update(shards[k - 1].shard_index as int, Some((k - 1) as usize))
    }
}

/// The data held for slot `i mod 256`.
pub open spec fn slot_data(shards: Seq<ShardDescriptor>, slots: Seq<Option<usize>>, i: int) -> Seq<u8> {
    shards[slots[i % 256]->0 as int].data@
}

/// Data slots `0..n` laid end to end, slot `m` replaced by `fill`.
pub open spec fn concat_with(shards: Seq<ShardDescriptor>, slots: Seq<Option<usize>>, n: int, m: int, fill: Seq<u8>) -> Seq<u8>
    decreases n,
{
    if n <= 0 {
        Seq::empty()
    } else {
        concat_with(shards, slots, n - 1, m, fill) + if n - 1 == m { fill } else { slot_data(shards, slots, n - 1) }
    }
}

/// Byte `j` of the XOR of the present data slots `0..k` other than `m`.
pub open spec fn xor_others(shards: Seq<ShardDescriptor>, slots: Seq<Option<usize>>, m: int, j: int, k: int) -> u8
    decreases k,
{
    if k <= 0 {
        0
    } else if k - 1 == m {
        xor_others(shards, slots, m, j, k - 1)
    } else {
        xor_others(shards, slots, m, j, k - 1) ^ slot_data(shards, slots, k - 1)[j]
    }
}

/// The missing data shard rebuilt from the parity shard: its first `chunk` bytes
/// XORed with every other data shard.
pub open spec fn recovered_shard(shards: Seq<ShardDescriptor>, slots: Seq<Option<usize>>, d: int, m: int, chunk: int) -> Seq<u8> {
    let parity = slot_data(shards, slots, d);
    Seq::new(parity.len(), |j: int| if j < chunk { parity[j] ^ xor_others(shards, slots, m, j, d) } else { parity[j] })
}

/// The number of data slots `0..k` that are empty.
pub open spec fn missing_count(slots: Seq<Option<usize>>, k: int) -> int
    decreases k,
{
    if k <= 0 { 0 } else { missing_count(slots, k - 1) + if slots[(k - 1) % 256] is None { 1int } else { 0int } }
}

/// The first empty data slot among `0..k` (or `k` when none is).
pub open spec fn first_missing(slots: Seq<Option<usize>>, k: int) -> int
    decreases k,
{
    if k <= 0 {
        0
    } else if missing_count(slots, k - 1) > 0 {
        first_missing(slots, k - 1)
    } else if slots[(k - 1) % 256] is None {
        k - 1
    } else {
        k
    }
}

/// A payload cut to at most `len` bytes.
pub open spec fn cut(p: Seq<u8>, len: int) -> Seq<u8> {
    p.take(if p.len() < len { p.len() as int } else { len })
}

proof fn lemma_missing_count_monotone(slots: Seq<Option<usize>>, a: int, b: int)
    requires
        0 <= a <= b,
    ensures
        missing_count(slots, a) <= missing_count(slots, b),
    decreases b - a,
{
    if a < b {
        lemma_missing_count_monotone(slots, a, b - 1);
    }
}

proof fn lemma_only_missing(slots: Seq<Option<usize>>, k: int)
    requires
        k >= 0,
    ensures
        missing_count(slots, k) >= 0,
        forall|q: int| 0 <= q < k && (#[trigger] slots[q % 256]) is None ==> missing_count(slots, k) >= 1
            && (missing_count(slots, k) == 1 ==> q == first_missing(slots, k)),
    decreases k,
{
    if k > 0 {
        lemma_only_missing(slots, k - 1);
        assert forall|q: int| 0 <= q < k && (#[trigger] slots[q % 256]) is None implies missing_count(slots, k) >= 1
            && (missing_count(slots, k) == 1 ==> q == first_missing(slots, k)) by {
            if q < k - 1 {
                assert(missing_count(slots, k - 1) >= 1);
                assert(missing_count(slots, k - 1) == 1 ==> q == first_missing(slots, k - 1));
                if missing_count(slots, k) == 1 {
                    assert(missing_count(slots, k - 1) == 1);
                    assert(first_missing(slots, k) == first_missing(slots, k - 1));
                }
            } else {
                assert(q == k - 1);
                if missing_count(slots, k) == 1 {
                    assert(missing_count(slots, k - 1) == 0);
                }
            }
        }
    }
}

proof fn lemma_first_missing_stable(slots: Seq<Option<usize>>, a: int, b: int)
    requires
        0 <= a <= b,
        missing_count(slots, a) > 0,
    ensures
        first_missing(slots, b) == first_missing(slots, a),
        missing_count(slots, b) >= missing_count(slots, a),
    decreases b - a,
{
    if a < b {
        lemma_first_missing_stable(slots, a, b - 1);
    }
}

proof fn lemma_lost_slots(r: Seq<ShardDescriptor>, payload: Seq<u8>, d: int, m: int, n: int)
    requires
        split_shards(r, payload, d),
        1 <= d,
        d + 1 <= 256,
        0 <= m < d,
        0 <= n <= d,
    ensures
        shard_slots(r.remove(m), n).len() == 256,
        forall|j: int| 0 <= j < 256 ==> #[trigger] shard_slots(r.remove(m), n)[j] == if j < m && j < n {
            Some(j as usize)
        } else if m < j && j <= n {
            Some((j - 1) as usize)
        } else {
            None::<usize>
        },
    decreases n,
{
    if n > 0 {
        lemma_lost_slots(r, payload, d, m, n - 1);
        let sh = r.remove(m);
        if n - 1 < m {
            assert(sh[n - 1] == r[n - 1]);
        } else {
            assert(sh[n - 1] == r[n]);
        }
    }
}

proof fn lemma_lost_counts(slots: Seq<Option<usize>>, d: int, m: int, k: int)
    requires
        0 <= m < d,
        d + 1 <= 256,
        slots.len() == 256,
        forall|j: int| 0 <= j <= d ==> (#[trigger] slots[j] is None <==> j == m),
        0 <= k <= d,
    ensures
        missing_count(slots, k) == if k <= m { 0int } else { 1int },
        k > m ==> first_missing(slots, k) == m,
        k <= m ==> first_missing(slots, k) == k,
    decreases k,
{
    if k > 0 {
        lemma_lost_counts(slots, d, m, k - 1);
        assert((k - 1) % 256 == k - 1);
        assert(slots[k - 1] is None <==> k - 1 == m);
    }
}

proof fn lemma_xor_split(payload: Seq<u8>, chunk: int, shards: Seq<ShardDescriptor>, slots: Seq<Option<usize>>, m: int, j: int, k: int)
    requires
        0 <= k,
        forall|i: int| 0 <= i < k && i != m ==> #[trigger] slot_data(shards, slots, i) == data_chunk(payload, i, chunk),
        0 <= j < chunk,
    ensures
        xor_parity_byte(payload, chunk, j, k)
            == xor_others(shards, slots, m, j, k) ^ if 0 <= m < k { data_chunk(payload, m, chunk)[j] } else { 0u8 },
    decreases k,
{
    if k == 0 {
        assert(0u8 ^ 0u8 == 0u8) by (bit_vector);
    } else {
        lemma_xor_split(payload, chunk, shards, slots, m, j, k - 1);
        let xo = xor_others(shards, slots, m, j, k - 1);
        let dk = data_chunk(payload, k - 1, chunk)[j];
        if k - 1 == m {
            assert(xo ^ 0u8 == xo) by (bit_vector);
        } else {
            assert(slot_data(shards, slots, k - 1) == data_chunk(payload, k - 1, chunk));
            let t: u8 = if 0 <= m < k - 1 { data_chunk(payload, m, chunk)[j] } else { 0u8 };
            assert((xo ^ t) ^ dk == (xo ^ dk) ^ t) by (bit_vector);
            if 0 <= m < k {
                assert(t == data_chunk(payload, m, chunk)[j]);
            }
        }
    }
}

proof fn lemma_concat_with_chunks(payload: Seq<u8>, chunk: int, shards: Seq<ShardDescriptor>, slots: Seq<Option<usize>>, m: int, n: int)
    requires
        0 <= n,
        forall|i: int| 0 <= i < n && i != m ==> #[trigger] slot_data(shards, slots, i) == data_chunk(payload, i, chunk),
    ensures
        concat_with(shards, slots, n, m, data_chunk(payload, m, chunk)) == concat_chunks(payload, n, chunk),
    decreases n,
{
    if n > 0 {
        lemma_concat_with_chunks(payload, chunk, shards, slots, m, n - 1);
        if n - 1 != m {
            assert(slot_data(shards, slots, n - 1) == data_chunk(payload, n - 1, chunk));
        }
    }
}

/// One-fault tolerance: from the shards of `split`, with any one data shard lost,
/// `reconstruct` finds exactly that shard missing and the parity shard present,
/// its length checks hold, and the payload it rebuilds is the original payload.
pub proof fn lemma_reconstruct_after_loss(r: Seq<ShardDescriptor>, payload: Seq<u8>, d: int, m: int)
    requires
        split_shards(r, payload, d),
        1 <= d,
        d + 1 <= 256,
        0 <= m < d,
    ensures
        ({
            let shards = r.remove(m);
            let slots = shard_slots(shards, shards.len() as int);
            let chunk = chunk_size_for(payload.len() as int, d);
            &&& shards.len() >= d
            &&& slots[d % 256] is Some
            &&& missing_count(slots, d) == 1
            &&& first_missing(slots, d) == m
            &&& slot_data(shards, slots, d).len() >= chunk
            &&& forall|i: int| 0 <= i < d && i != m ==> #[trigger] slot_data(shards, slots, i).len() >= chunk
            &&& cut(concat_with(shards, slots, d, m, recovered_shard(shards, slots, d, m, chunk)), payload.len() as int) == payload
        }),
{
    let shards = r.remove(m);
    let n = shards.len() as int;
    let slots = shard_slots(shards, n);
    let chunk = chunk_size_for(payload.len() as int, d);
    let o = payload.len() as int;
    assert(chunk >= 0 && d * chunk >= o) by (nonlinear_arith)
        requires
            d > 0,
            o >= 0,
            chunk == (o + d - 1) / d,
    ;
    lemma_lost_slots(r, payload, d, m, n);
    assert forall|j: int| 0 <= j <= d implies (#[trigger] slots[j] is None <==> j == m) by {}
    lemma_lost_counts(slots, d, m, d);
    assert(d % 256 == d);
    assert forall|i: int| 0 <= i < d && i != m implies #[trigger] slot_data(shards, slots, i) == data_chunk(payload, i, chunk) by {
        assert(i % 256 == i);
        if i < m {
            assert(shards[i] == r[i]);
        } else {
            assert(shards[i - 1] == r[i]);
        }
    }
    assert(slot_data(shards, slots, d) == xor_parity(payload, chunk, d)) by {
        assert(shards[d - 1] == r[d]);
    }
    let rec = recovered_shard(shards, slots, d, m, chunk);
    assert forall|j: int| 0 <= j < chunk implies #[trigger] rec[j] == data_chunk(payload, m, chunk)[j] by {
        lemma_xor_split(payload, chunk, shards, slots, m, j, d);
        let xo = xor_others(shards, slots, m, j, d);
        let dm = data_chunk(payload, m, chunk)[j];
        assert((xo ^ dm) ^ xo == dm) by (bit_vector);
    }
    assert(rec =~= data_chunk(payload, m, chunk));
    lemma_concat_with_chunks(payload, chunk, shards, slots, m, d);
    lemma_concat_chunks(payload, d, chunk);
    assert(cut(concat_chunks(payload, d, chunk), o) =~= payload);
}

/// Where `shard_slots` files each index: a filled slot holds a shard with that
/// index; an empty one means no shard among the first `n` has it.
proof fn lemma_slots_hold(s: Seq<ShardDescriptor>, n: int)
    requires
        0 <= n <= s.len(),
        s.len() <= usize::MAX,
    ensures
        shard_slots(s, n).len() == 256,
        forall|j: int| 0 <= j < 256 ==> match #[trigger] shard_slots(s, n)[j] {
            Some(p) => 0 <= p < n && s[p as int].shard_index == j,
            None => forall|q: int| 0 <= q < n ==> s[q].shard_index != j,
        },
    decreases n,
{
    if n > 0 {
        lemma_slots_hold(s, n - 1);
        let prev = shard_slots(s, n - 1);
        let idx = s[n - 1].shard_index as int;
        assert forall|j: int| 0 <= j < 256 implies match #[trigger] shard_slots(s, n)[j] {
            Some(p) => 0 <= p < n && s[p as int].shard_index == j,
            None => forall|q: int| 0 <= q < n ==> s[q].shard_index != j,
        } by {
            if j != idx {
                assert(shard_slots(s, n)[j] == prev[j]);
                match prev[j] {
                    Some(p) => {}
                    None => {
                        assert forall|q: int| 0 <= q < n implies s[q].shard_index != j by {
                            if q < n - 1 {
                                assert(s[q].shard_index != j);
                            }
                        }
                    }
                }
            } else {
                assert(shard_slots(s, n)[j] == Some((n - 1) as usize));
            }
        }
    }
}

/// With no slot replaced, the fill does not matter.
proof fn lemma_concat_no_fill(shards: Seq<ShardDescriptor>, slots: Seq<Option<usize>>, n: int, a: Seq<u8>, b: Seq<u8>)
    requires
        0 <= n,
    ensures
        concat_with(shards, slots, n, -1, a) == concat_with(shards, slots, n, -1, b),
    decreases n,
{
    if n > 0 {
        lemma_concat_no_fill(shards, slots, n - 1, a, b);
    }
}

/// When no data slot below `k` is empty, none is missing.
proof fn lemma_none_missing(slots: Seq<Option<usize>>, k: int)
    requires
        0 <= k <= 256,
        forall|j: int| 0 <= j < k ==> #[trigger] slots[j] is Some,
    ensures
        missing_count(slots, k) == 0,
        first_missing(slots, k) == k,
    decreases k,
{
    if k > 0 {
        lemma_none_missing(slots, k - 1);
        assert((k - 1) % 256 == k - 1);
    }
}

/// Whether some shard in `s` has index `j`.
pub open spec fn has_index(s: Seq<ShardDescriptor>, j: int) -> bool {
    exists|p: int| 0 <= p < s.len() && #[trigger] s[p].shard_index == j
}

/// The slots of a list drawn from the shards of `split`, without repeats and
/// missing at most index `lost`: every other index below `d + 1` is filled, and a
/// filled slot holds that shard's data.
proof fn lemma_slot_contents(r: Seq<ShardDescriptor>, payload: Seq<u8>, d: int, s: Seq<ShardDescriptor>, lost: int)
    requires
        split_shards(r, payload, d),
        1 <= d,
        d + 1 <= 256,
        d <= s.len() <= usize::MAX,
        forall|p: int| 0 <= p < s.len() ==> r.contains(#[trigger] s[p]),
        forall|j: int| 0 <= j <= d && j != lost ==> #[trigger] has_index(s, j),
    ensures
        ({
            let slots = shard_slots(s, s.len() as int);
            let chunk = chunk_size_for(payload.len() as int, d);
            &&& slots.len() == 256
            &&& forall|j: int| 0 <= j <= d && j != lost ==> #[trigger] slots[j] is Some
            &&& forall|j: int| 0 <= j < d && #[trigger] slots[j] is Some ==> slot_data(s, slots, j) == data_chunk(payload, j, chunk)
            &&& slots[d] is Some ==> slot_data(s, slots, d) == xor_parity(payload, chunk, d)
        }),
{
    let n = s.len() as int;
    let slots = shard_slots(s, n);
    let chunk = chunk_size_for(payload.len() as int, d);
    lemma_slots_hold(s, n);
    assert forall|j: int| 0 <= j <= d && #[trigger] slots[j] is Some implies
        slot_data(s, slots, j) == (if j < d { data_chunk(payload, j, chunk) } else { xor_parity(payload, chunk, d) }) by {
        let p = slots[j]->0 as int;
        assert(j % 256 == j);
        assert(r.contains(s[p]));
        let i = choose|i: int| 0 <= i < r.len() && r[i] == s[p];
        assert(r[i].shard_index == (i % 256) as u8);
        assert(i % 256 == i);
    }
    assert forall|j: int| 0 <= j <= d && j != lost implies #[trigger] slots[j] is Some by {
        assert(has_index(s, j));
        let p = choose|p: int| 0 <= p < s.len() && #[trigger] s[p].shard_index == j;
        if slots[j] is None {
            assert(s[p].shard_index != j);
        }
    }
}

/// One-fault tolerance, in any order: take the shards of `split`, drop at most one
/// (the one with index `lost`, or none when `lost` is `d + 1`), and list the rest in
/// any order without repeats. Then at most one data slot is empty, the parity slot
/// is filled whenever one is, the length checks of `reconstruct` hold, and the
/// payload it rebuilds, by whichever path applies, is the original payload.
#[verifier::rlimit(50)]
pub proof fn lemma_reconstruct_any_order(r: Seq<ShardDescriptor>, payload: Seq<u8>, d: int, s: Seq<ShardDescriptor>, lost: int)
    requires
        split_shards(r, payload, d),
        1 <= d,
        d + 1 <= 256,
        0 <= lost <= d + 1,
        d <= s.len() <= usize::MAX,
        forall|p: int| 0 <= p < s.len() ==> r.contains(#[trigger] s[p]),
        forall|p: int, q: int| 0 <= p < q < s.len() ==> s[p].shard_index != s[q].shard_index,
        forall|j: int| 0 <= j <= d && j != lost ==> #[trigger] has_index(s, j),
    ensures
        ({
            let slots = shard_slots(s, s.len() as int);
            let chunk = chunk_size_for(payload.len() as int, d);
            let m = first_missing(slots, d);
            &&& missing_count(slots, d) <= 1
            &&& missing_count(slots, d) == 0 ==> cut(concat_with(s, slots, d, -1, Seq::empty()), payload.len() as int) == payload
            &&& missing_count(slots, d) == 1 ==> {
                &&& slots[d % 256] is Some
                &&& slot_data(s, slots, d).len() >= chunk
                &&& forall|i: int| 0 <= i < d && i != m ==> #[trigger] slot_data(s, slots, i).len() >= chunk
                &&& cut(concat_with(s, slots, d, m, recovered_shard(s, slots, d, m, chunk)), payload.len() as int) == payload
            }
        }),
{
    let n = s.len() as int;
    let slots = shard_slots(s, n);
    let chunk = chunk_size_for(payload.len() as int, d);
    let o = payload.len() as int;
    assert(chunk >= 0 && d * chunk >= o) by (nonlinear_arith)
        requires
            d > 0,
            o >= 0,
            chunk == (o + d - 1) / d,
    ;
    lemma_slot_contents(r, payload, d, s, lost);
    if lost < d && slots[lost] is None {
        assert forall|j: int| 0 <= j <= d implies (#[trigger] slots[j] is None <==> j == lost) by {}
        lemma_lost_counts(slots, d, lost, d);
        assert(d % 256 == d);
        assert forall|i: int| 0 <= i < d && i != lost implies #[trigger] slot_data(s, slots, i) == data_chunk(payload, i, chunk) by {
            assert(slots[i] is Some);
        }
        assert(slots[d] is Some);
        let rec = recovered_shard(s, slots, d, lost, chunk);
        assert forall|j: int| 0 <= j < chunk implies #[trigger] rec[j] == data_chunk(payload, lost, chunk)[j] by {
            lemma_xor_split(payload, chunk, s, slots, lost, j, d);
            let xo = xor_others(s, slots, lost, j, d);
            let dm = data_chunk(payload, lost, chunk)[j];
            assert((xo ^ dm) ^ xo == dm) by (bit_vector);
        }
        assert(rec =~= data_chunk(payload, lost, chunk));
        lemma_concat_with_chunks(payload, chunk, s, slots, lost, d);
        lemma_concat_chunks(payload, d, chunk);
        assert(cut(concat_chunks(payload, d, chunk), o) =~= payload);
    } else {
        assert forall|j: int| 0 <= j < d implies #[trigger] slots[j] is Some by {}
        lemma_none_missing(slots, d);
        assert forall|i: int| 0 <= i < d && i != -1 implies #[trigger] slot_data(s, slots, i) == data_chunk(payload, i, chunk) by {
            assert(slots[i] is Some);
        }
        lemma_concat_with_chunks(payload, chunk, s, slots, -1, d);
        lemma_concat_no_fill(s, slots, d, data_chunk(payload, -1, chunk), Seq::empty());
        lemma_concat_chunks(payload, d, chunk);
        assert(cut(concat_chunks(payload, d, chunk), o) =~= payload);
    }
}

pub struct ErasureCoder;

impl ErasureCoder {
    /// Splits `payload` into `data_shards` zero-padded shards plus one XOR parity shard.
    pub fn split(payload: &[u8], data_shards: usize) -> (r: Vec<ShardDescriptor>)
        requires
            data_shards > 0,
            payload@.len() + data_shards - 1 <= usize::MAX,
            data_shards + 1 <= usize::MAX,
        ensures
            split_shards(r@, payload@, data_shards as int),
    {
        let total_shards: u8 = ((data_shards + 1) % 256) as u8;
        let original_len = payload.len();
        let chunk_size = (original_len + (data_shards - 1)) / data_shards;
        let ghost chunk = chunk_size as int;
        proof {
            let o = original_len as int;
            let dd = data_shards as int;
            assert(dd * chunk <= o + dd - 1) by (nonlinear_arith)
                requires
                    dd > 0,
                    o >= 0,
                    chunk == (o + dd - 1) / dd,
            ;
        }
        let chunk_hash = sha256(payload);
        let mut shards: Vec<ShardDescriptor> = Vec::new();
        let mut parity: Vec<u8> = Vec::new();
        let mut b: usize = 0;
        while b < chunk_size
            invariant
                b <= chunk_size,
                parity@.len() == b,
                forall|x: int| 0 <= x < b ==> #[trigger] parity@[x] == 0,
            decreases chunk_size - b,
        {
            parity.push(0);
            b = b + 1;
        }
        let mut start: usize = 0;
        let mut i: usize = 0;
        while i < data_shards
            invariant
                i <= data_shards,
                chunk == chunk_size,
                chunk_size == chunk_size_for(payload@.len() as int, data_shards as int),
                start == i * chunk,
                data_shards * chunk <= usize::MAX,
                original_len == payload@.len(),
                total_shards == ((data_shards + 1) % 256) as u8,
                chunk_hash@ == sha256_spec(payload@),
                parity@.len() == chunk_size,
                forall|x: int| 0 <= x < chunk_size ==> #[trigger] parity@[x] == xor_parity_byte(payload@, chunk, x, i as int),
                shards@.len() == i,
                forall|x: int| 0 <= x < i ==> {
                    &&& (#[trigger] shards@[x]).chunk_hash@ == sha256_spec(payload@)
                    &&& shards@[x].shard_index == (x % 256) as u8
                    &&& shards@[x].total_shards == total_shards
                    &&& shards@[x].data@ == data_chunk(payload@, x, chunk)
                },
            decreases data_shards - i,
        {
            proof {
                assert((i + 1) * chunk <= data_shards * chunk) by (nonlinear_arith)
                    requires
                        i < data_shards,
                        chunk >= 0,
                ;
                assert((i + 1) * chunk == i * chunk + chunk) by (nonlinear_arith);
            }
            let mut slice: Vec<u8> = Vec::new();
            let mut b: usize = 0;
            while b < chunk_size
                invariant
                    b <= chunk_size,
                    chunk == chunk_size,
                    start == i * chunk,
                    start + chunk_size <= usize::MAX,
                    original_len == payload@.len(),
                    slice@.len() == b,
                    forall|x: int| 0 <= x < b ==> #[trigger] slice@[x] == data_chunk(payload@, i as int, chunk)[x],
                decreases chunk_size - b,
            {
                if start + b < original_len {
                    slice.push(payload[start + b]);
                } else {
                    slice.push(0);
                }
                b = b + 1;
            }
            assert(slice@ =~= data_chunk(payload@, i as int, chunk));
            let mut j: usize = 0;
            while j < chunk_size
                invariant
                    j <= chunk_size,
                    chunk == chunk_size,
                    parity@.len() == chunk_size,
                    slice@ == data_chunk(payload@, i as int, chunk),
                    forall|x: int| 0 <= x < j ==> #[trigger] parity@[x] == xor_parity_byte(payload@, chunk, x, i + 1),
                    forall|x: int| j <= x < chunk_size ==> #[trigger] parity@[x] == xor_parity_byte(payload@, chunk, x, i as int),
                decreases chunk_size - j,
            {
                let v = parity[j] ^ slice[j];
                parity.set(j, v);
                j = j + 1;
            }
            shards.push(ShardDescriptor {
                chunk_hash,
                shard_index: (i % 256) as u8,
                total_shards,
                data: slice,
            });
            start = start + chunk_size;
            i = i + 1;
        }
        assert(parity@ =~= xor_parity(payload@, chunk, data_shards as int));
        shards.push(ShardDescriptor {
            chunk_hash,
            shard_index: (data_shards % 256) as u8,
            total_shards,
            data: parity,
        });
        shards
    }
    /// Rebuilds the payload from the shards at hand: the data shards laid end to end
    /// when all are present; otherwise, with the parity shard present and exactly one
    /// data shard missing, that shard is rebuilt by XOR first.
    pub fn reconstruct(available_shards: &[ShardDescriptor], data_shards: usize, original_len: usize) -> (r: Result<Vec<u8>, String>)
        requires
            data_shards > 0,
            original_len + data_shards - 1 <= usize::MAX,
            ({
                let slots = shard_slots(available_shards@, available_shards@.len() as int);
                let chunk = chunk_size_for(original_len as int, data_shards as int);
                let m = first_missing(slots, data_shards as int);
                available_shards@.len() >= data_shards && slots[(data_shards % 256) as int] is Some
                    && missing_count(slots, data_shards as int) == 1 ==> {
                    &&& slot_data(available_shards@, slots, data_shards as int).len() >= chunk
                    &&& forall|i: int| 0 <= i < data_shards && i != m ==> #[trigger] slot_data(available_shards@, slots, i).len() >= chunk
                }
            }),
        ensures
            ({
                let shards = available_shards@;
                let slots = shard_slots(shards, shards.len() as int);
                let d = data_shards as int;
                let chunk = chunk_size_for(original_len as int, d);
                let m = first_missing(slots, d);
                let enough = shards.len() >= d;
                &&& !enough ==> (r matches Err(e) && e@ == "Insufficient shards for reconstruction"@)
                &&& enough && missing_count(slots, d) == 0 ==> r is Ok
                    && r->Ok_0@ == cut(concat_with(shards, slots, d, -1, Seq::empty()), original_len as int)
                &&& enough && missing_count(slots, d) > 0 && slots[d % 256] is None
                    ==> (r matches Err(e) && e@ == "Reconstruction failed"@)
                &&& enough && missing_count(slots, d) > 1 && slots[d % 256] is Some
                    ==> (r matches Err(e) && e@ == "More than 1 data shard missing, cannot reconstruct with 1 parity shard"@)
                &&& enough && missing_count(slots, d) == 1 && slots[d % 256] is Some ==> r is Ok
                    && r->Ok_0@ == cut(concat_with(shards, slots, d, m, recovered_shard(shards, slots, d, m, chunk)), original_len as int)
            }),
    {
        if available_shards.len() < data_shards {
            return Err("Insufficient shards for reconstruction".to_owned());
        }
        let chunk_size = (original_len + (data_shards - 1)) / data_shards;
        let ghost shards = available_shards@;
        let mut slots: Vec<Option<usize>> = Vec::new();
        let mut k: usize = 0;
        while k < 256
            invariant
                k <= 256,
                slots@.len() == k,
                forall|i: int| 0 <= i < k ==> #[trigger] slots@[i] is None,
            decreases 256 - k,
        {
            slots.push(None);
            k = k + 1;
        }
        assert(slots@ =~= shard_slots(shards, 0));
        let mut s: usize = 0;
        while s < available_shards.len()
            invariant
                s <= shards.len(),
                shards == available_shards@,
                slots@ == shard_slots(shards, s as int),
                slots@.len() == 256,
                forall|j: int| 0 <= j < 256 && (#[trigger] slots@[j]) is Some ==> slots@[j]->0 < s,
            decreases shards.len() - s,
        {
            let at = available_shards[s].shard_index as usize;
            slots.set(at, Some(s));
            s = s + 1;
        }
        let ghost gs = slots@;
        assert(forall|j: int| 0 <= j < 256 && (#[trigger] gs[j]) is Some ==> gs[j]->0 < shards.len());
        let d = data_shards;
        let ghost m = first_missing(gs, d as int);
        // Count the missing data slots, stopping at a second one.
        let mut missing: Option<usize> = None;
        let mut i: usize = 0;
        let mut too_many = false;
        while i < d && !too_many
            invariant
                i <= d,
                slots@ == gs,
                gs.len() == 256,
                too_many ==> missing_count(gs, d as int) > 1,
                !too_many ==> (missing is None <==> missing_count(gs, i as int) == 0),
                !too_many ==> (missing matches Some(mi) ==> missing_count(gs, i as int) == 1
                    && mi == first_missing(gs, i as int) && mi < i),
                !too_many && missing is None ==> first_missing(gs, i as int) == i,
            decreases d - i, if too_many { 0int } else { 1int },
        {
            if slots[i % 256].is_none() {
                if missing.is_some() {
                    too_many = true;
                    proof {
                        assert(missing_count(gs, i + 1) == 2);
                        lemma_missing_count_monotone(gs, i + 1, d as int);
                    }
                } else {
                    missing = Some(i);
                    i = i + 1;
                }
            } else {
                i = i + 1;
            }
        }
        if too_many {
            if slots[d % 256].is_none() {
                return Err("Reconstruction failed".to_owned());
            }
            return Err("More than 1 data shard missing, cannot reconstruct with 1 parity shard".to_owned());
        }
        proof {
            if missing is Some {
                lemma_first_missing_stable(gs, i as int, d as int);
            }
            lemma_only_missing(gs, d as int);
        }
        let fill: Vec<u8> = match missing {
            None => Vec::new(),
            Some(mi) => {
                match slots[d % 256] {
                    None => {
                        return Err("Reconstruction failed".to_owned());
                    }
                    Some(ppos) => {
                        let mut rec = crate::bytes::to_vec(available_shards[ppos].data.as_slice());
                        proof {
                            assert(rec@ == slot_data(shards, gs, d as int));
                            assert forall|x: int| 0 <= x < chunk_size implies #[trigger] rec@[x]
                                == slot_data(shards, gs, d as int)[x] ^ xor_others(shards, gs, m, x, 0) by {
                                let v = rec@[x];
                                assert(v ^ 0u8 == v) by (bit_vector);
                            }
                        }
                        let mut q: usize = 0;
                        while q < d
                            invariant
                                q <= d,
                                slots@ == gs,
                                gs.len() == 256,
                                shards == available_shards@,
                                forall|j: int| 0 <= j < 256 && (#[trigger] gs[j]) is Some ==> gs[j]->0 < shards.len(),
                                forall|w: int| 0 <= w < d && w != m ==> (#[trigger] gs[w % 256]) is Some,
                                forall|w: int| 0 <= w < d && w != m ==> #[trigger] slot_data(shards, gs, w).len() >= chunk_size,
                                mi == m,
                                rec@.len() == slot_data(shards, gs, d as int).len(),
                                chunk_size <= rec@.len(),
                                forall|x: int| 0 <= x < chunk_size ==> #[trigger] rec@[x]
                                    == slot_data(shards, gs, d as int)[x] ^ xor_others(shards, gs, m, x, q as int),
                                forall|x: int| chunk_size <= x < rec@.len() ==> #[trigger] rec@[x] == slot_data(shards, gs, d as int)[x],
                            decreases d - q,
                        {
                            if q != mi {
                                let other = match slots[q % 256] {
                                    Some(op) => &available_shards[op].data,
                                    None => { assert(false); &available_shards[0].data }
                                };
                                assert(other@ == slot_data(shards, gs, q as int));
                                let mut j: usize = 0;
                                while j < chunk_size
                                    invariant
                                        j <= chunk_size,
                                        q < d,
                                        q != m,
                                        chunk_size <= rec@.len(),
                                        rec@.len() == slot_data(shards, gs, d as int).len(),
                                        other@ == slot_data(shards, gs, q as int),
                                        other@.len() >= chunk_size,
                                        forall|x: int| 0 <= x < j ==> #[trigger] rec@[x]
                                            == slot_data(shards, gs, d as int)[x] ^ xor_others(shards, gs, m, x, q + 1),
                                        forall|x: int| j <= x < chunk_size ==> #[trigger] rec@[x]
                                            == slot_data(shards, gs, d as int)[x] ^ xor_others(shards, gs, m, x, q as int),
                                        forall|x: int| chunk_size <= x < rec@.len() ==> #[trigger] rec@[x] == slot_data(shards, gs, d as int)[x],
                                    decreases chunk_size - j,
                                {
                                    let v = rec[j] ^ other[j];
                                    proof {
                                        let a = slot_data(shards, gs, d as int)[j as int];
                                        let b = xor_others(shards, gs, m, j as int, q as int);
                                        let c = other@[j as int];
                                        assert((a ^ b) ^ c == a ^ (b ^ c)) by (bit_vector);
                                    }
                                    rec.set(j, v);
                                    j = j + 1;
                                }
                            }
                            q = q + 1;
                        }
                        assert(rec@ =~= recovered_shard(shards, gs, d as int, m, chunk_size as int));
                        rec
                    }
                }
            }
        };
        assert(missing is None ==> fill@ =~= Seq::<u8>::empty());
        let mut payload: Vec<u8> = Vec::new();
        let mut i: usize = 0;
        while i < d
            invariant
                i <= d,
                slots@ == gs,
                gs.len() == 256,
                shards == available_shards@,
                forall|j: int| 0 <= j < 256 && (#[trigger] gs[j]) is Some ==> gs[j]->0 < shards.len(),
                missing matches Some(mi) ==> mi == m,
                forall|w: int| 0 <= w < d && (missing is None || w != m) ==> (#[trigger] gs[w % 256]) is Some,
                payload@ == concat_with(shards, gs, i as int, if missing is Some { m } else { -1 }, fill@),
            decreases d - i,
        {
            if missing == Some(i) {
                push_all(&mut payload, fill.as_slice());
            } else {
                match slots[i % 256] {
                    Some(pos) => {
                        push_all(&mut payload, available_shards[pos].data.as_slice());
                    }
                    None => {
                        assert(false);
                    }
                }
            }
            i = i + 1;
        }
        if payload.len() > original_len {
            payload.truncate(original_len);
        } else {
            assert(payload@.take(payload@.len() as int) =~= payload@);
        }
        Ok(payload)
    }
}

pub struct ProofOfRetrievability;

/// The bytes hashed for a storage proof.
pub open spec fn storage_proof_preimage(shard_data: Seq<u8>, nonce: u64) -> Seq<u8> {
    tagged("NEX/POR/v1", be_bytes(nonce as nat, 8) + shard_data)
}

impl ProofOfRetrievability {
    /// SHA-256 of the proof domain, the nonce (big-endian) and the shard bytes.
    pub fn prove_storage(shard_data: &[u8], nonce: u64) -> (r: [u8; 32])
        ensures
            r@ == sha256_spec(storage_proof_preimage(shard_data@, nonce)),
    {
        let mut buf: Vec<u8> = Vec::new();
        push_all(&mut buf, "NEX/POR/v1".as_bytes());
        let nb = be_vec(nonce, 8);
        push_all(&mut buf, nb.as_slice());
        push_all(&mut buf, shard_data);
        assert(buf@ =~= storage_proof_preimage(shard_data@, nonce));
        sha256(buf.as_slice())
    }

    /// Whether `proof` is the storage proof of `shard_data` for `nonce`.
    pub fn verify_proof(proof: [u8; 32], shard_data: &[u8], nonce: u64) -> (r: bool)
        ensures
            r == (proof@ == sha256_spec(storage_proof_preimage(shard_data@, nonce))),
    {
        let expected = Self::prove_storage(shard_data, nonce);
        id_eq(&expected, &proof)
    }
}

#[derive(Debug)]
pub struct BilateralCreditLedger {
    pub balances: KeyedMap<String, i64>,
}

/// The ledger key of a peer: its id in lowercase hex, as UTF-8 bytes.
pub open spec fn peer_key(peer: Seq<u8>) -> Seq<u8> {
    vstd::utf8::encode_utf8(hex_lower(peer))
}

impl BilateralCreditLedger {
    pub fn new() -> (r: Self)
        ensures
            r.balances@ == Map::<Seq<u8>, i64>::empty(),
    {
        BilateralCreditLedger { balances: KeyedMap::new() }
    }

    /// A peer's balance, zero when it has none.
    pub open spec fn balance_of(&self, peer: Seq<u8>) -> int {
        if self.balances@.contains_key(peer_key(peer)) { self.balances@[peer_key(peer)] as int } else { 0 }
    }

    /// Adds `delta_bytes` to the peer's balance unless that takes it below
    /// `-max_debt_ceiling`; returns the new balance.
    pub fn record_transfer(&mut self, peer: [u8; 32], delta_bytes: i64, max_debt_ceiling: i64) -> (r: Result<i64, String>)
        requires
            i64::MIN <= old(self).balance_of(peer@) + delta_bytes <= i64::MAX,
            max_debt_ceiling > i64::MIN,
        ensures
            ({
                let nb = old(self).balance_of(peer@) + delta_bytes;
                &&& nb < -max_debt_ceiling ==> (r matches Err(e) && e@ == "Debt ceiling exceeded for peer"@
                    && final(self).balances@ == old(self).balances@)
                &&& nb >= -max_debt_ceiling ==> (r == Ok::<i64, String>(nb as i64)
                    && final(self).balances@ == old(self).balances@.insert(peer_key(peer@), nb as i64))
            }),
    {
        let key = hex_encode(peer.as_slice());
        let current: i64 = match self.balances.get(&key) {
            Some(v) => *v,
            None => 0,
        };
        let new_balance = current + delta_bytes;
        if new_balance < -max_debt_ceiling {
            return Err("Debt ceiling exceeded for peer".to_owned());
        }
        self.balances.insert(key, new_balance);
        Ok(new_balance)
    }

    pub fn get_balance(&self, peer: &[u8; 32]) -> (r: i64)
        ensures
            r == self.balance_of(peer@),
    {
        let key = hex_encode(peer.as_slice());
        match self.balances.get(&key) {
            Some(v) => *v,
            None => 0,
        }
    }
}

#[derive(Debug, Clone, Copy, PartialEq, Eq, Structural)]
pub enum ShardHealthStatus {
    Healthy,
    Degraded,
    Critical,
}

#[derive(Debug)]
pub struct ShardHealthAuditor {
    pub chunk_providers: KeyedMap<[u8; 32], KeyedMap<[u8; 32], ()>>,
}

impl ShardHealthAuditor {
    pub fn new() -> (r: Self)
        ensures
            r.chunk_providers@ == Map::<Seq<u8>, KeyedMap<[u8; 32], ()>>::empty(),
    {
        ShardHealthAuditor { chunk_providers: KeyedMap::new() }
    }

    /// The providers recorded for a chunk.
    pub open spec fn providers_of(&self, chunk: Seq<u8>) -> Set<Seq<u8>> {
        if self.chunk_providers@.contains_key(chunk) { self.chunk_providers@[chunk]@.dom() } else { Set::empty() }
    }

    pub fn register_provider(&mut self, chunk_hash: [u8; 32], provider: [u8; 32])
        ensures
            final(self).chunk_providers@.dom() == old(self).chunk_providers@.dom().insert(chunk_hash@),
            forall|c: Seq<u8>| #[trigger] final(self).providers_of(c)
                == if c == chunk_hash@ { old(self).providers_of(c).insert(provider@) } else { old(self).providers_of(c) },
    {
        let mut set = match self.chunk_providers.remove(&chunk_hash) {
            Some(s) => s,
            None => KeyedMap::new(),
        };
        set.insert(provider, ());
        self.chunk_providers.insert(chunk_hash, set);
        proof {
            assert forall|c: Seq<u8>| #[trigger] self.providers_of(c)
                == if c == chunk_hash@ { old(self).providers_of(c).insert(provider@) } else { old(self).providers_of(c) } by {
                if c == chunk_hash@ {
                    assert(self.providers_of(c) =~= old(self).providers_of(c).insert(provider@));
                }
            }
            assert(self.chunk_providers@.dom() =~= old(self).chunk_providers@.dom().insert(chunk_hash@));
        }
    }

    pub fn unregister_provider(&mut self, chunk_hash: &[u8; 32], provider: &[u8; 32])
        ensures
            final(self).chunk_providers@.dom() == old(self).chunk_providers@.dom(),
            forall|c: Seq<u8>| #[trigger] final(self).providers_of(c)
                == if c == chunk_hash@ { old(self).providers_of(c).remove(provider@) } else { old(self).providers_of(c) },
    {
        match self.chunk_providers.remove(chunk_hash) {
            Some(s) => {
                let mut set = s;
                set.remove(provider);
                self.chunk_providers.insert(*chunk_hash, set);
                proof {
                    assert forall|c: Seq<u8>| #[trigger] self.providers_of(c)
                        == if c == chunk_hash@ { old(self).providers_of(c).remove(provider@) } else { old(self).providers_of(c) } by {
                        if c == chunk_hash@ {
                            assert(self.providers_of(c) =~= old(self).providers_of(c).remove(provider@));
                        }
                    }
                    assert(self.chunk_providers@.dom() =~= old(self).chunk_providers@.dom());
                }
            }
            None => {
                proof {
                    assert forall|c: Seq<u8>| #[trigger] self.providers_of(c)
                        == if c == chunk_hash@ { old(self).providers_of(c).remove(provider@) } else { old(self).providers_of(c) } by {
                        if c == chunk_hash@ {
                            assert(self.providers_of(c) =~= old(self).providers_of(c).remove(provider@));
                        }
                    }
                }
            }
        }
    }

    /// Healthy at `ideal_total` providers or more, degraded at `required_min` or more,
    /// critical below that.
    pub fn audit_health(&self, chunk_hash: &[u8; 32], required_min: usize, ideal_total: usize) -> (r: ShardHealthStatus)
        ensures
            ({
                let count = self.providers_of(chunk_hash@).len();
                r == if count >= ideal_total {
                    ShardHealthStatus::Healthy
                } else if count >= required_min {
                    ShardHealthStatus::Degraded
                } else {
                    ShardHealthStatus::Critical
                }
            }),
    {
        let count: usize = match self.chunk_providers.get(chunk_hash) {
            Some(set) => set.len(),
            None => 0,
        };
        if count >= ideal_total {
            ShardHealthStatus::Healthy
        } else if count >= required_min {
            ShardHealthStatus::Degraded
        } else {
            ShardHealthStatus::Critical
        }
    }
}

} // verus!
