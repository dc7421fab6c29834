//! Reed-Solomon erasure coding over GF(2^8) (primitive polynomial 0x11D) with a
//! Cauchy parity matrix; any `K` of `K + M` shards rebuild the payload.

use vstd::prelude::*;
use vstd::pervasive::VecAdditionalExecFns;
use crate::crypto::{sha256, sha256_spec};
use crate::text::{decimal, decimal_text};
use crate::gf256::lemma_xor;
use crate::apps::gf28::{dotc, dsum, is_left_inverse, unit_row, scale_row, axpy, lemma_dotc_unit, lemma_dotc_scale,
    lemma_dotc_axpy, lemma_dotc_dsum, lemma_dsum_swap_terms, lemma_dsum_congr, lemma_gf28_laws, lemma_gf28_mul_inv,
    gmul28, lemma_gf28_mul_is_gmul28};

verus! {

#[derive(Debug, Clone, PartialEq, Eq)]
pub struct ReedSolomonShard {
    pub chunk_hash: [u8; 32],
    pub shard_index: u8,
    pub data_shards: u8,
    pub parity_shards: u8,
    pub data: Vec<u8>,
}

/// Multiplication of a field element by the generator x, reduced by 0x11D.
pub open spec fn gf_step(x: u16) -> u16 {
    let y = (x << 1u16) as u16;
    if y & 0x100u16 != 0 { (y ^ 0x11Du16) as u16 } else { y }
}

/// The generator's `i`-th power.
pub open spec fn alpha(i: nat) -> u16
    decreases i,
{
    if i == 0 { 1 } else { gf_step(alpha((i - 1) as nat)) }
}

/// Entry `j` of the exponent table: `alpha(j mod 255)`, doubled so sums of logs index it directly.
pub open spec fn exp_entry(j: int) -> u8 {
    if j < 255 {
        alpha(j as nat) as u8
    } else if j < 510 {
        alpha((j - 255) as nat) as u8
    } else if j == 510 {
        alpha(0) as u8
    } else {
        alpha(1) as u8
    }
}

/// Entry `v` of the logarithm table after the first `k` powers were recorded.
pub open spec fn log_after(k: nat, v: int) -> u8
    decreases k,
{
    if k == 0 {
        0
    } else if alpha((k - 1) as nat) == v {
        (k - 1) as u8
    } else {
        log_after((k - 1) as nat, v)
    }
}

/// Entry `v` of the logarithm table.
pub open spec fn log_entry(v: int) -> u8 {
    log_after(255, v)
}

/// Table-driven multiplication.
pub open spec fn gf28_mul(a: u8, b: u8) -> u8 {
    if a == 0 || b == 0 { 0 } else { exp_entry(log_entry(a as int) + log_entry(b as int)) }
}

/// Table-driven division (`b` nonzero).
pub open spec fn gf28_div(a: u8, b: u8) -> u8 {
    if a == 0 { 0 } else { exp_entry(log_entry(a as int) + 255 - log_entry(b as int)) }
}

/// Table-driven inverse (`a` nonzero).
pub open spec fn gf28_inv(a: u8) -> u8 {
    exp_entry(255 - log_entry(a as int))
}

pub proof fn lemma_alpha_byte(i: nat)
    ensures
        alpha(i) < 256,
    decreases i,
{
    if i > 0 {
        lemma_alpha_byte((i - 1) as nat);
        let x = alpha((i - 1) as nat);
        assert(x < 256u16 ==> gf_step(x) < 256u16) by (bit_vector);
    }
}

proof fn lemma_log_bound(k: nat, v: int)
    requires
        k <= 255,
    ensures
        log_after(k, v) <= 254,
    decreases k,
{
    if k > 0 {
        lemma_log_bound((k - 1) as nat, v);
    }
}

pub struct GaloisField28 {
    exp_table: [u8; 512],
    log_table: [u8; 256],
}

impl GaloisField28 {
    #[verifier::type_invariant]
    closed spec fn tables_ok(&self) -> bool {
        &&& forall|j: int| 0 <= j < 512 ==> #[trigger] self.exp_table@[j] == exp_entry(j)
        &&& forall|v: int| 0 <= v < 256 ==> #[trigger] self.log_table@[v] == log_entry(v)
    }

    /// Builds the exponent and logarithm tables. The type's invariant fixes every
    /// entry of both tables, so this is the one value of the type.
    pub fn new() -> (r: Self) {
        let mut exp_table = [0u8; 512];
        let mut log_table = [0u8; 256];
        let mut x: u16 = 1;
        let mut i: usize = 0;
        while i < 255
            invariant
                i <= 255,
                x == alpha(i as nat),
                x < 256,
                forall|j: int| 0 <= j < i ==> #[trigger] exp_table@[j] == exp_entry(j),
                forall|j: int| 255 <= j < 255 + i ==> #[trigger] exp_table@[j] == exp_entry(j),
                forall|v: int| 0 <= v < 256 ==> #[trigger] log_table@[v] == log_after(i as nat, v),
            decreases 255 - i,
        {
            exp_table[i] = x as u8;
            exp_table[i + 255] = x as u8;
            log_table[x as usize] = i as u8;
            proof {
                lemma_alpha_byte(i as nat + 1);
            }
            let ghost old_x = x;
            x = x << 1;
            if (x & 0x100) != 0 {
                x = x ^ 0x11D;
            }
            assert(x == gf_step(old_x));
            i = i + 1;
        }
        let e0 = exp_table[0];
        let e1 = exp_table[1];
        assert(e0 == exp_entry(0) && e1 == exp_entry(1));
        exp_table[510] = e0;
        exp_table[511] = e1;
        assert forall|j: int| 0 <= j < 512 implies #[trigger] exp_table@[j] == exp_entry(j) by {
            if j < 255 {
            } else if j < 510 {
            } else if j == 510 {
                assert(exp_entry(510) == exp_entry(0));
            } else {
                assert(exp_entry(511) == exp_entry(1));
            }
        }
        assert forall|v: int| 0 <= v < 256 implies #[trigger] log_table@[v] == log_entry(v) by {}
        Self { exp_table, log_table }
    }

    pub fn add(&self, a: u8, b: u8) -> (r: u8)
        ensures
            r == a ^ b,
    {
        a ^ b
    }

    /// The product in GF(2^8) with the polynomial 0x11D, read from the tables.
    pub fn mul(&self, a: u8, b: u8) -> (r: u8)
        ensures
            r == gf28_mul(a, b),
            r == gmul28(a, b),
    {
        proof {
            lemma_gf28_mul_is_gmul28(a, b);
            use_type_invariant(self);
            lemma_log_bound(255, a as int);
            lemma_log_bound(255, b as int);
        }
        if a == 0 || b == 0 {
            0
        } else {
            let log_a = self.log_table[a as usize] as usize;
            let log_b = self.log_table[b as usize] as usize;
            self.exp_table[log_a + log_b]
        }
    }

    pub fn div(&self, a: u8, b: u8) -> (r: u8)
        requires
            b != 0,
        ensures
            r == gf28_div(a, b),
    {
        proof {
            use_type_invariant(self);
            lemma_log_bound(255, a as int);
            lemma_log_bound(255, b as int);
        }
        if a == 0 {
            0
        } else {
            let log_a = self.log_table[a as usize] as usize;
            let log_b = self.log_table[b as usize] as usize;
            self.exp_table[log_a + 255 - log_b]
        }
    }

    pub fn inv(&self, a: u8) -> (r: u8)
        requires
            a != 0,
        ensures
            r == gf28_inv(a),
    {
        proof {
            use_type_invariant(self);
            lemma_log_bound(255, a as int);
        }
        let log_a = self.log_table[a as usize] as usize;
        self.exp_table[255 - log_a]
    }
}

pub struct ReedSolomonEngine {
    gf: GaloisField28,
}

/// The Cauchy entry for parity row `r` and data column `c` of a `rows x cols` matrix.
pub open spec fn cauchy_entry(r: int, c: int, cols: int) -> u8 {
    gf28_inv((((r + 1) % 256) as u8) ^ (((cols + c + 1) % 256) as u8))
}

/// The row and column points of a Cauchy matrix never coincide.
pub open spec fn cauchy_points_distinct(rows: int, cols: int) -> bool {
    forall|r: int, c: int| 0 <= r < rows && 0 <= c < cols ==> #[trigger] points_differ(r, c, cols)
}

/// Row point `r + 1` and column point `cols + c + 1`, as bytes, differ.
pub open spec fn points_differ(r: int, c: int, cols: int) -> bool {
    (r + 1) % 256 != (cols + c + 1) % 256
}

/// The contents of data slots `0..n` laid end to end (slot `i` is looked up under the
/// byte `i mod 256`, as shard indices are bytes).
pub open spec fn concat_slots(shards: Seq<ReedSolomonShard>, slots: Seq<Option<usize>>, n: int) -> Seq<u8>
    decreases n,
{
    if n <= 0 {
        Seq::empty()
    } else {
        concat_slots(shards, slots, n - 1) + shards[slots[(n - 1) % 256]->0 as int].data@
    }
}

/// Every data slot `0..d` (as a byte index) holds a shard.
pub open spec fn all_data_present(slots: Seq<Option<usize>>, d: int) -> bool {
    forall|i: int| 0 <= i < d ==> #[trigger] slots[i % 256] is Some
}

/// For each byte index, the position of the shard filed under it among the first `k`,
/// the last one with that index winning.
pub open spec fn slots_after(shards: Seq<ReedSolomonShard>, k: int) -> Seq<Option<usize>>
    decreases k,
{
    if k <= 0 {
        Seq::new(256, |i: int| None)
    } else {
        slots_after(shards, k - 1).update(shards[k - 1].shard_index as int, Some((k - 1) as usize))
    }
}

/// Indices of the present slots among the first `n`, in ascending order.
pub open spec fn present_indices(slots: Seq<Option<usize>>, n: int) -> Seq<int>
    decreases n,
{
    if n <= 0 {
        Seq::empty()
    } else if slots[n - 1] is Some {
        present_indices(slots, n - 1).push(n - 1)
    } else {
        present_indices(slots, n - 1)
    }
}

/// What the decoding path needs of the shards it selects: the Cauchy points differ,
/// and each of the first `d` present shards names a row of the `d + p` code and
/// carries at least `chunk` bytes.
pub open spec fn decodable_selection(shards: Seq<ReedSolomonShard>, slots: Seq<Option<usize>>, d: int, p: int, chunk: int) -> bool {
    let sel = present_indices(slots, 256);
    &&& cauchy_points_distinct(p, d)
    &&& d + d + 1 <= usize::MAX
    &&& forall|q: int| 0 <= q < d && q < sel.len() ==>
        #[trigger] sel[q] < d + p && shards[slots[sel[q]]->0 as int].data@.len() >= chunk
}

proof fn lemma_present_indices_prefix(slots: Seq<Option<usize>>, n: int, m: int)
    requires
        0 <= n <= m,
    ensures
        present_indices(slots, n).len() <= present_indices(slots, m).len(),
        forall|q: int| 0 <= q < present_indices(slots, n).len() ==>
            #[trigger] present_indices(slots, m)[q] == present_indices(slots, n)[q],
    decreases m - n,
{
    if n < m {
        lemma_present_indices_prefix(slots, n, m - 1);
    }
}

proof fn lemma_slot_positions(shards: Seq<ReedSolomonShard>, k: int)
    requires
        0 <= k <= shards.len(),
    ensures
        slots_after(shards, k).len() == 256,
        forall|j: int| 0 <= j < 256 && (#[trigger] slots_after(shards, k)[j]) is Some ==> slots_after(shards, k)[j]->0 < k,
    decreases k,
{
    if k > 0 {
        lemma_slot_positions(shards, k - 1);
    }
}

proof fn lemma_present_indices_len(slots: Seq<Option<usize>>, n: int)
    requires
        0 <= n,
    ensures
        present_indices(slots, n).len() <= n,
    decreases n,
{
    if n > 0 {
        lemma_present_indices_len(slots, n - 1);
    }
}

/// Data shard `i` of a payload cut into `chunk`-byte pieces, zero-padded at the end.
pub open spec fn data_chunk(payload: Seq<u8>, i: int, chunk: int) -> Seq<u8> {
    Seq::new(chunk as nat, |b: int| if i * chunk + b < payload.len() { payload[i * chunk + b] } else { 0u8 })
}

/// Byte `b` of parity row `p`: the GF(2^8) sum over the first `k` data shards of
/// Cauchy coefficient times data byte.
pub open spec fn parity_byte(payload: Seq<u8>, chunk: int, p: int, cols: int, b: int, k: int) -> u8
    decreases k,
{
    if k <= 0 {
        0
    } else {
        parity_byte(payload, chunk, p, cols, b, k - 1) ^ gf28_mul(cauchy_entry(p, k - 1, cols), data_chunk(payload, k - 1, chunk)[b])
    }
}

/// Parity shard `p` of a `cols`-data-shard encoding.
pub open spec fn parity_chunk(payload: Seq<u8>, chunk: int, p: int, cols: int) -> Seq<u8> {
    Seq::new(chunk as nat, |b: int| parity_byte(payload, chunk, p, cols, b, cols))
}

/// The shard size for a payload of `len` bytes over `d` data shards.
pub open spec fn chunk_size_for(len: int, d: int) -> int {
    (len + d - 1) / d
}

/// What `encode` hands back for `payload` over `d` data and `p` parity shards.
pub open spec fn encoded_shards(r: Seq<ReedSolomonShard>, payload: Seq<u8>, d: int, p: int) -> bool {
    let chunk = chunk_size_for(payload.len() as int, d);
    &&& r.len() == d + p
    &&& forall|i: int| 0 <= i < r.len() ==> {
        &&& (#[trigger] r[i]).chunk_hash@ == sha256_spec(payload)
        &&& r[i].shard_index == (i % 256) as u8
        &&& r[i].data_shards == (d % 256) as u8
        &&& r[i].parity_shards == (p % 256) as u8
        &&& i < d ==> r[i].data@ == data_chunk(payload, i, chunk)
        &&& i >= d ==> r[i].data@ == parity_chunk(payload, chunk, i - d, d)
    }
}

/// The payload the all-data-shards path returns: the data slots laid end to end,
/// cut to `len` bytes.
pub open spec fn fast_path_payload(shards: Seq<ReedSolomonShard>, d: int, len: int) -> Seq<u8> {
    let whole = concat_slots(shards, slots_after(shards, shards.len() as int), d);
    whole.take(if whole.len() < len { whole.len() as int } else { len })
}

/// The data chunks `0..n` laid end to end.
pub open spec fn concat_chunks(payload: Seq<u8>, n: int, chunk: int) -> Seq<u8>
    decreases n,
{
    if n <= 0 { Seq::empty() } else { concat_chunks(payload, n - 1, chunk) + data_chunk(payload, n - 1, chunk) }
}

/// Data chunks laid end to end are the payload followed by zero padding.
pub proof fn lemma_concat_chunks(payload: Seq<u8>, n: int, chunk: int)
    requires
        n >= 0,
        chunk >= 0,
    ensures
        concat_chunks(payload, n, chunk).len() == n * chunk,
        forall|x: int| 0 <= x < n * chunk ==> #[trigger] concat_chunks(payload, n, chunk)[x]
            == if x < payload.len() { payload[x] } else { 0u8 },
    decreases n,
{
    if n > 0 {
        lemma_concat_chunks(payload, n - 1, chunk);
        assert((n - 1) * chunk + chunk == n * chunk) by (nonlinear_arith);
        let prev = concat_chunks(payload, n - 1, chunk);
        assert forall|x: int| 0 <= x < n * chunk implies #[trigger] concat_chunks(payload, n, chunk)[x]
            == if x < payload.len() { payload[x] } else { 0u8 } by {
            if x >= (n - 1) * chunk {
                assert(data_chunk(payload, n - 1, chunk)[x - (n - 1) * chunk]
                    == if (n - 1) * chunk + (x - (n - 1) * chunk) < payload.len() { payload[(n - 1) * chunk + (x - (n - 1) * chunk)] } else { 0u8 });
            }
        }
    }
}

proof fn lemma_encoded_slots(r: Seq<ReedSolomonShard>, payload: Seq<u8>, d: int, p: int, k: int)
    requires
        encoded_shards(r, payload, d, p),
        d > 0,
        p >= 0,
        d + p <= 256,
        0 <= k <= d + p,
    ensures
        slots_after(r, k).len() == 256,
        forall|j: int| 0 <= j < 256 ==> #[trigger] slots_after(r, k)[j] == if j < k { Some(j as usize) } else { None::<usize> },
    decreases k,
{
    if k > 0 {
        lemma_encoded_slots(r, payload, d, p, k - 1);
        assert(r[k - 1].shard_index == ((k - 1) % 256) as u8);
    }
}

/// Decoding the shards that `encode` produced, with every shard at hand, gives the
/// payload back: all data shards are present and laid end to end they are the
/// payload followed by padding.
pub proof fn lemma_decode_of_encoded(r: Seq<ReedSolomonShard>, payload: Seq<u8>, d: int, p: int)
    requires
        encoded_shards(r, payload, d, p),
        d > 0,
        p >= 0,
        d + p <= 256,
    ensures
        all_data_present(slots_after(r, r.len() as int), d),
        fast_path_payload(r, d, payload.len() as int) == payload,
{
    let chunk = chunk_size_for(payload.len() as int, d);
    let slots = slots_after(r, r.len() as int);
    lemma_encoded_slots(r, payload, d, p, r.len() as int);
    assert forall|i: int| 0 <= i < d implies #[trigger] slots[i % 256] is Some by {}
    assert forall|n: int| 0 <= n <= d implies #[trigger] concat_slots(r, slots, n) == concat_chunks(payload, n, chunk) by {
        lemma_concat_slots_chunks(r, payload, d, p, n);
    }
    let o = payload.len() as int;
    assert(chunk >= 0) by (nonlinear_arith)
        requires
            d > 0,
            o >= 0,
            chunk == (o + d - 1) / d,
    ;
    assert(d * chunk >= o) by (nonlinear_arith)
        requires
            d > 0,
            o >= 0,
            chunk == (o + d - 1) / d,
    ;
    lemma_concat_chunks(payload, d, chunk);
    let whole = concat_slots(r, slots, d);
    assert(whole == concat_chunks(payload, d, chunk));
    assert(whole.take(o) =~= payload);
}

proof fn lemma_concat_slots_chunks(r: Seq<ReedSolomonShard>, payload: Seq<u8>, d: int, p: int, n: int)
    requires
        encoded_shards(r, payload, d, p),
        d > 0,
        p >= 0,
        d + p <= 256,
        0 <= n <= d,
    ensures
        concat_slots(r, slots_after(r, r.len() as int), n) == concat_chunks(payload, n, chunk_size_for(payload.len() as int, d)),
    decreases n,
{
    if n > 0 {
        lemma_concat_slots_chunks(r, payload, d, p, n - 1);
        lemma_encoded_slots(r, payload, d, p, r.len() as int);
        assert(slots_after(r, r.len() as int)[(n - 1) % 256] == Some((n - 1) as usize));
    }
}

/// The rows of a matrix as sequences.
pub open spec fn rows_view(m: Seq<Vec<u8>>) -> Seq<Seq<u8>> {
    m.map_values(|row: Vec<u8>| row@)
}


/// The `k`-th present slot index, if there are more than `k`.
pub open spec fn selected(slots: Seq<Option<usize>>, k: int) -> Option<int> {
    let sel = present_indices(slots, 256);
    if 0 <= k < sel.len() { Some(sel[k]) } else { None }
}

/// Parity row `p` of the Cauchy matrix over `d` data shards.
pub open spec fn cauchy_row(p: int, d: int) -> Seq<u8> {
    Seq::new(d as nat, |c: int| cauchy_entry(p, c, d))
}

/// The coding row of shard `idx`: a row of the identity for a data shard, a Cauchy
/// row for a parity shard.
pub open spec fn code_row(idx: int, d: int) -> Seq<u8> {
    if idx < d { unit_row(idx, d) } else { cauchy_row(idx - d, d) }
}

/// The square matrix the decoding path inverts: the coding rows of the first `d`
/// present shards, zero rows for any missing.
pub open spec fn decode_matrix(slots: Seq<Option<usize>>, d: int) -> Seq<Seq<u8>> {
    Seq::new(d as nat, |k: int| match selected(slots, k) {
        Some(idx) => code_row(idx, d),
        None => Seq::new(d as nat, |c: int| 0u8),
    })
}

/// The shard contents matching the rows of `decode_matrix`, zero rows for any missing.
pub open spec fn decode_data(shards: Seq<ReedSolomonShard>, slots: Seq<Option<usize>>, d: int, chunk: int) -> Seq<Seq<u8>> {
    Seq::new(d as nat, |k: int| match selected(slots, k) {
        Some(idx) => shards[slots[idx]->0 as int].data@,
        None => Seq::new(chunk as nat, |b: int| 0u8),
    })
}

/// Rows `0..n` of `inv` times the `chunk`-byte rows of `data`, laid end to end.
pub open spec fn product_rows(inv: Seq<Seq<u8>>, data: Seq<Seq<u8>>, d: int, chunk: int, n: int) -> Seq<u8>
    decreases n,
{
    if n <= 0 {
        Seq::empty()
    } else {
        product_rows(inv, data, d, chunk, n - 1) + Seq::new(chunk as nat, |b: int| dotc(inv[n - 1], data, b, d))
    }
}

/// What the general path returns for a left inverse `inv` of `decode_matrix`.
pub open spec fn general_path_payload(inv: Seq<Seq<u8>>, shards: Seq<ReedSolomonShard>, d: int, len: int) -> Seq<u8> {
    let chunk = chunk_size_for(len, d);
    let slots = slots_after(shards, shards.len() as int);
    product_rows(inv, decode_data(shards, slots, d, chunk), d, chunk, d).take(len)
}

/// The content shard `idx` of an encoding of `payload` carries.
pub open spec fn encoded_chunk(payload: Seq<u8>, idx: int, d: int) -> Seq<u8> {
    let chunk = chunk_size_for(payload.len() as int, d);
    if idx < d { data_chunk(payload, idx, chunk) } else { parity_chunk(payload, chunk, idx - d, d) }
}

/// Every shard is one `encode` made of `payload` over `d` data and `p` parity
/// shards: a valid index, with that index's content.
pub open spec fn shards_of(shards: Seq<ReedSolomonShard>, payload: Seq<u8>, d: int, p: int) -> bool {
    forall|i: int| 0 <= i < shards.len() ==> {
        &&& (#[trigger] shards[i]).shard_index < d + p
        &&& shards[i].data@ == encoded_chunk(payload, shards[i].shard_index as int, d)
    }
}

/// The shard filed under each slot carries that slot's index.
proof fn lemma_slot_index(shards: Seq<ReedSolomonShard>, k: int)
    requires
        0 <= k <= shards.len(),
        shards.len() <= usize::MAX,
    ensures
        forall|j: int| 0 <= j < 256 && (#[trigger] slots_after(shards, k)[j]) is Some ==>
            shards[slots_after(shards, k)[j]->0 as int].shard_index == j,
    decreases k,
{
    lemma_slot_positions(shards, k);
    if k > 0 {
        lemma_slot_index(shards, k - 1);
        lemma_slot_positions(shards, k - 1);
        let idx = shards[k - 1].shard_index as int;
        assert forall|j: int| 0 <= j < 256 && (#[trigger] slots_after(shards, k)[j]) is Some implies
            shards[slots_after(shards, k)[j]->0 as int].shard_index == j by {
            if j != idx {
                assert(slots_after(shards, k)[j] == slots_after(shards, k - 1)[j]);
            }
        }
    }
}

/// The data chunks of a payload as a `d x chunk` matrix.
pub open spec fn chunk_matrix(payload: Seq<u8>, d: int, chunk: int) -> Seq<Seq<u8>> {
    Seq::new(d as nat, |c: int| data_chunk(payload, c, chunk))
}

/// A parity byte is the Cauchy row times the data chunks' column.
proof fn lemma_parity_is_dotc(payload: Seq<u8>, chunk: int, p: int, d: int, b: int, k: int)
    requires
        0 <= k <= d,
    ensures
        parity_byte(payload, chunk, p, d, b, k) == dotc(cauchy_row(p, d), chunk_matrix(payload, d, chunk), b, k),
    decreases k,
{
    if k > 0 {
        lemma_parity_is_dotc(payload, chunk, p, d, b, k - 1);
    }
}

/// A zero row times anything is zero.
proof fn lemma_dotc_zero_row(n: int, a: Seq<Seq<u8>>, c: int, k: int)
    requires
        0 <= k <= n,
    ensures
        dotc(Seq::new(n as nat, |q: int| 0u8), a, c, k) == 0,
    decreases k,
{
    if k > 0 {
        lemma_dotc_zero_row(n, a, c, k - 1);
        lemma_gf28_laws(a[k - 1][c], 0, 0);
        lemma_xor(0, 0, 0, 0);
    }
}

/// Row times (matrix times matrix) is (row times matrix) times matrix.
proof fn lemma_dotc_assoc(row: Seq<u8>, a: Seq<Seq<u8>>, m: Seq<Seq<u8>>, b: int, kk: int, cc: int, w: int)
    requires
        0 <= kk <= row.len(),
        kk <= a.len(),
        0 <= b < w,
        0 <= cc,
        forall|k: int| 0 <= k < a.len() ==> (#[trigger] a[k]).len() == cc,
    ensures
        dotc(row, Seq::new(a.len(), |k: int| Seq::new(w as nat, |x: int| dotc(a[k], m, x, cc))), b, kk)
            == dotc(Seq::new(cc as nat, |c: int| dotc(row, a, c, kk)), m, b, cc),
    decreases kk,
{
    let am = Seq::new(a.len(), |k: int| Seq::new(w as nat, |x: int| dotc(a[k], m, x, cc)));
    let ra = |n: int| Seq::new(cc as nat, |c: int| dotc(row, a, c, n));
    if kk == 0 {
        assert(ra(0) =~= Seq::new(cc as nat, |q: int| 0u8));
        lemma_dotc_zero_row(cc, m, b, cc);
    } else {
        lemma_dotc_assoc(row, a, m, b, kk - 1, cc, w);
        assert(ra(kk) =~= axpy(ra(kk - 1), row[kk - 1], a[kk - 1]));
        lemma_dotc_axpy(ra(kk - 1), row[kk - 1], a[kk - 1], m, b, cc);
        assert(am[kk - 1][b] == dotc(a[kk - 1], m, b, cc));
    }
}

/// Present indices are present slots, in range.
proof fn lemma_present_indices_some(slots: Seq<Option<usize>>, n: int)
    requires
        0 <= n <= slots.len(),
    ensures
        forall|q: int| 0 <= q < present_indices(slots, n).len() ==>
            0 <= #[trigger] present_indices(slots, n)[q] < n && slots[present_indices(slots, n)[q]] is Some,
    decreases n,
{
    if n > 0 {
        lemma_present_indices_some(slots, n - 1);
    }
}

/// A row's product with a column reads only that column's first `k` entries.
proof fn lemma_dotc_congr(row: Seq<u8>, a1: Seq<Seq<u8>>, a2: Seq<Seq<u8>>, c: int, k: int)
    requires
        forall|q: int| 0 <= q < k ==> #[trigger] a1[q][c] == a2[q][c],
    ensures
        dotc(row, a1, c, k) == dotc(row, a2, c, k),
    decreases k,
{
    if k > 0 {
        lemma_dotc_congr(row, a1, a2, c, k - 1);
    }
}

/// For shards of an encoding, each selected shard's content is its coding row
/// times the data chunks.
proof fn lemma_decode_data_product(shards: Seq<ReedSolomonShard>, payload: Seq<u8>, d: int, p: int, k: int, b: int)
    requires
        shards_of(shards, payload, d, p),
        shards.len() <= usize::MAX,
        d > 0,
        0 <= k < d,
        0 <= b < chunk_size_for(payload.len() as int, d),
    ensures
        ({
            let chunk = chunk_size_for(payload.len() as int, d);
            let slots = slots_after(shards, shards.len() as int);
            decode_data(shards, slots, d, chunk)[k][b]
                == dotc(decode_matrix(slots, d)[k], chunk_matrix(payload, d, chunk), b, d)
        }),
{
    let chunk = chunk_size_for(payload.len() as int, d);
    let slots = slots_after(shards, shards.len() as int);
    let cm = chunk_matrix(payload, d, chunk);
    lemma_slot_positions(shards, shards.len() as int);
    lemma_slot_index(shards, shards.len() as int);
    lemma_present_indices_some(slots, 256);
    match selected(slots, k) {
        Some(idx) => {
            let pos = slots[idx]->0 as int;
            assert(shards[pos].shard_index == idx);
            assert(shards[pos].data@ == encoded_chunk(payload, idx, d));
            if idx < d {
                lemma_dotc_unit(idx, d, cm, b, d);
            } else {
                lemma_parity_is_dotc(payload, chunk, idx - d, d, b, d);
            }
        }
        None => {
            lemma_dotc_zero_row(d, cm, b, d);
            assert(decode_matrix(slots, d)[k] =~= Seq::new(d as nat, |q: int| 0u8));
        }
    }
}

/// The general path's rows for a left inverse are the data chunks.
proof fn lemma_product_rows_chunks(inv: Seq<Seq<u8>>, shards: Seq<ReedSolomonShard>, payload: Seq<u8>, d: int, p: int, n: int)
    requires
        shards_of(shards, payload, d, p),
        shards.len() <= usize::MAX,
        d > 0,
        0 <= n <= d,
        inv.len() == d,
        forall|r: int| 0 <= r < d ==> (#[trigger] inv[r]).len() == d,
        is_left_inverse(inv, decode_matrix(slots_after(shards, shards.len() as int), d), d),
    ensures
        ({
            let chunk = chunk_size_for(payload.len() as int, d);
            let slots = slots_after(shards, shards.len() as int);
            product_rows(inv, decode_data(shards, slots, d, chunk), d, chunk, n) == concat_chunks(payload, n, chunk)
        }),
    decreases n,
{
    let chunk = chunk_size_for(payload.len() as int, d);
    let slots = slots_after(shards, shards.len() as int);
    let a = decode_matrix(slots, d);
    let dd = decode_data(shards, slots, d, chunk);
    let cm = chunk_matrix(payload, d, chunk);
    if n > 0 {
        lemma_product_rows_chunks(inv, shards, payload, d, p, n - 1);
        let r = n - 1;
        let am = Seq::new(a.len(), |k: int| Seq::new(chunk as nat, |x: int| dotc(a[k], cm, x, d)));
        assert forall|b: int| 0 <= b < chunk implies #[trigger] dotc(inv[r], dd, b, d) == data_chunk(payload, r, chunk)[b] by {
            assert forall|q: int| 0 <= q < d implies #[trigger] dd[q][b] == am[q][b] by {
                lemma_decode_data_product(shards, payload, d, p, q, b);
            }
            lemma_dotc_congr(inv[r], dd, am, b, d);
            assert forall|k: int| 0 <= k < a.len() implies (#[trigger] a[k]).len() == d by {
                match selected(slots, k) {
                    Some(idx) => {
                        if idx >= d {
                            assert(cauchy_row(idx - d, d).len() == d);
                        }
                    }
                    None => {}
                }
            }
            lemma_dotc_assoc(inv[r], a, cm, b, d, d, chunk);
            assert(Seq::new(d as nat, |c: int| dotc(inv[r], a, c, d)) =~= unit_row(r, d));
            lemma_dotc_unit(r, d, cm, b, d);
        }
        assert(Seq::new(chunk as nat, |b: int| dotc(inv[r], dd, b, d)) =~= data_chunk(payload, r, chunk));
    }
}

/// Decoding any shards of an encoding along the general path, with any left inverse
/// of the matrix it builds, gives back the payload.
pub proof fn lemma_general_path_recovers(inv: Seq<Seq<u8>>, shards: Seq<ReedSolomonShard>, payload: Seq<u8>, d: int, p: int)
    requires
        shards_of(shards, payload, d, p),
        shards.len() <= usize::MAX,
        d > 0,
        inv.len() == d,
        forall|r: int| 0 <= r < d ==> (#[trigger] inv[r]).len() == d,
        is_left_inverse(inv, decode_matrix(slots_after(shards, shards.len() as int), d), d),
    ensures
        general_path_payload(inv, shards, d, payload.len() as int) == payload,
{
    let chunk = chunk_size_for(payload.len() as int, d);
    let o = payload.len() as int;
    lemma_product_rows_chunks(inv, shards, payload, d, p, d);
    assert(chunk >= 0) by (nonlinear_arith)
        requires
            d > 0,
            o >= 0,
            chunk == (o + d - 1) / d,
    ;
    assert(d * chunk >= o) by (nonlinear_arith)
        requires
            d > 0,
            o >= 0,
            chunk == (o + d - 1) / d,
    ;
    lemma_concat_chunks(payload, d, chunk);
    assert(concat_chunks(payload, d, chunk).take(o) =~= payload);
}

/// Decoding shards of an encoding that include every data shard along the fast path
/// gives back the payload.
pub proof fn lemma_fast_path_recovers(shards: Seq<ReedSolomonShard>, payload: Seq<u8>, d: int, p: int)
    requires
        shards_of(shards, payload, d, p),
        shards.len() <= usize::MAX,
        d > 0,
        d <= 256,
        all_data_present(slots_after(shards, shards.len() as int), d),
    ensures
        fast_path_payload(shards, d, payload.len() as int) == payload,
{
    let chunk = chunk_size_for(payload.len() as int, d);
    let slots = slots_after(shards, shards.len() as int);
    let o = payload.len() as int;
    lemma_slot_positions(shards, shards.len() as int);
    lemma_slot_index(shards, shards.len() as int);
    assert forall|n: int| 0 <= n <= d implies #[trigger] concat_slots(shards, slots, n) == concat_chunks(payload, n, chunk) by {
        lemma_concat_slots_any(shards, payload, d, p, n);
    }
    assert(chunk >= 0) by (nonlinear_arith)
        requires
            d > 0,
            o >= 0,
            chunk == (o + d - 1) / d,
    ;
    assert(d * chunk >= o) by (nonlinear_arith)
        requires
            d > 0,
            o >= 0,
            chunk == (o + d - 1) / d,
    ;
    lemma_concat_chunks(payload, d, chunk);
    let whole = concat_slots(shards, slots, d);
    assert(whole.take(o) =~= payload);
}

proof fn lemma_concat_slots_any(shards: Seq<ReedSolomonShard>, payload: Seq<u8>, d: int, p: int, n: int)
    requires
        shards_of(shards, payload, d, p),
        shards.len() <= usize::MAX,
        d > 0,
        d <= 256,
        0 <= n <= d,
        all_data_present(slots_after(shards, shards.len() as int), d),
    ensures
        concat_slots(shards, slots_after(shards, shards.len() as int), n) == concat_chunks(payload, n, chunk_size_for(payload.len() as int, d)),
    decreases n,
{
    if n > 0 {
        lemma_concat_slots_any(shards, payload, d, p, n - 1);
        let slots = slots_after(shards, shards.len() as int);
        lemma_slot_positions(shards, shards.len() as int);
        lemma_slot_index(shards, shards.len() as int);
        assert(slots[(n - 1) % 256] is Some);
        assert((n - 1) % 256 == n - 1);
        let pos = slots[n - 1]->0 as int;
        assert(shards[pos].shard_index == n - 1);
    }
}

/// The rows of `inv` times the columns of `a`, an `n x n` matrix.
pub open spec fn mat_prod(inv: Seq<Seq<u8>>, a: Seq<Seq<u8>>, n: int) -> Seq<Seq<u8>> {
    Seq::new(inv.len(), |r: int| Seq::new(n as nat, |c: int| dotc(inv[r], a, c, n)))
}

/// Whether `a` is an `n x n` matrix.
pub open spec fn square(a: Seq<Seq<u8>>, n: int) -> bool {
    a.len() == n && forall|r: int| 0 <= r < n ==> (#[trigger] a[r]).len() == n
}

/// Swapping two positions in a row and the same two rows of a matrix keeps their product.
proof fn lemma_dotc_swap(row: Seq<u8>, a: Seq<Seq<u8>>, c: int, n: int, i: int, p: int)
    requires
        0 <= i < n,
        0 <= p < n,
        i != p,
        row.len() == n,
        a.len() == n,
    ensures
        dotc(row.update(i, row[p]).update(p, row[i]), a.update(i, a[p]).update(p, a[i]), c, n) == dotc(row, a, c, n),
{
    let row2 = row.update(i, row[p]).update(p, row[i]);
    let a2 = a.update(i, a[p]).update(p, a[i]);
    let t1 = |q: int| gf28_mul(row2[q], a2[q][c]);
    let t2 = |q: int| gf28_mul(row[q], a[q][c]);
    lemma_dotc_dsum(row2, a2, c, n);
    lemma_dotc_dsum(row, a, c, n);
    assert forall|q: int| 0 <= q < n && q != i && q != p implies #[trigger] t1(q) == t2(q) by {}
    lemma_xor(t2(p), t2(i), 0, 0);
    lemma_dsum_swap_terms(t1, t2, n, i, p);
}

/// Scaling position `i` of a row by `v` and row `i` of a matrix by `s`, with
/// `v * s == 1`, keeps their product.
proof fn lemma_dotc_rescale(row: Seq<u8>, a: Seq<Seq<u8>>, c: int, n: int, i: int, v: u8, s: u8)
    requires
        0 <= i < n,
        row.len() == n,
        a.len() == n,
        0 <= c < a[i].len(),
        gf28_mul(v, s) == 1,
    ensures
        dotc(row.update(i, gf28_mul(row[i], v)), a.update(i, scale_row(a[i], s)), c, n) == dotc(row, a, c, n),
{
    let row2 = row.update(i, gf28_mul(row[i], v));
    let a2 = a.update(i, scale_row(a[i], s));
    let t1 = |q: int| gf28_mul(row2[q], a2[q][c]);
    let t2 = |q: int| gf28_mul(row[q], a[q][c]);
    lemma_dotc_dsum(row2, a2, c, n);
    lemma_dotc_dsum(row, a, c, n);
    assert(t1(i) == t2(i)) by {
        let x = row[i];
        let y = a[i][c];
        lemma_gf28_laws(x, v, gf28_mul(y, s));
        lemma_gf28_laws(v, y, s);
        lemma_gf28_laws(y, v, s);
        lemma_gf28_laws(v, y, 0);
        lemma_gf28_laws(x, y, gf28_mul(v, s));
        lemma_gf28_laws(y, 1, 0);
    }
    assert forall|q: int| 0 <= q < n implies #[trigger] t1(q) == t2(q) by {}
    lemma_dsum_congr(t1, t2, n);
}

/// Adding `f` times row `i` of a matrix to its row `r0`, and `f` times position `r0`
/// of a row to its position `i`, keeps their product.
proof fn lemma_dotc_shear(row: Seq<u8>, a: Seq<Seq<u8>>, c: int, n: int, i: int, r0: int, f: u8)
    requires
        0 <= i < n,
        0 <= r0 < n,
        i != r0,
        row.len() == n,
        a.len() == n,
        a[r0].len() == a[i].len(),
        0 <= c < a[i].len(),
    ensures
        dotc(row.update(i, row[i] ^ gf28_mul(f, row[r0])), a.update(r0, axpy(a[r0], f, a[i])), c, n) == dotc(row, a, c, n),
{
    let row2 = row.update(i, row[i] ^ gf28_mul(f, row[r0]));
    let a2 = a.update(r0, axpy(a[r0], f, a[i]));
    let t1 = |q: int| gf28_mul(row2[q], a2[q][c]);
    let t2 = |q: int| gf28_mul(row[q], a[q][c]);
    lemma_dotc_dsum(row2, a2, c, n);
    lemma_dotc_dsum(row, a, c, n);
    let x = row[i];
    let y = row[r0];
    let ni = a[i][c];
    let nr = a[r0][c];
    assert forall|q: int| 0 <= q < n && q != i && q != r0 implies #[trigger] t1(q) == t2(q) by {}
    assert(t1(i) ^ t1(r0) == t2(i) ^ t2(r0)) by {
        lemma_gf28_laws(x, gf28_mul(f, y), ni);
        lemma_gf28_laws(y, nr, gf28_mul(f, ni));
        lemma_gf28_laws(f, y, ni);
        lemma_gf28_laws(y, f, ni);
        lemma_gf28_laws(f, y, 0);
        let w = gf28_mul(gf28_mul(f, y), ni);
        assert(gf28_mul(y, gf28_mul(f, ni)) == w);
        lemma_xor(gf28_mul(x, ni), w, gf28_mul(y, nr), w);
        lemma_xor(w, 0, 0, 0);
        lemma_xor(gf28_mul(x, ni) ^ gf28_mul(y, nr), 0, 0, 0);
    }
    lemma_dsum_swap_terms(t1, t2, n, i, r0);
}

/// A column that is column `c` of the identity picks out entry `c` of a row.
proof fn lemma_dotc_unit_column(row: Seq<u8>, m: Seq<Seq<u8>>, c: int, k: int)
    requires
        forall|q: int| 0 <= q < k ==> #[trigger] m[q][c] == if q == c { 1u8 } else { 0u8 },
    ensures
        dotc(row, m, c, k) == if 0 <= c < k { row[c] } else { 0u8 },
    decreases k,
{
    if k > 0 {
        lemma_dotc_unit_column(row, m, c, k - 1);
        lemma_gf28_laws(row[k - 1], 0, 0);
        lemma_xor(row[c], 0, 0, 0);
        lemma_xor(0, 0, 0, 0);
    }
}

/// A product whose every term has a zero factor is zero.
proof fn lemma_dotc_zero_terms(row: Seq<u8>, m: Seq<Seq<u8>>, c: int, k: int)
    requires
        forall|q: int| 0 <= q < k ==> #[trigger] row[q] == 0 || m[q][c] == 0,
    ensures
        dotc(row, m, c, k) == 0,
    decreases k,
{
    if k > 0 {
        lemma_dotc_zero_terms(row, m, c, k - 1);
        lemma_gf28_laws(row[k - 1], m[k - 1][c], 0);
        lemma_gf28_laws(m[k - 1][c], 0, 0);
        lemma_xor(0, 0, 0, 0);
    }
}

/// Elimination that finds no pivot in column `i` shows the matrix has no left
/// inverse: with `n * a0 == m`, `l * n == I`, the first `i` columns of `m` those of
/// the identity and column `i` zero from row `i` down, no `x` has `x * a0 == I`.
proof fn lemma_no_pivot_singular(a0: Seq<Seq<u8>>, nm: Seq<Seq<u8>>, m: Seq<Seq<u8>>, l: Seq<Seq<u8>>, i: int, n: int, x: Seq<Seq<u8>>)
    requires
        0 <= i < n,
        square(a0, n),
        square(nm, n),
        square(m, n),
        square(l, n),
        square(x, n),
        forall|r: int, c: int| 0 <= r < n && 0 <= c < n ==> #[trigger] dotc(nm[r], a0, c, n) == m[r][c],
        forall|r: int, c: int| 0 <= r < n && 0 <= c < n ==> #[trigger] dotc(l[r], nm, c, n) == if r == c { 1u8 } else { 0u8 },
        forall|r: int, c: int| 0 <= r < n && 0 <= c < i ==> #[trigger] m[r][c] == if r == c { 1u8 } else { 0u8 },
        forall|r: int| i <= r < n ==> #[trigger] m[r][i] == 0,
    ensures
        !is_left_inverse(x, a0, n),
{
    if is_left_inverse(x, a0, n) {
        let y = Seq::new(n as nat, |k: int| dotc(x[i], l, k, n));
        let lm = Seq::new(l.len(), |k: int| Seq::new(n as nat, |q: int| dotc(l[k], m, q, n)));
        let na = Seq::new(nm.len(), |k: int| Seq::new(n as nat, |q: int| dotc(nm[k], a0, q, n)));
        assert forall|k: int, q: int| 0 <= k < n && 0 <= q < n implies #[trigger] lm[k][q] == a0[k][q] by {
            assert forall|z: int| 0 <= z < n implies #[trigger] m[z][q] == na[z][q] by {}
            lemma_dotc_congr(l[k], m, na, q, n);
            lemma_dotc_assoc(l[k], nm, a0, q, n, n, n);
            assert(Seq::new(n as nat, |c: int| dotc(l[k], nm, c, n)) =~= unit_row(k, n));
            lemma_dotc_unit(k, n, a0, q, n);
        }
        assert forall|c: int| 0 <= c < n implies #[trigger] dotc(y, m, c, n) == if i == c { 1u8 } else { 0u8 } by {
            lemma_dotc_assoc(x[i], l, m, c, n, n, n);
            assert forall|z: int| 0 <= z < n implies #[trigger] lm[z][c] == a0[z][c] by {}
            lemma_dotc_congr(x[i], lm, a0, c, n);
        }
        assert forall|c: int| 0 <= c < i implies #[trigger] y[c] == 0 by {
            lemma_dotc_unit_column(y, m, c, n);
            assert(dotc(y, m, c, n) == 0);
        }
        assert forall|q: int| 0 <= q < n implies #[trigger] y[q] == 0 || m[q][i] == 0 by {
            if q < i {
                assert(y[q] == 0);
            }
        }
        lemma_dotc_zero_terms(y, m, i, n);
        assert(dotc(y, m, i, n) == 1u8);
    }
}

/// The error for too few shards: how many there are and how many are needed.
pub open spec fn insufficient_shards_text(have: nat, need: nat) -> Seq<char> {
    "Insufficient shards: have "@ + decimal(have) + ", need "@ + decimal(need)
}

/// Writes `insufficient_shards_text`.
fn insufficient_shards_message(have: usize, need: usize) -> (r: String)
    ensures
        r@ == insufficient_shards_text(have as nat, need as nat),
{
    let mut r = "Insufficient shards: have ".to_string();
    let h = decimal_text(have as u64);
    vstd::string::StringExecFns::append(&mut r, h.as_str());
    vstd::string::StringExecFns::append(&mut r, ", need ");
    let n = decimal_text(need as u64);
    vstd::string::StringExecFns::append(&mut r, n.as_str());
    r
}

impl ReedSolomonEngine {
    /// An engine over the field's tables; like the field, it has one value.
    pub fn new() -> (r: Self) {
        ReedSolomonEngine { gf: GaloisField28::new() }
    }

    /// The `rows x cols` Cauchy matrix `1 / (x_r + y_c)` with `x_r = r + 1`, `y_c = cols + c + 1`.
    fn build_cauchy_matrix(&self, rows: usize, cols: usize) -> (r: Vec<Vec<u8>>)
        requires
            cauchy_points_distinct(rows as int, cols as int),
            cols + cols + 1 <= usize::MAX,
        ensures
            r@.len() == rows,
            forall|i: int| 0 <= i < rows ==> (#[trigger] r@[i])@.len() == cols,
            forall|i: int, j: int| 0 <= i < rows && 0 <= j < cols ==> #[trigger] r@[i]@[j] == cauchy_entry(i, j, cols as int),
    {
        let mut matrix: Vec<Vec<u8>> = Vec::new();
        let mut r: usize = 0;
        while r < rows
            invariant
                r <= rows,
                cols + cols + 1 <= usize::MAX,
                cauchy_points_distinct(rows as int, cols as int),
                matrix@.len() == r,
                forall|i: int| 0 <= i < r ==> (#[trigger] matrix@[i])@.len() == cols,
                forall|i: int, j: int| 0 <= i < r && 0 <= j < cols ==> #[trigger] matrix@[i]@[j] == cauchy_entry(i, j, cols as int),
            decreases rows - r,
        {
            let mut row: Vec<u8> = Vec::new();
            let mut c: usize = 0;
            while c < cols
                invariant
                    c <= cols,
                    r < rows,
                    cols + cols + 1 <= usize::MAX,
                    cauchy_points_distinct(rows as int, cols as int),
                    row@.len() == c,
                    forall|j: int| 0 <= j < c ==> #[trigger] row@[j] == cauchy_entry(r as int, j, cols as int),
                decreases cols - c,
            {
                let x_i = ((r + 1) % 256) as u8;
                let y_j = ((cols + c + 1) % 256) as u8;
                let denom = self.gf.add(x_i, y_j);
                proof {
                    assert(points_differ(r as int, c as int, cols as int));
                    assert(x_i != y_j ==> x_i ^ y_j != 0u8) by (bit_vector);
                }
                row.push(self.gf.inv(denom));
                c = c + 1;
            }
            matrix.push(row);
            r = r + 1;
        }
        matrix
    }

    /// Splits `payload` into `data_shards` zero-padded data shards and
    /// `parity_shards` Cauchy parity shards, all tagged with the payload's SHA-256.
    pub fn encode(&self, payload: &[u8], data_shards: usize, parity_shards: usize) -> (r: Vec<ReedSolomonShard>)
        requires
            data_shards > 0,
            parity_shards > 0,
            payload@.len() + data_shards - 1 <= usize::MAX,
            cauchy_points_distinct(parity_shards as int, data_shards as int),
            data_shards + data_shards + parity_shards + 1 <= usize::MAX,
        ensures
            encoded_shards(r@, payload@, data_shards as int, parity_shards as int),
    {
        let original_len = payload.len();
        let chunk_size = (original_len + (data_shards - 1)) / data_shards;
        let ghost chunk = chunk_size as int;
        proof {
            let o = original_len as int;
            let dd = data_shards as int;
            assert(dd * chunk <= o + dd - 1) by (nonlinear_arith)
                requires
                    dd > 0,
                    o >= 0,
                    chunk == (o + dd - 1) / dd,
            ;
        }
        let chunk_hash = sha256(payload);
        let mut data_data: Vec<Vec<u8>> = Vec::new();
        let mut start: usize = 0;
        let mut i: usize = 0;
        while i < data_shards
            invariant
                i <= data_shards,
                chunk == chunk_size,
                start == i * chunk,
                data_shards * chunk <= usize::MAX,
                original_len == payload@.len(),
                data_data@.len() == i,
                forall|q: int| 0 <= q < i ==> (#[trigger] data_data@[q])@ == data_chunk(payload@, q, chunk),
            decreases data_shards - i,
        {
            proof {
                assert((i + 1) * chunk <= data_shards * chunk) by (nonlinear_arith)
                    requires
                        i < data_shards,
                        chunk >= 0,
                ;
                assert((i + 1) * chunk == i * chunk + chunk) by (nonlinear_arith);
            }
            let mut row: Vec<u8> = Vec::new();
            let mut b: usize = 0;
            while b < chunk_size
                invariant
                    b <= chunk_size,
                    chunk == chunk_size,
                    start == i * chunk,
                    start + chunk_size <= usize::MAX,
                    original_len == payload@.len(),
                    row@.len() == b,
                    forall|x: int| 0 <= x < b ==> #[trigger] row@[x] == data_chunk(payload@, i as int, chunk)[x],
                decreases chunk_size - b,
            {
                if start + b < original_len {
                    row.push(payload[start + b]);
                } else {
                    row.push(0);
                }
                b = b + 1;
            }
            assert(row@ =~= data_chunk(payload@, i as int, chunk));
            data_data.push(row);
            start = start + chunk_size;
            i = i + 1;
        }
        let cauchy = self.build_cauchy_matrix(parity_shards, data_shards);
        let mut parity_data: Vec<Vec<u8>> = Vec::new();
        let mut p: usize = 0;
        while p < parity_shards
            invariant
                p <= parity_shards,
                chunk == chunk_size,
                data_data@.len() == data_shards,
                forall|q: int| 0 <= q < data_shards ==> (#[trigger] data_data@[q])@ == data_chunk(payload@, q, chunk),
                cauchy@.len() == parity_shards,
                forall|x: int| 0 <= x < parity_shards ==> (#[trigger] cauchy@[x])@.len() == data_shards,
                forall|x: int, y: int| 0 <= x < parity_shards && 0 <= y < data_shards ==> #[trigger] cauchy@[x]@[y] == cauchy_entry(x, y, data_shards as int),
                parity_data@.len() == p,
                forall|q: int| 0 <= q < p ==> (#[trigger] parity_data@[q])@ == parity_chunk(payload@, chunk, q, data_shards as int),
            decreases parity_shards - p,
        {
            let mut prow: Vec<u8> = Vec::new();
            let mut b: usize = 0;
            while b < chunk_size
                invariant
                    b <= chunk_size,
                    prow@.len() == b,
                    forall|x: int| 0 <= x < b ==> #[trigger] prow@[x] == 0,
                decreases chunk_size - b,
            {
                prow.push(0);
                b = b + 1;
            }
            let mut d: usize = 0;
            while d < data_shards
                invariant
                    d <= data_shards,
                    p < parity_shards,
                    chunk == chunk_size,
                    prow@.len() == chunk_size,
                    data_data@.len() == data_shards,
                    forall|q: int| 0 <= q < data_shards ==> (#[trigger] data_data@[q])@ == data_chunk(payload@, q, chunk),
                    cauchy@.len() == parity_shards,
                    forall|x: int| 0 <= x < parity_shards ==> (#[trigger] cauchy@[x])@.len() == data_shards,
                    forall|x: int, y: int| 0 <= x < parity_shards && 0 <= y < data_shards ==> #[trigger] cauchy@[x]@[y] == cauchy_entry(x, y, data_shards as int),
                    forall|x: int| 0 <= x < chunk_size ==> #[trigger] prow@[x] == parity_byte(payload@, chunk, p as int, data_shards as int, x, d as int),
                decreases data_shards - d,
            {
                let coeff = cauchy[p][d];
                let mut b: usize = 0;
                while b < chunk_size
                    invariant
                        b <= chunk_size,
                        d < data_shards,
                        p < parity_shards,
                        chunk == chunk_size,
                        coeff == cauchy_entry(p as int, d as int, data_shards as int),
                        prow@.len() == chunk_size,
                        data_data@.len() == data_shards,
                        data_data@[d as int]@ == data_chunk(payload@, d as int, chunk),
                        forall|x: int| 0 <= x < b ==> #[trigger] prow@[x] == parity_byte(payload@, chunk, p as int, data_shards as int, x, d + 1),
                        forall|x: int| b <= x < chunk_size ==> #[trigger] prow@[x] == parity_byte(payload@, chunk, p as int, data_shards as int, x, d as int),
                    decreases chunk_size - b,
                {
                    let term = self.gf.mul(coeff, data_data[d][b]);
                    let v = self.gf.add(prow[b], term);
                    prow.set(b, v);
                    b = b + 1;
                }
                d = d + 1;
            }
            assert(prow@ =~= parity_chunk(payload@, chunk, p as int, data_shards as int));
            parity_data.push(prow);
            p = p + 1;
        }
        let mut shards: Vec<ReedSolomonShard> = Vec::new();
        let mut i: usize = 0;
        while i < data_shards
            invariant
                i <= data_shards,
                chunk == chunk_size,
                chunk_size == chunk_size_for(payload@.len() as int, data_shards as int),
                chunk_hash@ == sha256_spec(payload@),
                data_data@.len() == data_shards,
                forall|q: int| 0 <= q < data_shards ==> (#[trigger] data_data@[q])@ == data_chunk(payload@, q, chunk),
                shards@.len() == i,
                forall|x: int| 0 <= x < i ==> {
                    &&& (#[trigger] shards@[x]).chunk_hash@ == sha256_spec(payload@)
                    &&& shards@[x].shard_index == (x % 256) as u8
                    &&& shards@[x].data_shards == (data_shards % 256) as u8
                    &&& shards@[x].parity_shards == (parity_shards % 256) as u8
                    &&& shards@[x].data@ == data_chunk(payload@, x, chunk)
                },
            decreases data_shards - i,
        {
            shards.push(ReedSolomonShard {
                chunk_hash,
                shard_index: (i % 256) as u8,
                data_shards: (data_shards % 256) as u8,
                parity_shards: (parity_shards % 256) as u8,
                data: data_data[i].clone(),
            });
            i = i + 1;
        }
        let mut p: usize = 0;
        while p < parity_shards
            invariant
                p <= parity_shards,
                chunk == chunk_size,
                chunk_size == chunk_size_for(payload@.len() as int, data_shards as int),
                data_shards + data_shards + parity_shards + 1 <= usize::MAX,
                chunk_hash@ == sha256_spec(payload@),
                parity_data@.len() == parity_shards,
                forall|q: int| 0 <= q < parity_shards ==> (#[trigger] parity_data@[q])@ == parity_chunk(payload@, chunk, q, data_shards as int),
                shards@.len() == data_shards + p,
                forall|x: int| 0 <= x < data_shards + p ==> {
                    &&& (#[trigger] shards@[x]).chunk_hash@ == sha256_spec(payload@)
                    &&& shards@[x].shard_index == (x % 256) as u8
                    &&& shards@[x].data_shards == (data_shards % 256) as u8
                    &&& shards@[x].parity_shards == (parity_shards % 256) as u8
                    &&& x < data_shards ==> shards@[x].data@ == data_chunk(payload@, x, chunk)
                    &&& x >= data_shards ==> shards@[x].data@ == parity_chunk(payload@, chunk, x - data_shards, data_shards as int)
                },
            decreases parity_shards - p,
        {
            shards.push(ReedSolomonShard {
                chunk_hash,
                shard_index: ((data_shards + p) % 256) as u8,
                data_shards: (data_shards % 256) as u8,
                parity_shards: (parity_shards % 256) as u8,
                data: parity_data[p].clone(),
            });
            p = p + 1;
        }
        shards
    }

    /// Inverts a square matrix by Gauss-Jordan elimination; a column without a
    /// nonzero pivot makes the matrix singular. What comes back is a left inverse:
    /// times the matrix it gives the identity; a refusal means none exists.
    fn invert_matrix(&self, matrix: Vec<Vec<u8>>) -> (r: Result<Vec<Vec<u8>>, String>)
        requires
            forall|i: int| 0 <= i < matrix@.len() ==> (#[trigger] matrix@[i])@.len() == matrix@.len(),
        ensures
            r matches Ok(inv) ==> inv@.len() == matrix@.len()
                && (forall|i: int| 0 <= i < inv@.len() ==> (#[trigger] inv@[i])@.len() == matrix@.len())
                && is_left_inverse(rows_view(inv@), rows_view(matrix@), matrix@.len() as int),
            r matches Err(e) ==> e@ == "Singular matrix in GF(2^8) inversion"@
                && forall|x: Seq<Seq<u8>>| square(x, matrix@.len() as int)
                    ==> !(#[trigger] is_left_inverse(x, rows_view(matrix@), matrix@.len() as int)),
    {
        let ghost a0 = rows_view(matrix@);
        let mut work = matrix;
        let n = work.len();
        let ghost nn = n as int;
        let mut inv: Vec<Vec<u8>> = Vec::new();
        let mut i: usize = 0;
        while i < n
            invariant
                i <= n,
                nn == n,
                inv@.len() == i,
                forall|k: int| 0 <= k < i ==> (#[trigger] inv@[k])@ == unit_row(k, nn),
            decreases n - i,
        {
            let mut row: Vec<u8> = Vec::new();
            let mut j: usize = 0;
            while j < n
                invariant
                    j <= n,
                    nn == n,
                    row@ == unit_row(i as int, nn).take(j as int),
                decreases n - j,
            {
                row.push(if i == j { 1 } else { 0 });
                j = j + 1;
                assert(row@ =~= unit_row(i as int, nn).take(j as int));
            }
            assert(row@ =~= unit_row(i as int, nn));
            inv.push(row);
            i = i + 1;
        }
        let ghost mut lg: Seq<Seq<u8>> = Seq::new(nn as nat, |k: int| unit_row(k, nn));
        proof {
            assert forall|r: int, c: int| 0 <= r < nn && 0 <= c < nn implies
                #[trigger] dotc(rows_view(inv@)[r], a0, c, nn) == rows_view(work@)[r][c] by {
                lemma_dotc_unit(r, nn, a0, c, nn);
            }
            assert forall|r: int, c: int| 0 <= r < nn && 0 <= c < nn implies
                #[trigger] dotc(lg[r], rows_view(inv@), c, nn) == if r == c { 1u8 } else { 0u8 } by {
                lemma_dotc_unit(r, nn, rows_view(inv@), c, nn);
            }
        }
        let mut i: usize = 0;
        while i < n
            invariant
                i <= n,
                nn == n,
                n == work@.len(),
                inv@.len() == n,
                a0.len() == n,
                forall|k: int| 0 <= k < n ==> (#[trigger] inv@[k])@.len() == n,
                forall|k: int| 0 <= k < n ==> (#[trigger] work@[k])@.len() == n,
                forall|r: int, c: int| 0 <= r < nn && 0 <= c < nn ==>
                    #[trigger] dotc(rows_view(inv@)[r], a0, c, nn) == rows_view(work@)[r][c],
                forall|r: int, c: int| 0 <= r < nn && 0 <= c < i ==>
                    #[trigger] rows_view(work@)[r][c] == if r == c { 1u8 } else { 0u8 },
                square(a0, nn),
                a0 == rows_view(matrix@),
                nn == matrix@.len(),
                square(lg, nn),
                forall|r: int, c: int| 0 <= r < nn && 0 <= c < nn ==>
                    #[trigger] dotc(lg[r], rows_view(inv@), c, nn) == if r == c { 1u8 } else { 0u8 },
            decreases n - i,
        {
            let mut pivot = i;
            while pivot < n && work[pivot][i] == 0
                invariant
                    i <= pivot <= n,
                    i < n,
                    n == work@.len(),
                    forall|k: int| 0 <= k < n ==> (#[trigger] work@[k])@.len() == n,
                    forall|k: int| i <= k < pivot ==> (#[trigger] work@[k])@[i as int] == 0,
                decreases n - pivot,
            {
                pivot = pivot + 1;
            }
            if pivot == n {
                proof {
                    assert forall|x: Seq<Seq<u8>>| square(x, nn) implies !(#[trigger] is_left_inverse(x, a0, nn)) by {
                        assert forall|r: int| i <= r < nn implies #[trigger] rows_view(work@)[r][i as int] == 0 by {
                            assert(work@[r]@[i as int] == 0);
                        }
                        lemma_no_pivot_singular(a0, rows_view(inv@), rows_view(work@), lg, i as int, nn, x);
                    }
                }
                return Err("Singular matrix in GF(2^8) inversion".to_owned());
            }
            if pivot != i {
                let ghost m_before = rows_view(work@);
                let ghost i_before = rows_view(inv@);
                let mi = work[i].clone();
                let mp = work[pivot].clone();
                assert(mi@ =~= work@[i as int]@);
                assert(mp@ =~= work@[pivot as int]@);
                work.set(i, mp);
                work.set(pivot, mi);
                let ii = inv[i].clone();
                let ip = inv[pivot].clone();
                assert(ii@ =~= inv@[i as int]@);
                assert(ip@ =~= inv@[pivot as int]@);
                inv.set(i, ip);
                inv.set(pivot, ii);
                proof {
                    let l_before = lg;
                    lg = l_before.map_values(|row: Seq<u8>| row.update(i as int, row[pivot as int]).update(pivot as int, row[i as int]));
                    assert(rows_view(inv@) =~= i_before.update(i as int, i_before[pivot as int]).update(pivot as int, i_before[i as int]));
                    assert forall|r: int, c: int| 0 <= r < nn && 0 <= c < nn implies
                        #[trigger] dotc(lg[r], rows_view(inv@), c, nn) == if r == c { 1u8 } else { 0u8 } by {
                        lemma_dotc_swap(l_before[r], i_before, c, nn, i as int, pivot as int);
                    }
                    let sw = |r: int| if r == i { pivot as int } else if r == pivot { i as int } else { r };
                    assert forall|r: int| 0 <= r < nn implies #[trigger] rows_view(work@)[r] == m_before[sw(r)]
                        && rows_view(inv@)[r] == i_before[sw(r)] by {}
                    assert forall|r: int, c: int| 0 <= r < nn && 0 <= c < nn implies
                        #[trigger] dotc(rows_view(inv@)[r], a0, c, nn) == rows_view(work@)[r][c] by {
                        assert(rows_view(inv@)[r] == i_before[sw(r)]);
                        assert(dotc(i_before[sw(r)], a0, c, nn) == m_before[sw(r)][c]);
                    }
                    assert forall|r: int, c: int| 0 <= r < nn && 0 <= c < i implies
                        #[trigger] rows_view(work@)[r][c] == if r == c { 1u8 } else { 0u8 } by {
                        assert(m_before[sw(r)][c] == if sw(r) == c { 1u8 } else { 0u8 });
                    }
                }
            }
            let pivot_val = work[i][i];
            let pivot_inv = self.gf.inv(pivot_val);
            proof {
                lemma_gf28_mul_inv(pivot_val);
            }
            let ghost m_scaled_from = work@[i as int]@;
            let ghost i_scaled_from = inv@[i as int]@;
            let mut mrow = work[i].clone();
            let mut irow = inv[i].clone();
            assert(mrow@ =~= m_scaled_from);
            assert(irow@ =~= i_scaled_from);
            let mut j: usize = 0;
            while j < n
                invariant
                    j <= n,
                    mrow@.len() == n,
                    irow@.len() == n,
                    m_scaled_from.len() == n,
                    i_scaled_from.len() == n,
                    forall|q: int| 0 <= q < j ==> #[trigger] mrow@[q] == gf28_mul(m_scaled_from[q], pivot_inv),
                    forall|q: int| j <= q < n ==> #[trigger] mrow@[q] == m_scaled_from[q],
                    forall|q: int| 0 <= q < j ==> #[trigger] irow@[q] == gf28_mul(i_scaled_from[q], pivot_inv),
                    forall|q: int| j <= q < n ==> #[trigger] irow@[q] == i_scaled_from[q],
                decreases n - j,
            {
                let a = self.gf.mul(mrow[j], pivot_inv);
                mrow.set(j, a);
                let b = self.gf.mul(irow[j], pivot_inv);
                irow.set(j, b);
                j = j + 1;
            }
            let ghost m_before = rows_view(work@);
            let ghost i_before = rows_view(inv@);
            work.set(i, mrow);
            inv.set(i, irow);
            proof {
                assert(rows_view(work@)[i as int] =~= scale_row(m_scaled_from, pivot_inv));
                assert(rows_view(inv@)[i as int] =~= scale_row(i_scaled_from, pivot_inv));
                assert(i_before[i as int] == i_scaled_from);
                let l_before = lg;
                lg = l_before.map_values(|row: Seq<u8>| row.update(i as int, gf28_mul(row[i as int], pivot_val)));
                assert(rows_view(inv@) =~= i_before.update(i as int, scale_row(i_before[i as int], pivot_inv)));
                assert forall|r: int, c: int| 0 <= r < nn && 0 <= c < nn implies
                    #[trigger] dotc(lg[r], rows_view(inv@), c, nn) == if r == c { 1u8 } else { 0u8 } by {
                    lemma_dotc_rescale(l_before[r], i_before, c, nn, i as int, pivot_val, pivot_inv);
                }
                assert forall|r: int, c: int| 0 <= r < nn && 0 <= c < nn implies
                    #[trigger] dotc(rows_view(inv@)[r], a0, c, nn) == rows_view(work@)[r][c] by {
                    if r == i {
                        lemma_dotc_scale(i_scaled_from, pivot_inv, a0, c, nn);
                        assert(dotc(i_before[r], a0, c, nn) == m_before[r][c]);
                    } else {
                        assert(dotc(i_before[r], a0, c, nn) == m_before[r][c]);
                    }
                }
                assert forall|r: int, c: int| 0 <= r < nn && 0 <= c < i implies
                    #[trigger] rows_view(work@)[r][c] == if r == c { 1u8 } else { 0u8 } by {
                    assert(m_before[r][c] == if r == c { 1u8 } else { 0u8 });
                    if r == i {
                        lemma_gf28_laws(0, pivot_inv, 0);
                    }
                }
                lemma_gf28_laws(pivot_val, pivot_inv, 0);
                assert(rows_view(work@)[i as int][i as int] == 1);
            }
            let ghost prow_m_g = rows_view(work@)[i as int];
            let ghost prow_i_g = rows_view(inv@)[i as int];
            let mut r: usize = 0;
            while r < n
                invariant
                    r <= n,
                    i < n,
                    nn == n,
                    n == work@.len(),
                    inv@.len() == n,
                    a0.len() == n,
                    forall|k: int| 0 <= k < n ==> (#[trigger] inv@[k])@.len() == n,
                    forall|k: int| 0 <= k < n ==> (#[trigger] work@[k])@.len() == n,
                    rows_view(work@)[i as int] == prow_m_g,
                    rows_view(inv@)[i as int] == prow_i_g,
                    prow_m_g[i as int] == 1,
                    forall|r2: int, c: int| 0 <= r2 < nn && 0 <= c < nn ==>
                        #[trigger] dotc(rows_view(inv@)[r2], a0, c, nn) == rows_view(work@)[r2][c],
                    forall|r2: int, c: int| 0 <= r2 < nn && 0 <= c < i ==>
                        #[trigger] rows_view(work@)[r2][c] == if r2 == c { 1u8 } else { 0u8 },
                    forall|r2: int| 0 <= r2 < r && r2 != i ==> #[trigger] rows_view(work@)[r2][i as int] == 0,
                    square(a0, nn),
                    square(lg, nn),
                    forall|r2: int, c: int| 0 <= r2 < nn && 0 <= c < nn ==>
                        #[trigger] dotc(lg[r2], rows_view(inv@), c, nn) == if r2 == c { 1u8 } else { 0u8 },
                decreases n - r,
            {
                if r != i {
                    let factor = work[r][i];
                    if factor != 0 {
                        let prow_m = work[i].clone();
                        let prow_i = inv[i].clone();
                        let mut mr = work[r].clone();
                        let mut ir = inv[r].clone();
                        let ghost mr0 = mr@;
                        let ghost ir0 = ir@;
                        assert(prow_m@ =~= prow_m_g);
                        assert(prow_i@ =~= prow_i_g);
                        assert(mr0 =~= rows_view(work@)[r as int]);
                        assert(ir0 =~= rows_view(inv@)[r as int]);
                        let mut c: usize = 0;
                        while c < n
                            invariant
                                c <= n,
                                mr@.len() == n,
                                ir@.len() == n,
                                prow_m@.len() == n,
                                prow_i@.len() == n,
                                mr0.len() == n,
                                ir0.len() == n,
                                forall|q: int| 0 <= q < c ==> #[trigger] mr@[q] == mr0[q] ^ gf28_mul(factor, prow_m@[q]),
                                forall|q: int| c <= q < n ==> #[trigger] mr@[q] == mr0[q],
                                forall|q: int| 0 <= q < c ==> #[trigger] ir@[q] == ir0[q] ^ gf28_mul(factor, prow_i@[q]),
                                forall|q: int| c <= q < n ==> #[trigger] ir@[q] == ir0[q],
                            decreases n - c,
                        {
                            let term = self.gf.mul(factor, prow_m[c]);
                            let v = self.gf.add(mr[c], term);
                            mr.set(c, v);
                            let inv_term = self.gf.mul(factor, prow_i[c]);
                            let w = self.gf.add(ir[c], inv_term);
                            ir.set(c, w);
                            c = c + 1;
                        }
                        let ghost m_before = rows_view(work@);
                        let ghost i_before = rows_view(inv@);
                        work.set(r, mr);
                        inv.set(r, ir);
                        proof {
                            assert(rows_view(work@)[r as int] =~= axpy(mr0, factor, prow_m_g));
                            assert(rows_view(inv@)[r as int] =~= axpy(ir0, factor, prow_i_g));
                            assert(i_before[r as int] == ir0 && i_before[i as int] == prow_i_g);
                            let l_before = lg;
                            lg = l_before.map_values(|row: Seq<u8>| row.update(i as int, row[i as int] ^ gf28_mul(factor, row[r as int])));
                            assert(rows_view(inv@) =~= i_before.update(r as int, axpy(i_before[r as int], factor, i_before[i as int])));
                            assert forall|r2: int, c: int| 0 <= r2 < nn && 0 <= c < nn implies
                                #[trigger] dotc(lg[r2], rows_view(inv@), c, nn) == if r2 == c { 1u8 } else { 0u8 } by {
                                lemma_dotc_shear(l_before[r2], i_before, c, nn, i as int, r as int, factor);
                            }
                            assert forall|r2: int, c2: int| 0 <= r2 < nn && 0 <= c2 < nn implies
                                #[trigger] dotc(rows_view(inv@)[r2], a0, c2, nn) == rows_view(work@)[r2][c2] by {
                                assert(dotc(i_before[r2], a0, c2, nn) == m_before[r2][c2]);
                                if r2 == r {
                                    lemma_dotc_axpy(ir0, factor, prow_i_g, a0, c2, nn);
                                    assert(dotc(i_before[i as int], a0, c2, nn) == m_before[i as int][c2]);
                                }
                            }
                            assert forall|r2: int, c2: int| 0 <= r2 < nn && 0 <= c2 < i implies
                                #[trigger] rows_view(work@)[r2][c2] == if r2 == c2 { 1u8 } else { 0u8 } by {
                                assert(m_before[r2][c2] == if r2 == c2 { 1u8 } else { 0u8 });
                                if r2 == r {
                                    assert(m_before[i as int][c2] == 0);
                                    lemma_gf28_laws(factor, 0, 0);
                                    lemma_xor(m_before[r2][c2], 0, 0, 0);
                                }
                            }
                            assert(rows_view(work@)[r as int][i as int] == 0) by {
                                lemma_gf28_laws(factor, 1, 0);
                                lemma_xor(factor, 0, 0, 0);
                            }
                            assert forall|r2: int| 0 <= r2 < r + 1 && r2 != i implies
                                #[trigger] rows_view(work@)[r2][i as int] == 0 by {
                                if r2 < r {
                                    assert(m_before[r2][i as int] == 0);
                                }
                            }
                        }
                    }
                }
                r = r + 1;
            }
            proof {
                assert forall|r2: int, c: int| 0 <= r2 < nn && 0 <= c < i + 1 implies
                    #[trigger] rows_view(work@)[r2][c] == if r2 == c { 1u8 } else { 0u8 } by {
                    if c == i && r2 != i {
                        assert(rows_view(work@)[r2][i as int] == 0);
                    }
                }
            }
            i = i + 1;
        }
        proof {
            assert forall|r: int, c: int| 0 <= r < nn && 0 <= c < nn implies
                #[trigger] dotc(rows_view(inv@)[r], a0, c, nn) == if r == c { 1u8 } else { 0u8 } by {
                assert(dotc(rows_view(inv@)[r], a0, c, nn) == rows_view(work@)[r][c]);
            }
        }
        Ok(inv)
    }

    /// Rebuilds the payload from any `data_shards` shards. When every data shard is
    /// present the data shards are concatenated; otherwise the first `data_shards`
    /// present shards (by index) are decoded through the inverted Cauchy rows; the
    /// decode is refused exactly when those rows form a matrix with no inverse.
    pub fn decode(
        &self,
        available_shards: &[ReedSolomonShard],
        data_shards: usize,
        parity_shards: usize,
        original_len: usize,
    ) -> (r: Result<Vec<u8>, String>)
        requires
            data_shards > 0,
            original_len + data_shards - 1 <= usize::MAX,
            available_shards@.len() >= data_shards
                && !all_data_present(slots_after(available_shards@, available_shards@.len() as int), data_shards as int)
                ==> decodable_selection(
                    available_shards@,
                    slots_after(available_shards@, available_shards@.len() as int),
                    data_shards as int,
                    parity_shards as int,
                    (original_len + data_shards - 1) / data_shards as int,
                ),
        ensures
            available_shards@.len() < data_shards ==> (r matches Err(e)
                && e@ == insufficient_shards_text(available_shards@.len(), data_shards as nat)),
            available_shards@.len() >= data_shards
                && all_data_present(slots_after(available_shards@, available_shards@.len() as int), data_shards as int)
                ==> (r matches Ok(p) && p@ == fast_path_payload(available_shards@, data_shards as int, original_len as int)),
            ({
                let slots = slots_after(available_shards@, available_shards@.len() as int);
                available_shards@.len() >= data_shards && !all_data_present(slots, data_shards as int) ==> {
                    &&& (r matches Ok(p) ==> exists|inv: Seq<Seq<u8>>| {
                        &&& inv.len() == data_shards
                        &&& forall|k: int| 0 <= k < data_shards ==> (#[trigger] inv[k]).len() == data_shards
                        &&& is_left_inverse(inv, decode_matrix(slots, data_shards as int), data_shards as int)
                        &&& p@ == general_path_payload(inv, available_shards@, data_shards as int, original_len as int)
                    })
                    &&& (r matches Err(e) ==> e@ == "Singular matrix in GF(2^8) inversion"@
                        && forall|x: Seq<Seq<u8>>| square(x, data_shards as int)
                            ==> !(#[trigger] is_left_inverse(x, decode_matrix(slots, data_shards as int), data_shards as int)))
                }
            }),
    {
        if available_shards.len() < data_shards {
            return Err(insufficient_shards_message(available_shards.len(), data_shards));
        }
        let chunk_size = (original_len + (data_shards - 1)) / data_shards;
        let mut slots: Vec<Option<usize>> = Vec::new();
        let mut k: usize = 0;
        while k < 256
            invariant
                k <= 256,
                slots@.len() == k,
                forall|i: int| 0 <= i < k ==> #[trigger] slots@[i] is None,
            decreases 256 - k,
        {
            slots.push(None);
            k = k + 1;
        }
        assert(slots@ =~= slots_after(available_shards@, 0));
        let mut s: usize = 0;
        while s < available_shards.len()
            invariant
                s <= available_shards@.len(),
                slots@ == slots_after(available_shards@, s as int),
                slots@.len() == 256,
            decreases available_shards.len() - s,
        {
            let at = available_shards[s].shard_index as usize;
            slots.set(at, Some(s));
            s = s + 1;
        }
        proof {
            lemma_slot_positions(available_shards@, available_shards@.len() as int);
        }
        let mut all_present = true;
        let mut i: usize = 0;
        while i < data_shards
            invariant
                i <= data_shards,
                slots@.len() == 256,
                all_present == forall|j: int| 0 <= j < i ==> #[trigger] slots@[j % 256] is Some,
            decreases data_shards - i,
        {
            if slots[i % 256].is_none() {
                all_present = false;
            }
            i = i + 1;
        }
        if all_present {
            let mut payload: Vec<u8> = Vec::new();
            let mut i: usize = 0;
            while i < data_shards
                invariant
                    i <= data_shards,
                    slots@.len() == 256,
                    all_data_present(slots@, data_shards as int),
                    payload@ == concat_slots(available_shards@, slots@, i as int),
                    forall|j: int| 0 <= j < 256 && #[trigger] slots@[j] is Some ==> slots@[j]->0 < available_shards@.len(),
                decreases data_shards - i,
            {
                assert(slots@[i as int % 256] is Some);
                match slots[i % 256] {
                    Some(pos) => {
                        crate::bytes::push_all(&mut payload, available_shards[pos].data.as_slice());
                    }
                    None => {}
                }
                i = i + 1;
            }
            if payload.len() > original_len {
                payload.truncate(original_len);
            } else {
                assert(payload@.take(payload@.len() as int) =~= payload@);
            }
            return Ok(payload);
        }
        let ghost gslots = slots@;
        let ghost sel = present_indices(gslots, 256);
        let ghost dd = data_shards as int;
        let ghost ch = chunk_size as int;
        let ghost dm = decode_matrix(gslots, dd);
        let ghost ddata = decode_data(available_shards@, gslots, dd, ch);
        proof {
            lemma_present_indices_some(gslots, 256);
        }
        let cauchy = self.build_cauchy_matrix(parity_shards, data_shards);
        let mut sub_matrix: Vec<Vec<u8>> = Vec::new();
        let mut sub_data: Vec<Vec<u8>> = Vec::new();
        let mut idx: usize = 0;
        let mut count: usize = 0;
        while idx < 256 && count < data_shards
            invariant
                idx <= 256,
                count <= data_shards,
                dd == data_shards,
                ch == chunk_size,
                slots@ == gslots,
                gslots == slots_after(available_shards@, available_shards@.len() as int),
                gslots.len() == 256,
                forall|j: int| 0 <= j < 256 && #[trigger] gslots[j] is Some ==> gslots[j]->0 < available_shards@.len(),
                sel == present_indices(gslots, 256),
                forall|q: int| 0 <= q < sel.len() ==> 0 <= #[trigger] sel[q] < 256 && gslots[sel[q]] is Some,
                dm == decode_matrix(gslots, dd),
                ddata == decode_data(available_shards@, gslots, dd, ch),
                decodable_selection(available_shards@, gslots, data_shards as int, parity_shards as int, chunk_size as int),
                count == present_indices(gslots, idx as int).len(),
                sub_matrix@.len() == count,
                sub_data@.len() == count,
                forall|q: int| 0 <= q < count ==> (#[trigger] sub_matrix@[q])@.len() == data_shards,
                forall|q: int| 0 <= q < count ==> (#[trigger] sub_data@[q])@.len() >= chunk_size,
                forall|q: int| 0 <= q < count ==> (#[trigger] sub_matrix@[q])@ == dm[q],
                forall|q: int| 0 <= q < count ==> (#[trigger] sub_data@[q])@ == ddata[q],
                cauchy@.len() == parity_shards,
                forall|p: int| 0 <= p < parity_shards ==> (#[trigger] cauchy@[p])@.len() == data_shards,
                forall|x: int, y: int| 0 <= x < parity_shards && 0 <= y < data_shards ==> #[trigger] cauchy@[x]@[y] == cauchy_entry(x, y, data_shards as int),
            decreases 256 - idx,
        {
            match slots[idx] {
                Some(pos) => {
                    proof {
                        lemma_present_indices_prefix(gslots, idx as int + 1, 256);
                        assert(present_indices(gslots, idx as int + 1) == present_indices(gslots, idx as int).push(idx as int));
                        assert(sel[count as int] == idx as int);
                        assert(selected(gslots, count as int) == Some(idx as int));
                    }
                    let mut row: Vec<u8> = Vec::new();
                    if idx < data_shards {
                        let mut c: usize = 0;
                        while c < data_shards
                            invariant
                                c <= data_shards,
                                dd == data_shards,
                                row@ == unit_row(idx as int, dd).take(c as int),
                            decreases data_shards - c,
                        {
                            row.push(if c == idx { 1 } else { 0 });
                            c = c + 1;
                            assert(row@ =~= unit_row(idx as int, dd).take(c as int));
                        }
                        assert(row@ =~= unit_row(idx as int, dd));
                    } else {
                        row = cauchy[idx - data_shards].clone();
                        assert(row@ =~= cauchy_row(idx - data_shards, dd));
                    }
                    assert(row@ == code_row(idx as int, dd));
                    sub_matrix.push(row);
                    let data = available_shards[pos].data.clone();
                    assert(data@ =~= available_shards@[pos as int].data@);
                    sub_data.push(data);
                    count = count + 1;
                }
                None => {}
            }
            idx = idx + 1;
        }
        proof {
            if count < data_shards {
                assert(idx == 256);
            }
        }
        while count < data_shards
            invariant
                count <= data_shards,
                dd == data_shards,
                ch == chunk_size,
                count == data_shards || count >= sel.len(),
                gslots == slots_after(available_shards@, available_shards@.len() as int),
                sel == present_indices(gslots, 256),
                dm == decode_matrix(gslots, dd),
                ddata == decode_data(available_shards@, gslots, dd, ch),
                sub_matrix@.len() == count,
                sub_data@.len() == count,
                forall|q: int| 0 <= q < count ==> (#[trigger] sub_matrix@[q])@.len() == data_shards,
                forall|q: int| 0 <= q < count ==> (#[trigger] sub_data@[q])@.len() >= chunk_size,
                forall|q: int| 0 <= q < count ==> (#[trigger] sub_matrix@[q])@ == dm[q],
                forall|q: int| 0 <= q < count ==> (#[trigger] sub_data@[q])@ == ddata[q],
            decreases data_shards - count,
        {
            let mut zr: Vec<u8> = Vec::new();
            let mut c: usize = 0;
            while c < data_shards
                invariant
                    c <= data_shards,
                    zr@ == Seq::new(c as nat, |x: int| 0u8),
                decreases data_shards - c,
            {
                zr.push(0);
                c = c + 1;
                assert(zr@ =~= Seq::new(c as nat, |x: int| 0u8));
            }
            let mut zd: Vec<u8> = Vec::new();
            let mut b: usize = 0;
            while b < chunk_size
                invariant
                    b <= chunk_size,
                    zd@ == Seq::new(b as nat, |x: int| 0u8),
                decreases chunk_size - b,
            {
                zd.push(0);
                b = b + 1;
                assert(zd@ =~= Seq::new(b as nat, |x: int| 0u8));
            }
            assert(selected(gslots, count as int) is None);
            sub_matrix.push(zr);
            sub_data.push(zd);
            count = count + 1;
        }
        assert(rows_view(sub_matrix@) =~= dm);
        assert(rows_view(sub_data@) =~= ddata);
        let inv_matrix = match self.invert_matrix(sub_matrix) {
            Ok(m) => m,
            Err(e) => {
                proof {
                    assert(dm == decode_matrix(slots_after(available_shards@, available_shards@.len() as int), dd));
                }
                return Err(e);
            }
        };
        let ghost invv = rows_view(inv_matrix@);
        assert(is_left_inverse(invv, dm, dd));
        assert forall|k: int| 0 <= k < dd implies (#[trigger] invv[k]).len() == dd by {
            assert(invv[k] == inv_matrix@[k]@);
        }
        let mut payload: Vec<u8> = Vec::new();
        let mut d: usize = 0;
        while d < data_shards
            invariant
                d <= data_shards,
                dd == data_shards,
                ch == chunk_size,
                payload@.len() == d * chunk_size,
                payload@ == product_rows(invv, ddata, dd, ch, d as int),
                gslots == slots_after(available_shards@, available_shards@.len() as int),
                dm == decode_matrix(gslots, dd),
                ddata == decode_data(available_shards@, gslots, dd, ch),
                is_left_inverse(invv, dm, dd),
                invv.len() == dd,
                forall|k: int| 0 <= k < dd ==> (#[trigger] invv[k]).len() == dd,
                invv == rows_view(inv_matrix@),
                ddata == rows_view(sub_data@),
                inv_matrix@.len() == data_shards,
                forall|q: int| 0 <= q < data_shards ==> (#[trigger] inv_matrix@[q])@.len() == data_shards,
                sub_data@.len() == data_shards,
                forall|q: int| 0 <= q < data_shards ==> (#[trigger] sub_data@[q])@.len() >= chunk_size,
            decreases data_shards - d,
        {
            let mut out_row: Vec<u8> = Vec::new();
            let mut b: usize = 0;
            while b < chunk_size
                invariant
                    b <= chunk_size,
                    out_row@ == Seq::new(b as nat, |x: int| 0u8),
                decreases chunk_size - b,
            {
                out_row.push(0);
                b = b + 1;
                assert(out_row@ =~= Seq::new(b as nat, |x: int| 0u8));
            }
            let mut kk: usize = 0;
            while kk < data_shards
                invariant
                    kk <= data_shards,
                    d < data_shards,
                    dd == data_shards,
                    out_row@.len() == chunk_size,
                    invv == rows_view(inv_matrix@),
                    ddata == rows_view(sub_data@),
                    inv_matrix@.len() == data_shards,
                    forall|q: int| 0 <= q < data_shards ==> (#[trigger] inv_matrix@[q])@.len() == data_shards,
                    sub_data@.len() == data_shards,
                    forall|q: int| 0 <= q < data_shards ==> (#[trigger] sub_data@[q])@.len() >= chunk_size,
                    forall|x: int| 0 <= x < chunk_size ==> #[trigger] out_row@[x] == dotc(invv[d as int], ddata, x, kk as int),
                decreases data_shards - kk,
            {
                let coeff = inv_matrix[d][kk];
                let mut b: usize = 0;
                while b < chunk_size
                    invariant
                        b <= chunk_size,
                        kk < data_shards,
                        d < data_shards,
                        out_row@.len() == chunk_size,
                        invv == rows_view(inv_matrix@),
                        ddata == rows_view(sub_data@),
                        inv_matrix@.len() == data_shards,
                        forall|q: int| 0 <= q < data_shards ==> (#[trigger] inv_matrix@[q])@.len() == data_shards,
                        coeff == invv[d as int][kk as int],
                        sub_data@.len() == data_shards,
                        forall|q: int| 0 <= q < data_shards ==> (#[trigger] sub_data@[q])@.len() >= chunk_size,
                        forall|x: int| 0 <= x < b ==> #[trigger] out_row@[x] == dotc(invv[d as int], ddata, x, kk + 1),
                        forall|x: int| b <= x < chunk_size ==> #[trigger] out_row@[x] == dotc(invv[d as int], ddata, x, kk as int),
                    decreases chunk_size - b,
                {
                    let term = self.gf.mul(coeff, sub_data[kk][b]);
                    let v = self.gf.add(out_row[b], term);
                    out_row.set(b, v);
                    b = b + 1;
                }
                kk = kk + 1;
            }
            assert(out_row@ =~= Seq::new(ch as nat, |x: int| dotc(invv[d as int], ddata, x, dd)));
            crate::bytes::push_all(&mut payload, out_row.as_slice());
            assert((d + 1) * chunk_size == d * chunk_size + chunk_size) by (nonlinear_arith);
            d = d + 1;
        }
        proof {
            let o = original_len as int;
            let q = chunk_size as int;
            assert(q == (o + dd - 1) / dd);
            assert(dd * q >= o) by (nonlinear_arith)
                requires
                    dd > 0,
                    o >= 0,
                    q == (o + dd - 1) / dd,
            ;
        }
        let ghost full = payload@;
        payload.truncate(original_len);
        proof {
            assert(payload@ =~= full.take(original_len as int));
            assert(chunk_size_for(original_len as int, dd) == ch);
            assert(payload@ == general_path_payload(invv, available_shards@, dd, original_len as int));
            assert(invv.len() == data_shards);
            assert(is_left_inverse(invv, decode_matrix(slots_after(available_shards@, available_shards@.len() as int), dd), dd));
        }
        Ok(payload)
    }
}

} // verus!
