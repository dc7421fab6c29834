//! Deterministic evaluation: operations are put in (epoch, Lamport rank, mutation,
//! operation index) order, repeats of one position are dropped, and a higher epoch
//! wipes the registers before its operations apply.

use vstd::prelude::*;
use vstd::pervasive::VecAdditionalExecFns;
use crate::HashRef;
use crate::bytes::{lex_lt, compare_bytes, lemma_lex_order_range, lemma_lex_order_eq, lemma_lex_order_antisym, lemma_lex_lt_trans};
use crate::keyed_map::KeyedMap;
use crate::crdt::epoch::Epoch;
use crate::crdt::types::{OperationBody, RegisterState, OperationIndex, LamportRank};

verus! {

#[derive(Debug, Clone)]
pub struct EvaluationItem {
    pub epoch: Epoch,
    pub lamport_rank: LamportRank,
    pub mutation_id: HashRef,
    pub operation_index: OperationIndex,
    pub body: OperationBody,
    pub op_tag: HashRef,
}

/// Hash references ordered by algorithm, then digest bytes.
pub open spec fn hash_ref_lt(a: HashRef, b: HashRef) -> bool {
    a.algorithm_id < b.algorithm_id || (a.algorithm_id == b.algorithm_id && lex_lt(a.digest@, b.digest@))
}

pub open spec fn hash_ref_same(a: HashRef, b: HashRef) -> bool {
    a.algorithm_id == b.algorithm_id && a.digest@ == b.digest@
}

/// Two items occupy the same evaluation position.
pub open spec fn same_position(a: EvaluationItem, b: EvaluationItem) -> bool {
    a.epoch == b.epoch && a.lamport_rank == b.lamport_rank && hash_ref_same(a.mutation_id, b.mutation_id)
        && a.operation_index == b.operation_index
}

/// `a` is evaluated strictly before `b`.
pub open spec fn before(a: EvaluationItem, b: EvaluationItem) -> bool {
    a.epoch.0 < b.epoch.0 || (a.epoch == b.epoch && (a.lamport_rank.0 < b.lamport_rank.0
        || (a.lamport_rank == b.lamport_rank && (hash_ref_lt(a.mutation_id, b.mutation_id)
        || (hash_ref_same(a.mutation_id, b.mutation_id) && a.operation_index.0 < b.operation_index.0)))))
}

pub open spec fn strictly_ordered(s: Seq<EvaluationItem>) -> bool {
    forall|i: int, j: int| 0 <= i < j < s.len() ==> before(#[trigger] s[i], #[trigger] s[j])
}

/// `x` placed into the ordered sequence `s` at its position, unless an item already
/// holds that position.
pub open spec fn insert_unique(s: Seq<EvaluationItem>, x: EvaluationItem) -> Seq<EvaluationItem>
    decreases s.len(),
{
    if s.len() == 0 {
        seq![x]
    } else if before(s[0], x) {
        seq![s[0]] + insert_unique(s.drop_first(), x)
    } else if same_position(s[0], x) {
        s
    } else {
        seq![x] + s
    }
}

/// The evaluation order of `items`: sorted by position, the first item at each
/// position kept.
pub open spec fn canonical(items: Seq<EvaluationItem>) -> Seq<EvaluationItem>
    decreases items.len(),
{
    if items.len() == 0 {
        Seq::empty()
    } else {
        insert_unique(canonical(items.drop_last()), items.last())
    }
}

/// Registers and current epoch after one item.
pub open spec fn apply_item(st: (Map<Seq<u8>, RegisterState>, u64), it: EvaluationItem) -> (Map<Seq<u8>, RegisterState>, u64) {
    let (regs, cur) = if it.epoch.0 > st.1 { (Map::empty(), it.epoch.0) } else { st };
    let regs2 = match it.body {
        OperationBody::Add { key, payload } => regs.insert(key@, RegisterState::Add {
            op_tag: it.op_tag,
            payload,
            epoch: it.epoch,
            lamport_rank: it.lamport_rank,
            mutation_id: it.mutation_id,
            operation_index: it.operation_index,
        }),
        OperationBody::Remove { key } => regs.insert(key@, RegisterState::Remove {
            op_tag: it.op_tag,
            epoch: it.epoch,
            lamport_rank: it.lamport_rank,
            mutation_id: it.mutation_id,
            operation_index: it.operation_index,
        }),
        _ => regs,
    };
    (regs2, cur)
}

/// Registers and current epoch after a sequence of items.
pub open spec fn apply_all(st: (Map<Seq<u8>, RegisterState>, u64), s: Seq<EvaluationItem>) -> (Map<Seq<u8>, RegisterState>, u64)
    decreases s.len(),
{
    if s.len() == 0 {
        st
    } else {
        apply_item(apply_all(st, s.drop_last()), s.last())
    }
}

proof fn lemma_lex_trichotomy(a: Seq<u8>, b: Seq<u8>)
    ensures
        lex_lt(a, b) || a == b || lex_lt(b, a),
        !(lex_lt(a, b) && lex_lt(b, a)),
        lex_lt(a, b) ==> a != b,
{
    lemma_lex_order_range(a, b);
    lemma_lex_order_eq(a, b);
    lemma_lex_order_antisym(a, b);
}

/// Exactly one of: `a` before `b`, same position, `b` before `a`.
pub proof fn lemma_position_trichotomy(a: EvaluationItem, b: EvaluationItem)
    ensures
        before(a, b) || same_position(a, b) || before(b, a),
        !(before(a, b) && same_position(a, b)),
        !(before(a, b) && before(b, a)),
        !(before(b, a) && same_position(a, b)),
{
    lemma_lex_trichotomy(a.mutation_id.digest@, b.mutation_id.digest@);
}

/// Evaluation order is transitive.
pub proof fn lemma_before_trans(a: EvaluationItem, b: EvaluationItem, c: EvaluationItem)
    requires
        before(a, b),
        before(b, c),
    ensures
        before(a, c),
{
    if a.epoch == b.epoch && b.epoch == c.epoch && a.lamport_rank == b.lamport_rank && b.lamport_rank == c.lamport_rank
        && a.mutation_id.algorithm_id == b.mutation_id.algorithm_id
        && b.mutation_id.algorithm_id == c.mutation_id.algorithm_id {
        let (x, y, z) = (a.mutation_id.digest@, b.mutation_id.digest@, c.mutation_id.digest@);
        lemma_lex_trichotomy(x, y);
        lemma_lex_trichotomy(y, z);
        lemma_lex_trichotomy(x, z);
        if lex_lt(x, y) && lex_lt(y, z) {
            lemma_lex_lt_trans(x, y, z);
        }
    }
}

/// Items at the same position are ordered alike against any third item.
proof fn lemma_same_position_congruent(a: EvaluationItem, a2: EvaluationItem, b: EvaluationItem)
    requires
        same_position(a, a2),
    ensures
        before(a, b) == before(a2, b),
        before(b, a) == before(b, a2),
        same_position(a, b) == same_position(a2, b),
{
}

proof fn lemma_insert_unique(s: Seq<EvaluationItem>, x: EvaluationItem, p: int)
    requires
        strictly_ordered(s),
        0 <= p <= s.len(),
        forall|j: int| 0 <= j < p ==> before(#[trigger] s[j], x),
        p < s.len() ==> !before(s[p], x),
    ensures
        insert_unique(s, x) == if p < s.len() && same_position(s[p], x) { s } else { s.insert(p, x) },
        strictly_ordered(insert_unique(s, x)),
    decreases s.len(),
{
    if s.len() == 0 {
        assert(seq![x] =~= s.insert(0, x));
    } else if before(s[0], x) {
        let t = s.drop_first();
        assert(p > 0) by {
            if p == 0 {
                assert(!before(s[0], x));
            }
        }
        assert forall|j: int| 0 <= j < p - 1 implies before(#[trigger] t[j], x) by {
            assert(t[j] == s[j + 1]);
        }
        assert(strictly_ordered(t)) by {
            assert forall|i: int, j: int| 0 <= i < j < t.len() implies before(#[trigger] t[i], #[trigger] t[j]) by {
                assert(before(s[i + 1], s[j + 1]));
            }
        }
        lemma_insert_unique(t, x, p - 1);
        let r = insert_unique(s, x);
        assert(r == seq![s[0]] + insert_unique(t, x));
        if p < s.len() && same_position(s[p], x) {
            assert(t[p - 1] == s[p]);
            assert(r =~= s);
        } else {
            assert(r =~= s.insert(p, x));
        }
        let it = insert_unique(t, x);
        assert forall|i: int, j: int| 0 <= i < j < r.len() implies before(#[trigger] r[i], #[trigger] r[j]) by {
            if i == 0 {
                assert(r[0] == s[0]);
                assert(r[j] == it[j - 1]);
                if p < s.len() && same_position(s[p], x) {
                    assert(r[j] == s[j]);
                } else {
                    if j - 1 < p - 1 {
                        assert(it[j - 1] == t[j - 1]);
                        assert(before(s[0], s[j]));
                    } else if j - 1 == p - 1 {
                        assert(it[j - 1] == x);
                    } else {
                        assert(it[j - 1] == t[j - 2]);
                        assert(before(s[0], s[j - 1]));
                    }
                }
            } else {
                assert(r[i] == it[i - 1]);
                assert(r[j] == it[j - 1]);
            }
        }
    } else if same_position(s[0], x) {
        assert(p == 0);
    } else {
        assert(p == 0);
        lemma_position_trichotomy(s[0], x);
        let r = seq![x] + s;
        assert(r =~= s.insert(0, x));
        assert forall|i: int, j: int| 0 <= i < j < r.len() implies before(#[trigger] r[i], #[trigger] r[j]) by {
            if i == 0 {
                assert(r[j] == s[j - 1]);
                if j - 1 > 0 {
                    assert(before(s[0], s[j - 1]));
                    lemma_before_trans(x, s[0], s[j - 1]);
                }
            } else {
                assert(r[i] == s[i - 1]);
                assert(r[j] == s[j - 1]);
            }
        }
    }
}

/// The evaluation order is strictly increasing.
pub proof fn lemma_canonical_ordered(items: Seq<EvaluationItem>)
    ensures
        strictly_ordered(canonical(items)),
    decreases items.len(),
{
    if items.len() > 0 {
        let c = canonical(items.drop_last());
        lemma_canonical_ordered(items.drop_last());
        let x = items.last();
        let p = choose_insert_point(c, x);
        lemma_insert_unique(c, x, p);
    }
}

/// The number of leading items of an ordered sequence that come before `x`.
spec fn count_before(s: Seq<EvaluationItem>, x: EvaluationItem) -> int
    decreases s.len(),
{
    if s.len() == 0 || !before(s[0], x) { 0 } else { 1 + count_before(s.drop_first(), x) }
}

proof fn lemma_count_before(s: Seq<EvaluationItem>, x: EvaluationItem)
    ensures
        0 <= count_before(s, x) <= s.len(),
        forall|j: int| 0 <= j < count_before(s, x) ==> before(#[trigger] s[j], x),
        count_before(s, x) < s.len() ==> !before(s[count_before(s, x)], x),
    decreases s.len(),
{
    if s.len() > 0 && before(s[0], x) {
        let t = s.drop_first();
        lemma_count_before(t, x);
        assert forall|j: int| 0 <= j < count_before(s, x) implies before(#[trigger] s[j], x) by {
            if j > 0 {
                assert(s[j] == t[j - 1]);
            }
        }
        if count_before(s, x) < s.len() {
            assert(s[count_before(s, x)] == t[count_before(t, x)]);
        }
    }
}

proof fn choose_insert_point(s: Seq<EvaluationItem>, x: EvaluationItem) -> (p: int)
    ensures
        0 <= p <= s.len(),
        forall|j: int| 0 <= j < p ==> before(#[trigger] s[j], x),
        p < s.len() ==> !before(s[p], x),
{
    lemma_count_before(s, x);
    count_before(s, x)
}

/// Some item of `c` sits at `x`'s position.
pub open spec fn position_taken(c: Seq<EvaluationItem>, x: EvaluationItem) -> bool {
    exists|k: int| 0 <= k < c.len() && #[trigger] same_position(c[k], x)
}

/// Inserting an item whose position is already taken leaves an ordered sequence as it is.
proof fn lemma_insert_present(s: Seq<EvaluationItem>, x: EvaluationItem, k: int)
    requires
        strictly_ordered(s),
        0 <= k < s.len(),
        same_position(s[k], x),
    ensures
        insert_unique(s, x) == s,
{
    let p = choose_insert_point(s, x);
    lemma_insert_unique(s, x, p);
    lemma_position_trichotomy(s[k], x);
    if k < p {
        assert(before(s[k], x));
    }
    if p < s.len() && !same_position(s[p], x) {
        lemma_position_trichotomy(s[p], x);
        assert(before(x, s[p]));
        if p < k {
            assert(before(s[p], s[k]));
            lemma_same_position_congruent(s[k], x, s[p]);
        }
    }
}

/// Every item of `items` shares its position with an item of the evaluation order,
/// and every item of the evaluation order is one of `items`.
pub proof fn lemma_canonical_members(items: Seq<EvaluationItem>)
    ensures
        forall|i: int| 0 <= i < items.len() ==> #[trigger] position_taken(canonical(items), items[i]),
        forall|k: int| 0 <= k < canonical(items).len() ==> items.contains(#[trigger] canonical(items)[k]),
    decreases items.len(),
{
    if items.len() > 0 {
        let init = items.drop_last();
        let c = canonical(init);
        let x = items.last();
        lemma_canonical_members(init);
        lemma_canonical_ordered(init);
        let p = choose_insert_point(c, x);
        lemma_insert_unique(c, x, p);
        let r = canonical(items);
        assert forall|i: int| 0 <= i < items.len() implies #[trigger] position_taken(r, items[i]) by {
            if i == items.len() - 1 {
                if p < c.len() && same_position(c[p], x) {
                    assert(same_position(r[p], items[i]));
                } else {
                    assert(r[p] == x);
                    assert(same_position(r[p], items[i]));
                }
            } else {
                assert(items[i] == init[i]);
                assert(position_taken(c, init[i]));
                let k = choose|k: int| 0 <= k < c.len() && #[trigger] same_position(c[k], init[i]);
                if p < c.len() && same_position(c[p], x) {
                    assert(same_position(r[k], items[i]));
                } else if k < p {
                    assert(r[k] == c[k]);
                    assert(same_position(r[k], items[i]));
                } else {
                    assert(r[k + 1] == c[k]);
                    assert(same_position(r[k + 1], items[i]));
                }
            }
        }
        assert forall|k: int| 0 <= k < r.len() implies items.contains(#[trigger] r[k]) by {
            if p < c.len() && same_position(c[p], x) {
                assert(init.contains(c[k]));
                let w = choose|w: int| 0 <= w < init.len() && init[w] == c[k];
                assert(items[w] == c[k]);
            } else if k == p {
                assert(items[items.len() - 1] == r[k]);
            } else {
                let ck = if k < p { k } else { k - 1 };
                assert(r[k] == c[ck]);
                assert(init.contains(c[ck]));
                let w = choose|w: int| 0 <= w < init.len() && init[w] == c[ck];
                assert(items[w] == c[ck]);
            }
        }
    }
}

/// Evaluation order of `s` followed by `t`: `t`'s items inserted one by one.
spec fn canonical_from(c: Seq<EvaluationItem>, t: Seq<EvaluationItem>) -> Seq<EvaluationItem>
    decreases t.len(),
{
    if t.len() == 0 { c } else { insert_unique(canonical_from(c, t.drop_last()), t.last()) }
}

proof fn lemma_canonical_append(s: Seq<EvaluationItem>, t: Seq<EvaluationItem>)
    ensures
        canonical(s + t) == canonical_from(canonical(s), t),
    decreases t.len(),
{
    if t.len() == 0 {
        assert(s + t =~= s);
    } else {
        lemma_canonical_append(s, t.drop_last());
        assert((s + t).drop_last() =~= s + t.drop_last());
        assert((s + t).last() == t.last());
    }
}

proof fn lemma_canonical_from_present(c: Seq<EvaluationItem>, t: Seq<EvaluationItem>)
    requires
        strictly_ordered(c),
        forall|i: int| 0 <= i < t.len() ==> #[trigger] position_taken(c, t[i]),
    ensures
        canonical_from(c, t) == c,
    decreases t.len(),
{
    if t.len() > 0 {
        let t0 = t.drop_last();
        assert forall|i: int| 0 <= i < t0.len() implies #[trigger] position_taken(c, t0[i]) by {
            assert(t0[i] == t[i]);
            assert(position_taken(c, t[i]));
        }
        lemma_canonical_from_present(c, t0);
        let i = t.len() - 1;
        assert(position_taken(c, t[i]));
        let k = choose|k: int| 0 <= k < c.len() && #[trigger] same_position(c[k], t[i]);
        lemma_insert_present(c, t.last(), k);
    }
}

/// Replaying a batch a second time changes nothing: the evaluation order of the batch
/// followed by itself is the batch's own.
pub proof fn lemma_replay_idempotent(items: Seq<EvaluationItem>)
    ensures
        canonical(items + items) == canonical(items),
{
    lemma_canonical_append(items, items);
    lemma_canonical_ordered(items);
    lemma_canonical_members(items);
    lemma_canonical_from_present(canonical(items), items);
}

/// No two items of `items` share a position.
pub open spec fn distinct_positions(items: Seq<EvaluationItem>) -> bool {
    forall|i: int, j: int| 0 <= i < items.len() && 0 <= j < items.len() && i != j
        ==> !same_position(#[trigger] items[i], #[trigger] items[j])
}

proof fn lemma_ordered_unique(s: Seq<EvaluationItem>, t: Seq<EvaluationItem>)
    requires
        strictly_ordered(s),
        strictly_ordered(t),
        forall|x: EvaluationItem| s.contains(x) <==> t.contains(x),
    ensures
        s == t,
    decreases s.len() + t.len(),
{
    if s.len() == 0 || t.len() == 0 {
        if s.len() > 0 {
            assert(s.contains(s[0]));
        }
        if t.len() > 0 {
            assert(t.contains(t[0]));
        }
        assert(s =~= t);
    } else {
        assert(s.contains(s[0]));
        let k = choose|k: int| 0 <= k < t.len() && t[k] == s[0];
        assert(t.contains(t[0]));
        let m = choose|m: int| 0 <= m < s.len() && s[m] == t[0];
        if k > 0 {
            assert(before(t[0], t[k]));
            if m > 0 {
                assert(before(s[0], s[m]));
                lemma_position_trichotomy(s[0], t[0]);
            } else {
                lemma_position_trichotomy(t[0], t[0]);
            }
        }
        assert(s[0] == t[0]);
        let s1 = s.drop_first();
        let t1 = t.drop_first();
        assert forall|i: int, j: int| 0 <= i < j < s1.len() implies before(#[trigger] s1[i], #[trigger] s1[j]) by {
            assert(before(s[i + 1], s[j + 1]));
        }
        assert forall|i: int, j: int| 0 <= i < j < t1.len() implies before(#[trigger] t1[i], #[trigger] t1[j]) by {
            assert(before(t[i + 1], t[j + 1]));
        }
        assert forall|x: EvaluationItem| s1.contains(x) <==> t1.contains(x) by {
            if s1.contains(x) {
                let a = choose|a: int| 0 <= a < s1.len() && s1[a] == x;
                assert(s.contains(x) && s[a + 1] == x);
                assert(before(s[0], s[a + 1]));
                lemma_position_trichotomy(x, x);
                assert(t.contains(x));
                let b = choose|b: int| 0 <= b < t.len() && t[b] == x;
                assert(b != 0);
                assert(t1[b - 1] == x);
            }
            if t1.contains(x) {
                let a = choose|a: int| 0 <= a < t1.len() && t1[a] == x;
                assert(t.contains(x) && t[a + 1] == x);
                assert(before(t[0], t[a + 1]));
                lemma_position_trichotomy(x, x);
                assert(s.contains(x));
                let b = choose|b: int| 0 <= b < s.len() && s[b] == x;
                assert(b != 0);
                assert(s1[b - 1] == x);
            }
        }
        lemma_ordered_unique(s1, t1);
        assert(s =~= seq![s[0]] + s1);
        assert(t =~= seq![t[0]] + t1);
    }
}

proof fn lemma_canonical_is_set(items: Seq<EvaluationItem>)
    requires
        distinct_positions(items),
    ensures
        forall|x: EvaluationItem| canonical(items).contains(x) <==> items.contains(x),
{
    lemma_canonical_members(items);
    let c = canonical(items);
    assert forall|x: EvaluationItem| c.contains(x) <==> items.contains(x) by {
        if c.contains(x) {
            let k = choose|k: int| 0 <= k < c.len() && c[k] == x;
            assert(items.contains(c[k]));
        }
        if items.contains(x) {
            let i = choose|i: int| 0 <= i < items.len() && items[i] == x;
            assert(position_taken(c, items[i]));
            let k = choose|k: int| 0 <= k < c.len() && #[trigger] same_position(c[k], items[i]);
            assert(items.contains(c[k]));
            let j = choose|j: int| 0 <= j < items.len() && items[j] == c[k];
            if j != i {
                assert(!same_position(items[j], items[i]));
            }
            assert(c[k] == x);
        }
    }
}

/// Convergence: two batches holding the same operations, each at its own position,
/// are evaluated in the same order whatever order they arrive in.
pub proof fn lemma_order_independent(a: Seq<EvaluationItem>, b: Seq<EvaluationItem>)
    requires
        distinct_positions(a),
        distinct_positions(b),
        forall|x: EvaluationItem| a.contains(x) <==> b.contains(x),
    ensures
        canonical(a) == canonical(b),
{
    lemma_canonical_is_set(a);
    lemma_canonical_is_set(b);
    lemma_canonical_ordered(a);
    lemma_canonical_ordered(b);
    assert forall|x: EvaluationItem| canonical(a).contains(x) <==> canonical(b).contains(x) by {
        assert(canonical(a).contains(x) <==> a.contains(x));
        assert(canonical(b).contains(x) <==> b.contains(x));
    }
    lemma_ordered_unique(canonical(a), canonical(b));
}

/// Whether `a` comes before `b` (-1), shares its position (0), or comes after it (1).
pub fn order_items(a: &EvaluationItem, b: &EvaluationItem) -> (r: i8)
    ensures
        r == -1 <==> before(*a, *b),
        r == 0 <==> same_position(*a, *b),
        r == 1 <==> before(*b, *a),
{
    proof {
        lemma_position_trichotomy(*a, *b);
        lemma_lex_order_range(a.mutation_id.digest@, b.mutation_id.digest@);
        lemma_lex_order_eq(a.mutation_id.digest@, b.mutation_id.digest@);
        lemma_lex_order_antisym(a.mutation_id.digest@, b.mutation_id.digest@);
    }
    if a.epoch.0 != b.epoch.0 {
        return if a.epoch.0 < b.epoch.0 { -1 } else { 1 };
    }
    if a.lamport_rank.0 != b.lamport_rank.0 {
        return if a.lamport_rank.0 < b.lamport_rank.0 { -1 } else { 1 };
    }
    if a.mutation_id.algorithm_id != b.mutation_id.algorithm_id {
        return if a.mutation_id.algorithm_id < b.mutation_id.algorithm_id { -1 } else { 1 };
    }
    let c = compare_bytes(a.mutation_id.digest.as_slice(), b.mutation_id.digest.as_slice());
    if c != 0 {
        return if c < 0 { -1 } else { 1 };
    }
    if a.operation_index.0 != b.operation_index.0 {
        return if a.operation_index.0 < b.operation_index.0 { -1 } else { 1 };
    }
    0
}

#[derive(Debug)]
pub struct CrdtEvaluator {
    pub register_state: KeyedMap<Vec<u8>, RegisterState>,
}

impl CrdtEvaluator {
    pub fn new() -> (r: Self)
        ensures
            r.register_state@ == Map::<Seq<u8>, RegisterState>::empty(),
    {
        CrdtEvaluator { register_state: KeyedMap::new() }
    }

    /// Applies `items` in evaluation order, each position once (its first item in
    /// `items`). An item of a higher epoch than any seen in this call clears the
    /// registers first; adds and removes then overwrite their key's register.
    pub fn evaluate(&mut self, items: Vec<EvaluationItem>)
        ensures
            final(self).register_state@ == apply_all((old(self).register_state@, 0), canonical(items@)).0,
    {
        let ghost orig = items@;
        let n0 = items.len();
        let mut items = items;
        let mut sorted: Vec<EvaluationItem> = Vec::new();
        let mut consumed: usize = 0;
        assert(orig.take(0) =~= Seq::<EvaluationItem>::empty());
        while items.len() > 0
            invariant
                consumed <= orig.len(),
                orig.len() == n0,
                items@ == orig.skip(consumed as int),
                sorted@ == canonical(orig.take(consumed as int)),
                strictly_ordered(sorted@),
            decreases items@.len(),
        {
            let x = items.remove(0);
            proof {
                assert(orig.take(consumed + 1).drop_last() =~= orig.take(consumed as int));
                assert(orig.take(consumed + 1).last() == x);
                assert(orig.skip(consumed + 1) =~= orig.skip(consumed as int).drop_first());
            }
            let mut p: usize = 0;
            while p < sorted.len() && order_items(&sorted[p], &x) == -1
                invariant
                    p <= sorted@.len(),
                    forall|j: int| 0 <= j < p ==> before(#[trigger] sorted@[j], x),
                decreases sorted@.len() - p,
            {
                p = p + 1;
            }
            proof {
                lemma_insert_unique(sorted@, x, p as int);
            }
            if p < sorted.len() && order_items(&sorted[p], &x) == 0 {
            } else {
                sorted.insert(p, x);
            }
            consumed = consumed + 1;
        }
        proof {
            assert(orig.take(orig.len() as int) =~= orig);
        }
        let ghost order = sorted@;
        let n1 = sorted.len();
        let ghost start = (self.register_state@, 0u64);
        let mut current_epoch: u64 = 0;
        let mut done: usize = 0;
        assert(order.take(0) =~= Seq::<EvaluationItem>::empty());
        while sorted.len() > 0
            invariant
                done <= order.len(),
                order.len() == n1,
                sorted@ == order.skip(done as int),
                (self.register_state@, current_epoch) == apply_all(start, order.take(done as int)),
            decreases sorted@.len(),
        {
            let item = sorted.remove(0);
            proof {
                assert(order.take(done + 1).drop_last() =~= order.take(done as int));
                assert(order.take(done + 1).last() == item);
                assert(order.skip(done + 1) =~= order.skip(done as int).drop_first());
            }
            if item.epoch.0 > current_epoch {
                self.register_state = KeyedMap::new();
                current_epoch = item.epoch.0;
            }
            match item.body {
                OperationBody::Add { key, payload } => {
                    self.register_state.insert(key, RegisterState::Add {
                        op_tag: item.op_tag,
                        payload,
                        epoch: item.epoch,
                        lamport_rank: item.lamport_rank,
                        mutation_id: item.mutation_id,
                        operation_index: item.operation_index,
                    });
                }
                OperationBody::Remove { key } => {
                    self.register_state.insert(key, RegisterState::Remove {
                        op_tag: item.op_tag,
                        epoch: item.epoch,
                        lamport_rank: item.lamport_rank,
                        mutation_id: item.mutation_id,
                        operation_index: item.operation_index,
                    });
                }
                _ => {}
            }
            done = done + 1;
        }
        proof {
            assert(order.take(order.len() as int) =~= order);
        }
    }
}

} // verus!
