//! Sequence identifiers and their wrapping order.

use vstd::prelude::*;

verus! {

/// Identifier given to every message sent over a socket.
pub type SeqId = u32;

/// Number of distinct sequence ids, `SeqId::MAX + 1`.
pub open spec fn seq_id_modulus() -> int {
    0x1_0000_0000
}

/// How far `test` lies behind `curr`, counting forward modulo 2^32.
pub open spec fn seq_id_distance(curr: SeqId, test: SeqId) -> int {
    if curr >= test {
        curr - test
    } else {
        curr - test + seq_id_modulus()
    }
}

/// `test` is at or before `curr` when it lies less than `SeqId::MAX / 2` behind it.
pub open spec fn seq_id_is_past(curr: SeqId, test: SeqId) -> bool {
    seq_id_distance(curr, test) < 0x7fff_ffff
}

/// The sequence id that follows `id`, wrapping at `SeqId::MAX`.
pub open spec fn next_seq_id(id: SeqId) -> SeqId {
    if id == SeqId::MAX {
        0
    } else {
        (id + 1) as SeqId
    }
}

/// Is the `test` value a previous/past value compared to `curr`, taking wrapping into account.
pub fn is_seq_id_past(curr: SeqId, test: SeqId) -> (r: bool)
    ensures
        r == seq_id_is_past(curr, test),
{
    let diff = curr.wrapping_sub(test);
    diff < SeqId::MAX / 2
}

/// Every id counts as past relative to itself.
pub proof fn lemma_seq_id_past_reflexive(a: SeqId)
    ensures
        seq_id_is_past(a, a),
{
}

/// Two distinct ids are never both past each other.
pub proof fn lemma_seq_id_past_antisymmetric(a: SeqId, b: SeqId)
    requires
        a != b,
    ensures
        !(seq_id_is_past(a, b) && seq_id_is_past(b, a)),
{
}

/// The order only depends on the wrapping distance: moving both ids forward by
/// one step keeps it.
pub proof fn lemma_seq_id_past_shift(a: SeqId, b: SeqId)
    ensures
        seq_id_is_past(next_seq_id(a), next_seq_id(b)) == seq_id_is_past(a, b),
{
}

/// Between two ids that are not near half the id range apart, exactly one is past
/// the other.
pub proof fn lemma_seq_id_past_total(a: SeqId, b: SeqId)
    requires
        a != b,
        seq_id_distance(a, b) < 0x7fff_ffff || seq_id_distance(a, b) > 0x8000_0001,
    ensures
        seq_id_is_past(a, b) != seq_id_is_past(b, a),
{
}

} // verus!
