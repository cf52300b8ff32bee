//! The set of sequence ids whose acknowledgement is awaited, held in a
//! `hashbrown::HashSet`.

use vstd::prelude::*;

use crate::common::SeqId;

verus! {

/// A `hashbrown::HashSet<SeqId>`; its contents are `ack_set_contents`.
#[verifier::external_body]
pub struct AckSet {
    set: hashbrown::HashSet<SeqId>,
}

/// The ids that an `AckSet` holds.
pub uninterp spec fn ack_set_contents(s: AckSet) -> Set<SeqId>;

impl AckSet {
    /// `hashbrown::HashSet::new`: a set that holds nothing.
    #[verifier::external_body]
    pub(crate) fn new() -> (s: AckSet)
        ensures
            ack_set_contents(s) == Set::<SeqId>::empty(),
    {
        AckSet { set: hashbrown::HashSet::new() }
    }

    /// `hashbrown::HashSet::insert`: adds `id`; true when it was not there before.
    #[verifier::external_body]
    pub(crate) fn insert(&mut self, id: SeqId) -> (r: bool)
        ensures
            ack_set_contents(*final(self)) == ack_set_contents(*old(self)).insert(id),
            r == !ack_set_contents(*old(self)).contains(id),
    {
        self.set.insert(id)
    }

    /// `hashbrown::HashSet::remove`: takes `id` out; true when it was there.
    #[verifier::external_body]
    pub(crate) fn remove(&mut self, id: SeqId) -> (r: bool)
        ensures
            ack_set_contents(*final(self)) == ack_set_contents(*old(self)).remove(id),
            r == ack_set_contents(*old(self)).contains(id),
    {
        self.set.remove(&id)
    }

    /// `hashbrown::HashSet::contains`: whether `id` is there.
    #[verifier::external_body]
    pub(crate) fn contains(&self, id: SeqId) -> (r: bool)
        ensures
            r == ack_set_contents(*self).contains(id),
    {
        self.set.contains(&id)
    }
}

} // verus!
