//! The error reported by sockets and listeners.

use vstd::prelude::*;

verus! {

/// An error: a message, and the description of what caused it, if anything did.
#[derive(Debug, Clone)]
pub struct Error {
    pub msg: String,
    pub source: Option<String>,
}

/// The prefix that marks an error as "unavailable".
pub open spec fn unavailable_prefix() -> Seq<char> {
    seq!['u', 'n', 'a', 'v', 'a', 'i', 'l', 'a', 'b', 'l', 'e']
}

impl Error {
    /// An error with message `msg` and no cause.
    pub fn new(msg: &str) -> (r: Self)
        ensures
            r.msg@ == msg@,
            r.source is None,
    {
        Error { msg: msg.to_owned(), source: None }
    }

    /// An error with message `msg`, caused by the error described by `cause`.
    pub fn from_cause(msg: &str, cause: String) -> (r: Self)
        ensures
            r.msg@ == msg@,
            r.source == Some(cause),
    {
        Error { msg: msg.to_owned(), source: Some(cause) }
    }

    /// The error for a remote that cannot be connected to.
    pub fn new_unavailable() -> (r: Self)
        ensures
            r.msg@ == "unavailable to connect to"@,
            r.source is None,
    {
        Self::new("unavailable to connect to")
    }

    /// Whether the message starts with "unavailable".
    pub fn is_unavailable(&self) -> (r: bool)
        ensures
            r == (self.msg@.len() >= unavailable_prefix().len() && self.msg@.take(
                unavailable_prefix().len() as int,
            ) == unavailable_prefix()),
    {
        let prefix = "unavailable";
        proof {
            reveal_strlit("unavailable");
            assert(prefix@ =~= unavailable_prefix());
        }
        let msg = self.msg.as_str();
        if msg.unicode_len() < 11 {
            return false;
        }
        let mut i: usize = 0;
        while i < 11
            invariant
                i <= 11,
                msg@.len() >= 11,
                prefix@ == unavailable_prefix(),
                msg@ == self.msg@,
                forall|j: int| 0 <= j < i ==> msg@[j] == prefix@[j],
            decreases 11 - i,
        {
            if msg.get_char(i) != prefix.get_char(i) {
                assert(self.msg@.take(11)[i as int] != unavailable_prefix()[i as int]);
                return false;
            }
            i += 1;
        }
        assert(self.msg@.take(11) =~= unavailable_prefix());
        true
    }
}

/// An error made by `new_unavailable` is recognised by `is_unavailable`.
pub proof fn lemma_unavailable_recognised(e: Error)
    requires
        e.msg@ == "unavailable to connect to"@,
    ensures
        e.msg@.len() >= unavailable_prefix().len(),
        e.msg@.take(unavailable_prefix().len() as int) == unavailable_prefix(),
{
    reveal_strlit("unavailable to connect to");
    assert(e.msg@.take(11) =~= unavailable_prefix());
}

} // verus!
