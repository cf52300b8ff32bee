//! The decisions of a listener: whom to accept, and what sending to all remotes
//! reports.

use std::time::Duration;

use vstd::prelude::*;

use crate::common::SeqId;
use crate::error::Error;
use crate::socket::SocketConfig;

verus! {

/// Configuration of a listener.
#[derive(Debug, Clone, Copy)]
pub struct ListenerConfig {
    /// Accept connections from friends of the local user only.
    pub accept_only_friends: bool,
    /// The configuration of the sockets that the listener accepts.
    pub socket_config: SocketConfig,
}

/// Why a connection is turned down.
#[derive(Debug, Clone, Copy, PartialEq, Eq, Structural)]
pub enum RejectReason {
    /// Only friends are accepted, and the remote is not a Steam user.
    NotSteamUser,
    /// Only friends are accepted, and the remote is not one.
    NotFriend,
}

impl RejectReason {
    /// The reason given to the remote.
    pub fn message(&self) -> (r: &'static str)
        ensures
            *self is NotSteamUser ==> r@ == "not friends: not steam user"@,
            *self is NotFriend ==> r@ == "not friends"@,
    {
        match self {
            RejectReason::NotSteamUser => "not friends: not steam user",
            RejectReason::NotFriend => "not friends",
        }
    }
}

/// What to do with a connection request.
#[derive(Debug, Clone, Copy, PartialEq, Eq, Structural)]
pub enum Admission {
    Accept,
    Reject(RejectReason),
    /// Ask whether the Steam user with this id is a friend, then decide with
    /// `admission_after_friend_check`.
    CheckFriend(u64),
}

/// The decision once it is known whether the remote is a friend.
pub open spec fn spec_admission_after_friend_check(is_friend: bool) -> Admission {
    if is_friend {
        Admission::Accept
    } else {
        Admission::Reject(RejectReason::NotFriend)
    }
}

/// What to do with a request from a remote, given its Steam id if it is a Steam
/// user.
pub open spec fn spec_admission(config: ListenerConfig, remote_steam_id: Option<u64>) -> Admission {
    if !config.accept_only_friends {
        Admission::Accept
    } else {
        match remote_steam_id {
            None => Admission::Reject(RejectReason::NotSteamUser),
            Some(id) => Admission::CheckFriend(id),
        }
    }
}

/// The decision once it is known whether the remote is a friend.
pub fn admission_after_friend_check(is_friend: bool) -> (r: Admission)
    ensures
        r == spec_admission_after_friend_check(is_friend),
{
    if is_friend {
        Admission::Accept
    } else {
        Admission::Reject(RejectReason::NotFriend)
    }
}

impl ListenerConfig {
    /// Accepts anyone, sockets with the default configuration.
    pub fn new() -> (r: Self)
        ensures
            !r.accept_only_friends,
            r.socket_config.timeout is None,
    {
        Self { accept_only_friends: false, socket_config: SocketConfig::new() }
    }

    /// The same configuration, with the sockets' timeout set to `timeout`.
    pub fn with_timeout(self, timeout: Duration) -> (r: Self)
        ensures
            r.accept_only_friends == self.accept_only_friends,
            r.socket_config.timeout == Some(timeout),
    {
        let mut r = self;
        r.socket_config.timeout = Some(timeout);
        r
    }

    /// What to do with a request from a remote, given its Steam id if it is a Steam
    /// user.
    pub fn admission(&self, remote_steam_id: Option<u64>) -> (r: Admission)
        ensures
            r == spec_admission(*self, remote_steam_id),
    {
        if !self.accept_only_friends {
            return Admission::Accept;
        }
        match remote_steam_id {
            None => Admission::Reject(RejectReason::NotSteamUser),
            Some(id) => Admission::CheckFriend(id),
        }
    }
}

impl Default for ListenerConfig {
    fn default() -> (r: Self)
        ensures
            !r.accept_only_friends,
            r.socket_config.timeout is None,
    {
        Self::new()
    }
}

/// A request from a Steam user is accepted exactly when friends only are not
/// required, or the user is a friend; one from another identity exactly when
/// friends only are not required.
pub proof fn lemma_admission(config: ListenerConfig, remote_steam_id: Option<u64>, is_friend: bool)
    ensures
        ({
            let decision = match spec_admission(config, remote_steam_id) {
                Admission::CheckFriend(_) => spec_admission_after_friend_check(is_friend),
                first => first,
            };
            (decision == Admission::Accept) == (!config.accept_only_friends || (remote_steam_id is Some
                && is_friend))
        }),
{
}

/// The last error among `results`, if any.
pub open spec fn last_error(results: Seq<Result<SeqId, Error>>) -> Option<Error>
    decreases results.len(),
{
    if results.len() == 0 {
        None
    } else {
        match results.last() {
            Err(e) => Some(e),
            Ok(_) => last_error(results.drop_last()),
        }
    }
}

/// Some of `results` is a success.
pub open spec fn any_success(results: Seq<Result<SeqId, Error>>) -> bool {
    exists|i: int| 0 <= i < results.len() && results[i] is Ok
}

/// What sending to every remote reports, from the result of each send: the last
/// error when no send succeeded, else success.
pub open spec fn send_all_result(results: Seq<Result<SeqId, Error>>) -> Result<(), Error> {
    match last_error(results) {
        Some(e) if !any_success(results) => Err(e),
        _ => Ok(()),
    }
}

/// Collects the results of sending to every remote.
pub struct SendAllOutcome {
    err: Option<Error>,
    has_success: bool,
}

impl SendAllOutcome {
    /// The last error seen, and whether some send succeeded.
    pub closed spec fn view(self) -> (Option<Error>, bool) {
        (self.err, self.has_success)
    }

    /// No result collected.
    pub fn new() -> (r: Self)
        ensures
            r.view() == (None::<Error>, false),
    {
        SendAllOutcome { err: None, has_success: false }
    }

    /// Collects the result of one send.
    pub fn record(&mut self, result: Result<SeqId, Error>)
        ensures
            final(self).view() == (match result {
                Ok(_) => (old(self).view().0, true),
                Err(e) => (Some(e), old(self).view().1),
            }),
    {
        match result {
            Ok(_) => self.has_success = true,
            Err(e) => self.err = Some(e),
        }
    }

    /// The result of sending to every remote: the last error when no send
    /// succeeded, else success.
    pub fn finish(self) -> (r: Result<(), Error>)
        ensures
            r == (match self.view().0 {
                Some(e) if !self.view().1 => Err::<(), Error>(e),
                _ => Ok(()),
            }),
    {
        if let Some(err) = self.err {
            if !self.has_success {
                return Err(err);
            }
        }
        Ok(())
    }
}

/// Collecting `results` one by one gives the last error and whether one succeeded,
/// and finishing then gives `send_all_result`.
pub proof fn lemma_collect_results(results: Seq<Result<SeqId, Error>>)
    ensures
        collected(results) == (last_error(results), any_success(results)),
        (match collected(results).0 {
            Some(e) if !collected(results).1 => Err::<(), Error>(e),
            _ => Ok(()),
        }) == send_all_result(results),
    decreases results.len(),
{
    if results.len() > 0 {
        let init = results.drop_last();
        lemma_collect_results(init);
        if any_success(init) {
            let i = choose|i: int| 0 <= i < init.len() && init[i] is Ok;
            assert(results[i] is Ok);
        }
        if any_success(results) && !any_success(init) {
            let i = choose|i: int| 0 <= i < results.len() && results[i] is Ok;
            if i < init.len() {
                assert(init[i] is Ok);
            }
        }
    }
}

/// The state reached by collecting `results` into a new `SendAllOutcome`.
pub open spec fn collected(results: Seq<Result<SeqId, Error>>) -> (Option<Error>, bool)
    decreases results.len(),
{
    if results.len() == 0 {
        (None, false)
    } else {
        let before = collected(results.drop_last());
        match results.last() {
            Ok(_) => (before.0, true),
            Err(e) => (Some(e), before.1),
        }
    }
}

/// Sending to every remote fails exactly when there was at least one remote and
/// every send failed.
pub proof fn lemma_send_all_fails_iff_all_failed(results: Seq<Result<SeqId, Error>>)
    ensures
        send_all_result(results) is Err <==> (results.len() > 0 && forall|i: int|
            0 <= i < results.len() ==> #[trigger] results[i] is Err),
    decreases results.len(),
{
    if results.len() > 0 {
        lemma_send_all_fails_iff_all_failed(results.drop_last());
        let init = results.drop_last();
        if forall|i: int| 0 <= i < results.len() ==> #[trigger] results[i] is Err {
            assert(results.last() is Err);
            assert(!any_success(results));
        }
        if any_success(results) {
            let i = choose|i: int| 0 <= i < results.len() && results[i] is Ok;
            assert(!(forall|i: int| 0 <= i < results.len() ==> #[trigger] results[i] is Err));
        } else {
            assert forall|i: int| 0 <= i < results.len() implies #[trigger] results[i] is Err by {
                if results[i] is Ok {
                    assert(any_success(results));
                }
            }
            assert(results.last() is Err);
        }
    }
}

} // verus!
