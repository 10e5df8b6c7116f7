//! Who takes part in a conversation.

use std::collections::HashMap;
use vstd::prelude::*;

verus! {

broadcast use vstd::std_specs::hash::group_hash_axioms;

/// The client itself.
#[derive(Clone)]
pub struct Local {
    pub id: u64,
}

/// Another user.
pub struct Remote {
    pub id: u64,
}

/// The client and the other users that it knows, by their sessions.
pub struct Session {
    pub local: Local,
    pub remotes: HashMap<u64, Remote>,
}

/// The known users once the user `id` is known too.
pub open spec fn with_remote(remotes: Map<u64, Remote>, id: u64) -> Map<u64, Remote> {
    if remotes.contains_key(id) {
        remotes
    } else {
        remotes.insert(id, Remote { id })
    }
}

impl Session {
    /// Whether every user is kept under its own session.
    pub open spec fn wf(&self) -> bool {
        forall|id: u64| #[trigger]
            self.remotes@.contains_key(id) ==> self.remotes@[id] == (Remote { id })
    }

    /// Nobody is known yet, and the client has no session.
    pub fn new() -> (r: Session)
        ensures
            r.wf(),
            r.local.id == 0,
            r.remotes@ == Map::<u64, Remote>::empty(),
    {
        Session { local: Local { id: 0 }, remotes: HashMap::new() }
    }

    /// Makes the user known, unless it already is.
    pub fn factory(&mut self, id: u64)
        requires
            old(self).wf(),
        ensures
            final(self).wf(),
            final(self).local == old(self).local,
            final(self).remotes@ == with_remote(old(self).remotes@, id),
    {
        if !self.remotes.contains_key(&id) {
            self.remotes.insert(id, Remote { id });
        }
    }
}

/// A user that is made known is known, and whoever was known stays known as it was. Nobody else
/// comes in.
pub proof fn users_stay_known(remotes: Map<u64, Remote>, id: u64, other: u64)
    ensures
        with_remote(remotes, id).contains_key(id),
        remotes.contains_key(other) ==> with_remote(remotes, id).contains_key(other)
            && with_remote(remotes, id)[other] == remotes[other],
        other != id && !remotes.contains_key(other) ==> !with_remote(remotes, id).contains_key(
            other,
        ),
{
}

/// To make a user known twice is to make it known once.
pub proof fn known_once(remotes: Map<u64, Remote>, id: u64)
    ensures
        with_remote(with_remote(remotes, id), id) == with_remote(remotes, id),
{
}

/// The order in which users are made known does not matter.
pub proof fn order_of_users(remotes: Map<u64, Remote>, a: u64, b: u64)
    ensures
        with_remote(with_remote(remotes, a), b) == with_remote(with_remote(remotes, b), a),
{
    assert(with_remote(with_remote(remotes, a), b) =~= with_remote(with_remote(remotes, b), a));
}

/// After a user is made known, the user is kept under its own session, everybody else as before,
/// and the client stays who it was.
pub proof fn users_are_kept_by_session(session: &mut Session, id: u64, r: (), other: u64)
    requires
        old(session).wf(),
        call_ensures(Session::factory, (session, id), r),
    ensures
        final(session).local.id == old(session).local.id,
        final(session).remotes@.contains_key(id),
        final(session).remotes@[id].id == id,
        other != id ==> (final(session).remotes@.contains_key(other) <==> old(session).remotes@.contains_key(other)),
        final(session).remotes@.contains_key(other) ==> final(session).remotes@[other].id == other,
{
}

} // verus!
