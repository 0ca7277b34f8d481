//! The sessions a client keeps, by the text of their ids.

use vstd::prelude::*;
use vstd::string::*;
use crate::keyed::KeyedTable;
use super::session::{Session, uuid_hyphenated};

verus! {

/// The sessions, each under a key: the text of its id when it was added.
#[derive(Debug)]
pub struct SessionStore {
    sessions: KeyedTable<Session>,
}

impl SessionStore {
    /// The store is well formed: no key twice, every session well formed.
    pub closed spec fn wf(&self) -> bool {
        &&& self.sessions.wf()
        &&& forall|k: Seq<char>| #[trigger] self.sessions.map().contains_key(k) ==> self.sessions.map()[k].wf()
    }

    /// The sessions, by key.
    pub closed spec fn sessions_map(&self) -> Map<Seq<char>, Session> {
        self.sessions.map()
    }

    /// An empty store.
    pub fn new() -> (r: Self)
        ensures
            r.wf(),
            r.sessions_map() =~= Map::<Seq<char>, Session>::empty(),
    {
        SessionStore { sessions: KeyedTable::new() }
    }

    /// A store holding the given sessions under the given keys, as they were
    /// stored.
    pub fn from_table(sessions: KeyedTable<Session>) -> (r: Self)
        requires
            sessions.wf(),
            forall|k: Seq<char>| #[trigger] sessions.map().contains_key(k) ==> sessions.map()[k].wf(),
        ensures
            r.wf(),
            r.sessions_map() == sessions.map(),
    {
        SessionStore { sessions }
    }

    /// The sessions, by key.
    pub fn table(&self) -> (r: &KeyedTable<Session>)
        requires
            self.wf(),
        ensures
            r.wf(),
            r.map() == self.sessions_map(),
    {
        &self.sessions
    }

    /// Adds a session under the text of its id, replacing any session there.
    pub fn add_session(&mut self, session: Session)
        requires
            old(self).wf(),
            session.wf(),
        ensures
            final(self).wf(),
            final(self).sessions_map() == old(self).sessions_map().insert(
                uuid_hyphenated(session.spec_id().0),
                session,
            ),
    {
        let key = session.id().to_string();
        self.sessions.insert(key, session);
    }

    /// The session under `id`, if there is one.
    pub fn get_session(&self, id: &str) -> (r: Option<&Session>)
        requires
            self.wf(),
        ensures
            match r {
                Some(s) => self.sessions_map().contains_key(id@) && self.sessions_map()[id@] == *s && s.wf(),
                None => !self.sessions_map().contains_key(id@),
            },
    {
        self.sessions.get(id)
    }

    /// A mutable borrow of the session under `id`, if there is one; what is
    /// written through it becomes the session under `id`.
    pub fn get_session_mut(&mut self, id: &str) -> (r: Option<&mut Session>)
        requires
            old(self).wf(),
        ensures
            match r {
                Some(s) => {
                    &&& old(self).sessions_map().contains_key(id@)
                    &&& *s == old(self).sessions_map()[id@]
                    &&& s.wf()
                    &&& final(self).sessions_map() == old(self).sessions_map().insert(id@, *final(s))
                    &&& final(s).wf() ==> final(self).wf()
                },
                None => !old(self).sessions_map().contains_key(id@) && *final(self) == *old(self),
            },
    {
        self.sessions.get_mut(id)
    }

    /// Takes away the session under `id`, if there is one.
    pub fn remove_session(&mut self, id: &str)
        requires
            old(self).wf(),
        ensures
            final(self).wf(),
            final(self).sessions_map() == old(self).sessions_map().remove(id@),
    {
        self.sessions.remove(id);
    }

    /// Whether the store holds no session.
    pub fn is_empty(&self) -> (r: bool)
        requires
            self.wf(),
        ensures
            r == (self.sessions_map().dom() =~= Set::<Seq<char>>::empty()),
    {
        self.sessions.is_empty()
    }
}

/// A session added to a store is found under the text of its id, and the
/// sessions under other keys are the ones that were there before.
pub proof fn law_added_session_is_found(before: SessionStore, after: SessionStore, session: Session, key: Seq<char>)
    requires
        after.sessions_map() == before.sessions_map().insert(uuid_hyphenated(session.spec_id().0), session),
    ensures
        key == uuid_hyphenated(session.spec_id().0) ==> after.sessions_map().contains_key(key)
            && after.sessions_map()[key] == session,
        key != uuid_hyphenated(session.spec_id().0) ==> after.sessions_map().contains_key(key)
            == before.sessions_map().contains_key(key) && (after.sessions_map().contains_key(key)
            ==> after.sessions_map()[key] == before.sessions_map()[key]),
{
}

/// A removed session is no longer found; other keys keep their sessions.
pub proof fn law_removed_session_is_gone(before: SessionStore, after: SessionStore, id: Seq<char>, key: Seq<char>)
    requires
        after.sessions_map() == before.sessions_map().remove(id),
    ensures
        !after.sessions_map().contains_key(id),
        key != id ==> after.sessions_map().contains_key(key) == before.sessions_map().contains_key(key)
            && (after.sessions_map().contains_key(key) ==> after.sessions_map()[key]
            == before.sessions_map()[key]),
{
}

} // verus!
