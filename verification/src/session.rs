//! The sessions that are open.

#![verifier::loop_isolation(false)]

use crate::error::{self, AppError, ErrorView};
use crate::keyed::KeyedList;
use vstd::prelude::*;

verus! {

/// The size of a session's terminal.
#[derive(Clone, Copy, Debug, PartialEq, Eq, Structural)]
pub struct SessionEntry {
    pub columns: u16,
    pub rows: u16,
}

impl DeepView for SessionEntry {
    type V = SessionEntry;

    open spec fn deep_view(&self) -> SessionEntry {
        *self
    }
}

/// The size that a session starts with.
pub open spec fn first_size() -> SessionEntry {
    SessionEntry { columns: 80, rows: 24 }
}

/// The sessions by their ids.
pub type Sessions = Map<Seq<char>, SessionEntry>;

/// The sessions after one was resized.
pub open spec fn resized(sessions: Sessions, id: Seq<char>, columns: u16, rows: u16) -> Result<
    (Sessions, ()),
    ErrorView,
> {
    if sessions.contains_key(id) {
        Ok((sessions.insert(id, SessionEntry { columns, rows }), ()))
    } else {
        Err(error::session_not_found_error(id))
    }
}

/// The sessions after one was closed.
pub open spec fn closed(sessions: Sessions, id: Seq<char>) -> Result<(Sessions, ()), ErrorView> {
    if sessions.contains_key(id) {
        Ok((sessions.remove(id), ()))
    } else {
        Err(error::session_not_found_error(id))
    }
}

/// Keeps the sessions that are open.
pub struct SessionRegistry {
    sessions: KeyedList<SessionEntry>,
}

impl View for SessionRegistry {
    type V = Sessions;

    closed spec fn view(&self) -> Sessions {
        self.sessions.contents()
    }
}

impl SessionRegistry {
    /// No session stands there twice.
    pub closed spec fn wf(self) -> bool {
        self.sessions.wf()
    }

    /// The ids of the sessions, in the order in which they came.
    pub closed spec fn ids(self) -> Seq<Seq<char>> {
        self.sessions.keys()
    }

    /// A registry without sessions.
    pub fn new() -> (r: Self)
        ensures
            r.wf(),
            r@ == Map::<Seq<char>, SessionEntry>::empty(),
    {
        let r = SessionRegistry { sessions: KeyedList::new() };
        assert(r@ =~= Map::empty());
        r
    }

    /// Adds a session, in place of one with the same id.
    pub fn insert(&mut self, session_id: String)
        requires
            old(self).wf(),
        ensures
            final(self).wf(),
            final(self)@ == old(self)@.insert(session_id@, first_size()),
    {
        self.sessions.put(session_id, SessionEntry { columns: 80, rows: 24 });
    }

    /// Whether a session is open.
    pub fn contains(&self, session_id: &str) -> (r: bool)
        requires
            self.wf(),
        ensures
            r == self@.contains_key(session_id@),
    {
        self.sessions.place(session_id).is_some()
    }

    /// The size of a session's terminal.
    pub fn terminal_size(&self, session_id: &str) -> (r: Option<SessionEntry>)
        requires
            self.wf(),
        ensures
            r == (if self@.contains_key(session_id@) {
                Some(self@[session_id@])
            } else {
                None
            }),
    {
        match self.sessions.place(session_id) {
            Some(at) => Some(*self.sessions.value_at(at)),
            None => None,
        }
    }

    /// Sets the size of a session's terminal.
    pub fn resize(&mut self, session_id: &str, columns: u16, rows: u16) -> (r: Result<(), AppError>)
        requires
            old(self).wf(),
        ensures
            final(self).wf(),
            error::changes_as(
                old(self)@,
                final(self)@,
                r,
                resized(old(self)@, session_id@, columns, rows),
            ),
    {
        match self.sessions.place(session_id) {
            Some(at) => {
                self.sessions.replace(at, SessionEntry { columns, rows });
                Ok(())
            },
            None => Err(AppError::session_not_found(session_id)),
        }
    }

    /// Closes a session.
    pub fn close(&mut self, session_id: &str) -> (r: Result<(), AppError>)
        requires
            old(self).wf(),
        ensures
            final(self).wf(),
            error::changes_as(old(self)@, final(self)@, r, closed(old(self)@, session_id@)),
    {
        match self.sessions.take(session_id) {
            Some(_) => Ok(()),
            None => {
                assert(old(self)@.remove(session_id@) =~= old(self)@);
                Err(AppError::session_not_found(session_id))
            },
        }
    }

    /// Closes every session, and gives the ids of those that were open.
    pub fn close_all(&mut self) -> (r: Vec<String>)
        requires
            old(self).wf(),
        ensures
            final(self).wf(),
            final(self)@ == Map::<Seq<char>, SessionEntry>::empty(),
            forall|id: Seq<char>| #[trigger]
                r.deep_view().contains(id) <==> old(self)@.contains_key(id),
            r.deep_view().no_duplicates(),
    {
        let mut r: Vec<String> = Vec::new();
        let mut i: usize = 0;
        let ghost keys = self.sessions.keys();
        while i < self.sessions.len()
            invariant
                *self == *old(self),
                i <= keys.len(),
                r@.len() == i,
                forall|j: int| 0 <= j < i ==> (#[trigger] r@[j])@ == keys[j],
            decreases keys.len() - i,
        {
            r.push(self.sessions.key_at(i).clone());
            i = i + 1;
        }
        self.sessions.clear();
        proof {
            assert(r.deep_view() =~= keys);
            assert(self@ =~= Map::empty());
            assert forall|id: Seq<char>| #[trigger] r.deep_view().contains(id) <==> old(
                self,
            )@.contains_key(id) by {
                assert(old(self).sessions.has(id) == keys.contains(id));
            }
        }
        r
    }

    /// How many sessions are open.
    pub fn size(&self) -> (r: usize)
        requires
            self.wf(),
        ensures
            r == self.ids().len(),
            r == 0 <==> self@ == Map::<Seq<char>, SessionEntry>::empty(),
    {
        proof {
            if self.sessions.keys().len() == 0 {
                assert(self@ =~= Map::empty());
            } else {
                self.sessions.lemma_at(0);
            }
        }
        self.sessions.len()
    }
}

/// A session that was added is open until it is closed, and closing it leaves the
/// others as they were.
pub proof fn session_lifecycle(sessions: Sessions, id: Seq<char>, columns: u16, rows: u16)
    ensures
        ({
            let opened = sessions.insert(id, first_size());
            &&& opened.contains_key(id)
            &&& resized(opened, id, columns, rows) is Ok
            &&& closed(opened, id) == Ok::<(Sessions, ()), ErrorView>((sessions.remove(id), ()))
            &&& closed(sessions.remove(id), id) is Err
        }),
{
    let opened = sessions.insert(id, first_size());
    assert(opened.remove(id) =~= sessions.remove(id));
}

/// A session starts with 80 columns and 24 rows, has the size that it was last given, and
/// the sizes of the others stay. A session that is not open is neither resized nor closed,
/// and is named.
pub proof fn sessions_have_the_size_they_were_given(
    sessions: Sessions,
    id: Seq<char>,
    columns: u16,
    rows: u16,
    other: Seq<char>,
)
    requires
        other != id,
    ensures
        first_size().columns == 80,
        first_size().rows == 24,
        match resized(sessions, id, columns, rows) {
            Ok((after, _)) => {
                &&& sessions.contains_key(id)
                &&& after.contains_key(id)
                &&& after[id].columns == columns
                &&& after[id].rows == rows
                &&& after.contains_key(other) == sessions.contains_key(other)
                &&& sessions.contains_key(other) ==> after[other] == sessions[other]
            },
            Err(error) => !sessions.contains_key(id) && error.code == "SESSION-NOT-FOUND"@,
        },
        match closed(sessions, id) {
            Ok((after, _)) => {
                &&& sessions.contains_key(id)
                &&& !after.contains_key(id)
                &&& after.contains_key(other) == sessions.contains_key(other)
                &&& sessions.contains_key(other) ==> after[other] == sessions[other]
            },
            Err(error) => !sessions.contains_key(id) && error.code == "SESSION-NOT-FOUND"@,
        },
{
}

} // verus!
