//! Session storage: a pluggable trait plus an in-memory implementation.

use vstd::prelude::*;
use vstd::map::*;
use crate::error::Result;
use crate::session;
use crate::session::{now_unix, Session, SessionView};
use crate::text::str_eq;

verus! {

/// What a store holds: a session for each id.
pub type Contents = Map<Seq<char>, SessionView>;

/// What a store gives for `id` at unix time `now`: the session, unless there
/// is none or it is expired.
pub open spec fn lookup(m: Contents, id: Seq<char>, now: i64) -> Option<SessionView> {
    if m.dom().contains(id) && !session::expired(m[id], now) {
        Some(m[id])
    } else {
        None
    }
}

/// Whether `s` is a stored session of `user_id` that is not expired at `now`.
pub open spec fn belongs(m: Contents, s: SessionView, user_id: Seq<char>, now: i64) -> bool {
    &&& m.dom().contains(s.id)
    &&& m[s.id] == s
    &&& s.user_id == user_id
    &&& !session::expired(s, now)
}

/// Whether `list` holds, each once and in any order, the sessions of `user_id`
/// that are not expired at `now`.
pub open spec fn lists_user(
    list: Seq<SessionView>,
    m: Contents,
    user_id: Seq<char>,
    now: i64,
) -> bool {
    &&& distinct_ids(list)
    &&& forall|s: SessionView| #[trigger] list.contains(s) <==> belongs(m, s, user_id, now)
}

/// The contents without the sessions of `user_id`.
pub open spec fn without_user(m: Contents, user_id: Seq<char>) -> Contents {
    Map::new(
        |id: Seq<char>| m.dom().contains(id) && m[id].user_id != user_id,
        |id: Seq<char>| m[id],
    )
}

/// Whether every session is stored under its own id.
pub open spec fn keyed(m: Contents) -> bool {
    forall|id: Seq<char>| #[trigger] m.dom().contains(id) ==> m[id].id == id
}

/// What an optional session holds.
pub open spec fn found(s: Option<Session>) -> Option<SessionView> {
    match s {
        Some(x) => Some(x@),
        None => None,
    }
}

/// What a list of sessions holds.
pub open spec fn session_views(list: Seq<Session>) -> Seq<SessionView> {
    list.map_values(|s: Session| s@)
}

/// Backend interface for session persistence.
///
/// Implementations must be thread-safe (`Send + Sync`). Sessions are copied in
/// and out; whether one is expired goes by a time that the system clock showed. A
/// store that is `reliable` never fails and stays reliable; of the contents after
/// a failure nothing is promised.
pub trait SessionStore: Send + Sync {
    /// What the store holds, expired sessions included.
    open spec fn contents(&self) -> Contents {
        arbitrary()
    }

    /// Whether the operations of this store succeed.
    open spec fn reliable(&self) -> bool {
        false
    }

    /// Persist a new session.
    fn create(&mut self, session: &Session) -> (r: Result<()>)
        ensures
            r is Ok ==> final(self).contents() == old(self).contents().insert(
                session@.id,
                session@,
            ),
            old(self).reliable() ==> r is Ok && final(self).reliable(),
    ;

    /// Fetch a session by id. Expired sessions are returned as `None`.
    fn get(&self, id: &str) -> (r: Result<Option<Session>>)
        ensures
            match r {
                Ok(s) => exists|now: i64|
                    session::is_reading(now) && found(s) == #[trigger] lookup(
                        self.contents(),
                        id@,
                        now,
                    ),
                Err(_) => true,
            },
            r matches Ok(Some(s)) ==> s@.id == id@,
            self.reliable() ==> r is Ok,
    ;

    /// Replace an existing session.
    fn update(&mut self, session: &Session) -> (r: Result<()>)
        ensures
            r is Ok ==> final(self).contents() == old(self).contents().insert(
                session@.id,
                session@,
            ),
            old(self).reliable() ==> r is Ok && final(self).reliable(),
    ;

    /// Delete a session. Succeeds even if the id does not exist.
    fn delete(&mut self, id: &str) -> (r: Result<()>)
        ensures
            r is Ok ==> final(self).contents() == old(self).contents().remove(id@),
            old(self).reliable() ==> r is Ok && final(self).reliable(),
    ;

    /// All sessions owned by a user.
    fn get_by_user_id(&self, user_id: &str) -> (r: Result<Vec<Session>>)
        ensures
            match r {
                Ok(list) => exists|now: i64|
                    session::is_reading(now) && #[trigger] lists_user(
                        session_views(list@),
                        self.contents(),
                        user_id@,
                        now,
                    ),
                Err(_) => true,
            },
            self.reliable() ==> r is Ok,
    ;

    /// Delete all sessions owned by a user.
    fn delete_by_user_id(&mut self, user_id: &str) -> (r: Result<()>)
        ensures
            r is Ok ==> final(self).contents() == without_user(old(self).contents(), user_id@),
            old(self).reliable() ==> r is Ok && final(self).reliable(),
    ;
}

/// Whether no two sessions of the list have the same id.
pub open spec fn distinct_ids(list: Seq<SessionView>) -> bool {
    forall|i: int, j: int|
        0 <= i < j < list.len() ==> (#[trigger] list[i]).id != (#[trigger] list[j]).id
}

/// The sessions of a list by their ids.
pub open spec fn by_id(list: Seq<SessionView>) -> Contents
    decreases list.len(),
{
    if list.len() == 0 {
        Map::empty()
    } else {
        by_id(list.drop_last()).insert(list.last().id, list.last())
    }
}

/// In-memory `SessionStore`.
///
/// Suitable for tests, development, and single-process deployments.
#[derive(Debug)]
pub struct MemoryStore {
    sessions: Vec<Session>,
}

impl View for MemoryStore {
    type V = Contents;

    closed spec fn view(&self) -> Contents {
        by_id(session_views(self.sessions@))
    }
}

proof fn lemma_by_id(list: Seq<SessionView>, id: Seq<char>)
    requires
        distinct_ids(list),
    ensures
        by_id(list).dom().contains(id) <==> exists|i: int|
            0 <= i < list.len() && (#[trigger] list[i]).id == id,
        forall|i: int|
            0 <= i < list.len() && (#[trigger] list[i]).id == id ==> by_id(list)[id] == list[i],
    decreases list.len(),
{
    if list.len() > 0 {
        let front = list.drop_last();
        assert forall|i: int, j: int| 0 <= i < j < front.len() implies (#[trigger] front[i]).id != (
        #[trigger] front[j]).id by {
            assert(front[i] == list[i] && front[j] == list[j]);
        }
        lemma_by_id(front, id);
        assert forall|i: int| 0 <= i < front.len() implies front[i] == list[i] by {}
        if list.last().id == id {
            assert(list[list.len() - 1].id == id);
            assert forall|i: int|
                0 <= i < list.len() && (#[trigger] list[i]).id == id implies by_id(list)[id]
                == list[i] by {
                assert(i == list.len() - 1);
            }
        } else {
            if by_id(list).dom().contains(id) {
                let i = choose|i: int| 0 <= i < front.len() && (#[trigger] front[i]).id == id;
                assert(list[i].id == id);
            }
            assert forall|i: int|
                0 <= i < list.len() && (#[trigger] list[i]).id == id implies by_id(list)[id]
                == list[i] && by_id(list).dom().contains(id) by {
                assert(i < front.len());
                assert(front[i].id == id);
            }
        }
    }
}

proof fn lemma_put(list: Seq<SessionView>, i: int, s: SessionView)
    requires
        distinct_ids(list),
        0 <= i <= list.len(),
        i < list.len() ==> list[i].id == s.id,
        i == list.len() ==> forall|j: int| 0 <= j < list.len() ==> (#[trigger] list[j]).id != s.id,
    ensures
        ({
            let next = if i < list.len() {
                list.update(i, s)
            } else {
                list.push(s)
            };
            distinct_ids(next) && by_id(next) == by_id(list).insert(s.id, s)
        }),
{
    let next = if i < list.len() {
        list.update(i, s)
    } else {
        list.push(s)
    };
    assert(next[i] == s);
    assert forall|j: int| 0 <= j < list.len() && j != i implies next[j] == list[j] by {}
    assert forall|j: int, k: int| 0 <= j < k < next.len() implies (#[trigger] next[j]).id != (
    #[trigger] next[k]).id by {
        if i < list.len() {
            assert(list[j].id != list[k].id);
        }
    }
    assert_maps_equal!(by_id(next), by_id(list).insert(s.id, s), id => {
        lemma_by_id(list, id);
        lemma_by_id(next, id);
        if id != s.id {
            if by_id(next).dom().contains(id) {
                let j = choose|j: int| 0 <= j < next.len() && (#[trigger] next[j]).id == id;
                assert(list[j].id == id);
            }
            if by_id(list).dom().contains(id) {
                let j = choose|j: int| 0 <= j < list.len() && (#[trigger] list[j]).id == id;
                assert(next[j].id == id);
            }
        }
    });
}

proof fn lemma_cut(list: Seq<SessionView>, i: int)
    requires
        distinct_ids(list),
        0 <= i < list.len(),
    ensures
        distinct_ids(list.remove(i)),
        by_id(list.remove(i)) == by_id(list).remove(list[i].id),
{
    let next = list.remove(i);
    let gone = list[i].id;
    assert forall|j: int| 0 <= j < next.len() implies (#[trigger] next[j]) == list[if j < i {
        j
    } else {
        j + 1
    }] by {}
    assert forall|j: int, k: int| 0 <= j < k < next.len() implies (#[trigger] next[j]).id != (
    #[trigger] next[k]).id by {}
    assert_maps_equal!(by_id(next), by_id(list).remove(gone), id => {
        lemma_by_id(list, id);
        lemma_by_id(next, id);
        if by_id(next).dom().contains(id) {
            let j = choose|j: int| 0 <= j < next.len() && (#[trigger] next[j]).id == id;
            let k = if j < i {
                j
            } else {
                j + 1
            };
            assert(list[k].id == id);
        }
        if by_id(list).remove(gone).dom().contains(id) {
            let k = choose|k: int| 0 <= k < list.len() && (#[trigger] list[k]).id == id;
            let j = if k < i {
                k
            } else {
                k - 1
            };
            assert(next[j].id == id);
        }
    });
}

/// Whether `rest` holds the sessions of `list` that are not of `user_id`.
spec fn drops_user(rest: Seq<SessionView>, list: Seq<SessionView>, user_id: Seq<char>) -> bool {
    &&& distinct_ids(rest)
    &&& forall|s: SessionView| #[trigger]
        rest.contains(s) <==> list.contains(s) && s.user_id != user_id
}

proof fn lemma_drop_user(rest: Seq<SessionView>, list: Seq<SessionView>, user_id: Seq<char>)
    requires
        distinct_ids(list),
        drops_user(rest, list, user_id),
    ensures
        by_id(rest) == without_user(by_id(list), user_id),
{
    let m = without_user(by_id(list), user_id);
    assert_maps_equal!(by_id(rest), m, id => {
        lemma_by_id(list, id);
        lemma_by_id(rest, id);
        if by_id(rest).dom().contains(id) {
            let j = choose|j: int| 0 <= j < rest.len() && (#[trigger] rest[j]).id == id;
            assert(rest.contains(rest[j]));
            let k = choose|k: int| 0 <= k < list.len() && list[k] == rest[j];
            assert(list[k].id == id);
        }
        if m.dom().contains(id) {
            let k = choose|k: int| 0 <= k < list.len() && (#[trigger] list[k]).id == id;
            assert(list.contains(list[k]));
            assert(rest.contains(list[k]));
            let j = choose|j: int| 0 <= j < rest.len() && rest[j] == list[k];
            assert(rest[j].id == id);
        }
    });
}

impl MemoryStore {
    #[verifier::type_invariant]
    spec fn wf(self) -> bool {
        distinct_ids(session_views(self.sessions@))
    }

    /// Create an empty store.
    pub fn new() -> (r: Self)
        ensures
            r@ == Map::<Seq<char>, SessionView>::empty(),
    {
        MemoryStore { sessions: Vec::new() }
    }

    /// The position of the session with the given id.
    fn position(&self, id: &str) -> (r: Option<usize>)
        ensures
            match r {
                Some(i) => i < self.sessions@.len() && self.sessions@[i as int]@.id == id@,
                None => forall|i: int|
                    0 <= i < self.sessions@.len() ==> (#[trigger] self.sessions@[i])@.id != id@,
            },
    {
        let mut i: usize = 0;
        while i < self.sessions.len()
            invariant
                i <= self.sessions@.len(),
                forall|j: int| 0 <= j < i ==> (#[trigger] self.sessions@[j])@.id != id@,
            decreases self.sessions@.len() - i,
        {
            if str_eq(self.sessions[i].id.as_str(), id) {
                return Some(i);
            }
            i = i + 1;
        }
        None
    }

    /// What [`SessionStore::get`] gives at unix time `now`.
    pub fn get_at(&self, id: &str, now: i64) -> (r: Option<Session>)
        ensures
            found(r) == lookup(self@, id@, now),
            r matches Some(s) ==> s@.id == id@,
    {
        proof {
            use_type_invariant(self);
            lemma_by_id(session_views(self.sessions@), id@);
        }
        let ghost list = session_views(self.sessions@);
        match self.position(id) {
            Some(i) => {
                assert(list[i as int].id == id@);
                if self.sessions[i].is_expired(now) {
                    None
                } else {
                    Some(self.sessions[i].clone())
                }
            },
            None => {
                assert(forall|j: int| 0 <= j < list.len() ==> (#[trigger] list[j]).id != id@);
                None
            },
        }
    }

    /// Put a session in place of the one with its id, or add it.
    fn put(&mut self, session: &Session)
        ensures
            final(self)@ == old(self)@.insert(session@.id, session@),
    {
        proof {
            use_type_invariant(&*self);
        }
        let at = self.position(session.id.as_str());
        let mut sessions: Vec<Session> = Vec::new();
        std::mem::swap(&mut sessions, &mut self.sessions);
        let ghost list = session_views(sessions@);
        match at {
            Some(i) => {
                proof {
                    lemma_put(list, i as int, session@);
                }
                sessions.set(i, session.clone());
                assert(session_views(sessions@) =~= list.update(i as int, session@));
            },
            None => {
                proof {
                    assert(forall|j: int|
                        0 <= j < list.len() ==> (#[trigger] list[j]).id != session@.id);
                    lemma_put(list, list.len() as int, session@);
                }
                sessions.push(session.clone());
                assert(session_views(sessions@) =~= list.push(session@));
            },
        }
        self.sessions = sessions;
    }

    /// What [`SessionStore::get_by_user_id`] gives at unix time `now`.
    pub fn get_by_user_id_at(&self, user_id: &str, now: i64) -> (r: Vec<Session>)
        ensures
            lists_user(session_views(r@), self@, user_id@, now),
    {
        proof {
            use_type_invariant(self);
        }
        let ghost list = session_views(self.sessions@);
        let mut out: Vec<Session> = Vec::new();
        let mut i: usize = 0;
        while i < self.sessions.len()
            invariant
                i <= self.sessions@.len(),
                list == session_views(self.sessions@),
                distinct_ids(list),
                distinct_ids(session_views(out@)),
                forall|s: SessionView| #[trigger]
                    session_views(out@).contains(s) <==> list.take(i as int).contains(s)
                        && s.user_id == user_id@ && !session::expired(s, now),
            decreases self.sessions@.len() - i,
        {
            let ghost before = session_views(out@);
            let ghost s = list[i as int];
            assert(list.take(i + 1) =~= list.take(i as int).push(s));
            let one = &self.sessions[i];
            if str_eq(one.user_id.as_str(), user_id) && !one.is_expired(now) {
                proof {
                    assert forall|j: int| 0 <= j < before.len() implies (#[trigger] before[j]).id
                        != s.id by {
                        assert(before.contains(before[j]));
                        let k = choose|k: int|
                            0 <= k < i && list.take(i as int)[k] == before[j];
                        assert(list[k].id != list[i as int].id);
                    }
                }
                out.push(one.clone());
                assert(session_views(out@) =~= before.push(s));
            }
            proof {
                lemma_push_contains(list.take(i as int), s);
                lemma_push_contains(before, s);
            }
            i = i + 1;
        }
        proof {
            assert(list.take(i as int) =~= list);
            assert forall|s: SessionView| #[trigger]
                session_views(out@).contains(s) <==> belongs(self@, s, user_id@, now) by {
                lemma_by_id(list, s.id);
                if list.contains(s) {
                    let k = choose|k: int| 0 <= k < list.len() && list[k] == s;
                    assert(list[k].id == s.id);
                }
                if belongs(self@, s, user_id@, now) {
                    let k = choose|k: int| 0 <= k < list.len() && (#[trigger] list[k]).id == s.id;
                    assert(list[k] == s);
                    assert(list.contains(s));
                }
            }
        }
        out
    }
}

proof fn lemma_push_contains(list: Seq<SessionView>, s: SessionView)
    ensures
        forall|x: SessionView| #[trigger]
            list.push(s).contains(x) <==> list.contains(x) || x == s,
{
    assert forall|x: SessionView| #[trigger] list.push(s).contains(x) <==> list.contains(x) || x
        == s by {
        if list.contains(x) {
            let k = choose|k: int| 0 <= k < list.len() && list[k] == x;
            assert(list.push(s)[k] == x);
        }
        assert(list.push(s)[list.len() as int] == s);
        if list.push(s).contains(x) {
            let k = choose|k: int| 0 <= k < list.len() + 1 && list.push(s)[k] == x;
            if k < list.len() {
                assert(list[k] == x);
            }
        }
    }
}

impl Default for MemoryStore {
    fn default() -> (r: Self)
        ensures
            r@ == Map::<Seq<char>, SessionView>::empty(),
    {
        MemoryStore::new()
    }
}

impl SessionStore for MemoryStore {
    open spec fn contents(&self) -> Contents {
        self@
    }

    open spec fn reliable(&self) -> bool {
        true
    }

    fn create(&mut self, session: &Session) -> (r: Result<()>) {
        self.put(session);
        Ok(())
    }

    fn get(&self, id: &str) -> (r: Result<Option<Session>>) {
        let now = now_unix();
        let s = self.get_at(id, now);
        assert(found(s) == lookup(self.contents(), id@, now));
        Ok(s)
    }

    fn update(&mut self, session: &Session) -> (r: Result<()>) {
        self.put(session);
        Ok(())
    }

    fn delete(&mut self, id: &str) -> (r: Result<()>) {
        proof {
            use_type_invariant(&*self);
            lemma_by_id(session_views(self.sessions@), id@);
        }
        let at = self.position(id);
        let ghost list = session_views(self.sessions@);
        match at {
            Some(i) => {
                let mut sessions: Vec<Session> = Vec::new();
                std::mem::swap(&mut sessions, &mut self.sessions);
                let _ = sessions.remove(i);
                proof {
                    lemma_cut(list, i as int);
                    assert(session_views(sessions@) =~= list.remove(i as int));
                }
                self.sessions = sessions;
            },
            None => {
                assert(forall|j: int| 0 <= j < list.len() ==> (#[trigger] list[j]).id != id@);
                assert(self@ =~= old(self)@.remove(id@));
            },
        }
        Ok(())
    }

    fn get_by_user_id(&self, user_id: &str) -> (r: Result<Vec<Session>>) {
        let now = now_unix();
        let list = self.get_by_user_id_at(user_id, now);
        let r: Result<Vec<Session>> = Ok(list);
        assert(lists_user(session_views(r->Ok_0@), self.contents(), user_id@, now));
        r
    }

    fn delete_by_user_id(&mut self, user_id: &str) -> (r: Result<()>) {
        proof {
            use_type_invariant(&*self);
        }
        let mut sessions: Vec<Session> = Vec::new();
        std::mem::swap(&mut sessions, &mut self.sessions);
        let ghost list = session_views(sessions@);
        let mut rest: Vec<Session> = Vec::new();
        let mut i: usize = 0;
        while i < sessions.len()
            invariant
                i <= sessions@.len(),
                list == session_views(sessions@),
                distinct_ids(list),
                drops_user(session_views(rest@), list.take(i as int), user_id@),
            decreases sessions@.len() - i,
        {
            let ghost before = session_views(rest@);
            let ghost s = list[i as int];
            assert(list.take(i + 1) =~= list.take(i as int).push(s));
            if !str_eq(sessions[i].user_id.as_str(), user_id) {
                proof {
                    assert forall|j: int| 0 <= j < before.len() implies (#[trigger] before[j]).id
                        != s.id by {
                        assert(before.contains(before[j]));
                        let k = choose|k: int|
                            0 <= k < i && list.take(i as int)[k] == before[j];
                        assert(list[k].id != list[i as int].id);
                    }
                }
                rest.push(sessions[i].clone());
                assert(session_views(rest@) =~= before.push(s));
            }
            proof {
                lemma_push_contains(list.take(i as int), s);
                lemma_push_contains(before, s);
            }
            i = i + 1;
        }
        proof {
            assert(list.take(i as int) =~= list);
            lemma_drop_user(session_views(rest@), list, user_id@);
        }
        self.sessions = rest;
        Ok(())
    }
}

/// A session that was written is read back until it expires, and the others
/// are as they were.
pub proof fn law_read_after_write(m: Contents, s: SessionView, id: Seq<char>, now: i64)
    ensures
        !session::expired(s, now) ==> lookup(m.insert(s.id, s), s.id, now) == Some(s),
        id != s.id ==> lookup(m.insert(s.id, s), id, now) == lookup(m, id, now),
{
}

/// A deleted session is not found again, deleting it once more changes
/// nothing, and the others are as they were.
pub proof fn law_delete(m: Contents, id: Seq<char>, other: Seq<char>, now: i64)
    ensures
        lookup(m.remove(id), id, now) is None,
        m.remove(id).remove(id) == m.remove(id),
        other != id ==> lookup(m.remove(id), other, now) == lookup(m, other, now),
{
    assert(m.remove(id).remove(id) =~= m.remove(id));
}

/// An expired session is neither found nor listed.
pub proof fn law_expired_hidden(m: Contents, s: SessionView, user_id: Seq<char>, now: i64)
    requires
        m.dom().contains(s.id),
        m[s.id] == s,
        session::expired(s, now),
    ensures
        lookup(m, s.id, now) is None,
        !belongs(m, s, user_id, now),
{
}

/// Writing a session changes the lists of users by that session alone: it is
/// in its owner's list, and in no other.
pub proof fn law_write_lists(
    m: Contents,
    s: SessionView,
    x: SessionView,
    user_id: Seq<char>,
    now: i64,
)
    ensures
        belongs(m.insert(s.id, s), x, user_id, now) <==> if x.id == s.id {
            x == s && s.user_id == user_id && !session::expired(s, now)
        } else {
            belongs(m, x, user_id, now)
        },
{
}

/// After deleting the sessions of a user, that user's list is empty and the
/// lists of others are as they were.
pub proof fn law_delete_user(
    m: Contents,
    user_id: Seq<char>,
    other: Seq<char>,
    list: Seq<SessionView>,
    now: i64,
)
    ensures
        lists_user(list, without_user(m, user_id), user_id, now) ==> list.len() == 0,
        other != user_id ==> (lists_user(list, without_user(m, user_id), other, now) <==> lists_user(
            list,
            m,
            other,
            now,
        )),
{
    let next = without_user(m, user_id);
    if lists_user(list, next, user_id, now) && list.len() > 0 {
        assert(list.contains(list[0]));
        assert(belongs(next, list[0], user_id, now));
    }
    if other != user_id {
        assert forall|s: SessionView| belongs(next, s, other, now) == belongs(m, s, other, now) by {}
        if lists_user(list, m, other, now) {
            assert forall|s: SessionView| #[trigger] list.contains(s) <==> belongs(
                next,
                s,
                other,
                now,
            ) by {
                assert(list.contains(s) <==> belongs(m, s, other, now));
            }
        }
        if lists_user(list, next, other, now) {
            assert forall|s: SessionView| #[trigger] list.contains(s) <==> belongs(
                m,
                s,
                other,
                now,
            ) by {
                assert(list.contains(s) <==> belongs(next, s, other, now));
            }
        }
    }
}

/// Two lists of a user's sessions at one time differ at most in their order.
pub proof fn law_user_list_unique(
    a: Seq<SessionView>,
    b: Seq<SessionView>,
    m: Contents,
    user_id: Seq<char>,
    now: i64,
)
    requires
        lists_user(a, m, user_id, now),
        lists_user(b, m, user_id, now),
    ensures
        a.to_multiset() == b.to_multiset(),
        a.len() == b.len(),
{
    assert(a.no_duplicates());
    assert(b.no_duplicates());
    assert forall|s: SessionView| a.to_multiset().count(s) == b.to_multiset().count(s) by {
        broadcast use vstd::seq_lib::group_to_multiset_ensures;

        assert(a.contains(s) <==> belongs(m, s, user_id, now));
        assert(b.contains(s) <==> belongs(m, s, user_id, now));
        a.lemma_multiset_has_no_duplicates();
        b.lemma_multiset_has_no_duplicates();
    }
    assert(a.to_multiset() =~= b.to_multiset());
    a.to_multiset_ensures();
    b.to_multiset_ensures();
}

/// The in-memory store keeps every session under its own id.
pub proof fn law_memory_keyed(store: MemoryStore)
    ensures
        keyed(store@),
{
    lemma_keyed(session_views(store.sessions@));
}

proof fn lemma_keyed(list: Seq<SessionView>)
    ensures
        keyed(by_id(list)),
    decreases list.len(),
{
    if list.len() > 0 {
        lemma_keyed(list.drop_last());
    }
}

/// After deleting the sessions of a user, none of them is found at any time, and
/// every other session is found exactly when it was.
pub proof fn law_delete_user_found(m: Contents, user_id: Seq<char>, id: Seq<char>, now: i64)
    ensures
        m.dom().contains(id) && m[id].user_id == user_id ==> lookup(
            without_user(m, user_id),
            id,
            now,
        ) is None,
        m.dom().contains(id) && m[id].user_id != user_id ==> lookup(
            without_user(m, user_id),
            id,
            now,
        ) == lookup(m, id, now) && without_user(m, user_id).dom().contains(id) && without_user(
            m,
            user_id,
        )[id] == m[id],
        !m.dom().contains(id) ==> !without_user(m, user_id).dom().contains(id),
{
}

/// The list of a user's sessions is complete and holds nothing else: a session that
/// is stored under its own id, belongs to the user and has no expiry or one that is
/// still to come is in it, and whatever is in it is such a session; no session is in
/// it twice.
pub proof fn law_user_list_complete(
    list: Seq<SessionView>,
    m: Contents,
    user_id: Seq<char>,
    now: i64,
    id: Seq<char>,
)
    requires
        lists_user(list, m, user_id, now),
    ensures
        m.dom().contains(id) && m[id].id == id && m[id].user_id == user_id && (m[id].expires_at
            is None || now < m[id].expires_at->Some_0) ==> list.contains(m[id]),
        forall|i: int|
            0 <= i < list.len() ==> {
                &&& m.dom().contains((#[trigger] list[i]).id)
                &&& m[list[i].id] == list[i]
                &&& list[i].user_id == user_id
                &&& list[i].expires_at is None || now < list[i].expires_at->Some_0
            },
        list.no_duplicates(),
{
    if m.dom().contains(id) && m[id].id == id && m[id].user_id == user_id && (m[id].expires_at
        is None || now < m[id].expires_at->Some_0) {
        assert(belongs(m, m[id], user_id, now));
    }
    assert forall|i: int| 0 <= i < list.len() implies {
        &&& m.dom().contains((#[trigger] list[i]).id)
        &&& m[list[i].id] == list[i]
        &&& list[i].user_id == user_id
        &&& list[i].expires_at is None || now < list[i].expires_at->Some_0
    } by {
        assert(list.contains(list[i]));
        assert(belongs(m, list[i], user_id, now));
    }
}

/// A session is found as it is stored, while it has no expiry or one that is still to
/// come, and not otherwise.
pub proof fn law_found_as_stored(m: Contents, id: Seq<char>, now: i64)
    ensures
        lookup(m, id, now) matches Some(s) ==> m.dom().contains(id) && s == m[id] && (s.expires_at
            is None || now < s.expires_at->Some_0),
        lookup(m, id, now) is None ==> !m.dom().contains(id) || (m[id].expires_at is Some && now
            >= m[id].expires_at->Some_0),
{
}

} // verus!
