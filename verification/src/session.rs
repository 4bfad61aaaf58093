//! The session registry: the bookkeeping rules of the session manager.
//! It owns the facts about live sessions — identity, name, command, and
//! creation time — and enforces the live-session cap and name uniqueness.
//! The surrounding process keeps it in step with the PTY children it owns.

use vstd::prelude::*;
use vstd::string::StringExecFns;

use crate::error::ApiError;

verus! {

/// A session identifier: an opaque unique string with a stable ASCII
/// display form.
#[derive(Debug)]
pub struct SessionId(pub String);

impl View for SessionId {
    type V = Seq<char>;

    open spec fn view(&self) -> Seq<char> {
        self.0@
    }
}

impl SessionId {
    /// A copy of this identifier.
    pub fn duplicate(&self) -> (r: SessionId)
        ensures
            r@ == self@,
    {
        SessionId(self.0.clone())
    }
}

/// The registry's knowledge of one live session.
#[derive(Debug)]
pub struct SessionEntry {
    /// The session identifier.
    pub id: String,
    /// The human-readable name, unique among live sessions.
    pub name: Option<String>,
    /// The argv the session was spawned with.
    pub command: Vec<String>,
    /// The creation timestamp, already rendered.
    pub created_at: String,
}

/// The most sessions that may be live at once.
pub const MAX_SESSIONS: usize = 100;

/// Whether an entry carries the given name.
pub open spec fn spec_has_name(e: SessionEntry, n: Seq<char>) -> bool {
    match e.name {
        Some(en) => en@ == n,
        None => false,
    }
}

/// The id of the first entry with the given name, if any.
pub open spec fn spec_find_by_name(es: Seq<SessionEntry>, n: Seq<char>) -> Option<Seq<char>>
    decreases es.len(),
{
    if es.len() == 0 {
        None
    } else if spec_has_name(es[0], n) {
        Some(es[0].id@)
    } else {
        spec_find_by_name(es.drop_first(), n)
    }
}

/// Whether some entry has the given id.
pub open spec fn spec_has_id(es: Seq<SessionEntry>, id: Seq<char>) -> bool {
    exists|i: int| 0 <= i < es.len() && (#[trigger] es[i]).id@ == id
}

/// Whether some entry has the given name.
pub open spec fn spec_name_taken(es: Seq<SessionEntry>, n: Seq<char>) -> bool {
    exists|i: int| 0 <= i < es.len() && spec_has_name(#[trigger] es[i], n)
}

/// Resolution of an optional identifier: nothing names the `default`
/// session; otherwise the identifier is tried as an id first, then as a
/// name.
pub open spec fn spec_resolve(es: Seq<SessionEntry>, ident: Option<Seq<char>>) -> Option<
    Seq<char>,
> {
    match ident {
        None => spec_find_by_name(es, "default"@),
        Some(x) => if spec_has_id(es, x) {
            Some(x)
        } else {
            spec_find_by_name(es, x)
        },
    }
}

/// Resolution reads nothing but the entry list: any operation that
/// leaves the entries unchanged leaves every resolution unchanged.
pub proof fn lemma_resolve_stable(
    e1: Seq<SessionEntry>,
    e2: Seq<SessionEntry>,
    ident: Option<Seq<char>>,
)
    requires
        e1 == e2,
    ensures
        spec_resolve(e1, ident) == spec_resolve(e2, ident),
{
}

/// The keyed map of live sessions, with its cap and its uniqueness
/// rules.
pub struct SessionRegistry {
    entries: Vec<SessionEntry>,
}

impl SessionRegistry {
    /// The live entries, in creation order.
    pub closed spec fn spec_entries(&self) -> Seq<SessionEntry> {
        self.entries@
    }

    /// No two live sessions share a name, and no two share an id.
    pub open spec fn wf(&self) -> bool {
        &&& forall|i: int, j: int|
            0 <= i < j < self.spec_entries().len() ==> (#[trigger] self.spec_entries()[i]).id@
                != (#[trigger] self.spec_entries()[j]).id@
        &&& forall|i: int, j: int|
            0 <= i < j < self.spec_entries().len() && (#[trigger] self.spec_entries()[i]).name
                is Some && (#[trigger] self.spec_entries()[j]).name is Some ==> self.spec_entries(
            )[i].name->Some_0@ != self.spec_entries()[j].name->Some_0@
    }

    /// Two spawns can never both succeed with one name: while a session
    /// named `n` is live, well-formedness leaves no second entry named
    /// `n`, and `try_insert` refuses `n` until the first is removed.
    pub proof fn lemma_no_duplicate_names(&self, n: Seq<char>)
        requires
            self.wf(),
        ensures
            forall|i: int, j: int|
                0 <= i < self.spec_entries().len() && 0 <= j < self.spec_entries().len() && i != j
                    && spec_has_name(#[trigger] self.spec_entries()[i], n) ==> !spec_has_name(
                    #[trigger] self.spec_entries()[j],
                    n,
                ),
    {
        assert forall|i: int, j: int|
            0 <= i < self.spec_entries().len() && 0 <= j < self.spec_entries().len() && i != j
                && spec_has_name(#[trigger] self.spec_entries()[i], n) implies !spec_has_name(
            #[trigger] self.spec_entries()[j],
            n,
        ) by {
            if spec_has_name(self.spec_entries()[j], n) {
                self.lemma_name_uniqueness(i, j);
            }
        }
    }

    /// At most one live session carries any given name.
    pub proof fn lemma_name_uniqueness(&self, i: int, j: int)
        requires
            self.wf(),
            0 <= i < self.spec_entries().len(),
            0 <= j < self.spec_entries().len(),
            i != j,
            self.spec_entries()[i].name is Some,
            self.spec_entries()[j].name is Some,
        ensures
            self.spec_entries()[i].name->Some_0@ != self.spec_entries()[j].name->Some_0@,
    {
        if i < j {
        } else {
        }
    }

    /// An empty registry.
    pub fn new() -> (r: SessionRegistry)
        ensures
            r.wf(),
            r.spec_entries().len() == 0,
    {
        SessionRegistry { entries: Vec::new() }
    }

    /// The number of live sessions.
    pub fn session_count(&self) -> (r: usize)
        ensures
            r == self.spec_entries().len(),
    {
        self.entries.len()
    }

    /// Whether there are no live sessions.
    pub fn is_empty(&self) -> (r: bool)
        ensures
            r == (self.spec_entries().len() == 0),
    {
        self.entries.len() == 0
    }

    /// The live entries.
    pub fn list_sessions(&self) -> (r: &Vec<SessionEntry>)
        ensures
            r@ == self.spec_entries(),
    {
        &self.entries
    }

    /// The id of the first session with the given name.
    pub fn find_by_name(&self, name: &str) -> (r: Option<SessionId>)
        ensures
            match spec_find_by_name(self.spec_entries(), name@) {
                Some(id) => r matches Some(s) && s@ == id,
                None => r is None,
            },
    {
        let n = self.entries.len();
        proof {
            assert(self.spec_entries().skip(0) =~= self.spec_entries());
        }
        for i in 0..n
            invariant
                n == self.spec_entries().len(),
                spec_find_by_name(self.spec_entries(), name@) == spec_find_by_name(
                    self.spec_entries().skip(i as int),
                    name@,
                ),
        {
            proof {
                assert(self.spec_entries().skip(i as int)[0] == self.spec_entries()[i as int]);
                assert(self.spec_entries().skip(i as int).drop_first() =~= self.spec_entries(
                ).skip(i + 1));
            }
            let entry = &self.entries[i];
            match &entry.name {
                Some(en) => {
                    if str_eq(en.as_str(), name) {
                        return Some(SessionId(entry.id.clone()));
                    }
                },
                None => {},
            }
        }
        proof {
            assert(self.spec_entries().skip(n as int).len() == 0);
        }
        None
    }

    /// Whether any session has the given id.
    fn has_id(&self, id: &str) -> (r: bool)
        ensures
            r == spec_has_id(self.spec_entries(), id@),
    {
        let n = self.entries.len();
        for i in 0..n
            invariant
                n == self.spec_entries().len(),
                forall|j: int| 0 <= j < i ==> (#[trigger] self.spec_entries()[j]).id@ != id@,
        {
            if str_eq(self.entries[i].id.as_str(), id) {
                return true;
            }
        }
        false
    }

    /// Registers a new session. Fails with the cap error when the
    /// registry is full, and with the duplicate-name error when the name
    /// is already taken; on success the entry is appended. An id
    /// collision, which the identifier generator rules out, is reported
    /// as an internal error.
    pub fn try_insert(&mut self, id: &str, name: &str, command: Vec<String>, created_at: &str) -> (
        r: Result<(), ApiError>)
        requires
            old(self).wf(),
        ensures
            final(self).wf(),
            ({
                let es = old(self).spec_entries();
                let fs = final(self).spec_entries();
                &&& es.len() >= MAX_SESSIONS ==> ((r matches Err(e) && e.code
                    == crate::error::ErrorCode::CommandFailed && e.message@
                    == "Maximum session limit ("@ + crate::chars::spec_dec(MAX_SESSIONS as nat)
                    + ") reached"@) && fs == es)
                &&& (es.len() < MAX_SESSIONS && spec_name_taken(es, name@)) ==> ((r matches Err(e)
                    && e.code == crate::error::ErrorCode::InvalidInput) && fs == es)
                &&& (es.len() < MAX_SESSIONS && !spec_name_taken(es, name@) && spec_has_id(
                    es,
                    id@,
                )) ==> (r is Err && fs == es)
                &&& (es.len() < MAX_SESSIONS && !spec_name_taken(es, name@) && !spec_has_id(
                    es,
                    id@,
                )) ==> (r is Ok && fs.len() == es.len() + 1 && fs.drop_last() == es
                    && fs.last().id@ == id@ && (fs.last().name matches Some(n) && n@ == name@))
            }),
    {
        if self.entries.len() >= MAX_SESSIONS {
            return Err(ApiError::session_limit_reached(MAX_SESSIONS));
        }
        if self.name_taken(name) {
            return Err(ApiError::duplicate_session_name(name));
        }
        if self.has_id(id) {
            return Err(ApiError::internal("session id collision"));
        }
        let entry = SessionEntry {
            id: String::from_str(id),
            name: Some(String::from_str(name)),
            command,
            created_at: String::from_str(created_at),
        };
        let ghost prev = self.entries@;
        self.entries.push(entry);
        proof {
            assert(self.entries@.drop_last() =~= prev);
            assert forall|i: int, j: int|
                0 <= i < j < self.spec_entries().len() implies (
            #[trigger] self.spec_entries()[i]).id@ != (#[trigger] self.spec_entries()[j]).id@ by {
                if j == self.spec_entries().len() - 1 {
                    assert(!spec_has_id(prev, id@));
                    assert(prev[i].id@ != id@);
                }
            }
            assert forall|i: int, j: int|
                0 <= i < j < self.spec_entries().len() && (
            #[trigger] self.spec_entries()[i]).name is Some && (
            #[trigger] self.spec_entries()[j]).name is Some implies self.spec_entries(
            )[i].name->Some_0@ != self.spec_entries()[j].name->Some_0@ by {
                if j == self.spec_entries().len() - 1 {
                    assert(!spec_name_taken(prev, name@));
                    assert(!spec_has_name(prev[i], name@));
                }
            }
        }
        Ok(())
    }

    /// Whether any live session carries the given name.
    pub fn name_taken(&self, name: &str) -> (r: bool)
        ensures
            r == spec_name_taken(self.spec_entries(), name@),
    {
        let n = self.entries.len();
        for i in 0..n
            invariant
                n == self.spec_entries().len(),
                forall|j: int|
                    0 <= j < i ==> !spec_has_name(#[trigger] self.spec_entries()[j], name@),
        {
            match &self.entries[i].name {
                Some(en) => {
                    if str_eq(en.as_str(), name) {
                        return true;
                    }
                },
                None => {},
            }
        }
        false
    }

    /// Removes the session with the given id: afterwards no live session
    /// carries it. Fails with the not-found error when none does.
    pub fn remove(&mut self, id: &str) -> (r: Result<(), ApiError>)
        requires
            old(self).wf(),
        ensures
            final(self).wf(),
            spec_has_id(old(self).spec_entries(), id@) ==> (r is Ok && !spec_has_id(
                final(self).spec_entries(),
                id@,
            ) && final(self).spec_entries().len() == old(self).spec_entries().len() - 1),
            !spec_has_id(old(self).spec_entries(), id@) ==> (r matches Err(e) && e.code
                == crate::error::ErrorCode::SessionNotFound && final(self).spec_entries() == old(
                self,
            ).spec_entries()),
    {
        let n = self.entries.len();
        let mut k: usize = 0;
        while k < n
            invariant
                n == self.spec_entries().len(),
                self.spec_entries() == old(self).spec_entries(),
                k <= n,
                forall|j: int| 0 <= j < k ==> (#[trigger] self.spec_entries()[j]).id@ != id@,
            decreases n - k,
        {
            if str_eq(self.entries[k].id.as_str(), id) {
                let ghost prev = self.entries@;
                let _removed = self.entries.remove(k);
                proof {
                    assert(self.entries@ =~= prev.remove(k as int));
                    assert forall|j: int|
                        0 <= j < self.spec_entries().len() implies (
                    #[trigger] self.spec_entries()[j]).id@ != id@ by {
                        if j < k {
                            assert(self.spec_entries()[j] == prev[j]);
                        } else {
                            assert(self.spec_entries()[j] == prev[j + 1]);
                        }
                    }
                }
                return Ok(());
            }
            k = k + 1;
        }
        Err(ApiError::session_not_found(id))
    }

    /// Resolves an optional identifier to a session id: nothing means the
    /// `default` session; otherwise the identifier is tried as an id
    /// first, then as a name. Fails with the not-found error naming what
    /// was looked for.
    pub fn resolve_session(&self, identifier: Option<&str>) -> (r: Result<SessionId, ApiError>)
        ensures
            ({
                let ident = match identifier {
                    Some(s) => Some(s@),
                    None => None,
                };
                match spec_resolve(self.spec_entries(), ident) {
                    Some(id) => r matches Ok(s) && s@ == id,
                    None => r matches Err(e) && e.code
                        == crate::error::ErrorCode::SessionNotFound,
                }
            }),
    {
        match identifier {
            None => {
                match self.find_by_name("default") {
                    Some(id) => Ok(id),
                    None => Err(ApiError::session_not_found("default")),
                }
            },
            Some(id_or_name) => {
                if self.has_id(id_or_name) {
                    return Ok(SessionId(String::from_str(id_or_name)));
                }
                match self.find_by_name(id_or_name) {
                    Some(id) => Ok(id),
                    None => Err(ApiError::session_not_found(id_or_name)),
                }
            },
        }
    }
}

/// Whether two strings hold the same characters.
pub fn str_eq(a: &str, b: &str) -> (r: bool)
    ensures
        r == (a@ == b@),
{
    let av = crate::chars::chars_of(a);
    crate::chars::chars_eq_str(&av, b)
}

} // verus!
