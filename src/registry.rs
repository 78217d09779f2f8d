//! The registry of live sessions, keyed by identifier.
//!
//! Identifiers are unique: a second registration under a live identifier is
//! refused, and a lookup, write, resize or close under an unknown identifier
//! reports that it is not found. Closing removes the entry at once.

use vstd::prelude::*;

verus! {

/// Why the registry refused an operation.
#[derive(Debug)]
pub enum RegistryError {
    /// A session under this identifier is already registered.
    Duplicate(String),
    /// No session under this identifier is registered.
    NotFound(String),
}

impl RegistryError {
    pub open spec fn is_duplicate_of(&self, id: Seq<char>) -> bool {
        match self {
            RegistryError::Duplicate(s) => s@ == id,
            RegistryError::NotFound(_) => false,
        }
    }

    pub open spec fn is_not_found_of(&self, id: Seq<char>) -> bool {
        match self {
            RegistryError::Duplicate(_) => false,
            RegistryError::NotFound(s) => s@ == id,
        }
    }

    pub open spec fn message_spec(&self) -> Seq<char> {
        match self {
            RegistryError::Duplicate(s) => "Session "@ + s@ + " already exists"@,
            RegistryError::NotFound(s) => "Session "@ + s@ + " not found"@,
        }
    }

    /// The human-readable text of the error.
    pub fn message(&self) -> (r: String)
        ensures
            r@ == self.message_spec(),
    {
        match self {
            RegistryError::Duplicate(s) => String::from_str("Session ").concat(s.as_str()).concat(
                " already exists",
            ),
            RegistryError::NotFound(s) => String::from_str("Session ").concat(s.as_str()).concat(
                " not found",
            ),
        }
    }
}

/// Whether two identifiers are the same text.
pub fn same_id(a: &str, b: &str) -> (r: bool)
    ensures
        r == (a@ == b@),
{
    let n = a.unicode_len();
    if n != b.unicode_len() {
        return false;
    }
    let mut i: usize = 0;
    while i < n
        invariant
            n == a@.len(),
            n == b@.len(),
            i <= n,
            forall|j: int| 0 <= j < i ==> a@[j] == b@[j],
        decreases n - i,
    {
        if a.get_char(i) != b.get_char(i) {
            assert(a@[i as int] != b@[i as int]);
            return false;
        }
        i += 1;
    }
    assert(a@ =~= b@);
    true
}

/// The mapping that a list of entries stands for; a later entry wins.
pub open spec fn table_map<S>(entries: Seq<(String, S)>) -> Map<Seq<char>, S>
    decreases entries.len(),
{
    if entries.len() == 0 {
        Map::empty()
    } else {
        table_map(entries.drop_last()).insert(entries.last().0@, entries.last().1)
    }
}

/// No identifier occurs twice among the entries.
pub open spec fn unique_ids<S>(entries: Seq<(String, S)>) -> bool {
    forall|i: int, j: int| 0 <= i < j < entries.len() ==> entries[i].0@ != entries[j].0@
}

proof fn lemma_table_map<S>(entries: Seq<(String, S)>)
    requires
        unique_ids(entries),
    ensures
        forall|k: Seq<char>|
            #![trigger table_map(entries).contains_key(k)]
            table_map(entries).contains_key(k) ==> exists|i: int|
                0 <= i < entries.len() && entries[i].0@ == k,
        forall|i: int|
            #![trigger entries[i]]
            0 <= i < entries.len() ==> table_map(entries).contains_key(entries[i].0@)
                && table_map(entries)[entries[i].0@] == entries[i].1,
    decreases entries.len(),
{
    if entries.len() > 0 {
        let p = entries.drop_last();
        assert(unique_ids(p));
        lemma_table_map(p);
        let m = table_map(entries);
        assert forall|k: Seq<char>| #[trigger] m.contains_key(k) implies exists|i: int|
            0 <= i < entries.len() && entries[i].0@ == k by {
            if k != entries.last().0@ {
                assert(table_map(p).contains_key(k));
                let i = choose|i: int| 0 <= i < p.len() && p[i].0@ == k;
                assert(entries[i] == p[i]);
            } else {
                assert(entries[entries.len() - 1].0@ == k);
            }
        }
        assert forall|i: int| #![trigger entries[i]] 0 <= i < entries.len() implies m.contains_key(
            entries[i].0@,
        ) && m[entries[i].0@] == entries[i].1 by {
            if i < entries.len() - 1 {
                assert(entries[i] == p[i]);
            }
        }
    }
}

/// A registry operation, as it bears on which identifiers are live.
pub enum TableOp {
    /// A spawn request under an identifier; the flag says whether the
    /// terminal and its shell came up.
    Spawn(Seq<char>, bool),
    /// A close request under an identifier.
    Close(Seq<char>),
}

/// The live identifiers after `op`: a spawn registers its identifier only if
/// its shell came up and the identifier is free (`check_available`, then
/// `insert_session`); a close removes it (`close_session`).
pub open spec fn apply_op(live: Set<Seq<char>>, op: TableOp) -> Set<Seq<char>> {
    match op {
        TableOp::Spawn(id, started) => if started && !live.contains(id) {
            live.insert(id)
        } else {
            live
        },
        TableOp::Close(id) => live.remove(id),
    }
}

/// The live identifiers after the operations, in order.
pub open spec fn run_ops(live: Set<Seq<char>>, ops: Seq<TableOp>) -> Set<Seq<char>>
    decreases ops.len(),
{
    if ops.len() == 0 {
        live
    } else {
        apply_op(run_ops(live, ops.drop_last()), ops.last())
    }
}

/// The `i`-th operation is a spawn under `id` that succeeded.
pub open spec fn spawn_succeeded(ops: Seq<TableOp>, i: int, id: Seq<char>) -> bool {
    &&& ops[i] == TableOp::Spawn(id, true)
    &&& !run_ops(Set::empty(), ops.take(i)).contains(id)
}

/// `r` names each live identifier exactly once.
pub open spec fn lists(r: Seq<String>, live: Set<Seq<char>>) -> bool {
    &&& forall|i: int| 0 <= i < r.len() ==> live.contains(#[trigger] r[i]@)
    &&& forall|k: Seq<char>|
        #![trigger live.contains(k)]
        live.contains(k) ==> exists|i: int| 0 <= i < r.len() && r[i]@ == k
    &&& forall|i: int, j: int| 0 <= i < j < r.len() ==> r[i]@ != r[j]@
}

/// Starting from an empty registry, an identifier is live exactly when a spawn
/// under it succeeded and no close under it came after.
pub proof fn law_live_iff_spawned_and_not_closed(ops: Seq<TableOp>, id: Seq<char>)
    ensures
        run_ops(Set::empty(), ops).contains(id) <==> exists|i: int|
            0 <= i < ops.len() && #[trigger] spawn_succeeded(ops, i, id) && forall|j: int|
                i < j < ops.len() ==> ops[j] != TableOp::Close(id),
    decreases ops.len(),
{
    if ops.len() > 0 {
        let n = ops.len() - 1;
        let p = ops.drop_last();
        law_live_iff_spawned_and_not_closed(p, id);
        assert(ops.take(n) =~= p);
        assert forall|i: int| 0 <= i < n implies #[trigger] spawn_succeeded(ops, i, id)
            == spawn_succeeded(p, i, id) by {
            assert(ops.take(i) =~= p.take(i));
        }
        let live = run_ops(Set::empty(), ops);
        if live.contains(id) {
            if !run_ops(Set::empty(), p).contains(id) {
                assert(spawn_succeeded(ops, n, id));
            } else {
                let i = choose|i: int|
                    0 <= i < p.len() && #[trigger] spawn_succeeded(p, i, id) && forall|j: int|
                        i < j < p.len() ==> p[j] != TableOp::Close(id);
                assert(spawn_succeeded(ops, i, id));
                assert forall|j: int| i < j < ops.len() implies ops[j] != TableOp::Close(id) by {
                    if j < n {
                        assert(ops[j] == p[j]);
                    }
                }
            }
        } else {
            assert forall|i: int|
                0 <= i < ops.len() && #[trigger] spawn_succeeded(ops, i, id) implies exists|j: int|
                i < j < ops.len() && ops[j] == TableOp::Close(id) by {
                if i == n {
                    assert(false);
                } else if ops[n] == TableOp::Close(id) {
                    assert(ops[n] == TableOp::Close(id));
                } else {
                    assert(spawn_succeeded(p, i, id));
                    let j = choose|j: int| i < j < p.len() && p[j] == TableOp::Close(id);
                    assert(ops[j] == p[j]);
                }
            }
        }
    }
}

/// Once closed, an identifier stays unregistered (and so every operation
/// addressed to it reports that it is not found) until a spawn under it
/// succeeds.
pub proof fn law_closed_stays_closed(live: Set<Seq<char>>, id: Seq<char>, ops: Seq<TableOp>)
    requires
        forall|i: int| 0 <= i < ops.len() ==> ops[i] != TableOp::Spawn(id, true),
    ensures
        !run_ops(apply_op(live, TableOp::Close(id)), ops).contains(id),
    decreases ops.len(),
{
    if ops.len() > 0 {
        let p = ops.drop_last();
        assert forall|i: int| 0 <= i < p.len() implies p[i] != TableOp::Spawn(id, true) by {
            assert(p[i] == ops[i]);
        }
        law_closed_stays_closed(live, id, p);
        assert(ops.last() == ops[ops.len() - 1]);
    }
}

/// A session closed is no longer listed: a listing taken after the close
/// names it nowhere.
pub proof fn law_closed_is_unlisted<S>(before: Map<Seq<char>, S>, id: Seq<char>, listed: Seq<String>)
    requires
        lists(listed, before.remove(id).dom()),
    ensures
        forall|i: int| 0 <= i < listed.len() ==> listed[i]@ != id,
{
    assert forall|i: int| 0 <= i < listed.len() implies listed[i]@ != id by {
        assert(before.remove(id).dom().contains(listed[i]@));
    }
}

/// Of two registrations under one free identifier, the first wins and the
/// second is refused, leaving the first one's session in place.
pub proof fn law_one_registration_wins<S>(before: Map<Seq<char>, S>, id: Seq<char>, first: S)
    requires
        !before.contains_key(id),
    ensures
        before.insert(id, first).contains_key(id),
        before.insert(id, first)[id] == first,
{
}

/// The sessions that are live, each under its identifier.
///
/// Entries keep the order in which they were registered.
pub struct SessionTable<S> {
    entries: Vec<(String, S)>,
}

impl<S> View for SessionTable<S> {
    type V = Map<Seq<char>, S>;

    closed spec fn view(&self) -> Map<Seq<char>, S> {
        table_map(self.entries@)
    }
}

impl<S> SessionTable<S> {
    /// Well-formedness: no identifier is registered twice.
    pub closed spec fn wf(&self) -> bool {
        unique_ids(self.entries@)
    }

    /// An empty registry.
    pub fn new() -> (r: Self)
        ensures
            r.wf(),
            r@ == Map::<Seq<char>, S>::empty(),
    {
        SessionTable { entries: Vec::new() }
    }

    fn position(&self, id: &str) -> (r: Option<usize>)
        requires
            self.wf(),
        ensures
            match r {
                Some(i) => i < self.entries@.len() && self.entries@[i as int].0@ == id@,
                None => forall|j: int|
                    0 <= j < self.entries@.len() ==> #[trigger] self.entries@[j].0@ != id@,
            },
            r is Some <==> self@.contains_key(id@),
    {
        proof {
            lemma_table_map(self.entries@);
        }
        let mut i: usize = 0;
        while i < self.entries.len()
            invariant
                self.wf(),
                i <= self.entries@.len(),
                forall|j: int| 0 <= j < i ==> #[trigger] self.entries@[j].0@ != id@,
            decreases self.entries@.len() - i,
        {
            if same_id(self.entries[i].0.as_str(), id) {
                proof {
                    lemma_table_map(self.entries@);
                    assert(self.entries@[i as int].0@ == id@);
                }
                return Some(i);
            }
            i += 1;
        }
        None
    }

    /// Whether a session is registered under `id`.
    pub fn has_session(&self, id: &str) -> (r: bool)
        requires
            self.wf(),
        ensures
            r == self@.contains_key(id@),
    {
        self.position(id).is_some()
    }

    /// Refuses an identifier that is already registered, before any session
    /// is started for it.
    pub fn check_available(&self, id: &str) -> (r: Result<(), RegistryError>)
        requires
            self.wf(),
        ensures
            r is Ok <==> !self@.contains_key(id@),
            r matches Err(e) ==> e.is_duplicate_of(id@),
    {
        if self.has_session(id) {
            Err(RegistryError::Duplicate(String::from_str(id)))
        } else {
            Ok(())
        }
    }

    /// Registers `session` under `id` if no session is registered there, as
    /// one step. Otherwise nothing changes and the session is handed back, so
    /// that the caller can close it.
    pub fn insert_session(&mut self, id: String, session: S) -> (r: Result<(), (RegistryError, S)>)
        requires
            old(self).wf(),
        ensures
            final(self).wf(),
            r is Ok <==> !old(self)@.contains_key(id@),
            r is Ok ==> final(self)@ == old(self)@.insert(id@, session),
            final(self)@.dom() == apply_op(old(self)@.dom(), TableOp::Spawn(id@, true)),
            r matches Err(p) ==> p.0.is_duplicate_of(id@) && p.1 == session && final(self)@ == old(
                self,
            )@,
    {
        if self.has_session(id.as_str()) {
            let e = RegistryError::Duplicate(id);
            return Err((e, session));
        }
        proof {
            lemma_table_map(self.entries@);
        }
        let ghost before = self.entries@;
        let ghost key = id@;
        self.entries.push((id, session));
        proof {
            assert(self.entries@.drop_last() =~= before);
            assert forall|i: int, j: int|
                0 <= i < j < self.entries@.len() implies self.entries@[i].0@
                != self.entries@[j].0@ by {
                if j == before.len() {
                    assert(self.entries@[i] == before[i]);
                    assert(before[i].0@ != key);
                } else {
                    assert(self.entries@[i] == before[i]);
                    assert(self.entries@[j] == before[j]);
                }
            }
        }
        Ok(())
    }

    /// The session registered under `id`, to which a write or a resize is
    /// addressed.
    pub fn lookup(&self, id: &str) -> (r: Result<&S, RegistryError>)
        requires
            self.wf(),
        ensures
            r is Ok <==> self@.contains_key(id@),
            r matches Ok(s) ==> *s == self@[id@],
            r matches Err(e) ==> e.is_not_found_of(id@),
    {
        match self.position(id) {
            Some(i) => {
                proof {
                    lemma_table_map(self.entries@);
                    assert(self.entries@[i as int].0@ == id@);
                }
                Ok(&self.entries[i].1)
            },
            None => Err(RegistryError::NotFound(String::from_str(id))),
        }
    }

    /// Removes the session registered under `id` and hands it back, so that
    /// the caller closes it; no other call sees it registered meanwhile.
    pub fn close_session(&mut self, id: &str) -> (r: Result<S, RegistryError>)
        requires
            old(self).wf(),
        ensures
            final(self).wf(),
            r is Ok <==> old(self)@.contains_key(id@),
            r matches Ok(s) ==> s == old(self)@[id@],
            final(self)@ == old(self)@.remove(id@),
            final(self)@.dom() == apply_op(old(self)@.dom(), TableOp::Close(id@)),
            r matches Err(e) ==> e.is_not_found_of(id@),
    {
        match self.position(id) {
            Some(i) => {
                let ghost before = self.entries@;
                proof {
                    lemma_table_map(before);
                }
                let (_, session) = self.entries.remove(i);
                proof {
                    let after = self.entries@;
                    assert(after =~= before.remove(i as int));
                    assert forall|a: int, b: int|
                        0 <= a < b < after.len() implies after[a].0@ != after[b].0@ by {
                        let a0 = if a < i { a } else { a + 1 };
                        let b0 = if b < i { b } else { b + 1 };
                        assert(after[a] == before[a0]);
                        assert(after[b] == before[b0]);
                    }
                    lemma_table_map(after);
                    let m = table_map(before).remove(id@);
                    assert forall|k: Seq<char>| #[trigger] table_map(after).contains_key(k) <==> m.contains_key(k) by {
                        if table_map(after).contains_key(k) {
                            let a = choose|a: int| 0 <= a < after.len() && after[a].0@ == k;
                            let a0 = if a < i { a } else { a + 1 };
                            assert(after[a] == before[a0]);
                        }
                        if m.contains_key(k) {
                            let a0 = choose|a: int| 0 <= a < before.len() && before[a].0@ == k;
                            assert(a0 != i);
                            let a = if a0 < i { a0 } else { a0 - 1 };
                            assert(after[a] == before[a0]);
                        }
                    }
                    assert forall|k: Seq<char>| #[trigger] table_map(after).contains_key(k) implies table_map(after)[k] == m[k] by {
                        let a = choose|a: int| 0 <= a < after.len() && after[a].0@ == k;
                        let a0 = if a < i { a } else { a + 1 };
                        assert(after[a] == before[a0]);
                    }
                    assert(table_map(after) =~= m);
                }
                Ok(session)
            },
            None => {
                proof {
                    assert(self@ =~= self@.remove(id@));
                }
                Err(RegistryError::NotFound(String::from_str(id)))
            },
        }
    }

    /// The identifiers of all live sessions, each once, in no promised order.
    pub fn list_sessions(&self) -> (r: Vec<String>)
        requires
            self.wf(),
        ensures
            lists(r@, self@.dom()),
    {
        proof {
            lemma_table_map(self.entries@);
        }
        let mut r: Vec<String> = Vec::new();
        let mut i: usize = 0;
        while i < self.entries.len()
            invariant
                self.wf(),
                i <= self.entries@.len(),
                r@.len() == i,
                forall|j: int| 0 <= j < i ==> #[trigger] r@[j]@ == self.entries@[j].0@,
            decreases self.entries@.len() - i,
        {
            r.push(self.entries[i].0.clone());
            i += 1;
        }
        proof {
            lemma_table_map(self.entries@);
            assert forall|i: int| 0 <= i < r@.len() implies self@.contains_key(#[trigger] r@[i]@) by {
                assert(r@[i]@ == self.entries@[i].0@);
            }
            assert forall|k: Seq<char>| #[trigger] self@.contains_key(k) implies exists|i: int| 0 <= i < r@.len() && r@[i]@ == k by {
                let i = choose|i: int| 0 <= i < self.entries@.len() && self.entries@[i].0@ == k;
                assert(r@[i]@ == k);
            }
            assert forall|i: int, j: int| 0 <= i < j < r@.len() implies r@[i]@ != r@[j]@ by {
                assert(r@[i]@ == self.entries@[i].0@);
                assert(r@[j]@ == self.entries@[j].0@);
            }
        }
        r
    }
}

} // verus!
