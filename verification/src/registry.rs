//! The session registry: a map from script identity to live session.
//!
//! Keys are unique; at most one live session exists per identity at any
//! time.  Callers serialize access (the process wraps the registry in a
//! mutual-exclusion region), so every operation here is one atomic
//! check-then-act step of that critical section.  Removal of an unknown
//! identity reports `None` rather than failing, so a remove is safe even
//! after a worker has wound itself down.

use vstd::prelude::*;

use crate::session::{Session, SessionView};

verus! {

/// Result of an insertion attempt.
#[derive(PartialEq, Eq, Structural, Clone, Copy, Debug)]
pub enum InsertOutcome {
    /// The identity was new and the session is now tracked.
    Inserted,
    /// A session for the identity was already live; nothing changed.
    AlreadyPresent,
}

struct RegistryEntry {
    id: String,
    session: Session,
}

/// Map from script identity to its one live [`Session`].
pub struct Registry {
    entries: Vec<RegistryEntry>,
}

impl Registry {
    /// The abstract contents: identity to session value.
    pub closed spec fn view(&self) -> Map<Seq<char>, SessionView> {
        Map::new(
            |id: Seq<char>| exists|i: int| #![auto] 0 <= i < self.entries@.len()
                && self.entries@[i].id@ == id,
            |id: Seq<char>|
                self.entries@[choose|i: int|
                    #![auto]
                    0 <= i < self.entries@.len() && self.entries@[i].id@ == id].session@,
        )
    }

    /// Keys are pairwise distinct.
    pub closed spec fn wf(&self) -> bool {
        forall|i: int, j: int|
            #![auto]
            0 <= i < j < self.entries@.len() ==> self.entries@[i].id@ != self.entries@[j].id@
    }

    /// In a well-formed registry, the entry at index `i` is what the view
    /// maps its identity to.
    proof fn lemma_view_index(&self, i: int)
        requires
            self.wf(),
            0 <= i < self.entries@.len(),
        ensures
            self@.dom().contains(self.entries@[i].id@),
            self@[self.entries@[i].id@] === self.entries@[i].session@,
    {
        let k = self.entries@[i].id@;
        assert(exists|j: int| #![auto] 0 <= j < self.entries@.len() && self.entries@[j].id@ == k);
        let j = choose|j: int|
            #![auto]
            0 <= j < self.entries@.len() && self.entries@[j].id@ == k;
        assert(j == i);
    }

    /// An empty registry.
    pub fn new() -> (r: Registry)
        ensures
            r.wf(),
            r@ === Map::<Seq<char>, SessionView>::empty(),
    {
        let r = Registry { entries: Vec::new() };
        proof {
            assert(r@ =~= Map::<Seq<char>, SessionView>::empty());
        }
        r
    }

    /// Index of the entry for `id`, if one exists.
    fn find(&self, id: &String) -> (r: Option<usize>)
        ensures
            match r {
                Some(i) => 0 <= i < self.entries@.len() && self.entries@[i as int].id@ == id@,
                None => forall|i: int|
                    #![auto]
                    0 <= i < self.entries@.len() ==> self.entries@[i].id@ != id@,
            },
    {
        let mut i: usize = 0;
        while i < self.entries.len()
            invariant
                0 <= i <= self.entries@.len(),
                forall|j: int| #![auto] 0 <= j < i ==> self.entries@[j].id@ != id@,
            decreases self.entries@.len() - i,
        {
            if self.entries[i].id == *id {
                return Some(i);
            }
            i = i + 1;
        }
        None
    }

    /// Whether a session for `id` is live.
    pub fn contains(&self, id: &String) -> (r: bool)
        ensures
            r == self@.dom().contains(id@),
    {
        let found = self.find(id);
        proof {
            if let Some(i) = found {
                assert(exists|j: int|
                    #![auto]
                    0 <= j < self.entries@.len() && self.entries@[j].id@ == id@);
            }
        }
        found.is_some()
    }

    /// Tracks a new session for `id`; exactly one caller wins when two
    /// race for the same identity, since the surrounding critical
    /// section serializes the check and the insertion.
    pub fn insert(&mut self, id: String, session: Session) -> (r: InsertOutcome)
        requires
            old(self).wf(),
        ensures
            final(self).wf(),
            r == InsertOutcome::AlreadyPresent <==> old(self)@.dom().contains(id@),
            r == InsertOutcome::AlreadyPresent ==> final(self)@ === old(self)@,
            r == InsertOutcome::Inserted ==> final(self)@ === old(self)@.insert(id@, session@),
    {
        if self.contains(&id) {
            InsertOutcome::AlreadyPresent
        } else {
            let ghost pre = *self;
            let ghost k = id@;
            let ghost sv = session@;
            self.entries.push(RegistryEntry { id, session });
            proof {
                let n = pre.entries@.len() as int;
                assert(self.entries@[n].id@ == k);
                assert(self.entries@[n].session@ === sv);
                assert forall|a: int, b: int|
                    #![auto]
                    0 <= a < b < self.entries@.len() implies self.entries@[a].id@
                    != self.entries@[b].id@ by {
                    if b < n {
                        assert(pre.entries@[a].id@ != pre.entries@[b].id@);
                    } else {
                        assert(!pre@.dom().contains(k));
                        pre.lemma_view_index(a);
                    }
                }
                assert forall|q: Seq<char>| true implies #[trigger] self@.dom().contains(q)
                    == pre@.insert(k, sv).dom().contains(q) by {
                    if self@.dom().contains(q) {
                        let i = choose|i: int|
                            #![auto]
                            0 <= i < self.entries@.len() && self.entries@[i].id@ == q;
                        if i < n {
                            pre.lemma_view_index(i);
                        }
                    }
                    if pre@.insert(k, sv).dom().contains(q) && q != k {
                        let i = choose|i: int|
                            #![auto]
                            0 <= i < pre.entries@.len() && pre.entries@[i].id@ == q;
                        assert(self.entries@[i].id@ == q);
                    }
                }
                assert forall|q: Seq<char>| #[trigger]
                    self@.dom().contains(q) implies self@[q] === pre@.insert(k, sv)[q] by {
                    if q == k {
                        self.lemma_view_index(n);
                    } else {
                        let i = choose|i: int|
                            #![auto]
                            0 <= i < pre.entries@.len() && pre.entries@[i].id@ == q;
                        pre.lemma_view_index(i);
                        assert(self.entries@[i].id@ == q);
                        self.lemma_view_index(i);
                    }
                }
                assert(self@ =~= pre@.insert(k, sv));
            }
            InsertOutcome::Inserted
        }
    }

    /// Stops tracking `id` and hands its session back; `None` when no
    /// session for `id` is live, which is not an error.
    pub fn remove(&mut self, id: &String) -> (r: Option<Session>)
        requires
            old(self).wf(),
        ensures
            final(self).wf(),
            match r {
                Some(s) => old(self)@.dom().contains(id@) && s@ === old(self)@[id@]
                    && final(self)@ === old(self)@.remove(id@),
                None => !old(self)@.dom().contains(id@) && final(self)@ === old(self)@,
            },
    {
        match self.find(id) {
            Some(i) => {
                let ghost pre = *self;
                let entry = self.entries.remove(i);
                proof {
                    pre.lemma_view_index(i as int);
                    assert forall|a: int, b: int|
                        #![auto]
                        0 <= a < b < self.entries@.len() implies self.entries@[a].id@
                        != self.entries@[b].id@ by {
                        let pa: int = if a < i { a } else { a + 1 };
                        let pb: int = if b < i { b } else { b + 1 };
                        assert(pre.entries@[pa].id@ != pre.entries@[pb].id@);
                    }
                    assert forall|q: Seq<char>| true implies #[trigger] self@.dom().contains(q)
                        == pre@.remove(id@).dom().contains(q) by {
                        if self@.dom().contains(q) {
                            let j = choose|j: int|
                                #![auto]
                                0 <= j < self.entries@.len() && self.entries@[j].id@ == q;
                            let pj: int = if j < i { j } else { j + 1 };
                            assert(pre.entries@[pj].id@ == q);
                            pre.lemma_view_index(pj);
                            assert(q != id@);
                        }
                        if pre@.remove(id@).dom().contains(q) {
                            let j = choose|j: int|
                                #![auto]
                                0 <= j < pre.entries@.len() && pre.entries@[j].id@ == q;
                            assert(j != i);
                            let nj: int = if j < i { j } else { j - 1 };
                            assert(self.entries@[nj].id@ == q);
                        }
                    }
                    assert forall|q: Seq<char>| #[trigger]
                        self@.dom().contains(q) implies self@[q] === pre@.remove(id@)[q] by {
                        let j = choose|j: int|
                            #![auto]
                            0 <= j < self.entries@.len() && self.entries@[j].id@ == q;
                        self.lemma_view_index(j);
                        let pj: int = if j < i { j } else { j + 1 };
                        assert(pre.entries@[pj].id@ == q);
                        assert(pre.entries@[pj].session@ === self.entries@[j].session@);
                        pre.lemma_view_index(pj);
                    }
                    assert(self@ =~= pre@.remove(id@));
                }
                Some(entry.session)
            },
            None => {
                proof {
                    if self@.dom().contains(id@) {
                        let i = choose|i: int|
                            #![auto]
                            0 <= i < self.entries@.len() && self.entries@[i].id@ == id@;
                        assert(false);
                    }
                }
                None
            },
        }
    }

    /// The session tracked for `id`, if any.
    pub fn get(&self, id: &String) -> (r: Option<&Session>)
        requires
            self.wf(),
        ensures
            match r {
                Some(s) => self@.dom().contains(id@) && s@ === self@[id@],
                None => !self@.dom().contains(id@),
            },
    {
        match self.find(id) {
            Some(i) => {
                proof {
                    self.lemma_view_index(i as int);
                }
                Some(&self.entries[i].session)
            },
            None => {
                proof {
                    if self@.dom().contains(id@) {
                        let i = choose|i: int|
                            #![auto]
                            0 <= i < self.entries@.len() && self.entries@[i].id@ == id@;
                        assert(false);
                    }
                }
                None
            },
        }
    }

    /// Replaces the session tracked for `id`; reports whether `id` was
    /// live at all.
    pub fn replace(&mut self, id: &String, session: Session) -> (r: bool)
        requires
            old(self).wf(),
        ensures
            final(self).wf(),
            r == old(self)@.dom().contains(id@),
            r ==> final(self)@ === old(self)@.insert(id@, session@),
            !r ==> final(self)@ === old(self)@,
    {
        match self.find(id) {
            Some(i) => {
                let ghost pre = *self;
                let ghost sv = session@;
                let id_copy = self.entries[i].id.clone();
                self.entries.set(i, RegistryEntry { id: id_copy, session });
                proof {
                    pre.lemma_view_index(i as int);
                    assert(self.entries@[i as int].id@ == id@);
                    assert forall|a: int, b: int|
                        #![auto]
                        0 <= a < b < self.entries@.len() implies self.entries@[a].id@
                        != self.entries@[b].id@ by {
                        assert(pre.entries@[a].id@ != pre.entries@[b].id@);
                    }
                    assert forall|q: Seq<char>| true implies #[trigger] self@.dom().contains(q)
                        == pre@.insert(id@, sv).dom().contains(q) by {
                        if self@.dom().contains(q) && q != id@ {
                            let j = choose|j: int|
                                #![auto]
                                0 <= j < self.entries@.len() && self.entries@[j].id@ == q;
                            assert(pre.entries@[j].id@ == q);
                            pre.lemma_view_index(j);
                        }
                        if pre@.insert(id@, sv).dom().contains(q) {
                            if q == id@ {
                                assert(self.entries@[i as int].id@ == q);
                            } else {
                                let j = choose|j: int|
                                    #![auto]
                                    0 <= j < pre.entries@.len() && pre.entries@[j].id@ == q;
                                assert(self.entries@[j].id@ == q);
                            }
                        }
                    }
                    assert forall|q: Seq<char>| #[trigger]
                        self@.dom().contains(q) implies self@[q] === pre@.insert(id@, sv)[q] by {
                        if q == id@ {
                            self.lemma_view_index(i as int);
                        } else {
                            let j = choose|j: int|
                                #![auto]
                                0 <= j < self.entries@.len() && self.entries@[j].id@ == q;
                            self.lemma_view_index(j);
                            assert(pre.entries@[j].id@ == q);
                            pre.lemma_view_index(j);
                        }
                    }
                    assert(self@ =~= pre@.insert(id@, sv));
                }
                true
            },
            None => {
                proof {
                    if self@.dom().contains(id@) {
                        let i = choose|i: int|
                            #![auto]
                            0 <= i < self.entries@.len() && self.entries@[i].id@ == id@;
                        assert(false);
                    }
                }
                false
            },
        }
    }

    /// All live identities, for the shutdown sweep: every listed
    /// identity is live, every live identity is listed, none twice.
    pub fn snapshot(&self) -> (r: Vec<String>)
        requires
            self.wf(),
        ensures
            forall|i: int| #![auto] 0 <= i < r@.len() ==> self@.dom().contains(r@[i]@),
            forall|id: Seq<char>|
                self@.dom().contains(id) ==> exists|i: int|
                    #![auto]
                    0 <= i < r@.len() && r@[i]@ == id,
            forall|i: int, j: int| #![auto] 0 <= i < j < r@.len() ==> r@[i]@ != r@[j]@,
    {
        let mut out: Vec<String> = Vec::new();
        let mut i: usize = 0;
        while i < self.entries.len()
            invariant
                0 <= i <= self.entries@.len(),
                out@.len() == i,
                forall|j: int| #![auto] 0 <= j < i ==> out@[j]@ == self.entries@[j].id@,
            decreases self.entries@.len() - i,
        {
            out.push(self.entries[i].id.clone());
            i = i + 1;
        }
        proof {
            assert forall|j: int| #![auto] 0 <= j < out@.len() implies self@.dom().contains(
                out@[j]@,
            ) by {
                self.lemma_view_index(j);
            }
            assert forall|id: Seq<char>| self@.dom().contains(id) implies exists|j: int|
                #![auto]
                0 <= j < out@.len() && out@[j]@ == id by {
                let j = choose|j: int|
                    #![auto]
                    0 <= j < self.entries@.len() && self.entries@[j].id@ == id;
                assert(out@[j]@ == id);
            }
        }
        out
    }

    /// Whether no session is live.
    pub fn is_empty(&self) -> (r: bool)
        ensures
            r == (self@.dom() === Set::<Seq<char>>::empty()),
    {
        let empty = self.entries.len() == 0;
        proof {
            if empty {
                assert(self@.dom() =~= Set::<Seq<char>>::empty());
            } else {
                assert(self@.dom().contains(self.entries@[0].id@));
            }
        }
        empty
    }
}

/// One abstract registry mutation, as the watcher's add and remove
/// events drive them: `insert` adds the identity to the key set and
/// `remove` takes it out, as the contracts of [`Registry::insert`] and
/// [`Registry::remove`] state of the executable registry.
pub enum RegistryOp {
    AddKey(Seq<char>),
    RemoveKey(Seq<char>),
}

/// The identity an operation is about.
pub open spec fn op_key(op: RegistryOp) -> Seq<char> {
    match op {
        RegistryOp::AddKey(id) => id,
        RegistryOp::RemoveKey(id) => id,
    }
}

/// What one operation does to a key set.
pub open spec fn apply_op(keys: Set<Seq<char>>, op: RegistryOp) -> Set<Seq<char>> {
    match op {
        RegistryOp::AddKey(id) => keys.insert(id),
        RegistryOp::RemoveKey(id) => keys.remove(id),
    }
}

/// What a sequence of operations, applied in order, does to a key set.
pub open spec fn apply_ops(keys: Set<Seq<char>>, ops: Seq<RegistryOp>) -> Set<Seq<char>>
    decreases ops.len(),
{
    if ops.len() == 0 {
        keys
    } else {
        apply_op(apply_ops(keys, ops.drop_last()), ops.last())
    }
}

/// The last operation about `id` in `ops`, if any.
pub open spec fn last_op_on(ops: Seq<RegistryOp>, id: Seq<char>) -> Option<RegistryOp>
    decreases ops.len(),
{
    if ops.len() == 0 {
        None
    } else if op_key(ops.last()) == id {
        Some(ops.last())
    } else {
        last_op_on(ops.drop_last(), id)
    }
}

/// Idempotent convergence: for any sequence of add and remove events,
/// the final key set holds exactly the identities whose net status is
/// added — whose last event is an add.  Only the per-identity
/// subsequence matters, so any interleaving across identities
/// converges to the same key set.
pub proof fn lemma_registry_convergence(keys: Set<Seq<char>>, ops: Seq<RegistryOp>, id: Seq<char>)
    ensures
        apply_ops(keys, ops).contains(id) == match last_op_on(ops, id) {
            Some(op) => op is AddKey,
            None => keys.contains(id),
        },
    decreases ops.len(),
{
    if ops.len() > 0 {
        lemma_registry_convergence(keys, ops.drop_last(), id);
    }
}

} // verus!
