//! Pluggable unlocking strategies and the registry that dispatches them.
//!
//! Each distinct locking-script identity present in a transaction is served
//! by exactly one registered strategy. A strategy sizes a conservative
//! placeholder witness during fee estimation and produces the real witness
//! afterwards; a strategy for a script that needs no proof at all simply
//! produces an empty witness, with zero cryptography involved.

use vstd::prelude::*;
use crate::errors::HarnessError;
use crate::hash::copy_bytes;
use crate::resolver::{ScriptId, ScriptIdView};

verus! {

/// An unlocking strategy.
pub enum Unlocker {
    /// Injects prepared witness data: a detached signature for standard
    /// strategies, or arbitrary custom bytes. `witness: None` models a
    /// required signer or key that is absent, which makes finalization fail.
    Provided { placeholder_len: usize, witness: Option<Vec<u8>> },
    /// A no-op strategy for scripts that need no witness at all.
    Empty,
}

impl Unlocker {
    /// The maximum eventual size of the witness; the placeholder is sized
    /// to this, so fee estimation is conservative.
    pub open spec fn placeholder_len(&self) -> nat {
        match self {
            Unlocker::Provided { placeholder_len, .. } => *placeholder_len as nat,
            Unlocker::Empty => 0,
        }
    }

    /// The prepared witness never exceeds the declared placeholder size.
    pub open spec fn wf(&self) -> bool {
        match self {
            Unlocker::Provided { placeholder_len, witness } => match witness {
                Some(w) => w@.len() <= *placeholder_len,
                None => true,
            },
            Unlocker::Empty => true,
        }
    }

    /// Whether finalization can succeed.
    pub open spec fn can_finalize(&self) -> bool {
        match self {
            Unlocker::Provided { witness, .. } => witness is Some,
            Unlocker::Empty => true,
        }
    }

    /// The real witness that finalization produces.
    pub open spec fn spec_final_witness(&self) -> Seq<u8>
        recommends
            self.can_finalize(),
    {
        match self {
            Unlocker::Provided { witness, .. } => witness->Some_0@,
            Unlocker::Empty => Seq::empty(),
        }
    }

    /// Produce the placeholder witness: zero bytes of the maximum eventual
    /// witness size.
    pub fn fill_placeholder(&self) -> (w: Vec<u8>)
        ensures
            w@.len() == self.placeholder_len(),
            forall|i: int| 0 <= i < w@.len() ==> w@[i] == 0u8,
    {
        match self {
            Unlocker::Provided { placeholder_len, .. } => {
                let n = *placeholder_len;
                let mut w: Vec<u8> = Vec::new();
                let mut i: usize = 0;
                while i < n
                    invariant
                        i <= n,
                        w@.len() == i,
                        forall|j: int| 0 <= j < i ==> w@[j] == 0u8,
                    decreases n - i,
                {
                    w.push(0u8);
                    i += 1;
                }
                w
            },
            Unlocker::Empty => Vec::new(),
        }
    }

    /// Produce the real witness, or fail when the required data is absent.
    pub fn finalize(&self) -> (r: Result<Vec<u8>, HarnessError>)
        requires
            self.wf(),
        ensures
            r is Ok <==> self.can_finalize(),
            r is Err ==> r == Result::<Vec<u8>, HarnessError>::Err(HarnessError::UnlockError),
            r matches Ok(w) ==> w@ == self.spec_final_witness()
                && w@.len() <= self.placeholder_len(),
    {
        match self {
            Unlocker::Provided { witness, .. } => match witness {
                Some(w) => Ok(copy_bytes(w)),
                None => Err(HarnessError::UnlockError),
            },
            Unlocker::Empty => Ok(Vec::new()),
        }
    }
}

/// A registered (script identity, strategy) pair.
pub struct UnlockerEntry {
    pub id: ScriptId,
    pub unlocker: Unlocker,
}

impl UnlockerEntry {
    /// Dispatch is by exact identity: an entry matches exactly the groups
    /// whose identity equals its own.
    pub fn matches(&self, id: &ScriptId) -> (r: bool)
        ensures
            r == (self.id@ == id@),
    {
        self.id.equals(id)
    }
}

/// The mapping from script identity to unlocking strategy. Values are
/// unique per identity; insertion order is irrelevant, lookup is always by
/// exact identity match.
pub struct UnlockerRegistry {
    pub entries: Vec<UnlockerEntry>,
}

impl UnlockerRegistry {
    /// Identities are unique and every registered strategy is well formed.
    pub open spec fn wf(&self) -> bool {
        &&& forall|i: int, j: int|
            0 <= i < j < self.entries@.len() ==> self.entries@[i].id@ != self.entries@[j].id@
        &&& forall|i: int| 0 <= i < self.entries@.len() ==> (#[trigger] self.entries@[i]).unlocker.wf()
    }

    /// Whether some strategy is registered for `id`.
    pub open spec fn has(&self, id: ScriptIdView) -> bool {
        exists|i: int| 0 <= i < self.entries@.len() && (#[trigger] self.entries@[i]).id@ == id
    }

    /// The position of the unique entry for `id`.
    pub open spec fn index_for(&self, id: ScriptIdView) -> int {
        choose|i: int| 0 <= i < self.entries@.len() && (#[trigger] self.entries@[i]).id@ == id
    }

    /// The strategy registered for `id`.
    pub open spec fn unlocker_for(&self, id: ScriptIdView) -> Unlocker
        recommends
            self.has(id),
    {
        self.entries@[self.index_for(id)].unlocker
    }

    /// With unique identities, any entry position holding `id` is the
    /// position the registry resolves `id` to.
    pub proof fn lemma_unique_index(&self, id: ScriptIdView, i: int)
        requires
            self.wf(),
            0 <= i < self.entries@.len(),
            self.entries@[i].id@ == id,
        ensures
            self.has(id),
            self.index_for(id) == i,
    {
        assert(self.has(id));
        let j = self.index_for(id);
        assert(0 <= j < self.entries@.len() && self.entries@[j].id@ == id);
    }

    pub fn new() -> (r: UnlockerRegistry)
        ensures
            r.wf(),
            r.entries@.len() == 0,
            forall|id: ScriptIdView| !r.has(id),
    {
        UnlockerRegistry { entries: Vec::new() }
    }

    /// Register a strategy for one identity, replacing any strategy already
    /// registered under the same identity.
    #[verifier::loop_isolation(false)]
    pub fn register(&mut self, id: ScriptId, unlocker: Unlocker)
        requires
            old(self).wf(),
            unlocker.wf(),
        ensures
            final(self).wf(),
            final(self).has(id@),
            final(self).unlocker_for(id@) == unlocker,
            forall|x: ScriptIdView| final(self).has(x) <==> (old(self).has(x) || x == id@),
            forall|x: ScriptIdView|
                old(self).has(x) && x != id@ ==> final(self).has(x)
                    && final(self).unlocker_for(x) == old(self).unlocker_for(x),
    {
        let ghost prior = *self;
        let n = self.entries.len();
        let mut i: usize = 0;
        while i < n
            invariant
                *self == prior,
                n == self.entries@.len(),
                i <= n,
                forall|j: int| 0 <= j < i ==> (#[trigger] self.entries@[j]).id@ != id@,
            decreases n - i,
        {
            if self.entries[i].matches(&id) {
                let ghost idv = id@;
                let ghost u = unlocker;
                proof {
                    prior.lemma_unique_index(idv, i as int);
                }
                self.entries.remove(i);
                self.entries.insert(i, UnlockerEntry { id, unlocker });
                proof {
                    assert(self.entries@.len() == prior.entries@.len());
                    assert(self.entries@[i as int].id@ == idv);
                    assert(self.entries@[i as int].unlocker == u);
                    assert forall|j: int|
                        0 <= j < self.entries@.len() && j != i as int
                            implies self.entries@[j] == prior.entries@[j] by {}
                    assert forall|a: int, b: int|
                        0 <= a < b < self.entries@.len()
                            implies (#[trigger] self.entries@[a]).id@
                                != (#[trigger] self.entries@[b]).id@ by {
                        if a == i as int {
                            assert(prior.entries@[b].id@ != idv);
                        } else if b == i as int {
                            assert(prior.entries@[a].id@ != idv);
                        } else {
                            assert(prior.entries@[a].id@ != prior.entries@[b].id@);
                        }
                    }
                    assert(self.wf());
                    assert forall|x: ScriptIdView|
                        final(self).has(x) <==> (prior.has(x) || x == idv) by {
                        if self.has(x) {
                            let k = choose|k: int|
                                0 <= k < self.entries@.len()
                                    && (#[trigger] self.entries@[k]).id@ == x;
                            if k != i as int {
                                assert(prior.entries@[k].id@ == x);
                            }
                        }
                        if prior.has(x) {
                            let k = choose|k: int|
                                0 <= k < prior.entries@.len()
                                    && (#[trigger] prior.entries@[k]).id@ == x;
                            if k != i as int {
                                assert(self.entries@[k].id@ == x);
                            } else {
                                assert(x == idv);
                            }
                        }
                        if x == idv {
                            assert(self.entries@[i as int].id@ == idv);
                        }
                    }
                    self.lemma_unique_index(idv, i as int);
                    assert forall|x: ScriptIdView|
                        prior.has(x) && x != idv implies final(self).has(x)
                            && final(self).unlocker_for(x) == prior.unlocker_for(x) by {
                        let k = choose|k: int|
                            0 <= k < prior.entries@.len()
                                && (#[trigger] prior.entries@[k]).id@ == x;
                        assert(self.entries@[k].id@ == x);
                        self.lemma_unique_index(x, k);
                        prior.lemma_unique_index(x, k);
                    }
                }
                return;
            }
            i += 1;
        }
        let ghost idv = id@;
        let ghost u = unlocker;
        self.entries.push(UnlockerEntry { id, unlocker });
        proof {
            let m = prior.entries@.len() as int;
            assert(self.entries@.len() == m + 1);
            assert(self.entries@[m].id@ == idv);
            assert(self.entries@[m].unlocker == u);
            assert forall|j: int|
                0 <= j < m implies self.entries@[j] == prior.entries@[j] by {}
            assert forall|a: int, b: int|
                0 <= a < b < self.entries@.len()
                    implies (#[trigger] self.entries@[a]).id@
                        != (#[trigger] self.entries@[b]).id@ by {
                if b == m {
                    assert(prior.entries@[a].id@ != idv);
                } else {
                    assert(prior.entries@[a].id@ != prior.entries@[b].id@);
                }
            }
            assert(self.wf());
            assert forall|x: ScriptIdView|
                final(self).has(x) <==> (prior.has(x) || x == idv) by {
                if self.has(x) {
                    let k = choose|k: int|
                        0 <= k < self.entries@.len() && (#[trigger] self.entries@[k]).id@ == x;
                    if k < m {
                        assert(prior.entries@[k].id@ == x);
                    } else {
                        assert(x == idv);
                    }
                }
                if prior.has(x) {
                    let k = choose|k: int|
                        0 <= k < prior.entries@.len() && (#[trigger] prior.entries@[k]).id@ == x;
                    assert(self.entries@[k].id@ == x);
                }
            }
            self.lemma_unique_index(idv, m);
            assert forall|x: ScriptIdView|
                prior.has(x) && x != idv implies final(self).has(x)
                    && final(self).unlocker_for(x) == prior.unlocker_for(x) by {
                let k = choose|k: int|
                    0 <= k < prior.entries@.len() && (#[trigger] prior.entries@[k]).id@ == x;
                assert(self.entries@[k].id@ == x);
                self.lemma_unique_index(x, k);
                prior.lemma_unique_index(x, k);
            }
        }
    }

    /// Look up the strategy registered for an identity.
    #[verifier::loop_isolation(false)]
    pub fn lookup(&self, id: &ScriptId) -> (r: Option<&Unlocker>)
        requires
            self.wf(),
        ensures
            r is Some <==> self.has(id@),
            r matches Some(u) ==> *u == self.unlocker_for(id@) && u.wf(),
    {
        let n = self.entries.len();
        let mut i: usize = 0;
        while i < n
            invariant
                self.wf(),
                n == self.entries@.len(),
                i <= n,
                forall|j: int| 0 <= j < i ==> (#[trigger] self.entries@[j]).id@ != id@,
            decreases n - i,
        {
            if self.entries[i].matches(id) {
                proof {
                    self.lemma_unique_index(id@, i as int);
                }
                return Some(&self.entries[i].unlocker);
            }
            i += 1;
        }
        proof {
            if self.has(id@) {
                let k = choose|k: int|
                    0 <= k < self.entries@.len() && (#[trigger] self.entries@[k]).id@ == id@;
                assert(self.entries@[k].id@ != id@);
            }
        }
        None
    }
}

/// A grouping of transaction input positions that share one locking-script
/// identity; each group is dispatched to exactly one unlocking strategy.
pub struct ScriptGroup {
    pub id: ScriptId,
    pub input_indices: Vec<usize>,
}

/// Find the group holding a given identity, if any.
#[verifier::loop_isolation(false)]
fn find_group(groups: &Vec<ScriptGroup>, lock: &ScriptId) -> (r: Option<usize>)
    ensures
        r matches Some(g) ==> g < groups@.len() && groups@[g as int].id@ == lock@,
        r is None ==> forall|x: int| 0 <= x < groups@.len() ==> groups@[x].id@ != lock@,
{
    let n = groups.len();
    let mut g: usize = 0;
    while g < n
        invariant
            g <= n,
            n == groups@.len(),
            forall|x: int| 0 <= x < g ==> groups@[x].id@ != lock@,
        decreases n - g,
    {
        if groups[g].id.equals(lock) {
            return Some(g);
        }
        g += 1;
    }
    None
}

/// Whether input position `t` appears in some group.
pub open spec fn spec_position_grouped(groups: Seq<ScriptGroup>, t: int) -> bool {
    exists|g: int, u: int|
        0 <= g < groups.len() && 0 <= u < groups[g].input_indices@.len()
            && (#[trigger] groups[g].input_indices@[u]) as int == t
}

/// Group input positions by locking-script identity. Equal identities map
/// to the same group, every position lands in exactly one group, group
/// identities are distinct, and no group is empty.
#[verifier::loop_isolation(false)]
pub fn group_by_lock(locks: &Vec<ScriptId>) -> (groups: Vec<ScriptGroup>)
    ensures
        forall|a: int, b: int|
            0 <= a < b < groups@.len() ==> groups@[a].id@ != groups@[b].id@,
        forall|g: int| 0 <= g < groups@.len() ==> (#[trigger] groups@[g]).input_indices@.len() > 0,
        forall|g: int, u: int|
            0 <= g < groups@.len() && 0 <= u < groups@[g].input_indices@.len()
                ==> (#[trigger] groups@[g].input_indices@[u]) < locks@.len()
                    && locks@[groups@[g].input_indices@[u] as int]@ == groups@[g].id@,
        forall|t: int| 0 <= t < locks@.len() ==> #[trigger] spec_position_grouped(groups@, t),
{
    let mut groups: Vec<ScriptGroup> = Vec::new();
    let n = locks.len();
    let mut i: usize = 0;
    while i < n
        invariant
            i <= n,
            n == locks@.len(),
            forall|a: int, b: int|
                0 <= a < b < groups@.len() ==> groups@[a].id@ != groups@[b].id@,
            forall|g: int|
                0 <= g < groups@.len() ==> (#[trigger] groups@[g]).input_indices@.len() > 0,
            forall|g: int, u: int|
                0 <= g < groups@.len() && 0 <= u < groups@[g].input_indices@.len()
                    ==> (#[trigger] groups@[g].input_indices@[u]) < i
                        && locks@[groups@[g].input_indices@[u] as int]@ == groups@[g].id@,
            forall|t: int| 0 <= t < i ==> #[trigger] spec_position_grouped(groups@, t),
        decreases n - i,
    {
        let ghost before = groups@;
        let lock = &locks[i];
        match find_group(&groups, lock) {
            Some(gi) => {
                let mut grp = groups.remove(gi);
                grp.input_indices.push(i);
                groups.insert(gi, grp);
                proof {
                    assert(groups@.len() == before.len());
                    assert forall|g: int|
                        0 <= g < groups@.len() && g != gi as int
                            implies groups@[g] == before[g] by {}
                    assert(groups@[gi as int].id@ == before[gi as int].id@);
                    assert(groups@[gi as int].input_indices@
                        == before[gi as int].input_indices@.push(i));
                    assert forall|t: int|
                        0 <= t < i + 1 implies #[trigger] spec_position_grouped(groups@, t) by {
                        if t < i {
                            assert(spec_position_grouped(before, t));
                            let (g, u) = choose|g: int, u: int|
                                0 <= g < before.len() && 0 <= u < before[g].input_indices@.len()
                                    && (#[trigger] before[g].input_indices@[u]) as int == t;
                            assert(groups@[g].input_indices@[u] as int == t);
                        } else {
                            let u = before[gi as int].input_indices@.len() as int;
                            assert(groups@[gi as int].input_indices@[u] as int == t);
                        }
                    }
                }
            },
            None => {
                let mut idxs: Vec<usize> = Vec::new();
                idxs.push(i);
                groups.push(ScriptGroup { id: lock.duplicate(), input_indices: idxs });
                proof {
                    let m = before.len() as int;
                    assert(groups@.len() == m + 1);
                    assert forall|g: int| 0 <= g < m implies groups@[g] == before[g] by {}
                    assert(groups@[m].id@ == locks@[i as int]@);
                    assert(groups@[m].input_indices@.len() == 1);
                    assert(groups@[m].input_indices@[0] == i);
                    assert forall|t: int|
                        0 <= t < i + 1 implies #[trigger] spec_position_grouped(groups@, t) by {
                        if t < i {
                            assert(spec_position_grouped(before, t));
                            let (g, u) = choose|g: int, u: int|
                                0 <= g < before.len() && 0 <= u < before[g].input_indices@.len()
                                    && (#[trigger] before[g].input_indices@[u]) as int == t;
                            assert(groups@[g].input_indices@[u] as int == t);
                        } else {
                            assert(groups@[m].input_indices@[0] as int == t);
                        }
                    }
                }
            },
        }
        i += 1;
    }
    groups
}

/// Conservative sizing: whenever finalization succeeds, the real witness
/// fits within the placeholder the same strategy sized during fee
/// estimation.
pub proof fn lemma_final_witness_fits_placeholder(u: Unlocker)
    requires
        u.wf(),
        u.can_finalize(),
    ensures
        u.spec_final_witness().len() <= u.placeholder_len(),
{
}

} // verus!
