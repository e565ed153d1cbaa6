//! Transaction assembly: the live-object collector, the
//! dependency-resolution table, fee estimation, and the balancer that
//! selects funding inputs until total input capacity exactly covers total
//! output capacity plus the estimated fee.

use vstd::prelude::*;
use vstd::arithmetic::div_mod::{lemma_div_is_ordered, lemma_fundamental_div_mod, lemma_mod_bound};
use vstd::arithmetic::mul::lemma_mul_inequality;
use crate::errors::HarnessError;
use crate::hash::Hash256;
use crate::resolver::{ScriptId, ScriptIdView};
use crate::unlock::UnlockerRegistry;

verus! {

broadcast use vstd::arithmetic::mul::lemma_mul_is_commutative;

/// A reference to one on-chain object: the transaction that created it and
/// the output position within that transaction.
#[derive(Clone, Copy, Debug)]
pub struct OutPoint {
    pub tx_hash: Hash256,
    pub index: u32,
}

/// An unspent on-chain object, consumable as a transaction input.
#[derive(Debug)]
pub struct LiveCell {
    pub out_point: OutPoint,
    pub capacity: u64,
    pub lock: ScriptId,
}

/// One cell-dependency reference a transaction must declare to use a
/// script; `dep_group` marks a grouped reference.
#[derive(Clone, Copy, Debug)]
pub struct CellDep {
    pub tx_hash: Hash256,
    pub index: u32,
    pub dep_group: bool,
}

/// A requested transaction output: capacity, locking script, and the extra
/// data payload stored in the new cell.
#[derive(Debug)]
pub struct CellOutput {
    pub capacity: u64,
    pub lock: ScriptId,
    pub data: Vec<u8>,
}

/// An assembled transaction: ordered inputs, outputs, dependency sets, and
/// one witness per input.
#[derive(Debug)]
pub struct TransactionDraft {
    pub inputs: Vec<OutPoint>,
    pub outputs: Vec<CellOutput>,
    pub cell_deps: Vec<CellDep>,
    pub header_deps: Vec<Hash256>,
    pub witnesses: Vec<Vec<u8>>,
}

/// The stateful live-object collector: once an unspent object has been
/// selected for a draft it is not offered again until explicitly released,
/// which prevents double-spend races within one process.
pub struct LiveCellPool {
    pub cells: Vec<LiveCell>,
    pub taken: Vec<bool>,
}

impl LiveCellPool {
    pub open spec fn wf(&self) -> bool {
        self.taken@.len() == self.cells@.len()
    }

    pub fn new() -> (p: LiveCellPool)
        ensures
            p.wf(),
            p.cells@.len() == 0,
    {
        LiveCellPool { cells: Vec::new(), taken: Vec::new() }
    }

    /// Offer one more live object to the collector.
    pub fn add_cell(&mut self, cell: LiveCell)
        requires
            old(self).wf(),
        ensures
            final(self).wf(),
            final(self).cells@ == old(self).cells@.push(cell),
            final(self).taken@ == old(self).taken@.push(false),
    {
        self.cells.push(cell);
        self.taken.push(false);
    }

    /// Mark one object as selected; it will not be offered again.
    pub fn mark_taken(&mut self, index: usize)
        requires
            old(self).wf(),
            index < old(self).cells@.len(),
        ensures
            final(self).wf(),
            final(self).cells@ == old(self).cells@,
            final(self).taken@ == old(self).taken@.update(index as int, true),
    {
        self.taken.remove(index);
        self.taken.insert(index, true);
        proof {
            assert(self.taken@ =~= old(self).taken@.update(index as int, true));
        }
    }

    /// Release one object back to the collector, making it selectable again.
    pub fn release(&mut self, index: usize)
        requires
            old(self).wf(),
            index < old(self).cells@.len(),
        ensures
            final(self).wf(),
            final(self).cells@ == old(self).cells@,
            final(self).taken@ == old(self).taken@.update(index as int, false),
    {
        self.taken.remove(index);
        self.taken.insert(index, false);
        proof {
            assert(self.taken@ =~= old(self).taken@.update(index as int, false));
        }
    }

    pub fn len(&self) -> (n: usize)
        ensures
            n == self.cells@.len(),
    {
        self.cells.len()
    }

    pub fn cell(&self, index: usize) -> (c: &LiveCell)
        requires
            index < self.cells@.len(),
        ensures
            *c == self.cells@[index as int],
    {
        &self.cells[index]
    }

    pub fn is_taken(&self, index: usize) -> (r: bool)
        requires
            self.wf(),
            index < self.cells@.len(),
        ensures
            r == self.taken@[index as int],
    {
        self.taken[index]
    }
}

/// A registered (script identity, cell dependency) pair.
pub struct DepEntry {
    pub id: ScriptId,
    pub dep: CellDep,
}

/// The dependency-resolution table: maps each script identity to the
/// on-chain reference a transaction must declare to use that script. Built
/// once from genesis data and augmented by manually registered custom
/// entries; identities are unique.
pub struct DepTable {
    pub entries: Vec<DepEntry>,
}

impl DepTable {
    pub open spec fn wf(&self) -> bool {
        forall|i: int, j: int|
            0 <= i < j < self.entries@.len() ==> self.entries@[i].id@ != self.entries@[j].id@
    }

    /// Whether a dependency is registered for `id`.
    pub open spec fn has(&self, id: ScriptIdView) -> bool {
        exists|i: int| 0 <= i < self.entries@.len() && (#[trigger] self.entries@[i]).id@ == id
    }

    /// The position of the unique entry for `id`.
    pub open spec fn index_for(&self, id: ScriptIdView) -> int {
        choose|i: int| 0 <= i < self.entries@.len() && (#[trigger] self.entries@[i]).id@ == id
    }

    /// The dependency registered for `id`.
    pub open spec fn dep_for(&self, id: ScriptIdView) -> CellDep
        recommends
            self.has(id),
    {
        self.entries@[self.index_for(id)].dep
    }

    /// With unique identities, any entry position holding `id` is the
    /// position the table resolves `id` to.
    pub proof fn lemma_unique_index(&self, id: ScriptIdView, i: int)
        requires
            self.wf(),
            0 <= i < self.entries@.len(),
            self.entries@[i].id@ == id,
        ensures
            self.has(id),
            self.index_for(id) == i,
    {
        assert(self.has(id));
        let j = self.index_for(id);
        assert(0 <= j < self.entries@.len() && self.entries@[j].id@ == id);
    }

    pub fn new() -> (r: DepTable)
        ensures
            r.wf(),
            r.entries@.len() == 0,
            forall|id: ScriptIdView| !r.has(id),
    {
        DepTable { entries: Vec::new() }
    }

    /// Register the dependency for one identity, replacing any dependency
    /// already registered under the same identity.
    #[verifier::loop_isolation(false)]
    pub fn register(&mut self, id: ScriptId, dep: CellDep)
        requires
            old(self).wf(),
        ensures
            final(self).wf(),
            final(self).has(id@),
            final(self).dep_for(id@) == dep,
            forall|x: ScriptIdView| final(self).has(x) <==> (old(self).has(x) || x == id@),
            forall|x: ScriptIdView|
                old(self).has(x) && x != id@ ==> final(self).has(x)
                    && final(self).dep_for(x) == old(self).dep_for(x),
    {
        let ghost prior = *self;
        let n = self.entries.len();
        let mut i: usize = 0;
        while i < n
            invariant
                *self == prior,
                n == self.entries@.len(),
                i <= n,
                forall|j: int| 0 <= j < i ==> (#[trigger] self.entries@[j]).id@ != id@,
            decreases n - i,
        {
            if self.entries[i].id.equals(&id) {
                let ghost idv = id@;
                proof {
                    prior.lemma_unique_index(idv, i as int);
                }
                self.entries.remove(i);
                self.entries.insert(i, DepEntry { id, dep });
                proof {
                    assert(self.entries@.len() == prior.entries@.len());
                    assert(self.entries@[i as int].id@ == idv);
                    assert forall|a: int, b: int|
                        0 <= a < b < self.entries@.len()
                            implies (#[trigger] self.entries@[a]).id@
                                != (#[trigger] self.entries@[b]).id@ by {
                        if a == i as int {
                            assert(prior.entries@[b].id@ != idv);
                        } else if b == i as int {
                            assert(prior.entries@[a].id@ != idv);
                        } else {
                            assert(prior.entries@[a].id@ != prior.entries@[b].id@);
                        }
                    }
                    assert(self.wf());
                    assert forall|x: ScriptIdView|
                        final(self).has(x) <==> (prior.has(x) || x == idv) by {
                        if self.has(x) {
                            let k = choose|k: int|
                                0 <= k < self.entries@.len()
                                    && (#[trigger] self.entries@[k]).id@ == x;
                            if k != i as int {
                                assert(prior.entries@[k].id@ == x);
                            }
                        }
                        if prior.has(x) {
                            let k = choose|k: int|
                                0 <= k < prior.entries@.len()
                                    && (#[trigger] prior.entries@[k]).id@ == x;
                            if k != i as int {
                                assert(self.entries@[k].id@ == x);
                            } else {
                                assert(x == idv);
                            }
                        }
                        if x == idv {
                            assert(self.entries@[i as int].id@ == idv);
                        }
                    }
                    self.lemma_unique_index(idv, i as int);
                    assert forall|x: ScriptIdView|
                        prior.has(x) && x != idv implies final(self).has(x)
                            && final(self).dep_for(x) == prior.dep_for(x) by {
                        let k = choose|k: int|
                            0 <= k < prior.entries@.len()
                                && (#[trigger] prior.entries@[k]).id@ == x;
                        assert(self.entries@[k].id@ == x);
                        self.lemma_unique_index(x, k);
                        prior.lemma_unique_index(x, k);
                    }
                }
                return;
            }
            i += 1;
        }
        let ghost idv = id@;
        self.entries.push(DepEntry { id, dep });
        proof {
            let m = prior.entries@.len() as int;
            assert(self.entries@.len() == m + 1);
            assert(self.entries@[m].id@ == idv);
            assert forall|a: int, b: int|
                0 <= a < b < self.entries@.len()
                    implies (#[trigger] self.entries@[a]).id@
                        != (#[trigger] self.entries@[b]).id@ by {
                if b == m {
                    assert(prior.entries@[a].id@ != idv);
                } else {
                    assert(prior.entries@[a].id@ != prior.entries@[b].id@);
                }
            }
            assert(self.wf());
            assert forall|x: ScriptIdView|
                final(self).has(x) <==> (prior.has(x) || x == idv) by {
                if self.has(x) {
                    let k = choose|k: int|
                        0 <= k < self.entries@.len() && (#[trigger] self.entries@[k]).id@ == x;
                    if k < m {
                        assert(prior.entries@[k].id@ == x);
                    } else {
                        assert(x == idv);
                    }
                }
                if prior.has(x) {
                    let k = choose|k: int|
                        0 <= k < prior.entries@.len() && (#[trigger] prior.entries@[k]).id@ == x;
                    assert(self.entries@[k].id@ == x);
                }
            }
            self.lemma_unique_index(idv, m);
            assert forall|x: ScriptIdView|
                prior.has(x) && x != idv implies final(self).has(x)
                    && final(self).dep_for(x) == prior.dep_for(x) by {
                let k = choose|k: int|
                    0 <= k < prior.entries@.len() && (#[trigger] prior.entries@[k]).id@ == x;
                assert(self.entries@[k].id@ == x);
                self.lemma_unique_index(x, k);
                prior.lemma_unique_index(x, k);
            }
        }
    }

    /// Look up the dependency registered for an identity.
    #[verifier::loop_isolation(false)]
    pub fn lookup(&self, id: &ScriptId) -> (r: Option<&CellDep>)
        requires
            self.wf(),
        ensures
            r is Some <==> self.has(id@),
            r matches Some(d) ==> *d == self.dep_for(id@),
    {
        let n = self.entries.len();
        let mut i: usize = 0;
        while i < n
            invariant
                n == self.entries@.len(),
                i <= n,
                forall|j: int| 0 <= j < i ==> (#[trigger] self.entries@[j]).id@ != id@,
            decreases n - i,
        {
            if self.entries[i].id.equals(id) {
                proof {
                    self.lemma_unique_index(id@, i as int);
                }
                return Some(&self.entries[i].dep);
            }
            i += 1;
        }
        proof {
            if self.has(id@) {
                let k = choose|k: int|
                    0 <= k < self.entries@.len() && (#[trigger] self.entries@[k]).id@ == id@;
                assert(self.entries@[k].id@ != id@);
            }
        }
        None
    }
}

/// Estimated base size of a transaction with no inputs and no outputs.
pub const TX_BASE_SIZE: u64 = 72;

/// Estimated serialized size of one input reference.
pub const INPUT_SIZE: u64 = 44;

/// Estimated serialized size of one output (capacity plus lock).
pub const OUTPUT_SIZE: u64 = 97;

/// The fee rate is expressed per this many size units.
pub const FEE_UNIT: u64 = 1000;

/// The estimated serialized size of a draft with `n_inputs` inputs (each
/// carrying a placeholder witness of `witness_size_hint` bytes) and
/// `n_outputs` outputs. The estimate saturates at the capacity type's
/// maximum: such a draft could never be paid for anyway.
pub open spec fn spec_tx_size(n_inputs: int, n_outputs: int, witness_size_hint: int) -> int {
    let raw = TX_BASE_SIZE as int + (INPUT_SIZE as int + witness_size_hint) * n_inputs
        + OUTPUT_SIZE as int * n_outputs;
    if raw <= u64::MAX as int {
        raw
    } else {
        u64::MAX as int
    }
}

/// The estimated fee: the draft's estimated size at `fee_rate` per
/// [`FEE_UNIT`] size units, rounded up, saturating at the capacity type's
/// maximum.
pub open spec fn spec_fee(n_inputs: int, n_outputs: int, witness_size_hint: int, fee_rate: int)
    -> int {
    let raw = (spec_tx_size(n_inputs, n_outputs, witness_size_hint) * fee_rate
        + (FEE_UNIT as int - 1)) / (FEE_UNIT as int);
    if raw <= u64::MAX as int {
        raw
    } else {
        u64::MAX as int
    }
}

fn sat_add_u128(a: u128, b: u128) -> (r: u128)
    ensures
        a + b <= u128::MAX ==> r == a + b,
        a + b > u128::MAX ==> r == u128::MAX,
{
    if a > u128::MAX - b {
        u128::MAX
    } else {
        a + b
    }
}

fn sat_mul_u128(a: u128, b: u128) -> (r: u128)
    ensures
        a * b <= u128::MAX ==> r == a * b,
        a * b > u128::MAX ==> r == u128::MAX,
{
    if a == 0 {
        return 0;
    }
    let q = u128::MAX / a;
    proof {
        lemma_fundamental_div_mod(u128::MAX as int, a as int);
        lemma_mod_bound(u128::MAX as int, a as int);
    }
    if b <= q {
        proof {
            lemma_mul_inequality(b as int, q as int, a as int);
            assert(a as int * b as int <= a as int * q as int);
        }
        a * b
    } else {
        proof {
            lemma_mul_inequality(q as int + 1, b as int, a as int);
            assert(a as int * (q as int + 1) <= a as int * b as int);
            assert(a as int * (q as int + 1) == a as int * q as int + a as int)
                by (nonlinear_arith);
        }
        u128::MAX
    }
}

/// Estimate the fee for a draft with `n_inputs` inputs and `n_outputs`
/// outputs, each input carrying a placeholder witness of
/// `witness_size_hint` bytes.
pub fn estimated_fee(n_inputs: u128, n_outputs: u128, witness_size_hint: u64, fee_rate: u64)
    -> (f: u64)
    ensures
        f == spec_fee(n_inputs as int, n_outputs as int, witness_size_hint as int, fee_rate as int),
{
    let per_input = sat_add_u128(INPUT_SIZE as u128, witness_size_hint as u128);
    let t_in = sat_mul_u128(per_input, n_inputs);
    let t_out = sat_mul_u128(OUTPUT_SIZE as u128, n_outputs);
    let s1 = sat_add_u128(TX_BASE_SIZE as u128, t_in);
    let s2 = sat_add_u128(s1, t_out);
    let size: u128 = if s2 > u64::MAX as u128 {
        u64::MAX as u128
    } else {
        s2
    };
    proof {
        assert(size as int == spec_tx_size(
            n_inputs as int,
            n_outputs as int,
            witness_size_hint as int,
        ));
        lemma_mul_inequality(size as int, u64::MAX as int, fee_rate as int);
        lemma_mul_inequality(fee_rate as int, u64::MAX as int, u64::MAX as int);
    }
    let num = size * (fee_rate as u128) + (FEE_UNIT as u128 - 1);
    let fee128 = num / (FEE_UNIT as u128);
    if fee128 > u64::MAX as u128 {
        u64::MAX
    } else {
        fee128 as u64
    }
}

/// The estimated fee never shrinks when more inputs are added.
pub proof fn lemma_fee_monotone_in_inputs(n1: int, n2: int, n_outputs: int, hint: int, rate: int)
    requires
        0 <= n1 <= n2,
        0 <= n_outputs,
        0 <= hint,
        0 <= rate,
    ensures
        spec_fee(n1, n_outputs, hint, rate) <= spec_fee(n2, n_outputs, hint, rate),
{
    lemma_mul_inequality(n1, n2, INPUT_SIZE as int + hint);
    let s1 = spec_tx_size(n1, n_outputs, hint);
    let s2 = spec_tx_size(n2, n_outputs, hint);
    lemma_mul_inequality(s1, s2, rate);
    lemma_div_is_ordered(
        s1 * rate + (FEE_UNIT as int - 1),
        s2 * rate + (FEE_UNIT as int - 1),
        FEE_UNIT as int,
    );
}

/// Total requested capacity of a sequence of outputs.
pub open spec fn spec_outputs_total(s: Seq<CellOutput>) -> int
    decreases s.len(),
{
    if s.len() == 0 {
        0
    } else {
        spec_outputs_total(s.drop_last()) + s.last().capacity
    }
}

pub proof fn lemma_outputs_total_bounds(s: Seq<CellOutput>)
    ensures
        0 <= spec_outputs_total(s) <= s.len() * (u64::MAX as int),
    decreases s.len(),
{
    if s.len() > 0 {
        lemma_outputs_total_bounds(s.drop_last());
    }
}

/// Sum the requested capacities of a set of outputs.
#[verifier::loop_isolation(false)]
pub fn outputs_total(outputs: &Vec<CellOutput>) -> (t: u128)
    ensures
        t == spec_outputs_total(outputs@),
        t <= outputs@.len() * (u64::MAX as int),
{
    let mut t: u128 = 0;
    let mut i: usize = 0;
    while i < outputs.len()
        invariant
            i <= outputs@.len(),
            t == spec_outputs_total(outputs@.take(i as int)),
            t <= (i as int) * (u64::MAX as int),
        decreases outputs@.len() - i,
    {
        proof {
            assert(outputs@.take(i as int + 1).drop_last() =~= outputs@.take(i as int));
            assert(usize::MAX <= u64::MAX);
        }
        t = t + outputs[i].capacity as u128;
        i += 1;
    }
    proof {
        assert(outputs@.take(outputs@.len() as int) =~= outputs@);
    }
    t
}

/// The positions of the objects the balancer may select for one lock: not
/// yet taken and locked under that identity, in pool order, over the first
/// `n` pool positions.
pub open spec fn spec_candidates_upto(
    cells: Seq<LiveCell>,
    taken: Seq<bool>,
    lock: ScriptIdView,
    n: int,
) -> Seq<int>
    decreases n,
{
    if n <= 0 {
        Seq::empty()
    } else {
        let pre = spec_candidates_upto(cells, taken, lock, n - 1);
        if !taken[n - 1] && cells[n - 1].lock@ == lock {
            pre.push(n - 1)
        } else {
            pre
        }
    }
}

/// All selectable positions of a pool for one lock, in pool order.
pub open spec fn spec_candidates(pool: LiveCellPool, lock: ScriptIdView) -> Seq<int> {
    spec_candidates_upto(pool.cells@, pool.taken@, lock, pool.cells@.len() as int)
}

/// Total capacity of the cells at the given positions.
pub open spec fn spec_sum_at(cells: Seq<LiveCell>, idxs: Seq<int>) -> int
    decreases idxs.len(),
{
    if idxs.len() == 0 {
        0
    } else {
        spec_sum_at(cells, idxs.drop_last()) + cells[idxs.last()].capacity
    }
}

/// Selectable positions are valid, untaken, matching, and strictly
/// increasing.
pub proof fn lemma_candidates_props(
    cells: Seq<LiveCell>,
    taken: Seq<bool>,
    lock: ScriptIdView,
    n: int,
)
    requires
        0 <= n <= cells.len(),
        taken.len() == cells.len(),
    ensures
        ({
            let c = spec_candidates_upto(cells, taken, lock, n);
            &&& forall|j: int|
                0 <= j < c.len() ==> 0 <= #[trigger] c[j] < n && !taken[c[j]]
                    && cells[c[j]].lock@ == lock
            &&& forall|a: int, b: int| 0 <= a < b < c.len() ==> c[a] < c[b]
            &&& c.len() <= n
        }),
    decreases n,
{
    if n > 0 {
        lemma_candidates_props(cells, taken, lock, n - 1);
    }
}

/// The selectable positions over a shorter scan are a prefix of those over
/// a longer one.
pub proof fn lemma_candidates_prefix(
    cells: Seq<LiveCell>,
    taken: Seq<bool>,
    lock: ScriptIdView,
    i: int,
    n: int,
)
    requires
        0 <= i <= n <= cells.len(),
        taken.len() == cells.len(),
    ensures
        ({
            let ci = spec_candidates_upto(cells, taken, lock, i);
            let cn = spec_candidates_upto(cells, taken, lock, n);
            &&& ci.len() <= cn.len()
            &&& cn.take(ci.len() as int) == ci
        }),
    decreases n - i,
{
    let ci = spec_candidates_upto(cells, taken, lock, i);
    let cn = spec_candidates_upto(cells, taken, lock, n);
    if i < n {
        lemma_candidates_prefix(cells, taken, lock, i + 1, n);
        let ci1 = spec_candidates_upto(cells, taken, lock, i + 1);
        if !taken[i] && cells[i].lock@ == lock {
            assert(ci1 == ci.push(i));
            assert(cn.take(ci.len() as int) =~= ci1.take(ci.len() as int));
            assert(ci1.take(ci.len() as int) =~= ci);
        } else {
            assert(ci1 == ci);
        }
    } else {
        assert(cn.take(ci.len() as int) =~= ci);
    }
}

/// Whether the first `k` selectable objects cover the requirement: their
/// total capacity reaches total output capacity plus the estimated fee for
/// a draft with `k` inputs and the requested outputs plus one change
/// output.
pub open spec fn spec_covered(
    cells: Seq<LiveCell>,
    cand: Seq<int>,
    k: int,
    out_total: int,
    n_outputs: int,
    hint: int,
    rate: int,
) -> bool {
    spec_sum_at(cells, cand.take(k)) >= out_total + spec_fee(k, n_outputs + 1, hint, rate)
}

/// Whether some prefix of the selectable objects covers the requirement.
pub open spec fn spec_can_fund(
    pool: LiveCellPool,
    lock: ScriptIdView,
    out_total: int,
    n_outputs: int,
    hint: int,
    rate: int,
) -> bool {
    exists|k: int|
        0 <= k <= spec_candidates(pool, lock).len() && #[trigger] spec_covered(
            pool.cells@,
            spec_candidates(pool, lock),
            k,
            out_total,
            n_outputs,
            hint,
            rate,
        )
}

/// Greedily select funding objects locked under `lock`, in pool order,
/// until total selected capacity covers total output capacity plus the
/// estimated fee; the fee is re-estimated as the input count grows. The
/// selection is minimal: no shorter prefix of the selectable objects
/// covers.
#[verifier::loop_isolation(false)]
pub fn select_funding(
    pool: &LiveCellPool,
    lock: &ScriptId,
    out_total: u128,
    n_outputs: u64,
    witness_size_hint: u64,
    fee_rate: u64,
) -> (r: Result<(Vec<usize>, u128), HarnessError>)
    requires
        pool.wf(),
        out_total <= 0xFFFF_FFFF_FFFF_FFFE_0000_0000_0000_0001u128,
    ensures
        r is Ok <==> spec_can_fund(
            *pool,
            lock@,
            out_total as int,
            n_outputs as int,
            witness_size_hint as int,
            fee_rate as int,
        ),
        r is Err ==> r == Result::<(Vec<usize>, u128), HarnessError>::Err(
            HarnessError::InsufficientFunds,
        ),
        r matches Ok(s) ==> ({
            let cand = spec_candidates(*pool, lock@);
            let k = s.0@.len() as int;
            &&& k <= cand.len()
            &&& s.0@.map_values(|u: usize| u as int) == cand.take(k)
            &&& s.1 == spec_sum_at(pool.cells@, cand.take(k))
            &&& spec_covered(
                pool.cells@,
                cand,
                k,
                out_total as int,
                n_outputs as int,
                witness_size_hint as int,
                fee_rate as int,
            )
            &&& forall|j: int|
                0 <= j < k ==> !spec_covered(
                    pool.cells@,
                    cand,
                    j,
                    out_total as int,
                    n_outputs as int,
                    witness_size_hint as int,
                    fee_rate as int,
                )
        }),
{
    let ghost cellsv = pool.cells@;
    let ghost takenv = pool.taken@;
    let ghost lockv = lock@;
    let ghost ot = out_total as int;
    let ghost no = n_outputs as int;
    let ghost h = witness_size_hint as int;
    let ghost ra = fee_rate as int;
    let n = pool.len();
    proof {
        lemma_candidates_props(cellsv, takenv, lockv, n as int);
        assert(usize::MAX <= u64::MAX);
    }
    let fee0 = estimated_fee(0, n_outputs as u128 + 1, witness_size_hint, fee_rate);
    if out_total == 0 && fee0 == 0 {
        let sel: Vec<usize> = Vec::new();
        proof {
            let cand = spec_candidates(*pool, lockv);
            assert(cand.take(0) =~= Seq::<int>::empty());
            assert(sel@.map_values(|u: usize| u as int) =~= cand.take(0));
            assert(spec_covered(cellsv, cand, 0, ot, no, h, ra));
        }
        return Ok((sel, 0));
    }
    proof {
        assert(spec_candidates_upto(cellsv, takenv, lockv, 0).take(0)
            =~= Seq::<int>::empty());
    }
    let mut sel: Vec<usize> = Vec::new();
    let mut in_sum: u128 = 0;
    let mut i: usize = 0;
    while i < n
        invariant
            i <= n,
            sel@.map_values(|u: usize| u as int) == spec_candidates_upto(
                cellsv,
                takenv,
                lockv,
                i as int,
            ),
            in_sum == spec_sum_at(
                cellsv,
                spec_candidates_upto(cellsv, takenv, lockv, i as int),
            ),
            in_sum <= (i as int) * (u64::MAX as int),
            forall|j: int|
                0 <= j <= sel@.len() ==> !spec_covered(
                    cellsv,
                    spec_candidates_upto(cellsv, takenv, lockv, i as int),
                    j,
                    ot,
                    no,
                    h,
                    ra,
                ),
        decreases n - i,
    {
        let ghost ci = spec_candidates_upto(cellsv, takenv, lockv, i as int);
        let ghost ci1 = spec_candidates_upto(cellsv, takenv, lockv, i as int + 1);
        proof {
            assert(sel@.len() == ci.len());
        }
        let is_cand = !pool.is_taken(i) && pool.cell(i).lock.equals(lock);
        if is_cand {
            proof {
                assert(ci1 == ci.push(i as int));
                assert(ci1.drop_last() =~= ci);
            }
            let cap = pool.cell(i).capacity;
            in_sum = in_sum + cap as u128;
            sel.push(i);
            proof {
                assert(sel@.map_values(|u: usize| u as int) =~= ci1);
                assert(spec_sum_at(cellsv, ci1)
                    == spec_sum_at(cellsv, ci) + cellsv[i as int].capacity as int);
            }
            let fee = estimated_fee(
                sel.len() as u128,
                n_outputs as u128 + 1,
                witness_size_hint,
                fee_rate,
            );
            if in_sum >= out_total + fee as u128 {
                proof {
                    let k = sel@.len() as int;
                    let cand = spec_candidates(*pool, lockv);
                    assert(ci1.take(k) =~= ci1);
                    assert(spec_covered(cellsv, ci1, k, ot, no, h, ra));
                    lemma_candidates_prefix(cellsv, takenv, lockv, i as int + 1, n as int);
                    assert(cand.take(ci1.len() as int) == ci1);
                    assert(cand.take(k) == ci1);
                    assert(spec_covered(cellsv, cand, k, ot, no, h, ra));
                    assert(spec_can_fund(*pool, lockv, ot, no, h, ra));
                    assert forall|j: int|
                        0 <= j < k implies !spec_covered(cellsv, cand, j, ot, no, h, ra) by {
                        assert(ci1.take(j) =~= ci.take(j));
                        assert(cand.take(j) =~= ci1.take(j));
                        assert(!spec_covered(cellsv, ci, j, ot, no, h, ra));
                    }
                }
                return Ok((sel, in_sum));
            }
            proof {
                assert forall|j: int|
                    0 <= j <= sel@.len() implies !spec_covered(cellsv, ci1, j, ot, no, h, ra) by {
                    if j < sel@.len() {
                        assert(ci1.take(j) =~= ci.take(j));
                        assert(!spec_covered(cellsv, ci, j, ot, no, h, ra));
                    } else {
                        assert(ci1.take(j) =~= ci1);
                    }
                }
            }
        } else {
            proof {
                assert(ci1 == ci);
            }
        }
        i += 1;
    }
    proof {
        let cand = spec_candidates(*pool, lockv);
        assert(sel@.len() == cand.len());
        if spec_can_fund(*pool, lockv, ot, no, h, ra) {
            let k = choose|k: int|
                0 <= k <= cand.len() && #[trigger] spec_covered(cellsv, cand, k, ot, no, h, ra);
            assert(!spec_covered(cellsv, cand, k, ot, no, h, ra));
        }
    }
    Err(HarnessError::InsufficientFunds)
}

/// The transaction assembler: owns the live-object collector, the
/// dependency-resolution table, and the unlocker registry.
pub struct TransactionAssembler {
    pub pool: LiveCellPool,
    pub deps: DepTable,
    pub registry: UnlockerRegistry,
}

impl TransactionAssembler {
    pub open spec fn wf(&self) -> bool {
        self.pool.wf() && self.deps.wf() && self.registry.wf()
    }

    pub fn new() -> (a: TransactionAssembler)
        ensures
            a.wf(),
            a.pool.cells@.len() == 0,
            a.deps.entries@.len() == 0,
            a.registry.entries@.len() == 0,
    {
        TransactionAssembler {
            pool: LiveCellPool::new(),
            deps: DepTable::new(),
            registry: UnlockerRegistry::new(),
        }
    }

    /// Produce a finalized, balanced draft: inputs locked under
    /// `change_lock` are selected from the collector until total input
    /// capacity exactly covers total output capacity plus the estimated
    /// fee, the surplus goes to a change output under `change_lock`, the
    /// script's cell dependency is injected, and every input carries the
    /// real witness produced by the registered unlocking strategy.
    ///
    /// Fee estimation prices each input's witness at `witness_size_hint`
    /// bytes: the placeholder size, which the caller must choose as the
    /// maximum possible size of the eventual witness. An under-sized hint
    /// under-prices the draft; that is the caller's responsibility and is
    /// not validated here.
    ///
    /// Failures are atomic: on any error the assembler (the collector
    /// included) is left exactly as it was, and no draft exists. The
    /// dependency must be resolvable, the strategy must be registered and
    /// able to finalize, and the selectable objects must cover the
    /// requirement; each failure has its own error kind.
    #[verifier::loop_isolation(false)]
    pub fn build_balanced(
        &mut self,
        outputs: Vec<CellOutput>,
        change_lock: ScriptId,
        witness_size_hint: u64,
        fee_rate: u64,
    ) -> (r: Result<TransactionDraft, HarnessError>)
        requires
            old(self).wf(),
        ensures
            final(self).wf(),
            final(self).deps == old(self).deps,
            final(self).registry == old(self).registry,
            final(self).pool.cells@ == old(self).pool.cells@,
            r is Err ==> *final(self) == *old(self),
            (r == Result::<TransactionDraft, HarnessError>::Err(HarnessError::UnresolvedDependency))
                <==> !old(self).deps.has(change_lock@),
            (r == Result::<TransactionDraft, HarnessError>::Err(HarnessError::UnlockError))
                <==> (old(self).deps.has(change_lock@) && !(old(self).registry.has(change_lock@)
                    && old(self).registry.unlocker_for(change_lock@).can_finalize())),
            (r == Result::<TransactionDraft, HarnessError>::Err(HarnessError::InsufficientFunds))
                <==> (old(self).deps.has(change_lock@) && old(self).registry.has(change_lock@)
                    && old(self).registry.unlocker_for(change_lock@).can_finalize()
                    && !spec_can_fund(
                        old(self).pool,
                        change_lock@,
                        spec_outputs_total(outputs@),
                        outputs@.len() as int,
                        witness_size_hint as int,
                        fee_rate as int,
                    )),
            r is Ok <==> (old(self).deps.has(change_lock@) && old(self).registry.has(change_lock@)
                && old(self).registry.unlocker_for(change_lock@).can_finalize()
                && spec_can_fund(
                    old(self).pool,
                    change_lock@,
                    spec_outputs_total(outputs@),
                    outputs@.len() as int,
                    witness_size_hint as int,
                    fee_rate as int,
                )),
            r matches Ok(d) ==> ({
                let cand = spec_candidates(old(self).pool, change_lock@);
                let ot = spec_outputs_total(outputs@);
                let no = outputs@.len() as int;
                let h = witness_size_hint as int;
                let ra = fee_rate as int;
                let k = d.inputs@.len() as int;
                let fee = spec_fee(k, no + 1, h, ra);
                let strategy = old(self).registry.unlocker_for(change_lock@);
                &&& k <= cand.len()
                &&& forall|j: int|
                    0 <= j < k ==> d.inputs@[j]
                        == old(self).pool.cells@[cand[j]].out_point
                &&& d.witnesses@.len() == k
                &&& forall|j: int|
                    0 <= j < k ==> (#[trigger] d.witnesses@[j])@ == strategy.spec_final_witness()
                &&& d.outputs@.len() == no + 1
                &&& d.outputs@.drop_last() == outputs@
                &&& d.outputs@.last().lock@ == change_lock@
                &&& d.outputs@.last().data@.len() == 0
                &&& spec_outputs_total(d.outputs@) + fee
                    == spec_sum_at(old(self).pool.cells@, cand.take(k))
                &&& spec_covered(old(self).pool.cells@, cand, k, ot, no, h, ra)
                &&& forall|j: int|
                    0 <= j < k ==> !spec_covered(old(self).pool.cells@, cand, j, ot, no, h, ra)
                &&& d.cell_deps@.len() == 1
                &&& d.cell_deps@[0] == old(self).deps.dep_for(change_lock@)
                &&& d.header_deps@.len() == 0
                &&& final(self).pool.taken@.len() == old(self).pool.taken@.len()
                &&& forall|c: int|
                    0 <= c < final(self).pool.taken@.len()
                        ==> final(self).pool.taken@[c] == (old(self).pool.taken@[c]
                            || cand.take(k).contains(c))
            }),
    {
        let ghost lockv = change_lock@;
        let dep = match self.deps.lookup(&change_lock) {
            Some(d) => *d,
            None => {
                return Err(HarnessError::UnresolvedDependency);
            },
        };
        let witness = match self.registry.lookup(&change_lock) {
            Some(u) => match u.finalize() {
                Ok(w) => w,
                Err(e) => {
                    return Err(e);
                },
            },
            None => {
                return Err(HarnessError::UnlockError);
            },
        };
        proof {
            lemma_outputs_total_bounds(outputs@);
            assert(usize::MAX <= u64::MAX);
        }
        let out_total = outputs_total(&outputs);
        let n_outputs = outputs.len();
        let (sel, in_sum) = match select_funding(
            &self.pool,
            &change_lock,
            out_total,
            n_outputs as u64,
            witness_size_hint,
            fee_rate,
        ) {
            Ok(p) => p,
            Err(e) => {
                return Err(e);
            },
        };
        let ghost cellsv = self.pool.cells@;
        let ghost cand = spec_candidates(self.pool, lockv);
        let ghost ot = out_total as int;
        let ghost no = n_outputs as int;
        let ghost h = witness_size_hint as int;
        let ghost ra = fee_rate as int;
        let k = sel.len();
        let fee = estimated_fee(k as u128, n_outputs as u128 + 1, witness_size_hint, fee_rate);
        proof {
            lemma_candidates_props(cellsv, self.pool.taken@, lockv, cellsv.len() as int);
            assert(spec_covered(cellsv, cand, k as int, ot, no, h, ra));
            // the surplus fits the capacity type
            if k == 0 {
                assert(cand.take(0) =~= Seq::<int>::empty());
                assert(in_sum == 0);
            } else {
                assert(!spec_covered(cellsv, cand, k as int - 1, ot, no, h, ra));
                assert(cand.take(k as int).drop_last() =~= cand.take(k as int - 1));
                assert(cand.take(k as int).last() == cand[k as int - 1]);
                assert(spec_sum_at(cellsv, cand.take(k as int))
                    == spec_sum_at(cellsv, cand.take(k as int - 1))
                        + cellsv[cand[k as int - 1]].capacity as int);
                lemma_fee_monotone_in_inputs(k as int - 1, k as int, no + 1, h, ra);
            }
            assert(in_sum - out_total - fee <= u64::MAX);
        }
        let change_capacity = (in_sum - out_total - fee as u128) as u64;
        let mut inputs: Vec<OutPoint> = Vec::new();
        let mut witnesses: Vec<Vec<u8>> = Vec::new();
        let mut j: usize = 0;
        while j < k
            invariant
                j <= k,
                inputs@.len() == j,
                witnesses@.len() == j,
                forall|t: int|
                    0 <= t < j ==> inputs@[t] == cellsv[sel@[t] as int].out_point,
                forall|t: int| 0 <= t < j ==> (#[trigger] witnesses@[t])@ == witness@,
            decreases k - j,
        {
            proof {
                assert(sel@.map_values(|u: usize| u as int)[j as int] == cand[j as int]);
            }
            let idx = sel[j];
            inputs.push(self.pool.cell(idx).out_point);
            witnesses.push(crate::hash::copy_bytes(&witness));
            j += 1;
        }
        let mut outs = outputs;
        outs.push(CellOutput { capacity: change_capacity, lock: change_lock, data: Vec::new() });
        let mut cell_deps: Vec<CellDep> = Vec::new();
        cell_deps.push(dep);
        let draft = TransactionDraft {
            inputs,
            outputs: outs,
            cell_deps,
            header_deps: Vec::new(),
            witnesses,
        };
        proof {
            assert(draft.outputs@.drop_last() =~= outputs@);
        }
        let mut t: usize = 0;
        while t < k
            invariant
                t <= k,
                self.pool.wf(),
                self.pool.cells@ == old(self).pool.cells@,
                self.deps == old(self).deps,
                self.registry == old(self).registry,
                self.pool.taken@.len() == old(self).pool.taken@.len(),
                forall|c: int|
                    0 <= c < self.pool.taken@.len() ==> self.pool.taken@[c]
                        == (old(self).pool.taken@[c] || exists|u: int|
                            0 <= u < t && sel@[u] as int == c),
            decreases k - t,
        {
            proof {
                assert(sel@.map_values(|u: usize| u as int)[t as int] == cand[t as int]);
                assert(0 <= cand[t as int] < cellsv.len());
            }
            let idx = sel[t];
            self.pool.mark_taken(idx);
            proof {
                assert forall|c: int|
                    0 <= c < self.pool.taken@.len() implies self.pool.taken@[c]
                        == (old(self).pool.taken@[c] || exists|u: int|
                            0 <= u < t + 1 && sel@[u] as int == c) by {
                    if c == idx as int {
                        assert(sel@[t as int] as int == c);
                    } else {
                        if exists|u: int| 0 <= u < t + 1 && sel@[u] as int == c {
                            let u = choose|u: int| 0 <= u < t + 1 && sel@[u] as int == c;
                            assert(u < t);
                        }
                    }
                }
            }
            t += 1;
        }
        proof {
            assert forall|c: int|
                0 <= c < self.pool.taken@.len() implies self.pool.taken@[c]
                    == (old(self).pool.taken@[c] || cand.take(k as int).contains(c)) by {
                if cand.take(k as int).contains(c) {
                    let u = choose|u: int| 0 <= u < k && cand.take(k as int)[u] == c;
                    assert(sel@.map_values(|q: usize| q as int)[u] == cand[u]);
                    assert(sel@[u] as int == c);
                }
                if exists|u: int| 0 <= u < k && sel@[u] as int == c {
                    let u = choose|u: int| 0 <= u < k && sel@[u] as int == c;
                    assert(sel@.map_values(|q: usize| q as int)[u] == cand[u]);
                    assert(cand.take(k as int)[u] == c);
                }
            }
            assert(spec_outputs_total(draft.outputs@)
                == spec_outputs_total(outputs@) + change_capacity as int);
            assert forall|jx: int|
                0 <= jx < k implies draft.inputs@[jx] == cellsv[cand[jx]].out_point by {
                assert(sel@.map_values(|q: usize| q as int)[jx] == cand[jx]);
            }
        }
        Ok(draft)
    }
}

} // verus!
