//! Script identity resolution from the static manifest of well-known
//! on-chain object hashes.
//!
//! The manifest is loaded once by the unverified shell (which parses the
//! static file and converts every hex hash into a [`Hash256`]) and is
//! read-only thereafter. A manifest position plus caller-supplied argument
//! bytes resolve to a locking-script identity: entries carrying a
//! type-identity hash resolve under the type-match interpretation, entries
//! pinned by exact content resolve under the data-match interpretation.

use vstd::prelude::*;
use crate::errors::HarnessError;
use crate::hash::{bytes_equal, Hash256};

verus! {

/// How a script's code reference is to be interpreted on chain.
#[derive(Clone, Copy, Debug, PartialEq, Eq, Structural)]
pub enum HashMode {
    /// The hash pins the exact content of the code object.
    Data,
    /// The hash names the code object's type identity, so the code may be
    /// upgraded in place.
    Type,
}

/// A locking-script identity: equal identities unlock the same way and map
/// to the same script group.
#[derive(Clone, Debug)]
pub struct ScriptId {
    pub code_hash: Hash256,
    pub mode: HashMode,
    pub args: Vec<u8>,
}

/// The mathematical value of a [`ScriptId`].
pub struct ScriptIdView {
    pub code_hash: Seq<u8>,
    pub mode: HashMode,
    pub args: Seq<u8>,
}

impl View for ScriptId {
    type V = ScriptIdView;

    open spec fn view(&self) -> ScriptIdView {
        ScriptIdView { code_hash: self.code_hash@, mode: self.mode, args: self.args@ }
    }
}

impl ScriptId {
    /// Byte-exact equality of two script identities.
    pub fn equals(&self, other: &ScriptId) -> (r: bool)
        ensures
            r == (self@ == other@),
    {
        let same = self.code_hash.equals(&other.code_hash) && self.mode == other.mode
            && bytes_equal(&self.args, &other.args);
        proof {
            if same {
                assert(self@ =~= other@);
            }
        }
        same
    }

    /// A fresh copy of this identity.
    pub fn duplicate(&self) -> (r: ScriptId)
        ensures
            r@ == self@,
    {
        ScriptId {
            code_hash: self.code_hash,
            mode: self.mode,
            args: crate::hash::copy_bytes(&self.args),
        }
    }
}

/// One system-object descriptor of the manifest: the transaction that
/// deployed the object, its content hash, an optional type-identity hash,
/// and its output position.
#[derive(Clone, Copy, Debug)]
pub struct CKBHashesSystemCell {
    pub tx_hash: Hash256,
    pub type_hash: Option<Hash256>,
    pub data_hash: Hash256,
    pub index: u32,
}

/// One dependency-group descriptor of the manifest.
#[derive(Clone, Copy, Debug)]
pub struct CKBHashesDepGroup {
    pub tx_hash: Hash256,
    pub index: u32,
}

/// The loaded manifest for one network: ordered system-object descriptors
/// and ordered dependency-group descriptors.
#[derive(Debug)]
pub struct CKBHashesNetwork {
    pub system_cells: Vec<CKBHashesSystemCell>,
    pub dep_groups: Vec<CKBHashesDepGroup>,
}

impl CKBHashesNetwork {
    /// The identity that manifest position `i` resolves to under argument
    /// bytes `args`: the type-identity hash with type-match interpretation
    /// when the entry carries one, else the content hash with data-match
    /// interpretation.
    pub open spec fn spec_address_for(&self, i: int, args: Seq<u8>) -> ScriptIdView
        recommends
            0 <= i < self.system_cells@.len(),
    {
        match self.system_cells@[i].type_hash {
            Some(h) => ScriptIdView { code_hash: h@, mode: HashMode::Type, args },
            None => ScriptIdView {
                code_hash: self.system_cells@[i].data_hash@,
                mode: HashMode::Data,
                args,
            },
        }
    }

    /// Resolve a manifest position plus caller-supplied argument bytes to a
    /// locking-script identity. `argument_bytes` is `None` when the named
    /// configuration value the arguments come from is absent.
    pub fn address_for(&self, manifest_index: usize, argument_bytes: Option<Vec<u8>>)
        -> (r: Result<ScriptId, HarnessError>)
        ensures
            r is Ok <==> (manifest_index < self.system_cells@.len() && argument_bytes is Some),
            r == Result::<ScriptId, HarnessError>::Err(HarnessError::IndexOutOfRange)
                <==> manifest_index >= self.system_cells@.len(),
            r == Result::<ScriptId, HarnessError>::Err(HarnessError::MissingArgument)
                <==> (manifest_index < self.system_cells@.len() && argument_bytes is None),
            r matches Ok(s) ==> s@ == self.spec_address_for(
                manifest_index as int,
                argument_bytes->Some_0@,
            ),
    {
        if manifest_index >= self.system_cells.len() {
            return Err(HarnessError::IndexOutOfRange);
        }
        let args = match argument_bytes {
            Some(a) => a,
            None => {
                return Err(HarnessError::MissingArgument);
            },
        };
        let cell = &self.system_cells[manifest_index];
        match cell.type_hash {
            Some(h) => Ok(ScriptId { code_hash: h, mode: HashMode::Type, args }),
            None => Ok(ScriptId { code_hash: cell.data_hash, mode: HashMode::Data, args }),
        }
    }

    /// The on-chain reference of dependency-group descriptor `i`: the
    /// deploying transaction's hash and the output position within it.
    pub fn dep_group_ref(&self, manifest_index: usize)
        -> (r: Result<(Hash256, u32), HarnessError>)
        ensures
            r is Ok <==> manifest_index < self.dep_groups@.len(),
            r is Err ==> r == Result::<(Hash256, u32), HarnessError>::Err(
                HarnessError::IndexOutOfRange,
            ),
            r matches Ok(p) ==> p.0@ == self.dep_groups@[manifest_index as int].tx_hash@
                && p.1 == self.dep_groups@[manifest_index as int].index,
    {
        if manifest_index >= self.dep_groups.len() {
            return Err(HarnessError::IndexOutOfRange);
        }
        let g = &self.dep_groups[manifest_index];
        Ok((g.tx_hash, g.index))
    }
}

/// Round trip: resolving the same manifest position with the same argument
/// bytes always yields byte-identical script identities, whether the entry
/// carries a type-identity hash or only a content hash.
pub proof fn lemma_resolution_round_trip(
    m: &CKBHashesNetwork,
    i: int,
    args: Seq<u8>,
    first: ScriptIdView,
    second: ScriptIdView,
)
    requires
        0 <= i < m.system_cells@.len(),
        first == m.spec_address_for(i, args),
        second == m.spec_address_for(i, args),
    ensures
        first == second,
{
}

} // verus!
