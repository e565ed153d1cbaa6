use chain_harness::assemble::{
    estimated_fee, outputs_total, CellDep, CellOutput, LiveCell, OutPoint, TransactionAssembler,
};
use chain_harness::errors::HarnessError;
use chain_harness::hash::Hash256;
use chain_harness::resolver::{
    CKBHashesDepGroup, CKBHashesNetwork, CKBHashesSystemCell, HashMode, ScriptId,
};
use chain_harness::unlock::{group_by_lock, Unlocker, UnlockerRegistry};

fn hash(b: u8) -> Hash256 {
    Hash256::new([b; 32])
}

fn script(b: u8) -> ScriptId {
    ScriptId { code_hash: hash(b), mode: HashMode::Data, args: vec![b] }
}

fn cell(idx: u8, capacity: u64, lock: &ScriptId) -> LiveCell {
    LiveCell {
        out_point: OutPoint { tx_hash: hash(idx), index: idx as u32 },
        capacity,
        lock: lock.duplicate(),
    }
}

fn manifest() -> CKBHashesNetwork {
    CKBHashesNetwork {
        system_cells: vec![
            CKBHashesSystemCell {
                tx_hash: hash(1),
                type_hash: None,
                data_hash: hash(2),
                index: 0,
            },
            CKBHashesSystemCell {
                tx_hash: hash(3),
                type_hash: Some(hash(4)),
                data_hash: hash(5),
                index: 1,
            },
        ],
        dep_groups: vec![CKBHashesDepGroup { tx_hash: hash(6), index: 0 }],
    }
}

#[test]
fn resolve_position_zero_data_hash_is_deterministic() {
    // position 0 has only a content hash and the argument bytes are empty
    let m = manifest();
    let first = m.address_for(0, Some(vec![])).unwrap();
    let second = m.address_for(0, Some(vec![])).unwrap();
    assert!(first.equals(&second));
    assert_eq!(first.mode, HashMode::Data);
    assert_eq!(first.code_hash.bytes, [2u8; 32]);
    assert!(first.args.is_empty());
}

#[test]
fn resolve_type_hash_entry_round_trips() {
    let m = manifest();
    let first = m.address_for(1, Some(vec![9, 9])).unwrap();
    let second = m.address_for(1, Some(vec![9, 9])).unwrap();
    assert!(first.equals(&second));
    assert_eq!(first.mode, HashMode::Type);
    assert_eq!(first.code_hash.bytes, [4u8; 32]);
    assert_eq!(first.args, vec![9, 9]);
}

#[test]
fn resolve_index_out_of_range() {
    let m = manifest();
    assert!(matches!(
        m.address_for(2, Some(vec![])),
        Err(HarnessError::IndexOutOfRange)
    ));
}

#[test]
fn resolve_missing_argument() {
    let m = manifest();
    assert!(matches!(m.address_for(0, None), Err(HarnessError::MissingArgument)));
}

#[test]
fn dep_group_reference_by_position() {
    let m = manifest();
    let (tx_hash, index) = m.dep_group_ref(0).unwrap();
    assert_eq!(tx_hash.bytes, [6u8; 32]);
    assert_eq!(index, 0);
    assert!(matches!(m.dep_group_ref(1), Err(HarnessError::IndexOutOfRange)));
}

#[test]
fn registry_lookup_is_by_exact_identity() {
    let mut registry = UnlockerRegistry::new();
    registry.register(script(1), Unlocker::Empty);
    registry.register(
        script(2),
        Unlocker::Provided { placeholder_len: 4, witness: Some(vec![1, 2, 3, 4]) },
    );
    assert!(registry.lookup(&script(1)).is_some());
    assert!(registry.lookup(&script(2)).is_some());
    assert!(registry.lookup(&script(3)).is_none());
    // an identity differing only in its argument bytes is a different key
    let mut other = script(1);
    other.args = vec![7];
    assert!(registry.lookup(&other).is_none());
}

#[test]
fn registry_replaces_on_reregistration() {
    let mut registry = UnlockerRegistry::new();
    registry.register(script(1), Unlocker::Empty);
    registry.register(
        script(1),
        Unlocker::Provided { placeholder_len: 2, witness: Some(vec![8, 8]) },
    );
    let u = registry.lookup(&script(1)).unwrap();
    assert!(matches!(u, Unlocker::Provided { .. }));
    assert_eq!(registry.entries.len(), 1);
}

#[test]
fn placeholder_is_conservatively_sized() {
    let unlocker = Unlocker::Provided { placeholder_len: 85, witness: Some(vec![7u8; 65]) };
    let placeholder = unlocker.fill_placeholder();
    assert_eq!(placeholder.len(), 85);
    assert!(placeholder.iter().all(|b| *b == 0));
    let real = unlocker.finalize().unwrap();
    assert_eq!(real, vec![7u8; 65]);
    assert!(real.len() <= placeholder.len());
}

#[test]
fn finalize_fails_without_required_data() {
    let unlocker = Unlocker::Provided { placeholder_len: 85, witness: None };
    assert!(matches!(unlocker.finalize(), Err(HarnessError::UnlockError)));
}

#[test]
fn empty_unlocker_needs_no_cryptography() {
    let unlocker = Unlocker::Empty;
    assert_eq!(unlocker.fill_placeholder().len(), 0);
    assert_eq!(unlocker.finalize().unwrap().len(), 0);
}

#[test]
fn equal_identities_map_to_the_same_group() {
    let locks = vec![script(1), script(2), script(1)];
    let groups = group_by_lock(&locks);
    assert_eq!(groups.len(), 2);
    assert!(groups[0].id.equals(&script(1)));
    assert_eq!(groups[0].input_indices, vec![0, 2]);
    assert!(groups[1].id.equals(&script(2)));
    assert_eq!(groups[1].input_indices, vec![1]);
}

#[test]
fn fee_formula_exact_value() {
    // size = 72 + (44 + 85) * 1 + 97 * 2 = 395; at 1000 per 1000 units the
    // fee equals the size
    assert_eq!(estimated_fee(1, 2, 85, 1000), 395);
    assert_eq!(estimated_fee(2, 2, 85, 1000), 524);
}

#[test]
fn fee_rounds_up() {
    // size = 72, rate 1 per 1000 units: the fee rounds up to one unit
    assert_eq!(estimated_fee(0, 0, 0, 1), 1);
}

#[test]
fn fee_zero_rate_is_free() {
    assert_eq!(estimated_fee(5, 5, 100, 0), 0);
}

#[test]
fn outputs_total_sums_capacities() {
    let outs = vec![
        CellOutput { capacity: 300, lock: script(1), data: vec![] },
        CellOutput { capacity: 700, lock: script(2), data: vec![1] },
    ];
    assert_eq!(outputs_total(&outs), 1000);
}

fn funded_assembler(change: &ScriptId) -> TransactionAssembler {
    let mut assembler = TransactionAssembler::new();
    assembler.pool.add_cell(cell(10, 800, change));
    assembler.pool.add_cell(cell(11, 800, change));
    assembler.pool.add_cell(cell(12, 700, &script(9)));
    assembler.deps.register(
        change.duplicate(),
        CellDep { tx_hash: hash(20), index: 0, dep_group: true },
    );
    assembler.registry.register(
        change.duplicate(),
        Unlocker::Provided { placeholder_len: 85, witness: Some(vec![7u8; 65]) },
    );
    assembler
}

#[test]
fn build_balanced_covers_outputs_plus_fee() {
    let change = script(1);
    let mut assembler = funded_assembler(&change);
    let outputs = vec![CellOutput { capacity: 1000, lock: script(9), data: vec![] }];
    let draft = assembler.build_balanced(outputs, change.duplicate(), 85, 1000).unwrap();
    // one 800 cell cannot cover 1000 + 395, two cover 1000 + 524
    assert_eq!(draft.inputs.len(), 2);
    assert_eq!(draft.outputs.len(), 2);
    assert_eq!(draft.outputs[0].capacity, 1000);
    assert_eq!(draft.outputs[1].capacity, 76);
    assert!(draft.outputs[1].lock.equals(&change));
    let in_total: u64 = 800 + 800;
    let out_total: u64 = draft.outputs.iter().map(|o| o.capacity).sum();
    assert_eq!(in_total, out_total + 524);
    assert_eq!(draft.witnesses.len(), 2);
    for w in &draft.witnesses {
        assert_eq!(w, &vec![7u8; 65]);
    }
    assert_eq!(draft.cell_deps.len(), 1);
    assert_eq!(draft.cell_deps[0].tx_hash.bytes, [20u8; 32]);
    assert!(draft.header_deps.is_empty());
    // the selected objects are no longer offered
    assert!(assembler.pool.is_taken(0));
    assert!(assembler.pool.is_taken(1));
    assert!(!assembler.pool.is_taken(2));
}

#[test]
fn build_insufficient_funds_leaves_no_partial_draft() {
    let change = script(1);
    let mut assembler = funded_assembler(&change);
    let outputs = vec![CellOutput { capacity: 5000, lock: script(9), data: vec![] }];
    let r = assembler.build_balanced(outputs, change.duplicate(), 85, 1000);
    assert!(matches!(r, Err(HarnessError::InsufficientFunds)));
    // the collector is untouched: nothing was selected
    assert!(!assembler.pool.is_taken(0));
    assert!(!assembler.pool.is_taken(1));
    assert!(!assembler.pool.is_taken(2));
}

#[test]
fn build_fails_without_registered_dependency() {
    let change = script(1);
    let mut assembler = TransactionAssembler::new();
    assembler.pool.add_cell(cell(10, 800, &change));
    assembler.registry.register(change.duplicate(), Unlocker::Empty);
    let outputs = vec![CellOutput { capacity: 100, lock: script(9), data: vec![] }];
    let r = assembler.build_balanced(outputs, change.duplicate(), 85, 1000);
    assert!(matches!(r, Err(HarnessError::UnresolvedDependency)));
}

#[test]
fn build_fails_without_registered_unlocker() {
    let change = script(1);
    let mut assembler = TransactionAssembler::new();
    assembler.pool.add_cell(cell(10, 800, &change));
    assembler.deps.register(
        change.duplicate(),
        CellDep { tx_hash: hash(20), index: 0, dep_group: true },
    );
    let outputs = vec![CellOutput { capacity: 100, lock: script(9), data: vec![] }];
    let r = assembler.build_balanced(outputs, change.duplicate(), 85, 1000);
    assert!(matches!(r, Err(HarnessError::UnlockError)));
    assert!(!assembler.pool.is_taken(0));
}

#[test]
fn build_fails_when_strategy_cannot_finalize() {
    let change = script(1);
    let mut assembler = funded_assembler(&change);
    assembler.registry.register(
        change.duplicate(),
        Unlocker::Provided { placeholder_len: 85, witness: None },
    );
    let outputs = vec![CellOutput { capacity: 100, lock: script(9), data: vec![] }];
    let r = assembler.build_balanced(outputs, change.duplicate(), 85, 1000);
    assert!(matches!(r, Err(HarnessError::UnlockError)));
}

#[test]
fn pool_offers_each_object_once_until_released() {
    let change = script(1);
    let mut assembler = funded_assembler(&change);
    let outputs = vec![CellOutput { capacity: 1000, lock: script(9), data: vec![] }];
    assembler.build_balanced(outputs, change.duplicate(), 85, 1000).unwrap();
    // both matching objects are spoken for; a second build cannot reuse them
    let outputs = vec![CellOutput { capacity: 100, lock: script(9), data: vec![] }];
    let r = assembler.build_balanced(outputs, change.duplicate(), 85, 1000);
    assert!(matches!(r, Err(HarnessError::InsufficientFunds)));
    // releasing one makes it selectable again
    assembler.pool.release(0);
    let outputs = vec![CellOutput { capacity: 100, lock: script(9), data: vec![] }];
    let draft = assembler.build_balanced(outputs, change.duplicate(), 85, 1000).unwrap();
    assert_eq!(draft.inputs.len(), 1);
    assert_eq!(draft.outputs[1].capacity, 800 - 100 - 395);
}
