use chain_store::rows::{Block, BlockHash, BlockRows, Input, Output, Tx};
use chain_store::store::{ConstraintViolation, MemoryStore, StoreError};

fn hash(tag: u8) -> BlockHash {
    let mut h = [0u8; 32];
    h[0] = tag;
    h[31] = tag.wrapping_mul(3);
    h
}

fn block_rows(height: u64, tag: u8, prev: u8) -> BlockRows {
    BlockRows {
        block: Block { height, hash: hash(tag), prev_hash: hash(prev) },
        txs: vec![Tx { height, hash: hash(tag + 100), coinbase: true }],
        outputs: vec![Output {
            height,
            tx_hash: hash(tag + 100),
            tx_idx: 0,
            value: 5000,
            address: Some("A".to_string()),
            coinbase: true,
        }],
        inputs: vec![],
    }
}

#[test]
fn empty_store_has_no_height_and_no_hash() {
    let store = MemoryStore::new();
    assert_eq!(store.get_max_height(), None);
    assert_eq!(store.get_hash_by_height(0), None);
    assert_eq!(store.get_hash_by_height(100), None);
    assert_eq!(store.get_hash_by_height(u64::MAX), None);
}

#[test]
fn round_trip_insert_then_reorg() {
    let mut store = MemoryStore::new();
    let h1 = hash(7);
    assert_eq!(store.insert(block_rows(100, 7, 6)), Ok(()));
    assert_eq!(store.get_max_height(), Some(100));
    assert_eq!(store.get_hash_by_height(100), Some(h1));
    assert_eq!(store.txs().len(), 1);
    assert_eq!(store.outputs()[0].value, 5000);
    assert_eq!(store.outputs()[0].address, Some("A".to_string()));
    assert_eq!(store.reorg_at_height(100), Ok(()));
    assert_eq!(store.get_max_height(), None);
    assert_eq!(store.get_hash_by_height(100), None);
    assert!(store.txs().is_empty());
    assert!(store.outputs().is_empty());
}

#[test]
fn round_trip_with_a_block_below() {
    let mut store = MemoryStore::new();
    assert_eq!(store.insert(block_rows(99, 6, 5)), Ok(()));
    assert_eq!(store.insert(block_rows(100, 7, 6)), Ok(()));
    assert_eq!(store.get_max_height(), Some(100));
    assert_eq!(store.reorg_at_height(100), Ok(()));
    assert_eq!(store.get_max_height(), Some(99));
    assert_eq!(store.get_hash_by_height(99), Some(hash(6)));
    assert_eq!(store.get_hash_by_height(100), None);
}

#[test]
fn insert_sets_the_tip_each_time() {
    let mut store = MemoryStore::new();
    for (k, height) in [3u64, 4, 5, 9].iter().enumerate() {
        let tag = k as u8 + 1;
        assert_eq!(store.insert(block_rows(*height, tag, tag - 1)), Ok(()));
        assert_eq!(store.get_max_height(), Some(*height));
        assert_eq!(store.get_hash_by_height(*height), Some(hash(tag)));
    }
    assert_eq!(store.get_hash_by_height(6), None);
    assert_eq!(store.blocks().len(), 4);
}

#[test]
fn insert_at_a_stored_height_is_refused_and_changes_nothing() {
    let mut store = MemoryStore::new();
    assert_eq!(store.insert(block_rows(10, 1, 0)), Ok(()));
    let err = store.insert(block_rows(10, 2, 1));
    assert_eq!(err, Err(StoreError::Constraint(ConstraintViolation::StaleHeight)));
    assert_eq!(store.get_hash_by_height(10), Some(hash(1)));
    assert_eq!(store.txs().len(), 1);
    assert_eq!(store.outputs().len(), 1);
}

#[test]
fn insert_below_the_tip_is_refused() {
    let mut store = MemoryStore::new();
    assert_eq!(store.insert(block_rows(10, 1, 0)), Ok(()));
    let err = store.insert(block_rows(8, 2, 1));
    assert_eq!(err, Err(StoreError::Constraint(ConstraintViolation::StaleHeight)));
    assert_eq!(store.get_max_height(), Some(10));
    assert_eq!(store.get_hash_by_height(8), None);
}

#[test]
fn failure_in_a_late_row_group_leaves_no_row_of_the_block() {
    let mut store = MemoryStore::new();
    assert_eq!(store.insert(block_rows(1, 1, 0)), Ok(()));
    let mut rows = block_rows(2, 2, 1);
    rows.inputs.push(Input { height: 2, utxo_tx_hash: hash(101), utxo_tx_idx: 0 });
    rows.outputs.push(Output {
        height: 40,
        tx_hash: hash(102),
        tx_idx: 1,
        value: 1,
        address: None,
        coinbase: false,
    });
    let err = store.insert(rows);
    assert_eq!(err, Err(StoreError::Constraint(ConstraintViolation::MissingBlock)));
    assert_eq!(store.get_max_height(), Some(1));
    assert_eq!(store.get_hash_by_height(2), None);
    assert_eq!(store.txs().len(), 1);
    assert_eq!(store.outputs().len(), 1);
    assert!(store.inputs().is_empty());
}

#[test]
fn failure_in_the_transaction_group_is_a_missing_block() {
    let mut store = MemoryStore::new();
    let mut rows = block_rows(5, 1, 0);
    rows.txs.push(Tx { height: 4, hash: hash(9), coinbase: false });
    assert_eq!(store.insert(rows), Err(StoreError::Constraint(ConstraintViolation::MissingBlock)));
    assert_eq!(store.get_max_height(), None);
}

#[test]
fn rows_may_name_an_earlier_stored_block() {
    let mut store = MemoryStore::new();
    assert_eq!(store.insert(block_rows(1, 1, 0)), Ok(()));
    let mut rows = block_rows(2, 2, 1);
    rows.txs.push(Tx { height: 1, hash: hash(9), coinbase: false });
    assert_eq!(store.insert(rows), Ok(()));
    assert_eq!(store.txs().len(), 3);
}

#[test]
fn reorg_removes_every_height_at_or_above() {
    let mut store = MemoryStore::new();
    for h in 1..=6u64 {
        assert_eq!(store.insert(block_rows(h, h as u8, h as u8 - 1)), Ok(()));
    }
    assert_eq!(store.reorg_at_height(4), Ok(()));
    for h in 4..=6u64 {
        assert_eq!(store.get_hash_by_height(h), None);
    }
    for h in 1..=3u64 {
        assert_eq!(store.get_hash_by_height(h), Some(hash(h as u8)));
    }
    assert_eq!(store.get_max_height(), Some(3));
    assert_eq!(store.txs().len(), 3);
    assert_eq!(store.outputs().len(), 3);
}

#[test]
fn reorg_on_an_empty_tail_changes_nothing() {
    let mut store = MemoryStore::new();
    assert_eq!(store.insert(block_rows(1, 1, 0)), Ok(()));
    assert_eq!(store.insert(block_rows(2, 2, 1)), Ok(()));
    let blocks = store.blocks().clone();
    let outputs = store.outputs().clone();
    assert_eq!(store.reorg_at_height(3), Ok(()));
    assert_eq!(store.blocks(), &blocks);
    assert_eq!(store.outputs(), &outputs);
    assert_eq!(store.get_max_height(), Some(2));
    let mut empty = MemoryStore::new();
    assert_eq!(empty.reorg_at_height(0), Ok(()));
    assert_eq!(empty.get_max_height(), None);
}

#[test]
fn reorg_purges_spends_of_removed_outputs() {
    let mut store = MemoryStore::new();
    assert_eq!(store.insert(block_rows(1, 1, 0)), Ok(()));
    assert_eq!(store.insert(block_rows(2, 2, 1)), Ok(()));
    // An input stored at height 1 that spends the output of height 2.
    let mut rows = block_rows(3, 3, 2);
    rows.inputs.push(Input { height: 1, utxo_tx_hash: hash(102), utxo_tx_idx: 0 });
    rows.inputs.push(Input { height: 1, utxo_tx_hash: hash(101), utxo_tx_idx: 0 });
    rows.inputs.push(Input { height: 3, utxo_tx_hash: hash(101), utxo_tx_idx: 0 });
    assert_eq!(store.insert(rows), Ok(()));
    assert_eq!(store.inputs().len(), 3);
    assert_eq!(store.reorg_at_height(2), Ok(()));
    assert_eq!(
        store.inputs(),
        &vec![Input { height: 1, utxo_tx_hash: hash(101), utxo_tx_idx: 0 }]
    );
}

#[test]
fn reorg_keeps_a_spend_of_another_index() {
    let mut store = MemoryStore::new();
    assert_eq!(store.insert(block_rows(1, 1, 0)), Ok(()));
    assert_eq!(store.insert(block_rows(2, 2, 1)), Ok(()));
    let mut rows = block_rows(3, 3, 2);
    rows.inputs.push(Input { height: 1, utxo_tx_hash: hash(102), utxo_tx_idx: 1 });
    assert_eq!(store.insert(rows), Ok(()));
    assert_eq!(store.reorg_at_height(2), Ok(()));
    assert_eq!(store.inputs().len(), 1);
}

#[test]
fn reorgs_at_decreasing_heights_empty_the_tail() {
    let mut store = MemoryStore::new();
    for h in 10..=14u64 {
        assert_eq!(store.insert(block_rows(h, h as u8, h as u8 - 1)), Ok(()));
    }
    assert_eq!(store.reorg_at_height(13), Ok(()));
    assert_eq!(store.get_max_height(), Some(12));
    assert_eq!(store.reorg_at_height(11), Ok(()));
    assert_eq!(store.get_max_height(), Some(10));
    assert_eq!(store.insert(block_rows(11, 50, 10)), Ok(()));
    assert_eq!(store.get_hash_by_height(11), Some(hash(50)));
}

#[test]
fn duplicate_copies_every_field() {
    let o = Output {
        height: 4,
        tx_hash: hash(3),
        tx_idx: 2,
        value: 77,
        address: Some("addr".to_string()),
        coinbase: false,
    };
    assert_eq!(o.duplicate(), o);
}

#[test]
fn same_hash_compares_every_byte() {
    let a = hash(1);
    let mut b = hash(1);
    assert!(chain_store::rows::same_hash(&a, &b));
    b[17] = 9;
    assert!(!chain_store::rows::same_hash(&a, &b));
}

#[test]
fn an_output_key_already_stored_is_refused() {
    let mut store = MemoryStore::new();
    assert_eq!(store.insert(block_rows(1, 1, 0)), Ok(()));
    let mut rows = block_rows(2, 2, 1);
    rows.outputs.push(Output {
        height: 2,
        tx_hash: hash(101),
        tx_idx: 0,
        value: 9,
        address: None,
        coinbase: false,
    });
    assert_eq!(store.insert(rows), Err(StoreError::Constraint(ConstraintViolation::DuplicateOutput)));
    assert_eq!(store.get_max_height(), Some(1));
    assert_eq!(store.outputs().len(), 1);
}

#[test]
fn an_output_key_given_twice_is_refused() {
    let mut store = MemoryStore::new();
    let mut rows = block_rows(1, 1, 0);
    let again = rows.outputs[0].duplicate();
    rows.outputs.push(again);
    assert_eq!(store.insert(rows), Err(StoreError::Constraint(ConstraintViolation::DuplicateOutput)));
    assert_eq!(store.get_max_height(), None);
    assert!(store.outputs().is_empty());
}

#[test]
fn an_output_key_frees_up_after_a_reorg() {
    let mut store = MemoryStore::new();
    assert_eq!(store.insert(block_rows(1, 1, 0)), Ok(()));
    assert_eq!(store.insert(block_rows(2, 2, 1)), Ok(()));
    assert_eq!(store.reorg_at_height(2), Ok(()));
    assert_eq!(store.insert(block_rows(2, 2, 1)), Ok(()));
    assert_eq!(store.outputs().len(), 2);
}
