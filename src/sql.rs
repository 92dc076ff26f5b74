use vstd::prelude::*;
use crate::rows::{Block, BlockHash, BlockHeight, BlockRows, Input, Output, Tx};
use crate::store::{ConstraintViolation, StoreError};

verus! {

/// The tables of the relational schema.
#[derive(Clone, Copy, Debug, PartialEq, Eq)]
pub enum Table {
    Blocks,
    Txs,
    Outputs,
    Inputs,
}

/// A value bound to a statement parameter, in the column's own type.
#[derive(Clone, Debug, PartialEq, Eq)]
pub enum SqlValue {
    BigInt(i64),
    Int(i32),
    Bytes(BlockHash),
    Bool(bool),
    Text(Option<String>),
}

/// One statement that a relational backend runs.
#[derive(Clone, Debug, PartialEq, Eq)]
pub enum Statement {
    /// Add one row, its values in the table's column order.
    Insert { table: Table, values: Vec<SqlValue> },
    /// Remove every row of `table` whose height is at least `height`.
    DeleteFrom { table: Table, height: i64 },
    /// Remove every input that spends an output whose height is at least `height`.
    DeleteSpendsFrom { height: i64 },
}

/// The signed 64-bit column value that holds `v`: the same bits, read in two's complement.
pub open spec fn int64_of(v: u64) -> i64 {
    if v <= i64::MAX {
        v as i64
    } else {
        (v - 0x1_0000_0000_0000_0000) as i64
    }
}

/// The unsigned value that a signed 64-bit column value holds.
pub open spec fn u64_of(v: i64) -> u64 {
    if v >= 0 {
        v as u64
    } else {
        (v + 0x1_0000_0000_0000_0000) as u64
    }
}

/// The signed 32-bit column value that holds `v`, in two's complement.
pub open spec fn int32_of(v: u32) -> i32 {
    if v <= i32::MAX {
        v as i32
    } else {
        (v - 0x1_0000_0000) as i32
    }
}

/// Encodes an unsigned 64-bit value for a signed 64-bit column.
pub fn encode_u64(v: u64) -> (r: i64)
    ensures
        r == int64_of(v),
{
    if v <= 0x7fff_ffff_ffff_ffff {
        v as i64
    } else {
        let low: u64 = v - 0x8000_0000_0000_0000;
        i64::MIN + (low as i64)
    }
}

/// Decodes an unsigned 64-bit value from a signed 64-bit column.
pub fn decode_u64(v: i64) -> (r: u64)
    ensures
        r == u64_of(v),
{
    if v >= 0 {
        v as u64
    } else {
        let low: i64 = v - i64::MIN;
        (low as u64) + 0x8000_0000_0000_0000
    }
}

/// Encodes an unsigned 32-bit value for a signed 32-bit column.
pub fn encode_u32(v: u32) -> (r: i32)
    ensures
        r == int32_of(v),
{
    if v <= 0x7fff_ffff {
        v as i32
    } else {
        let low: u32 = v - 0x8000_0000;
        i32::MIN + (low as i32)
    }
}

/// A stored 64-bit value reads back as the value that was written.
pub proof fn lemma_u64_round_trip(v: u64)
    ensures
        u64_of(int64_of(v)) == v,
{
}

/// The greatest height, from the value that `MAX(height)` returned.
pub fn decode_max_height(v: Option<i64>) -> (r: Option<BlockHeight>)
    ensures
        r == (match v {
            Some(x) => Some(u64_of(x)),
            None => None::<u64>,
        }),
{
    match v {
        Some(x) => Some(decode_u64(x)),
        None => None,
    }
}

/// Whether a block at `height` may be stored above `tip`, the greatest stored
/// height: only a height above every stored one is accepted.
pub fn check_above_tip(tip: Option<BlockHeight>, height: BlockHeight) -> (r: Result<(), StoreError>)
    ensures
        r == (match tip {
            Some(m) if height <= m => Err(StoreError::Constraint(ConstraintViolation::StaleHeight)),
            _ => Ok::<(), StoreError>(()),
        }),
{
    match tip {
        Some(m) => {
            if height <= m {
                Err(StoreError::Constraint(ConstraintViolation::StaleHeight))
            } else {
                Ok(())
            }
        },
        None => Ok(()),
    }
}

/// The values of a block row, in column order: height, hash, prev_hash.
pub open spec fn block_values(b: Block) -> Seq<SqlValue> {
    seq![SqlValue::BigInt(int64_of(b.height)), SqlValue::Bytes(b.hash), SqlValue::Bytes(b.prev_hash)]
}

/// The values of a transaction row, in column order: height, hash, coinbase.
pub open spec fn tx_values(t: Tx) -> Seq<SqlValue> {
    seq![SqlValue::BigInt(int64_of(t.height)), SqlValue::Bytes(t.hash), SqlValue::Bool(t.coinbase)]
}

/// The values of an input row, in column order: height, utxo_tx_hash, utxo_tx_idx.
pub open spec fn input_values(x: Input) -> Seq<SqlValue> {
    seq![SqlValue::BigInt(int64_of(x.height)), SqlValue::Bytes(x.utxo_tx_hash), SqlValue::Int(int32_of(x.utxo_tx_idx))]
}

/// The values of an output row, in column order: height, tx_hash, tx_idx,
/// value, address, coinbase.
pub open spec fn output_values(o: Output) -> Seq<SqlValue> {
    seq![
        SqlValue::BigInt(int64_of(o.height)),
        SqlValue::Bytes(o.tx_hash),
        SqlValue::Int(int32_of(o.tx_idx)),
        SqlValue::BigInt(int64_of(o.value)),
        SqlValue::Text(o.address),
        SqlValue::Bool(o.coinbase),
    ]
}

/// `st` adds one row with `values` to `table`.
pub open spec fn inserts(st: Statement, table: Table, values: Seq<SqlValue>) -> bool {
    match st {
        Statement::Insert { table: t, values: v } => t == table && v@ == values,
        _ => false,
    }
}

/// The statements that store `rows`, to be run in one transaction: the block,
/// then each transaction, each input and each output, in their order.
pub open spec fn is_insert_plan(plan: Seq<Statement>, rows: BlockRows) -> bool {
    let nt = rows.txs@.len();
    let ni = rows.inputs@.len();
    let no = rows.outputs@.len();
    &&& plan.len() == 1 + nt + ni + no
    &&& inserts(plan[0], Table::Blocks, block_values(rows.block))
    &&& forall|k: int| 0 <= k < nt ==> inserts(#[trigger] plan[1 + k], Table::Txs, tx_values(rows.txs@[k]))
    &&& forall|k: int|
        0 <= k < ni ==> inserts(#[trigger] plan[1 + nt + k], Table::Inputs, input_values(rows.inputs@[k]))
    &&& forall|k: int|
        0 <= k < no ==> inserts(#[trigger] plan[1 + nt + ni + k], Table::Outputs, output_values(rows.outputs@[k]))
}

/// The statements that store `rows` as one unit.
pub fn insert_plan(rows: &BlockRows) -> (r: Vec<Statement>)
    ensures
        is_insert_plan(r@, *rows),
{
    let mut plan: Vec<Statement> = Vec::new();
    let b = rows.block;
    plan.push(Statement::Insert {
        table: Table::Blocks,
        values: vec![SqlValue::BigInt(encode_u64(b.height)), SqlValue::Bytes(b.hash), SqlValue::Bytes(b.prev_hash)],
    });
    proof {
        assert(plan@[0]->values@ =~= block_values(b));
    }
    let mut i: usize = 0;
    while i < rows.txs.len()
        invariant
            0 <= i <= rows.txs.len(),
            plan@.len() == 1 + i,
            inserts(plan@[0], Table::Blocks, block_values(b)),
            b == rows.block,
            forall|k: int| 0 <= k < i ==> inserts(#[trigger] plan@[1 + k], Table::Txs, tx_values(rows.txs@[k])),
        decreases rows.txs.len() - i,
    {
        let t = rows.txs[i];
        let values = vec![SqlValue::BigInt(encode_u64(t.height)), SqlValue::Bytes(t.hash), SqlValue::Bool(t.coinbase)];
        proof {
            assert(values@ =~= tx_values(t));
        }
        plan.push(Statement::Insert { table: Table::Txs, values });
        i = i + 1;
    }
    let ghost nt = rows.txs@.len();
    let mut i: usize = 0;
    while i < rows.inputs.len()
        invariant
            0 <= i <= rows.inputs.len(),
            nt == rows.txs@.len(),
            plan@.len() == 1 + nt + i,
            inserts(plan@[0], Table::Blocks, block_values(b)),
            b == rows.block,
            forall|k: int| 0 <= k < nt ==> inserts(#[trigger] plan@[1 + k], Table::Txs, tx_values(rows.txs@[k])),
            forall|k: int|
                0 <= k < i ==> inserts(#[trigger] plan@[1 + nt + k], Table::Inputs, input_values(rows.inputs@[k])),
        decreases rows.inputs.len() - i,
    {
        let x = rows.inputs[i];
        let values = vec![
            SqlValue::BigInt(encode_u64(x.height)),
            SqlValue::Bytes(x.utxo_tx_hash),
            SqlValue::Int(encode_u32(x.utxo_tx_idx)),
        ];
        proof {
            assert(values@ =~= input_values(x));
        }
        plan.push(Statement::Insert { table: Table::Inputs, values });
        i = i + 1;
    }
    let ghost ni = rows.inputs@.len();
    let mut i: usize = 0;
    while i < rows.outputs.len()
        invariant
            0 <= i <= rows.outputs.len(),
            nt == rows.txs@.len(),
            ni == rows.inputs@.len(),
            plan@.len() == 1 + nt + ni + i,
            inserts(plan@[0], Table::Blocks, block_values(b)),
            b == rows.block,
            forall|k: int| 0 <= k < nt ==> inserts(#[trigger] plan@[1 + k], Table::Txs, tx_values(rows.txs@[k])),
            forall|k: int|
                0 <= k < ni ==> inserts(#[trigger] plan@[1 + nt + k], Table::Inputs, input_values(rows.inputs@[k])),
            forall|k: int|
                0 <= k < i ==> inserts(
                    #[trigger] plan@[1 + nt + ni + k],
                    Table::Outputs,
                    output_values(rows.outputs@[k]),
                ),
        decreases rows.outputs.len() - i,
    {
        let o = rows.outputs[i].duplicate();
        let values = vec![
            SqlValue::BigInt(encode_u64(o.height)),
            SqlValue::Bytes(o.tx_hash),
            SqlValue::Int(encode_u32(o.tx_idx)),
            SqlValue::BigInt(encode_u64(o.value)),
            SqlValue::Text(o.address),
            SqlValue::Bool(o.coinbase),
        ];
        proof {
            assert(values@ =~= output_values(rows.outputs@[i as int]));
        }
        plan.push(Statement::Insert { table: Table::Outputs, values });
        i = i + 1;
    }
    plan
}

/// The statements of a reorg at `h`, to be run in one transaction. Spends of
/// outputs at `h` or above go first, while those outputs can still be found.
pub open spec fn reorg_statements(h: BlockHeight) -> Seq<Statement> {
    let v = int64_of(h);
    seq![
        Statement::DeleteSpendsFrom { height: v },
        Statement::DeleteFrom { table: Table::Inputs, height: v },
        Statement::DeleteFrom { table: Table::Outputs, height: v },
        Statement::DeleteFrom { table: Table::Txs, height: v },
        Statement::DeleteFrom { table: Table::Blocks, height: v },
    ]
}

/// The statements that remove everything at height `h` or above.
pub fn reorg_plan(h: BlockHeight) -> (r: Vec<Statement>)
    ensures
        r@ == reorg_statements(h),
{
    let v = encode_u64(h);
    let r = vec![
        Statement::DeleteSpendsFrom { height: v },
        Statement::DeleteFrom { table: Table::Inputs, height: v },
        Statement::DeleteFrom { table: Table::Outputs, height: v },
        Statement::DeleteFrom { table: Table::Txs, height: v },
        Statement::DeleteFrom { table: Table::Blocks, height: v },
    ];
    assert(r@ =~= reorg_statements(h));
    r
}

/// A hash read from a bytes column: `None` unless it holds exactly 32 bytes.
pub fn hash_from_column(bytes: &Vec<u8>) -> (r: Option<BlockHash>)
    ensures
        match r {
            Some(a) => bytes@.len() == 32 && a@ == bytes@,
            None => bytes@.len() != 32,
        },
{
    if bytes.len() != 32 {
        return None;
    }
    let mut a: BlockHash = [0u8; 32];
    let mut i: usize = 0;
    while i < 32
        invariant
            0 <= i <= 32,
            bytes@.len() == 32,
            a@.len() == 32,
            forall|k: int| 0 <= k < i ==> a@[k] == bytes@[k],
        decreases 32 - i,
    {
        a[i] = bytes[i];
        i = i + 1;
    }
    assert(a@ =~= bytes@);
    Some(a)
}

} // verus!
