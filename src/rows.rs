use vstd::prelude::*;

verus! {

/// Position of a block in the chain.
pub type BlockHeight = u64;

/// A 32-byte identifier of a block or a transaction.
pub type BlockHash = [u8; 32];

/// One row of the blocks table.
#[derive(Clone, Copy, Debug, PartialEq, Eq)]
pub struct Block {
    pub height: BlockHeight,
    pub hash: BlockHash,
    pub prev_hash: BlockHash,
}

/// One row of the transactions table.
#[derive(Clone, Copy, Debug, PartialEq, Eq)]
pub struct Tx {
    pub height: BlockHeight,
    pub hash: BlockHash,
    pub coinbase: bool,
}

/// One row of the outputs table; `(tx_hash, tx_idx)` names the output.
#[derive(Clone, Debug, PartialEq, Eq)]
pub struct Output {
    pub height: BlockHeight,
    pub tx_hash: BlockHash,
    pub tx_idx: u32,
    pub value: u64,
    pub address: Option<String>,
    pub coinbase: bool,
}

/// One row of the inputs table: the output that it spends.
#[derive(Clone, Copy, Debug, PartialEq, Eq)]
pub struct Input {
    pub height: BlockHeight,
    pub utxo_tx_hash: BlockHash,
    pub utxo_tx_idx: u32,
}

/// Everything one block decomposes into, ready to be stored as a unit.
#[derive(Clone, Debug, PartialEq, Eq)]
pub struct BlockRows {
    pub block: Block,
    pub txs: Vec<Tx>,
    pub outputs: Vec<Output>,
    pub inputs: Vec<Input>,
}

impl Output {
    /// A copy of the row.
    pub fn duplicate(&self) -> (r: Output)
        ensures
            r == *self,
    {
        let address = match &self.address {
            Some(a) => Some(a.clone()),
            None => None,
        };
        Output {
            height: self.height,
            tx_hash: self.tx_hash,
            tx_idx: self.tx_idx,
            value: self.value,
            address,
            coinbase: self.coinbase,
        }
    }
}

/// Whether an input spends the given output.
pub open spec fn spends(input: Input, output: Output) -> bool {
    &&& input.utxo_tx_hash@ == output.tx_hash@
    &&& input.utxo_tx_idx == output.tx_idx
}

/// Byte-wise equality of two hashes.
pub fn same_hash(a: &BlockHash, b: &BlockHash) -> (r: bool)
    ensures
        r == (a@ == b@),
{
    let mut i: usize = 0;
    while i < 32
        invariant
            0 <= i <= 32,
            a@.len() == 32,
            b@.len() == 32,
            forall|k: int| 0 <= k < i ==> a@[k] == b@[k],
        decreases 32 - i,
    {
        if a[i] != b[i] {
            return false;
        }
        i = i + 1;
    }
    assert(a@ =~= b@);
    true
}

/// Whether `input` spends `output`.
pub fn input_spends(input: &Input, output: &Output) -> (r: bool)
    ensures
        r == spends(*input, *output),
{
    input.utxo_tx_idx == output.tx_idx && same_hash(&input.utxo_tx_hash, &output.tx_hash)
}

} // verus!
