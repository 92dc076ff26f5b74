use vstd::prelude::*;
use crate::rows::{Block, BlockHash, BlockHeight, BlockRows, Input, Output, Tx, spends, input_spends, same_hash};

verus! {

/// Which data invariant a write would break.
#[derive(Clone, Copy, Debug, PartialEq, Eq)]
pub enum ConstraintViolation {
    /// The block's height is not above every stored height.
    StaleHeight,
    /// A row names a height at which no block is stored or being stored.
    MissingBlock,
    /// An output's `(tx_hash, tx_idx)` is already stored or given twice.
    DuplicateOutput,
}

/// Why an operation on a store failed.
#[derive(Clone, Debug, PartialEq, Eq)]
pub enum StoreError {
    /// The backing store's location or credentials are missing or invalid.
    Configuration(String),
    /// The backing store could not be reached, or a statement failed there.
    Connectivity(String),
    /// A block could not be turned into rows.
    Decomposition(String),
    /// A write would break a data invariant; nothing was written.
    Constraint(ConstraintViolation),
}

/// The four tables of a store, as sequences of rows in insertion order.
pub ghost struct StoreState {
    pub blocks: Seq<Block>,
    pub txs: Seq<Tx>,
    pub outputs: Seq<Output>,
    pub inputs: Seq<Input>,
}

impl StoreState {
    pub open spec fn empty() -> StoreState {
        StoreState { blocks: Seq::empty(), txs: Seq::empty(), outputs: Seq::empty(), inputs: Seq::empty() }
    }

    pub open spec fn has_block_at(self, h: BlockHeight) -> bool {
        exists|i: int| 0 <= i < self.blocks.len() && self.blocks[i].height == h
    }

    /// Every stored height is below `h`.
    pub open spec fn above_tip(self, h: BlockHeight) -> bool {
        forall|i: int| 0 <= i < self.blocks.len() ==> self.blocks[i].height < h
    }

    /// Blocks are kept in strictly ascending height, so at most one block
    /// occupies a height, and every other row belongs to a stored block.
    pub open spec fn wf(self) -> bool {
        &&& forall|i: int, j: int|
            0 <= i < j < self.blocks.len() ==> self.blocks[i].height < self.blocks[j].height
        &&& forall|i: int| 0 <= i < self.txs.len() ==> self.has_block_at(#[trigger] self.txs[i].height)
        &&& forall|i: int|
            0 <= i < self.outputs.len() ==> self.has_block_at(#[trigger] self.outputs[i].height)
        &&& forall|i: int|
            0 <= i < self.inputs.len() ==> self.has_block_at(#[trigger] self.inputs[i].height)
        &&& outputs_distinct(self.outputs)
    }

    /// `m` is the height of a stored block and no stored block is higher.
    pub open spec fn is_tip(self, m: BlockHeight) -> bool {
        &&& self.has_block_at(m)
        &&& forall|i: int| 0 <= i < self.blocks.len() ==> self.blocks[i].height <= m
    }

    /// The greatest stored height, if any block is stored.
    pub open spec fn max_height(self) -> Option<BlockHeight> {
        if self.blocks.len() == 0 {
            None
        } else {
            Some(choose|m: BlockHeight| self.is_tip(m))
        }
    }

    /// The hash of the block stored at height `h`, if any.
    pub open spec fn hash_at(self, h: BlockHeight) -> Option<BlockHash> {
        if self.has_block_at(h) {
            Some(self.blocks[choose|i: int| 0 <= i < self.blocks.len() && self.blocks[i].height == h].hash)
        } else {
            None
        }
    }

    /// A row at height `h` may accompany `block`: it belongs to that block or to a stored one.
    pub open spec fn row_height_ok(self, block: Block, h: BlockHeight) -> bool {
        h == block.height || self.has_block_at(h)
    }

    pub open spec fn rows_reference_blocks(self, rows: BlockRows) -> bool {
        &&& forall|i: int| 0 <= i < rows.txs@.len() ==> self.row_height_ok(rows.block, #[trigger] rows.txs@[i].height)
        &&& forall|i: int|
            0 <= i < rows.outputs@.len() ==> self.row_height_ok(rows.block, #[trigger] rows.outputs@[i].height)
        &&& forall|i: int|
            0 <= i < rows.inputs@.len() ==> self.row_height_ok(rows.block, #[trigger] rows.inputs@[i].height)
    }

    /// What storing `rows` would break, checked in this order; `None` where it may be stored.
    pub open spec fn insert_violation(self, rows: BlockRows) -> Option<ConstraintViolation> {
        if !self.above_tip(rows.block.height) {
            Some(ConstraintViolation::StaleHeight)
        } else if !self.rows_reference_blocks(rows) {
            Some(ConstraintViolation::MissingBlock)
        } else if !outputs_distinct(self.outputs + rows.outputs@) {
            Some(ConstraintViolation::DuplicateOutput)
        } else {
            None
        }
    }

    /// The state once every row of `rows` has been added.
    pub open spec fn with_rows(self, rows: BlockRows) -> StoreState {
        StoreState {
            blocks: self.blocks.push(rows.block),
            txs: self.txs + rows.txs@,
            outputs: self.outputs + rows.outputs@,
            inputs: self.inputs + rows.inputs@,
        }
    }

    /// The outcome of storing `rows`.
    pub open spec fn insert_result(self, rows: BlockRows) -> Result<(), StoreError> {
        match self.insert_violation(rows) {
            None => Ok(()),
            Some(v) => Err(StoreError::Constraint(v)),
        }
    }

    /// `input` spends an output stored at height `h` or above.
    pub open spec fn spends_from(self, input: Input, h: BlockHeight) -> bool {
        exists|k: int| 0 <= k < self.outputs.len() && self.outputs[k].height >= h && spends(input, self.outputs[k])
    }

    /// The state once every row at height `h` or above, and every input that
    /// spends an output at height `h` or above, has been removed.
    pub open spec fn truncated_at(self, h: BlockHeight) -> StoreState {
        StoreState {
            blocks: self.blocks.filter(block_below(h)),
            txs: self.txs.filter(tx_below(h)),
            outputs: self.outputs.filter(output_below(h)),
            inputs: self.inputs.filter(|x: Input| x.height < h && !self.spends_from(x, h)),
        }
    }
}

/// Two outputs carry the same `(tx_hash, tx_idx)`.
pub open spec fn same_output_key(a: Output, b: Output) -> bool {
    a.tx_hash@ == b.tx_hash@ && a.tx_idx == b.tx_idx
}

/// No two outputs of `s` carry the same `(tx_hash, tx_idx)`.
pub open spec fn outputs_distinct(s: Seq<Output>) -> bool {
    forall|i: int, j: int| 0 <= i < j < s.len() ==> !same_output_key(s[i], s[j])
}

pub open spec fn block_below(h: BlockHeight) -> spec_fn(Block) -> bool {
    |b: Block| b.height < h
}

pub open spec fn tx_below(h: BlockHeight) -> spec_fn(Tx) -> bool {
    |t: Tx| t.height < h
}

pub open spec fn output_below(h: BlockHeight) -> spec_fn(Output) -> bool {
    |o: Output| o.height < h
}

/// A store that keeps its four tables in memory.
pub struct MemoryStore {
    blocks: Vec<Block>,
    txs: Vec<Tx>,
    outputs: Vec<Output>,
    inputs: Vec<Input>,
}

impl View for MemoryStore {
    type V = StoreState;

    closed spec fn view(&self) -> StoreState {
        StoreState { blocks: self.blocks@, txs: self.txs@, outputs: self.outputs@, inputs: self.inputs@ }
    }
}

impl MemoryStore {
    /// An empty store.
    pub fn new() -> (r: MemoryStore)
        ensures
            r@ == StoreState::empty(),
            r@.wf(),
    {
        MemoryStore { blocks: Vec::new(), txs: Vec::new(), outputs: Vec::new(), inputs: Vec::new() }
    }

    /// The index of the block stored at height `h`, if any.
    fn find_block(&self, h: BlockHeight) -> (r: Option<usize>)
        ensures
            match r {
                Some(i) => i < self@.blocks.len() && self@.blocks[i as int].height == h,
                None => !self@.has_block_at(h),
            },
    {
        let mut i: usize = 0;
        while i < self.blocks.len()
            invariant
                self@.blocks == self.blocks@,
                0 <= i <= self.blocks.len(),
                forall|k: int| 0 <= k < i ==> self.blocks@[k].height != h,
            decreases self.blocks.len() - i,
        {
            if self.blocks[i].height == h {
                return Some(i);
            }
            i = i + 1;
        }
        None
    }

    /// The greatest stored height, or `None` for an empty store.
    pub fn get_max_height(&self) -> (r: Option<BlockHeight>)
        requires
            self@.wf(),
        ensures
            r == self@.max_height(),
    {
        let n = self.blocks.len();
        if n == 0 {
            None
        } else {
            let m = self.blocks[n - 1].height;
            proof {
                let s = self@;
                assert(s.blocks[n - 1].height == m);
                assert(s.is_tip(m));
                let c = choose|c: BlockHeight| s.is_tip(c);
                assert(c <= m && m <= c);
            }
            Some(m)
        }
    }

    /// The hash of the block at height `h`, or `None` where no block is stored.
    pub fn get_hash_by_height(&self, h: BlockHeight) -> (r: Option<BlockHash>)
        requires
            self@.wf(),
        ensures
            r == self@.hash_at(h),
    {
        match self.find_block(h) {
            Some(i) => {
                proof {
                    let s = self@;
                    let c = choose|c: int| 0 <= c < s.blocks.len() && s.blocks[c].height == h;
                    if c < i {
                        assert(s.blocks[c].height < s.blocks[i as int].height);
                    } else if c > i {
                        assert(s.blocks[i as int].height < s.blocks[c].height);
                    }
                }
                Some(self.blocks[i].hash)
            },
            None => None,
        }
    }

    /// Whether a row at height `h` may accompany a block at `block_height`.
    fn row_height_ok(&self, block: &Block, h: BlockHeight) -> (r: bool)
        ensures
            r == self@.row_height_ok(*block, h),
    {
        h == block.height || self.find_block(h).is_some()
    }

    /// Whether `new` can follow the stored outputs with every key still distinct.
    fn outputs_fit(&self, new: &Vec<Output>) -> (r: bool)
        requires
            outputs_distinct(self@.outputs),
        ensures
            r == outputs_distinct(self@.outputs + new@),
    {
        let ghost all = self@.outputs + new@;
        let ghost n0 = self@.outputs.len();
        let mut j: usize = 0;
        while j < new.len()
            invariant
                0 <= j <= new.len(),
                self@.outputs == self.outputs@,
                all == self@.outputs + new@,
                n0 == self@.outputs.len(),
                outputs_distinct(self@.outputs + new@.subrange(0, j as int)),
            decreases new.len() - j,
        {
            let o = &new[j];
            let mut k: usize = 0;
            while k < self.outputs.len()
                invariant
                    0 <= k <= self.outputs.len(),
                    j < new.len(),
                    *o == new@[j as int],
                    self@.outputs == self.outputs@,
                    all == self@.outputs + new@,
                    n0 == self@.outputs.len(),
                    forall|q: int| 0 <= q < k ==> !same_output_key(self.outputs@[q], new@[j as int]),
                decreases self.outputs.len() - k,
            {
                if self.outputs[k].tx_idx == o.tx_idx && same_hash(&self.outputs[k].tx_hash, &o.tx_hash) {
                    assert(all[k as int] == self.outputs@[k as int]);
                    assert(all[n0 + j] == new@[j as int]);
                    assert(same_output_key(all[k as int], all[n0 + j]));
                    return false;
                }
                k = k + 1;
            }
            let mut k: usize = 0;
            while k < j
                invariant
                    0 <= k <= j < new.len(),
                    *o == new@[j as int],
                    self@.outputs == self.outputs@,
                    all == self@.outputs + new@,
                    n0 == self@.outputs.len(),
                    forall|q: int| 0 <= q < k ==> !same_output_key(new@[q], new@[j as int]),
                decreases j - k,
            {
                if new[k].tx_idx == o.tx_idx && same_hash(&new[k].tx_hash, &o.tx_hash) {
                    assert(all[n0 + k] == new@[k as int]);
                    assert(all[n0 + j] == new@[j as int]);
                    assert(same_output_key(all[n0 + k], all[n0 + j]));
                    return false;
                }
                k = k + 1;
            }
            proof {
                let prev = self@.outputs + new@.subrange(0, j as int);
                let next = self@.outputs + new@.subrange(0, j + 1);
                assert(next =~= prev.push(new@[j as int]));
                assert forall|a: int, b: int| 0 <= a < b < next.len() implies !same_output_key(next[a], next[b]) by {
                    if b < prev.len() {
                        assert(next[a] == prev[a] && next[b] == prev[b]);
                    } else if a < n0 {
                        assert(next[a] == self.outputs@[a]);
                    } else {
                        assert(next[a] == new@[a - n0]);
                    }
                }
            }
            j = j + 1;
        }
        assert(new@.subrange(0, j as int) =~= new@);
        true
    }

    /// Stores every row of `rows` as one unit, or none of them.
    ///
    /// A block must lie above every stored height, each of its rows must belong
    /// to it or to a stored block, and no output key may be stored twice;
    /// otherwise the store is left exactly as it was and the first broken
    /// constraint is returned.
    pub fn insert(&mut self, rows: BlockRows) -> (r: Result<(), StoreError>)
        requires
            old(self)@.wf(),
        ensures
            r == old(self)@.insert_result(rows),
            r is Ok ==> final(self)@ == old(self)@.with_rows(rows),
            r is Err ==> final(self)@ == old(self)@,
            final(self)@.wf(),
    {
        let n = self.blocks.len();
        if n > 0 && self.blocks[n - 1].height >= rows.block.height {
            assert(self@.blocks[n - 1].height >= rows.block.height);
            return Err(StoreError::Constraint(ConstraintViolation::StaleHeight));
        }
        proof {
            let s = self@;
            assert forall|i: int| 0 <= i < s.blocks.len() implies s.blocks[i].height < rows.block.height by {
                if i < n - 1 {
                    assert(s.blocks[i].height < s.blocks[n - 1].height);
                }
            }
        }
        let mut i: usize = 0;
        while i < rows.txs.len()
            invariant
                0 <= i <= rows.txs.len(),
                self@ == old(self)@,
                self@.wf(),
                self@.above_tip(rows.block.height),
                forall|k: int| 0 <= k < i ==> self@.row_height_ok(rows.block, #[trigger] rows.txs@[k].height),
            decreases rows.txs.len() - i,
        {
            assert(self@.rows_reference_blocks(rows) ==> self@.row_height_ok(rows.block, rows.txs@[i as int].height));
            if !self.row_height_ok(&rows.block, rows.txs[i].height) {
                return Err(StoreError::Constraint(ConstraintViolation::MissingBlock));
            }
            i = i + 1;
        }
        let mut i: usize = 0;
        while i < rows.outputs.len()
            invariant
                0 <= i <= rows.outputs.len(),
                self@ == old(self)@,
                self@.wf(),
                self@.above_tip(rows.block.height),
                forall|k: int| 0 <= k < i ==> self@.row_height_ok(rows.block, #[trigger] rows.outputs@[k].height),
            decreases rows.outputs.len() - i,
        {
            assert(self@.rows_reference_blocks(rows) ==> self@.row_height_ok(rows.block, rows.outputs@[i as int].height));
            if !self.row_height_ok(&rows.block, rows.outputs[i].height) {
                return Err(StoreError::Constraint(ConstraintViolation::MissingBlock));
            }
            i = i + 1;
        }
        let mut i: usize = 0;
        while i < rows.inputs.len()
            invariant
                0 <= i <= rows.inputs.len(),
                self@ == old(self)@,
                self@.wf(),
                self@.above_tip(rows.block.height),
                forall|k: int| 0 <= k < i ==> self@.row_height_ok(rows.block, #[trigger] rows.inputs@[k].height),
            decreases rows.inputs.len() - i,
        {
            assert(self@.rows_reference_blocks(rows) ==> self@.row_height_ok(rows.block, rows.inputs@[i as int].height));
            if !self.row_height_ok(&rows.block, rows.inputs[i].height) {
                return Err(StoreError::Constraint(ConstraintViolation::MissingBlock));
            }
            i = i + 1;
        }
        if !self.outputs_fit(&rows.outputs) {
            return Err(StoreError::Constraint(ConstraintViolation::DuplicateOutput));
        }
        let ghost before = self@;
        let ghost given = rows;
        let mut rows = rows;
        self.blocks.push(rows.block);
        self.txs.append(&mut rows.txs);
        self.outputs.append(&mut rows.outputs);
        self.inputs.append(&mut rows.inputs);
        proof {
            lemma_with_rows_wf(before, given);
        }
        Ok(())
    }

    /// Whether `input` spends an output stored at height `h` or above.
    fn spends_from(&self, input: &Input, h: BlockHeight) -> (r: bool)
        ensures
            r == self@.spends_from(*input, h),
    {
        let mut k: usize = 0;
        while k < self.outputs.len()
            invariant
                self@.outputs == self.outputs@,
                0 <= k <= self.outputs.len(),
                forall|j: int| 0 <= j < k ==> !(self.outputs@[j].height >= h && spends(*input, self.outputs@[j])),
            decreases self.outputs.len() - k,
        {
            if self.outputs[k].height >= h && input_spends(input, &self.outputs[k]) {
                return true;
            }
            k = k + 1;
        }
        false
    }

    /// Removes every block, transaction, output and input at height `h` or
    /// above, and every input that spends an output at height `h` or above.
    /// All rows below `h` stay, in their order.
    pub fn reorg_at_height(&mut self, h: BlockHeight) -> (r: Result<(), StoreError>)
        requires
            old(self)@.wf(),
        ensures
            r is Ok,
            final(self)@ == old(self)@.truncated_at(h),
            final(self)@.wf(),
    {
        let ghost s = self@;
        let ghost keep_input = |x: Input| x.height < h && !s.spends_from(x, h);
        let mut inputs: Vec<Input> = Vec::new();
        let mut i: usize = 0;
        while i < self.inputs.len()
            invariant
                self@ == s,
                keep_input == (|x: Input| x.height < h && !s.spends_from(x, h)),
                0 <= i <= self.inputs.len(),
                inputs@ == self.inputs@.subrange(0, i as int).filter(keep_input),
            decreases self.inputs.len() - i,
        {
            proof {
                lemma_filter_step(self.inputs@, keep_input, i as int);
            }
            let x = self.inputs[i];
            if x.height < h && !self.spends_from(&x, h) {
                inputs.push(x);
            }
            i = i + 1;
        }
        proof {
            assert(self.inputs@.subrange(0, i as int) =~= self.inputs@);
        }
        let mut outputs: Vec<Output> = Vec::new();
        let mut i: usize = 0;
        while i < self.outputs.len()
            invariant
                self@ == s,
                0 <= i <= self.outputs.len(),
                outputs@ == self.outputs@.subrange(0, i as int).filter(output_below(h)),
            decreases self.outputs.len() - i,
        {
            proof {
                lemma_filter_step(self.outputs@, output_below(h), i as int);
            }
            if self.outputs[i].height < h {
                outputs.push(self.outputs[i].duplicate());
            }
            i = i + 1;
        }
        proof {
            assert(self.outputs@.subrange(0, i as int) =~= self.outputs@);
        }
        let mut txs: Vec<Tx> = Vec::new();
        let mut i: usize = 0;
        while i < self.txs.len()
            invariant
                self@ == s,
                0 <= i <= self.txs.len(),
                txs@ == self.txs@.subrange(0, i as int).filter(tx_below(h)),
            decreases self.txs.len() - i,
        {
            proof {
                lemma_filter_step(self.txs@, tx_below(h), i as int);
            }
            if self.txs[i].height < h {
                txs.push(self.txs[i]);
            }
            i = i + 1;
        }
        proof {
            assert(self.txs@.subrange(0, i as int) =~= self.txs@);
        }
        let mut blocks: Vec<Block> = Vec::new();
        let mut i: usize = 0;
        while i < self.blocks.len()
            invariant
                self@ == s,
                0 <= i <= self.blocks.len(),
                blocks@ == self.blocks@.subrange(0, i as int).filter(block_below(h)),
            decreases self.blocks.len() - i,
        {
            proof {
                lemma_filter_step(self.blocks@, block_below(h), i as int);
            }
            if self.blocks[i].height < h {
                blocks.push(self.blocks[i]);
            }
            i = i + 1;
        }
        proof {
            assert(self.blocks@.subrange(0, i as int) =~= self.blocks@);
        }
        self.blocks = blocks;
        self.txs = txs;
        self.outputs = outputs;
        self.inputs = inputs;
        proof {
            assert(self@ =~= s.truncated_at(h));
            lemma_truncated_wf(s, h);
        }
        Ok(())
    }

    /// The stored blocks, lowest height first.
    pub fn blocks(&self) -> (r: &Vec<Block>)
        ensures
            r@ == self@.blocks,
    {
        &self.blocks
    }

    /// The stored transactions, in insertion order.
    pub fn txs(&self) -> (r: &Vec<Tx>)
        ensures
            r@ == self@.txs,
    {
        &self.txs
    }

    /// The stored outputs, in insertion order.
    pub fn outputs(&self) -> (r: &Vec<Output>)
        ensures
            r@ == self@.outputs,
    {
        &self.outputs
    }

    /// The stored inputs, in insertion order.
    pub fn inputs(&self) -> (r: &Vec<Input>)
        ensures
            r@ == self@.inputs,
    {
        &self.inputs
    }
}

/// Adding rows that break no constraint keeps the store well formed.
proof fn lemma_with_rows_wf(s: StoreState, rows: BlockRows)
    requires
        s.wf(),
        s.insert_violation(rows) is None,
    ensures
        s.with_rows(rows).wf(),
{
    let t = s.with_rows(rows);
    assert(t.outputs == s.outputs + rows.outputs@);
    let n = s.blocks.len();
    assert forall|h: BlockHeight| s.row_height_ok(rows.block, h) implies t.has_block_at(h) by {
        if h == rows.block.height {
            assert(t.blocks[n as int].height == h);
        } else {
            let j = choose|j: int| 0 <= j < s.blocks.len() && s.blocks[j].height == h;
            assert(t.blocks[j].height == h);
        }
    }
    assert forall|i: int| 0 <= i < t.txs.len() implies t.has_block_at(#[trigger] t.txs[i].height) by {
        if i < s.txs.len() {
            assert(t.txs[i] == s.txs[i]);
        } else {
            assert(t.txs[i] == rows.txs@[i - s.txs.len()]);
        }
    }
    assert forall|i: int| 0 <= i < t.outputs.len() implies t.has_block_at(#[trigger] t.outputs[i].height) by {
        if i < s.outputs.len() {
            assert(t.outputs[i] == s.outputs[i]);
        } else {
            assert(t.outputs[i] == rows.outputs@[i - s.outputs.len()]);
        }
    }
    assert forall|i: int| 0 <= i < t.inputs.len() implies t.has_block_at(#[trigger] t.inputs[i].height) by {
        if i < s.inputs.len() {
            assert(t.inputs[i] == s.inputs[i]);
        } else {
            assert(t.inputs[i] == rows.inputs@[i - s.inputs.len()]);
        }
    }
}


/// One more element of `s` decides whether the filtered prefix grows.
proof fn lemma_filter_step<A>(s: Seq<A>, p: spec_fn(A) -> bool, i: int)
    requires
        0 <= i < s.len(),
    ensures
        s.subrange(0, i + 1).filter(p) == (if p(s[i]) {
            s.subrange(0, i).filter(p).push(s[i])
        } else {
            s.subrange(0, i).filter(p)
        }),
{
    reveal(Seq::filter);
    assert(s.subrange(0, i + 1).drop_last() =~= s.subrange(0, i));
}

/// An element is kept by a filter exactly when it occurs and satisfies the predicate.
pub(crate) proof fn lemma_filter_member<A>(s: Seq<A>, p: spec_fn(A) -> bool, x: A)
    ensures
        s.filter(p).contains(x) <==> (s.contains(x) && p(x)),
{
    if s.filter(p).contains(x) {
        s.lemma_filter_contains_rev(p, x);
        let k = choose|k: int| 0 <= k < s.filter(p).len() && s.filter(p)[k] == x;
        s.lemma_filter_pred(p, k);
    }
    if s.contains(x) && p(x) {
        let k = choose|k: int| 0 <= k < s.len() && s[k] == x;
        s.lemma_filter_contains(p, k);
    }
}

/// Filtering keeps blocks in strictly ascending height.
proof fn lemma_filter_ascending(s: Seq<Block>, p: spec_fn(Block) -> bool)
    requires
        forall|i: int, j: int| 0 <= i < j < s.len() ==> s[i].height < s[j].height,
    ensures
        forall|i: int, j: int|
            0 <= i < j < s.filter(p).len() ==> s.filter(p)[i].height < s.filter(p)[j].height,
    decreases s.len(),
{
    reveal(Seq::filter);
    if s.len() > 0 {
        let r = s.drop_last();
        lemma_filter_ascending(r, p);
        let f = r.filter(p);
        assert forall|i: int| 0 <= i < f.len() implies f[i].height < s.last().height by {
            lemma_filter_member(r, p, f[i]);
            let k = choose|k: int| 0 <= k < r.len() && r[k] == f[i];
            assert(s[k] == r[k]);
        }
    }
}

/// Filtering keeps output keys distinct.
proof fn lemma_filter_distinct(s: Seq<Output>, p: spec_fn(Output) -> bool)
    requires
        outputs_distinct(s),
    ensures
        outputs_distinct(s.filter(p)),
    decreases s.len(),
{
    reveal(Seq::filter);
    if s.len() > 0 {
        let r = s.drop_last();
        lemma_filter_distinct(r, p);
        let f = r.filter(p);
        assert forall|i: int| 0 <= i < f.len() implies !same_output_key(f[i], s.last()) by {
            lemma_filter_member(r, p, f[i]);
            let k = choose|k: int| 0 <= k < r.len() && r[k] == f[i];
            assert(s[k] == r[k]);
        }
    }
}

/// Truncating a well-formed store leaves it well formed.
proof fn lemma_truncated_wf(s: StoreState, h: BlockHeight)
    requires
        s.wf(),
    ensures
        s.truncated_at(h).wf(),
{
    let t = s.truncated_at(h);
    lemma_filter_ascending(s.blocks, block_below(h));
    lemma_filter_distinct(s.outputs, output_below(h));
    assert forall|g: BlockHeight| g < h && s.has_block_at(g) implies t.has_block_at(g) by {
        let j = choose|j: int| 0 <= j < s.blocks.len() && s.blocks[j].height == g;
        lemma_filter_member(s.blocks, block_below(h), s.blocks[j]);
        let k = choose|k: int| 0 <= k < t.blocks.len() && t.blocks[k] == s.blocks[j];
    }
    assert forall|i: int| 0 <= i < t.txs.len() implies t.has_block_at(#[trigger] t.txs[i].height) by {
        assert(t.txs.contains(t.txs[i]));
        lemma_filter_member(s.txs, tx_below(h), t.txs[i]);
    }
    assert forall|i: int| 0 <= i < t.outputs.len() implies t.has_block_at(#[trigger] t.outputs[i].height) by {
        assert(t.outputs.contains(t.outputs[i]));
        lemma_filter_member(s.outputs, output_below(h), t.outputs[i]);
    }
    let keep_input = |x: Input| x.height < h && !s.spends_from(x, h);
    assert forall|i: int| 0 <= i < t.inputs.len() implies t.has_block_at(#[trigger] t.inputs[i].height) by {
        assert(t.inputs.contains(t.inputs[i]));
        lemma_filter_member(s.inputs, keep_input, t.inputs[i]);
    }
}

} // verus!
