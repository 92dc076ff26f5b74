use vstd::prelude::*;
use crate::rows::{BlockHeight, BlockRows, Input, spends};
use crate::store::{StoreState, lemma_filter_member, block_below, tx_below, output_below};

verus! {

/// After a block is stored, the greatest stored height is that block's
/// height, and its hash is the one found at that height.
pub proof fn lemma_insert_sets_tip(s: StoreState, rows: BlockRows)
    requires
        s.wf(),
        s.insert_violation(rows) is None,
    ensures
        s.with_rows(rows).max_height() == Some(rows.block.height),
        s.with_rows(rows).hash_at(rows.block.height) == Some(rows.block.hash),
{
    let t = s.with_rows(rows);
    let n = s.blocks.len() as int;
    let b = rows.block;
    assert(t.blocks[n] == b);
    assert(t.is_tip(b.height));
    let m = choose|m: BlockHeight| t.is_tip(m);
    assert(m <= b.height && b.height <= m);
    let c = choose|c: int| 0 <= c < t.blocks.len() && t.blocks[c].height == b.height;
    if c < n {
        assert(t.blocks[c] == s.blocks[c]);
    }
}

/// After a reorg at `h` no block is found at `h` or above, and every block
/// below `h` is found with the hash it had.
pub proof fn lemma_reorg_complete(s: StoreState, h: BlockHeight)
    requires
        s.wf(),
    ensures
        forall|g: BlockHeight| g >= h ==> s.truncated_at(h).hash_at(g) is None,
        forall|g: BlockHeight| g < h ==> s.truncated_at(h).hash_at(g) == s.hash_at(g),
{
    let t = s.truncated_at(h);
    assert forall|g: BlockHeight| g >= h implies t.hash_at(g) is None by {
        if t.has_block_at(g) {
            let k = choose|k: int| 0 <= k < t.blocks.len() && t.blocks[k].height == g;
            assert(t.blocks.contains(t.blocks[k]));
            lemma_filter_member(s.blocks, block_below(h), t.blocks[k]);
        }
    }
    assert forall|g: BlockHeight| g < h implies t.hash_at(g) == s.hash_at(g) by {
        if s.has_block_at(g) {
            let j = choose|j: int| 0 <= j < s.blocks.len() && s.blocks[j].height == g;
            lemma_filter_member(s.blocks, block_below(h), s.blocks[j]);
            let w = choose|w: int| 0 <= w < t.blocks.len() && t.blocks[w] == s.blocks[j];
            assert(t.blocks[w].height == g);
            let k = choose|k: int| 0 <= k < t.blocks.len() && t.blocks[k].height == g;
            assert(t.blocks.contains(t.blocks[k]));
            lemma_filter_member(s.blocks, block_below(h), t.blocks[k]);
            let q = choose|q: int| 0 <= q < s.blocks.len() && s.blocks[q] == t.blocks[k];
            if q < j {
                assert(s.blocks[q].height < s.blocks[j].height);
            } else if j < q {
                assert(s.blocks[j].height < s.blocks[q].height);
            }
        } else if t.has_block_at(g) {
            let k = choose|k: int| 0 <= k < t.blocks.len() && t.blocks[k].height == g;
            assert(t.blocks.contains(t.blocks[k]));
            lemma_filter_member(s.blocks, block_below(h), t.blocks[k]);
        }
    }
}

/// A reorg at a height above every stored block changes nothing.
pub proof fn lemma_reorg_empty_tail(s: StoreState, h: BlockHeight)
    requires
        s.wf(),
        s.above_tip(h),
    ensures
        s.truncated_at(h) == s,
{
    assert forall|g: BlockHeight| s.has_block_at(g) implies g < h by {}
    let keep_input = |x: Input| x.height < h && !s.spends_from(x, h);
    assert forall|x: Input| s.inputs.contains(x) implies keep_input(x) by {
        if s.spends_from(x, h) {
            let k = choose|k: int|
                0 <= k < s.outputs.len() && s.outputs[k].height >= h && spends(x, s.outputs[k]);
            assert(s.has_block_at(s.outputs[k].height));
        }
    }
    filter_keeps_all(s.blocks, block_below(h));
    filter_keeps_all(s.txs, tx_below(h));
    filter_keeps_all(s.outputs, output_below(h));
    filter_keeps_all(s.inputs, keep_input);
}

/// After a reorg at `h` every remaining input lies below `h` and spends no
/// output that was stored at `h` or above.
pub proof fn lemma_reorg_purges_spends(s: StoreState, h: BlockHeight)
    requires
        s.wf(),
    ensures
        forall|i: int| 0 <= i < s.truncated_at(h).inputs.len() ==> {
            let x = #[trigger] s.truncated_at(h).inputs[i];
            x.height < h && !s.spends_from(x, h)
        },
{
    let t = s.truncated_at(h);
    let keep_input = |x: Input| x.height < h && !s.spends_from(x, h);
    assert forall|i: int| 0 <= i < t.inputs.len() implies keep_input(#[trigger] t.inputs[i]) by {
        assert(t.inputs.contains(t.inputs[i]));
        lemma_filter_member(s.inputs, keep_input, t.inputs[i]);
    }
}

/// A reorg at `h1` followed by one at a height `h2` no greater leaves the
/// state that a single reorg at `h2` leaves: rollbacks at decreasing heights
/// converge.
pub proof fn lemma_reorg_twice(s: StoreState, h1: BlockHeight, h2: BlockHeight)
    requires
        s.wf(),
        h2 <= h1,
    ensures
        s.truncated_at(h1).truncated_at(h2) == s.truncated_at(h2),
{
    let t = s.truncated_at(h1);
    filter_twice(s.blocks, block_below(h1), block_below(h2), block_below(h2));
    filter_twice(s.txs, tx_below(h1), tx_below(h2), tx_below(h2));
    filter_twice(s.outputs, output_below(h1), output_below(h2), output_below(h2));
    let p = |x: Input| x.height < h1 && !s.spends_from(x, h1);
    let q = |x: Input| x.height < h2 && !t.spends_from(x, h2);
    let r = |x: Input| x.height < h2 && !s.spends_from(x, h2);
    assert forall|x: Input| s.inputs.contains(x) implies ((p(x) && q(x)) == r(x)) by {
        if t.spends_from(x, h2) {
            let k = choose|k: int| 0 <= k < t.outputs.len() && t.outputs[k].height >= h2 && spends(x, t.outputs[k]);
            assert(t.outputs.contains(t.outputs[k]));
            lemma_filter_member(s.outputs, output_below(h1), t.outputs[k]);
            let j = choose|j: int| 0 <= j < s.outputs.len() && s.outputs[j] == t.outputs[k];
            assert(s.spends_from(x, h2));
        }
        if s.spends_from(x, h2) && !s.spends_from(x, h1) {
            let k = choose|k: int| 0 <= k < s.outputs.len() && s.outputs[k].height >= h2 && spends(x, s.outputs[k]);
            lemma_filter_member(s.outputs, output_below(h1), s.outputs[k]);
            let j = choose|j: int| 0 <= j < t.outputs.len() && t.outputs[j] == s.outputs[k];
            assert(t.spends_from(x, h2));
        }
        if s.spends_from(x, h1) {
            let k = choose|k: int| 0 <= k < s.outputs.len() && s.outputs[k].height >= h1 && spends(x, s.outputs[k]);
            assert(s.outputs[k].height >= h2);
        }
    }
    filter_twice(s.inputs, p, q, r);
}

/// Filtering by `p` and then by `q` is filtering by `r`, where `r` holds of
/// each element exactly when both do.
proof fn filter_twice<A>(s: Seq<A>, p: spec_fn(A) -> bool, q: spec_fn(A) -> bool, r: spec_fn(A) -> bool)
    requires
        forall|x: A| s.contains(x) ==> ((p(x) && q(x)) == r(x)),
    ensures
        s.filter(p).filter(q) == s.filter(r),
    decreases s.len(),
{
    reveal(Seq::filter);
    if s.len() > 0 {
        let d = s.drop_last();
        assert forall|x: A| d.contains(x) implies ((p(x) && q(x)) == r(x)) by {
            let k = choose|k: int| 0 <= k < d.len() && d[k] == x;
            assert(d[k] == s[k]);
            assert(s.contains(s[k]));
        }
        filter_twice(d, p, q, r);
        assert(s.contains(s[s.len() - 1]));
        if p(s.last()) {
            let f = d.filter(p).push(s.last());
            assert(f.drop_last() =~= d.filter(p));
        }
    }
}

/// An empty store has no greatest height and no block at any height.
pub proof fn lemma_empty_store()
    ensures
        StoreState::empty().wf(),
        StoreState::empty().max_height() is None,
        forall|g: BlockHeight| StoreState::empty().hash_at(g) is None,
{
}

/// A filter that every element satisfies returns the sequence unchanged.
proof fn filter_keeps_all<A>(s: Seq<A>, p: spec_fn(A) -> bool)
    requires
        forall|x: A| s.contains(x) ==> p(x),
    ensures
        s.filter(p) == s,
    decreases s.len(),
{
    reveal(Seq::filter);
    if s.len() > 0 {
        let r = s.drop_last();
        assert forall|x: A| r.contains(x) implies p(x) by {
            let k = choose|k: int| 0 <= k < r.len() && r[k] == x;
            assert(r[k] == s[k]);
            assert(s.contains(s[k]));
        }
        filter_keeps_all(r, p);
        assert(s.contains(s.last()));
        assert(r.push(s.last()) =~= s);
    }
}

} // verus!
