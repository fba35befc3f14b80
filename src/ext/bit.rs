use crate::bit_engine::{exchange, op_in_range, BitState};
use crate::engine::{apply_all, Engine, Reducer, Transaction, UID};
use vstd::prelude::*;

pub use crate::bit_engine::{apply, Operation};

verus! {

/// Why a bit transaction was refused.
#[derive(Clone, Copy, PartialEq, Eq, Debug)]
pub enum BitError {
    /// An exchange names an index at or beyond the length of the bit vector.
    IndexOutOfRange,
}

/// Every index touched by `ops`.
pub open spec fn touched(ops: Seq<Operation>) -> Set<usize>
    decreases ops.len(),
{
    if ops.len() == 0 {
        Set::empty()
    } else {
        match ops.last() {
            Operation::Exchange(a, b) => touched(ops.drop_last()).insert(a).insert(b),
        }
    }
}

/// Whether every operation of `ops` stays below `len`.
pub open spec fn ops_in_range(ops: Seq<Operation>, len: nat) -> bool {
    forall|i: int| 0 <= i < ops.len() ==> op_in_range(#[trigger] ops[i], len)
}

/// The bits after performing `ops` in order.
pub open spec fn run(ops: Seq<Operation>, bits: Seq<bool>) -> Seq<bool>
    decreases ops.len(),
{
    if ops.len() == 0 {
        bits
    } else {
        exchange(run(ops.drop_last(), bits), ops.last())
    }
}

/// An ordered sequence of exchanges, applied as one transaction.
pub struct BitTx {
    ops: Vec<Operation>,
}

impl View for BitTx {
    type V = Seq<Operation>;

    closed spec fn view(&self) -> Seq<Operation> {
        self.ops@
    }
}

impl BitTx {
    pub fn new() -> (r: BitTx)
        ensures
            r@ == Seq::<Operation>::empty(),
    {
        BitTx { ops: Vec::new() }
    }

    /// Adds `op` after the operations already held.
    pub fn append(&mut self, op: Operation)
        ensures
            final(self)@ == old(self)@.push(op),
    {
        self.ops.push(op);
    }

    /// The exchanges, in order.
    pub fn ops(&self) -> (r: &Vec<Operation>)
        ensures
            r@ == self@,
    {
        &self.ops
    }

    /// Every index that the transaction touches, possibly more than once.
    pub fn touching_mask(&self) -> (r: Vec<usize>)
        ensures
            forall|k: usize| r@.contains(k) <==> touched(self@).contains(k),
    {
        let mut mask: Vec<usize> = Vec::new();
        let n = self.ops.len();
        let mut i: usize = 0;
        while i < n
            invariant
                n == self@.len(),
                i <= n,
                forall|k: usize|
                    mask@.contains(k) <==> touched(self@.subrange(0, i as int)).contains(k),
            decreases n - i,
        {
            assert(self@.subrange(0, i + 1).drop_last() =~= self@.subrange(0, i as int));
            assert(self@.subrange(0, i + 1).last() == self@[i as int]);
            let ghost prev = mask@;
            match self.ops[i] {
                Operation::Exchange(a, b) => {
                    mask.push(a);
                    mask.push(b);
                    assert(mask@ == prev.push(a).push(b));
                    assert(touched(self@.subrange(0, i + 1)) == touched(
                        self@.subrange(0, i as int),
                    ).insert(a).insert(b));
                    assert forall|k: usize|
                        mask@.contains(k) <==> (prev.contains(k) || k == a || k == b) by {
                        if prev.contains(k) {
                            let j = choose|j: int| 0 <= j < prev.len() && prev[j] == k;
                            assert(mask@[j] == k);
                        }
                        if k == a {
                            assert(mask@[prev.len() as int] == k);
                        }
                        if k == b {
                            assert(mask@[prev.len() as int + 1] == k);
                        }
                        if mask@.contains(k) {
                            let j = choose|j: int| 0 <= j < mask@.len() && mask@[j] == k;
                            if j < prev.len() {
                                assert(prev[j] == k);
                            }
                        }
                    }
                    assert forall|k: usize|
                        mask@.contains(k) <==> touched(self@.subrange(0, i + 1)).contains(k) by {
                        assert(prev.contains(k) <==> touched(self@.subrange(0, i as int)).contains(
                            k,
                        ));
                    }
                },
            }
            i = i + 1;
        }
        assert(self@.subrange(0, n as int) =~= self@);
        mask
    }

    /// A transaction with the same operations.
    pub fn duplicate(&self) -> (r: BitTx)
        ensures
            r@ == self@,
    {
        let mut ops: Vec<Operation> = Vec::new();
        let n = self.ops.len();
        let mut i: usize = 0;
        while i < n
            invariant
                n == self@.len(),
                i <= n,
                ops@ == self@.subrange(0, i as int),
            decreases n - i,
        {
            ops.push(self.ops[i]);
            assert(ops@ =~= self@.subrange(0, i + 1));
            i = i + 1;
        }
        assert(ops@ =~= self@);
        BitTx { ops }
    }
}

/// `true` when `v` holds `k`.
fn holds(v: &Vec<usize>, k: usize) -> (r: bool)
    ensures
        r == v@.contains(k),
{
    let mut i: usize = 0;
    while i < v.len()
        invariant
            i <= v@.len(),
            forall|j: int| 0 <= j < i ==> v@[j] != k,
        decreases v.len() - i,
    {
        if v[i] == k {
            return true;
        }
        i = i + 1;
    }
    false
}

impl Transaction for BitTx {
    type State = BitState;

    type ErrorType = BitError;

    /// A transaction that stays within the vector performs its exchanges in order; any
    /// other is refused and leaves the vector as it was.
    open spec fn apply_spec(tx: Seq<Operation>, s: Seq<bool>, epoch: usize) -> (
        Result<(), BitError>,
        Seq<bool>,
    ) {
        if ops_in_range(tx, s.len()) {
            (Ok(()), run(tx, s))
        } else {
            (Err(BitError::IndexOutOfRange), s)
        }
    }

    /// Safe exactly when the two transactions touch disjoint sets of indices.
    open spec fn safe_spec(a: Seq<Operation>, b: Seq<Operation>) -> bool {
        touched(a).disjoint(touched(b))
    }

    proof fn lemma_safe_symmetric(a: Seq<Operation>, b: Seq<Operation>) {
    }

    fn apply(&self, state: &mut BitState, epoch: usize) -> (r: Result<(), BitError>) {
        let len = state.len();
        let n = self.ops.len();
        let mut i: usize = 0;
        while i < n
            invariant
                n == self@.len(),
                i <= n,
                len == state@.len(),
                forall|j: int| 0 <= j < i ==> op_in_range(#[trigger] self@[j], len as nat),
            decreases n - i,
        {
            match self.ops[i] {
                Operation::Exchange(a, b) => {
                    if a >= len || b >= len {
                        return Err(BitError::IndexOutOfRange);
                    }
                },
            }
            i = i + 1;
        }
        let ghost s0 = state@;
        let mut i: usize = 0;
        while i < n
            invariant
                n == self@.len(),
                i <= n,
                len == s0.len(),
                ops_in_range(self@, len as nat),
                state@ == run(self@.subrange(0, i as int), s0),
                state@.len() == len,
            decreases n - i,
        {
            assert(self@.subrange(0, i + 1).drop_last() =~= self@.subrange(0, i as int));
            assert(op_in_range(self@[i as int], len as nat));
            apply(state, &self.ops[i]);
            i = i + 1;
        }
        assert(self@.subrange(0, n as int) =~= self@);
        Ok(())
    }

    fn is_collision_safe_with(&self, other: &Self) -> (r: bool) {
        let this_mask = self.touching_mask();
        let that_mask = other.touching_mask();
        let mut i: usize = 0;
        while i < this_mask.len()
            invariant
                i <= this_mask@.len(),
                forall|k: usize| this_mask@.contains(k) <==> touched(self@).contains(k),
                forall|k: usize| that_mask@.contains(k) <==> touched(other@).contains(k),
                forall|j: int| 0 <= j < i ==> !that_mask@.contains(#[trigger] this_mask@[j]),
            decreases this_mask.len() - i,
        {
            if holds(&that_mask, this_mask[i]) {
                assert(this_mask@.contains(this_mask@[i as int]));
                return false;
            }
            i = i + 1;
        }
        proof {
            assert forall|k: usize| touched(self@).contains(k) implies !touched(other@).contains(
                k,
            ) by {
                assert(this_mask@.contains(k));
                let j = choose|j: int| 0 <= j < this_mask@.len() && this_mask@[j] == k;
                assert(!that_mask@.contains(this_mask@[j]));
            }
        }
        true
    }
}

/// Transactions that touch disjoint sets of indices are always safe together; two that
/// share any index are always reported unsafe, whether or not their exchanges would in fact
/// interfere.
pub proof fn lemma_bit_collision_rule(a: Seq<Operation>, b: Seq<Operation>, k: usize)
    ensures
        touched(a).disjoint(touched(b)) ==> BitTx::safe_spec(a, b),
        touched(a).contains(k) && touched(b).contains(k) ==> !BitTx::safe_spec(a, b),
{
}

/// The prefix of a sequence of operations that stay in range stays in range.
proof fn lemma_in_range_drop_last(ops: Seq<Operation>, len: nat)
    requires
        ops.len() > 0,
        ops_in_range(ops, len),
    ensures
        ops_in_range(ops.drop_last(), len),
        op_in_range(ops.last(), len),
{
    assert forall|i: int| 0 <= i < ops.drop_last().len() implies op_in_range(
        #[trigger] ops.drop_last()[i],
        len,
    ) by {
        assert(ops.drop_last()[i] == ops[i]);
    }
}

/// Performing operations that stay in range keeps the length, and leaves every index that
/// they do not touch as it was.
proof fn lemma_run_untouched(ops: Seq<Operation>, s: Seq<bool>, k: usize)
    requires
        ops_in_range(ops, s.len()),
    ensures
        run(ops, s).len() == s.len(),
        k < s.len() && !touched(ops).contains(k) ==> run(ops, s)[k as int] == s[k as int],
    decreases ops.len(),
{
    if ops.len() > 0 {
        lemma_in_range_drop_last(ops, s.len());
        lemma_run_untouched(ops.drop_last(), s, k);
    }
}

/// Performing operations on two vectors that agree on the touched indices yields vectors
/// that agree on the touched indices.
proof fn lemma_run_agree(ops: Seq<Operation>, s1: Seq<bool>, s2: Seq<bool>)
    requires
        s1.len() == s2.len(),
        ops_in_range(ops, s1.len()),
        forall|k: usize|
            k < s1.len() && #[trigger] touched(ops).contains(k) ==> s1[k as int] == s2[k as int],
    ensures
        forall|k: usize|
            k < s1.len() && #[trigger] touched(ops).contains(k) ==> run(ops, s1)[k as int] == run(
                ops,
                s2,
            )[k as int],
    decreases ops.len(),
{
    if ops.len() > 0 {
        let pre = ops.drop_last();
        lemma_in_range_drop_last(ops, s1.len());
        match ops.last() {
            Operation::Exchange(a, b) => {
                assert(touched(ops) == touched(pre).insert(a).insert(b));
            },
        }
        assert forall|k: usize|
            k < s1.len() && #[trigger] touched(pre).contains(k) implies s1[k as int] == s2[
            k as int] by {
            assert(touched(ops).contains(k));
        }
        lemma_run_agree(pre, s1, s2);
        lemma_run_untouched(pre, s1, 0);
        lemma_run_untouched(pre, s2, 0);
        let u1 = run(pre, s1);
        let u2 = run(pre, s2);
        assert forall|k: usize| k < s1.len() && #[trigger] touched(ops).contains(k) implies u1[
            k as int] == u2[k as int] by {
            if !touched(pre).contains(k) {
                lemma_run_untouched(pre, s1, k);
                lemma_run_untouched(pre, s2, k);
            }
        }
        match ops.last() {
            Operation::Exchange(a, b) => {
                assert(touched(ops).contains(a) && touched(ops).contains(b));
            },
        }
    }
}

/// Whether no two transactions of the batch collide.
pub open spec fn pairwise_safe(txs: Seq<(UID, Seq<Operation>)>) -> bool {
    forall|i: int, j: int|
        0 <= i < txs.len() && 0 <= j < txs.len() && i != j ==> BitTx::safe_spec(
            #[trigger] txs[i].1,
            #[trigger] txs[j].1,
        )
}

/// Whether every transaction of the batch stays within a vector of length `len`.
pub open spec fn all_in_range(txs: Seq<(UID, Seq<Operation>)>, len: nat) -> bool {
    forall|i: int| 0 <= i < txs.len() ==> ops_in_range(#[trigger] txs[i].1, len)
}

/// Whether some transaction of the batch touches index `k`.
pub open spec fn touched_by_any(txs: Seq<(UID, Seq<Operation>)>, k: usize) -> bool {
    exists|i: int| 0 <= i < txs.len() && #[trigger] touched(txs[i].1).contains(k)
}

/// Applying a pairwise safe batch that stays in range succeeds; each index then holds what
/// the one transaction touching it would leave there on its own, or its old bit if none
/// touches it.
proof fn lemma_batch_pointwise(txs: Seq<(UID, Seq<Operation>)>, s: Seq<bool>, epoch: usize)
    requires
        pairwise_safe(txs),
        all_in_range(txs, s.len()),
    ensures
        apply_all::<BitTx>(txs, s, epoch).0 is Ok,
        apply_all::<BitTx>(txs, s, epoch).1.len() == s.len(),
        forall|i: int, k: usize|
            0 <= i < txs.len() && k < s.len() && #[trigger] touched(txs[i].1).contains(k)
                ==> apply_all::<BitTx>(txs, s, epoch).1[k as int] == #[trigger] run(
                txs[i].1,
                s,
            )[k as int],
        forall|k: usize|
            k < s.len() && !touched_by_any(txs, k) ==> #[trigger] apply_all::<BitTx>(
                txs,
                s,
                epoch,
            ).1[k as int] == s[k as int],
    decreases txs.len(),
{
    if txs.len() > 0 {
        let pre = txs.drop_last();
        let n = txs.len() - 1;
        let last = txs.last().1;
        assert forall|i: int, j: int|
            0 <= i < pre.len() && 0 <= j < pre.len() && i != j implies BitTx::safe_spec(
            #[trigger] pre[i].1,
            #[trigger] pre[j].1,
        ) by {
            assert(pre[i] == txs[i] && pre[j] == txs[j]);
        }
        assert forall|i: int| 0 <= i < pre.len() implies ops_in_range(
            #[trigger] pre[i].1,
            s.len(),
        ) by {
            assert(pre[i] == txs[i]);
        }
        lemma_batch_pointwise(pre, s, epoch);
        let t = apply_all::<BitTx>(pre, s, epoch).1;
        assert(ops_in_range(txs[n].1, s.len()));
        assert(last == txs[n].1);
        lemma_run_untouched(last, t, 0);
        lemma_run_untouched(last, s, 0);
        // `t` agrees with `s` on the indices that the last transaction touches.
        assert forall|k: usize| k < s.len() && #[trigger] touched(last).contains(k) implies t[
            k as int] == s[k as int] by {
            if touched_by_any(pre, k) {
                let i = choose|i: int| 0 <= i < pre.len() && #[trigger] touched(pre[i].1).contains(
                    k,
                );
                assert(pre[i] == txs[i]);
                assert(BitTx::safe_spec(txs[i].1, txs[n].1));
            }
        }
        lemma_run_agree(last, t, s);
        let r = apply_all::<BitTx>(txs, s, epoch).1;
        assert(r == run(last, t));
        assert forall|i: int, k: usize|
            0 <= i < txs.len() && k < s.len() && #[trigger] touched(txs[i].1).contains(k)
                implies r[k as int] == #[trigger] run(txs[i].1, s)[k as int] by {
            if i < n {
                assert(pre[i] == txs[i]);
                assert(BitTx::safe_spec(txs[i].1, txs[n].1));
                assert(!touched(last).contains(k));
                lemma_run_untouched(last, t, k);
            }
        }
        assert forall|k: usize| k < s.len() && !touched_by_any(txs, k) implies #[trigger] r[
            k as int] == s[k as int] by {
            if touched_by_any(pre, k) {
                let i = choose|i: int| 0 <= i < pre.len() && #[trigger] touched(pre[i].1).contains(
                    k,
                );
                assert(pre[i] == txs[i]);
                assert(touched(txs[i].1).contains(k));
            }
            assert(!touched(txs[n].1).contains(k));
            lemma_run_untouched(last, t, k);
        }
    }
}

/// Confluence of bit transactions: applying a pairwise safe batch that stays within the
/// vector succeeds in any order, and every order reaches the same bits. `perm` gives, for
/// each position of the reordered batch, the position it takes its transaction from.
pub proof fn lemma_batch_order_irrelevant(
    txs: Seq<(UID, Seq<Operation>)>,
    perm: Seq<int>,
    s: Seq<bool>,
    epoch: usize,
)
    requires
        s.len() <= usize::MAX,
        pairwise_safe(txs),
        all_in_range(txs, s.len()),
        perm.len() == txs.len(),
        forall|i: int| 0 <= i < perm.len() ==> 0 <= #[trigger] perm[i] < txs.len(),
        forall|i: int, j: int|
            0 <= i < perm.len() && 0 <= j < perm.len() && i != j ==> #[trigger] perm[i]
                != #[trigger] perm[j],
        forall|j: int| 0 <= j < txs.len() ==> #[trigger] perm.contains(j),
    ensures
        ({
            let reordered = Seq::new(txs.len(), |i: int| txs[perm[i]]);
            &&& apply_all::<BitTx>(txs, s, epoch).0 is Ok
            &&& apply_all::<BitTx>(reordered, s, epoch).0 is Ok
            &&& apply_all::<BitTx>(reordered, s, epoch).1 == apply_all::<BitTx>(txs, s, epoch).1
        }),
{
    let reordered = Seq::new(txs.len(), |i: int| txs[perm[i]]);
    assert forall|i: int, j: int|
        0 <= i < reordered.len() && 0 <= j < reordered.len() && i != j implies BitTx::safe_spec(
        #[trigger] reordered[i].1,
        #[trigger] reordered[j].1,
    ) by {
        assert(perm[i] != perm[j]);
    }
    assert forall|i: int| 0 <= i < reordered.len() implies ops_in_range(
        #[trigger] reordered[i].1,
        s.len(),
    ) by {
        assert(0 <= perm[i] < txs.len());
    }
    lemma_batch_pointwise(txs, s, epoch);
    lemma_batch_pointwise(reordered, s, epoch);
    let r1 = apply_all::<BitTx>(txs, s, epoch).1;
    let r2 = apply_all::<BitTx>(reordered, s, epoch).1;
    assert forall|x: int| 0 <= x < s.len() implies #[trigger] r1[x] == r2[x] by {
        let k = x as usize;
        if touched_by_any(reordered, k) {
            let i = choose|i: int| 0 <= i < reordered.len() && #[trigger] touched(
                reordered[i].1,
            ).contains(k);
            let j = perm[i];
            assert(touched(txs[j].1).contains(k));
            lemma_run_untouched(txs[j].1, s, k);
            assert(r1[k as int] == run(txs[j].1, s)[k as int]);
            assert(r2[k as int] == run(reordered[i].1, s)[k as int]);
        } else if touched_by_any(txs, k) {
            let j = choose|j: int| 0 <= j < txs.len() && #[trigger] touched(txs[j].1).contains(k);
            assert(perm.contains(j));
            let i = choose|i: int| 0 <= i < perm.len() && perm[i] == j;
            assert(touched(reordered[i].1).contains(k));
        }
    }
    assert(r1 =~= r2);
}

/// A reducer that proposes the same exchanges at every step, whatever the state and input.
pub struct BitProposer {
    tx: BitTx,
}

impl BitProposer {
    pub fn new(tx: BitTx) -> (r: BitProposer)
        ensures
            r.proposal() == tx@,
    {
        BitProposer { tx }
    }

    /// The transaction proposed at every step.
    pub fn tx(&self) -> (r: &BitTx)
        ensures
            r@ == self.proposal(),
    {
        &self.tx
    }

    /// The exchanges proposed at every step.
    pub closed spec fn proposal(&self) -> Seq<Operation> {
        self.tx@
    }
}

impl<Input> Reducer<BitState, Input, BitTx> for BitProposer {
    open spec fn develop_spec(&self, state: Seq<bool>, input: Input) -> Option<Seq<Operation>> {
        Some(self.proposal())
    }

    fn develop(&self, state: &BitState, input: &Input) -> (r: Option<BitTx>) {
        Some(self.tx.duplicate())
    }
}

/// Reducers over a bit vector.
pub trait BitReducer<Input>: Reducer<BitState, Input, BitTx> {

}

impl<Input> BitReducer<Input> for BitProposer {

}

/// An engine over a bit vector.
pub type BitEngine<Input, BR> = Engine<BitState, Input, BitTx, BR>;

} // verus!
