use vstd::prelude::*;

verus! {

/// Identifier of a registered reducer: its position in registration order.
pub type UID = usize;

/// An atomic proposed mutation of a state, with a symmetric collision predicate.
///
/// The model of a transaction is its view. `apply_spec` says what `apply` does to the
/// view of the state, and `safe_spec` what `is_collision_safe_with` answers.
pub trait Transaction: Sized + View {
    type State: View;
    type ErrorType;

    /// Result and resulting state view of applying `tx` to `s` during epoch `epoch`.
    spec fn apply_spec(tx: Self::V, s: <Self::State as View>::V, epoch: usize) -> (
        Result<(), Self::ErrorType>,
        <Self::State as View>::V,
    );

    /// Whether two transactions may be applied within one batch.
    spec fn safe_spec(a: Self::V, b: Self::V) -> bool;

    /// The collision predicate is symmetric.
    proof fn lemma_safe_symmetric(a: Self::V, b: Self::V)
        ensures
            Self::safe_spec(a, b) == Self::safe_spec(b, a),
    ;

    /// Mutates `state` in place. On an error the state may be partially mutated,
    /// exactly as `apply_spec` describes. `epoch` is the step counter of the step that
    /// applies the transaction, so that a state can tell step boundaries apart.
    fn apply(&self, state: &mut Self::State, epoch: usize) -> (r: Result<(), Self::ErrorType>)
        ensures
            r == Self::apply_spec(self@, old(state)@, epoch).0,
            final(state)@ == Self::apply_spec(self@, old(state)@, epoch).1,
    ;

    /// `true` when the two transactions do not collide.
    fn is_collision_safe_with(&self, other: &Self) -> (r: bool)
        ensures
            r == Self::safe_spec(self@, other@),
    ;
}

/// The view of an optional transaction.
pub open spec fn opt_view<T: View>(o: Option<T>) -> Option<T::V> {
    match o {
        Some(t) => Some(t@),
        None => None,
    }
}

/// A deterministic mapping from (state, input) to at most one proposed transaction.
pub trait Reducer<State: View, Input, Tx: Transaction> {
    /// The proposal of this reducer for the given state view and input.
    spec fn develop_spec(&self, state: State::V, input: Input) -> Option<Tx::V>;

    fn develop(&self, state: &State, input: &Input) -> (r: Option<Tx>)
        ensures
            opt_view(r) == self.develop_spec(state@, *input),
    ;
}

/// The record of one step: its input and every transaction derived for it,
/// tagged with the identifier of the reducer that proposed it.
pub struct Event<Input, Tx: Transaction> {
    input: Input,
    transactions: Vec<(UID, Tx)>,
}

/// The view of a derived transaction list.
pub open spec fn txs_view<Tx: Transaction>(txs: Seq<(UID, Tx)>) -> Seq<(UID, Tx::V)> {
    txs.map_values(|p: (UID, Tx)| (p.0, p.1@))
}

impl<Input, Tx: Transaction> View for Event<Input, Tx> {
    type V = (Input, Seq<(UID, Tx::V)>);

    closed spec fn view(&self) -> Self::V {
        (self.input, txs_view(self.transactions@))
    }
}

impl<Input, Tx: Transaction> Event<Input, Tx> {
    /// The input that the step processed.
    pub fn input(&self) -> (r: &Input)
        ensures
            *r == self@.0,
    {
        &self.input
    }

    /// The transactions derived for the step, in derivation order.
    pub fn transactions(&self) -> (r: &Vec<(UID, Tx)>)
        ensures
            txs_view(r@) == self@.1,
    {
        &self.transactions
    }
}

/// Outcome of one step.
pub enum EngineResult<TxError> {
    /// Every derived transaction was applied.
    Success,
    /// Colliding pairs `(i, j)`, `i > j`, of positions in the derived list; nothing was applied.
    TransactionConflict(Vec<(usize, usize)>),
    /// The error of the first transaction that failed to apply.
    TransactionCrashed(TxError),
}

/// The transactions proposed by `reducers` for `state` and `input`, in registration order.
pub open spec fn derived<State: View, Input, Tx: Transaction, R: Reducer<State, Input, Tx>>(
    reducers: Seq<R>,
    state: State::V,
    input: Input,
) -> Seq<(UID, Tx::V)>
    decreases reducers.len(),
{
    if reducers.len() == 0 {
        seq![]
    } else {
        let prev = derived::<State, Input, Tx, R>(reducers.drop_last(), state, input);
        match reducers.last().develop_spec(state, input) {
            Some(t) => prev.push(((reducers.len() - 1) as UID, t)),
            None => prev,
        }
    }
}

/// Colliding pairs `(i, j)` for `j < k`, in increasing `j`.
pub open spec fn collision_row<Tx: Transaction>(txs: Seq<(UID, Tx::V)>, i: int, k: int) -> Seq<
    (usize, usize),
>
    decreases k,
{
    if k <= 0 {
        seq![]
    } else {
        let prev = collision_row::<Tx>(txs, i, k - 1);
        if Tx::safe_spec(txs[i].1, txs[k - 1].1) {
            prev
        } else {
            prev.push((i as usize, (k - 1) as usize))
        }
    }
}

/// Colliding pairs `(i, j)`, `j < i < n`, in increasing `i`, then increasing `j`.
pub open spec fn collisions_upto<Tx: Transaction>(txs: Seq<(UID, Tx::V)>, n: int) -> Seq<
    (usize, usize),
>
    decreases n,
{
    if n <= 0 {
        seq![]
    } else {
        collisions_upto::<Tx>(txs, n - 1) + collision_row::<Tx>(txs, n - 1, n - 1)
    }
}

/// Every colliding pair of the derived list.
pub open spec fn collisions<Tx: Transaction>(txs: Seq<(UID, Tx::V)>) -> Seq<(usize, usize)> {
    collisions_upto::<Tx>(txs, txs.len() as int)
}

/// Applying `txs` one after the other, stopping at the first error.
pub open spec fn apply_all<Tx: Transaction>(
    txs: Seq<(UID, Tx::V)>,
    s: <Tx::State as View>::V,
    epoch: usize,
) -> (Result<(), Tx::ErrorType>, <Tx::State as View>::V)
    decreases txs.len(),
{
    if txs.len() == 0 {
        (Ok(()), s)
    } else {
        let prev = apply_all::<Tx>(txs.drop_last(), s, epoch);
        match prev.0 {
            Ok(_) => Tx::apply_spec(txs.last().1, prev.1, epoch),
            Err(_) => prev,
        }
    }
}

/// Once a prefix fails, every longer prefix fails in the same way.
proof fn lemma_apply_all_err_stays<Tx: Transaction>(
    txs: Seq<(UID, Tx::V)>,
    s: <Tx::State as View>::V,
    epoch: usize,
    k: int,
    m: int,
)
    requires
        0 <= k <= m <= txs.len(),
        apply_all::<Tx>(txs.subrange(0, k), s, epoch).0 is Err,
    ensures
        apply_all::<Tx>(txs.subrange(0, m), s, epoch) == apply_all::<Tx>(
            txs.subrange(0, k),
            s,
            epoch,
        ),
    decreases m - k,
{
    if m > k {
        lemma_apply_all_err_stays::<Tx>(txs, s, epoch, k, m - 1);
        assert(txs.subrange(0, m).drop_last() =~= txs.subrange(0, m - 1));
    }
}

/// The result and resulting state view of a step that received `input`.
pub open spec fn step_spec<State: View, Input, Tx: Transaction<State = State>, R: Reducer<
    State,
    Input,
    Tx,
>>(reducers: Seq<R>, s: State::V, input: Input, epoch: usize) -> (StepOutcome<Tx::ErrorType>, State::V) {
    let txs = derived::<State, Input, Tx, R>(reducers, s, input);
    let c = collisions::<Tx>(txs);
    if c.len() > 0 {
        (StepOutcome::Conflict(c), s)
    } else {
        let (res, s2) = apply_all::<Tx>(txs, s, epoch);
        match res {
            Ok(_) => (StepOutcome::Success, s2),
            Err(e) => (StepOutcome::Crashed(e), s2),
        }
    }
}

/// A step whose derived batch holds no colliding pair and whose transactions all apply
/// succeeds, and its final state is the one reached by applying the batch in derivation
/// order.
pub proof fn lemma_collision_free_step_commits<State: View, Input, Tx: Transaction<State = State>, R: Reducer<
    State,
    Input,
    Tx,
>>(reducers: Seq<R>, s: State::V, input: Input, epoch: usize)
    requires
        collisions::<Tx>(derived::<State, Input, Tx, R>(reducers, s, input)).len() == 0,
        apply_all::<Tx>(derived::<State, Input, Tx, R>(reducers, s, input), s, epoch).0 is Ok,
    ensures
        step_spec::<State, Input, Tx, R>(reducers, s, input, epoch) == (
            StepOutcome::<Tx::ErrorType>::Success,
            apply_all::<Tx>(derived::<State, Input, Tx, R>(reducers, s, input), s, epoch).1,
        ),
{
}

/// The model of an `EngineResult`.
pub ghost enum StepOutcome<E> {
    Success,
    Conflict(Seq<(usize, usize)>),
    Crashed(E),
}

impl<E> View for EngineResult<E> {
    type V = StepOutcome<E>;

    open spec fn view(&self) -> StepOutcome<E> {
        match self {
            EngineResult::Success => StepOutcome::Success,
            EngineResult::TransactionConflict(v) => StepOutcome::Conflict(v@),
            EngineResult::TransactionCrashed(e) => StepOutcome::Crashed(*e),
        }
    }
}

/// Owns a state, the registered reducers and the event log, and advances the state one
/// collision-checked batch at a time.
pub struct Engine<State, Input, Tx, R> where
    State: View,
    Tx: Transaction,
    R: Reducer<State, Input, Tx>,
 {
    state: State,
    reducers: Vec<R>,
    events: Vec<Event<Input, Tx>>,
    time: usize,
}

impl<State, Input, Tx, R> Engine<State, Input, Tx, R> where
    State: View,
    Tx: Transaction<State = State>,
    R: Reducer<State, Input, Tx>,
 {
    /// View of the current state.
    pub closed spec fn state_view(&self) -> State::V {
        self.state@
    }

    /// The registered reducers, indexed by identifier.
    pub closed spec fn reducers_view(&self) -> Seq<R> {
        self.reducers@
    }

    /// The event log, oldest first.
    pub closed spec fn events_view(&self) -> Seq<(Input, Seq<(UID, Tx::V)>)> {
        self.events@.map_values(|e: Event<Input, Tx>| e@)
    }

    /// The step counter.
    pub closed spec fn epoch(&self) -> usize {
        self.time
    }

    /// The reducer registered under `id`, if any.
    pub open spec fn reducer_at(&self, id: UID) -> Option<R> {
        if id < self.reducers_view().len() {
            Some(self.reducers_view()[id as int])
        } else {
            None
        }
    }

    /// Registration hands out identifiers in call order. When `after` is `self` with
    /// `reducer` registered (as `add_reducer` leaves it), the new reducer is found under the
    /// identifier `add_reducer` returned, every earlier identifier still finds the reducer it
    /// found, and later identifiers find none.
    pub proof fn lemma_registration_ids(&self, after: &Self, reducer: R, id: UID)
        requires
            after.reducers_view() == self.reducers_view().push(reducer),
            self.reducers_view().len() < usize::MAX,
        ensures
            after.reducer_at(self.reducers_view().len() as UID) == Some(reducer),
            id < self.reducers_view().len() ==> after.reducer_at(id) == self.reducer_at(id),
            id > self.reducers_view().len() ==> after.reducer_at(id) is None,
            self.reducer_at(id) is Some <==> id < self.reducers_view().len(),
    {
    }

    pub fn new(state: State) -> (r: Self)
        ensures
            r.state_view() == state@,
            r.reducers_view() == Seq::<R>::empty(),
            r.events_view() == Seq::<(Input, Seq<(UID, Tx::V)>)>::empty(),
            r.epoch() == 0,
    {
        let r = Engine { state, reducers: Vec::new(), events: Vec::new(), time: 0 };
        assert(r.events_view() =~= Seq::<(Input, Seq<(UID, Tx::V)>)>::empty());
        r
    }

    /// Registers `reducer`; its identifier is the number of reducers registered before it.
    pub fn add_reducer(&mut self, reducer: R) -> (r: UID)
        ensures
            r == old(self).reducers_view().len(),
            final(self).reducers_view() == old(self).reducers_view().push(reducer),
            final(self).state_view() == old(self).state_view(),
            final(self).events_view() == old(self).events_view(),
            final(self).epoch() == old(self).epoch(),
    {
        let i = self.reducers.len();
        self.reducers.push(reducer);
        i
    }

    pub fn observe(&self) -> (r: &State)
        ensures
            r@ == self.state_view(),
    {
        &self.state
    }

    /// Number of steps taken so far.
    pub fn time(&self) -> (r: usize)
        ensures
            r == self.epoch(),
    {
        self.time
    }

    /// The event log, oldest first.
    pub fn events(&self) -> (r: &Vec<Event<Input, Tx>>)
        ensures
            r@.map_values(|e: Event<Input, Tx>| e@) == self.events_view(),
    {
        &self.events
    }

    /// Runs one step: advance the epoch, derive a transaction from every reducer, check all
    /// pairs for collisions, then either report the collisions or apply the batch in
    /// derivation order. The event is logged whatever the outcome.
    pub fn step(&mut self, input: Input) -> (r: EngineResult<Tx::ErrorType>)
        requires
            old(self).epoch() < usize::MAX,
        ensures
            final(self).epoch() == old(self).epoch() + 1,
            final(self).reducers_view() == old(self).reducers_view(),
            final(self).events_view() == old(self).events_view().push(
                (
                    input,
                    derived::<State, Input, Tx, R>(
                        old(self).reducers_view(),
                        old(self).state_view(),
                        input,
                    ),
                ),
            ),
            (r@, final(self).state_view()) == step_spec::<State, Input, Tx, R>(
                old(self).reducers_view(),
                old(self).state_view(),
                input,
                final(self).epoch(),
            ),
    {
        self.time = self.time + 1;
        let ghost s0 = self.state@;
        let ghost rs = self.reducers@;

        // Derive.
        let mut ev: Event<Input, Tx> = Event { input, transactions: Vec::new() };
        let cnt_rdr = self.reducers.len();
        let mut i: usize = 0;
        while i < cnt_rdr
            invariant
                cnt_rdr == rs.len(),
                rs == self.reducers@,
                s0 == self.state@,
                ev.input == input,
                i <= cnt_rdr,
                txs_view(ev.transactions@) == derived::<State, Input, Tx, R>(
                    rs.subrange(0, i as int),
                    s0,
                    input,
                ),
            decreases cnt_rdr - i,
        {
            let opt_tx = self.reducers[i].develop(&self.state, &ev.input);
            assert(rs.subrange(0, i + 1).drop_last() =~= rs.subrange(0, i as int));
            match opt_tx {
                Some(tx) => {
                    ev.transactions.push((i, tx));
                    assert(txs_view(ev.transactions@) =~= derived::<State, Input, Tx, R>(
                        rs.subrange(0, i + 1),
                        s0,
                        input,
                    ));
                },
                None => {},
            }
            i = i + 1;
        }
        assert(rs.subrange(0, cnt_rdr as int) =~= rs);
        let ghost txs = txs_view(ev.transactions@);

        // Check every pair (i, j), j < i.
        let cnt_tx = ev.transactions.len();
        let mut colls: Vec<(usize, usize)> = Vec::new();
        let mut i: usize = 0;
        while i < cnt_tx
            invariant
                cnt_tx == txs.len(),
                txs == txs_view(ev.transactions@),
                i <= cnt_tx,
                colls@ == collisions_upto::<Tx>(txs, i as int),
            decreases cnt_tx - i,
        {
            let ghost base = colls@;
            let mut j: usize = 0;
            while j < i
                invariant
                    cnt_tx == txs.len(),
                    txs == txs_view(ev.transactions@),
                    i < cnt_tx,
                    j <= i,
                    colls@ == base + collision_row::<Tx>(txs, i as int, j as int),
                decreases i - j,
            {
                if !ev.transactions[i].1.is_collision_safe_with(&ev.transactions[j].1) {
                    colls.push((i, j));
                }
                assert(colls@ =~= base + collision_row::<Tx>(txs, i as int, j + 1));
                j = j + 1;
            }
            i = i + 1;
        }

        if colls.len() != 0 {
            self.events.push(ev);
            assert(self.events_view() =~= old(self).events_view().push((input, txs)));
            return EngineResult::TransactionConflict(colls);
        }

        // Apply in derivation order.
        let epoch = self.time;
        let mut k: usize = 0;
        while k < cnt_tx
            invariant
                cnt_tx == txs.len(),
                txs == txs_view(ev.transactions@),
                ev.input == input,
                k <= cnt_tx,
                epoch == self.time,
                epoch == old(self).time + 1,
                rs == self.reducers@,
                rs == old(self).reducers@,
                s0 == old(self).state@,
                txs == derived::<State, Input, Tx, R>(rs, s0, input),
                collisions::<Tx>(txs).len() == 0,
                self.events == old(self).events,
                apply_all::<Tx>(txs.subrange(0, k as int), s0, epoch).0 is Ok,
                self.state@ == apply_all::<Tx>(txs.subrange(0, k as int), s0, epoch).1,
            decreases cnt_tx - k,
        {
            let res = ev.transactions[k].1.apply(&mut self.state, epoch);
            assert(txs.subrange(0, k + 1).drop_last() =~= txs.subrange(0, k as int));
            assert(txs.subrange(0, k + 1).last() == txs[k as int]);
            assert(txs[k as int].1 == ev.transactions@[k as int].1@);
            match res {
                Err(exception) => {
                    proof {
                        lemma_apply_all_err_stays::<Tx>(txs, s0, epoch, k + 1, cnt_tx as int);
                        assert(txs.subrange(0, cnt_tx as int) =~= txs);
                    }
                    self.events.push(ev);
                    assert(self.events_view() =~= old(self).events_view().push((input, txs)));
                    return EngineResult::TransactionCrashed(exception);
                },
                Ok(_) => {},
            }
            k = k + 1;
        }
        assert(txs.subrange(0, cnt_tx as int) =~= txs);
        self.events.push(ev);
        assert(self.events_view() =~= old(self).events_view().push((input, txs)));
        EngineResult::Success
    }

    pub fn get_reducer(&self, index: UID) -> (r: Option<&R>)
        ensures
            match r {
                Some(x) => self.reducer_at(index) == Some(*x),
                None => self.reducer_at(index) is None,
            },
    {
        if index < self.reducers.len() {
            Some(&self.reducers[index])
        } else {
            None
        }
    }
}

} // verus!
