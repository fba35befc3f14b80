use crate::engine::{Engine, Reducer, Transaction};
use vstd::laws_eq::obeys_concrete_eq;
use vstd::prelude::*;

verus! {

/// A state extended with allow and deny markers over actions. The markers are valid for
/// one epoch: the first transaction applied in a new epoch clears them.
pub struct ActionState<Action, State> {
    allows: Vec<Action>,
    denies: Vec<Action>,
    last_seen_timestamp: usize,
    state: State,
}

/// The model of an `ActionState`: allowed actions, denied actions, the epoch in which the
/// markers were set, and the view of the inner state.
pub type ActionStateView<Action, V> = (Set<Action>, Set<Action>, usize, V);

impl<Action, State: View> View for ActionState<Action, State> {
    type V = ActionStateView<Action, State::V>;

    closed spec fn view(&self) -> Self::V {
        (self.allows@.to_set(), self.denies@.to_set(), self.last_seen_timestamp, self.state@)
    }
}

/// The actions marked allowed and not also marked denied.
pub open spec fn allowed_set<Action>(allows: Set<Action>, denies: Set<Action>) -> Set<Action> {
    allows.difference(denies)
}

impl<Action: Copy + PartialEq, State: View> ActionState<Action, State> {
    pub fn new(initial_state: State) -> (r: Self)
        ensures
            r@ == (Set::<Action>::empty(), Set::<Action>::empty(), 0usize, initial_state@),
    {
        let r = ActionState {
            allows: Vec::new(),
            denies: Vec::new(),
            last_seen_timestamp: 0,
            state: initial_state,
        };
        assert(r.allows@.to_set() =~= Set::<Action>::empty());
        assert(r.denies@.to_set() =~= Set::<Action>::empty());
        r
    }

    /// Each action marked allowed and not marked denied, once; deny wins.
    pub fn allowed_actions(&self) -> (r: Vec<Action>)
        requires
            obeys_concrete_eq::<Action>(),
        ensures
            r@.to_set() == allowed_set(self@.0, self@.1),
            r@.no_duplicates(),
    {
        proof {
            reveal(obeys_concrete_eq);
        }
        let mut allowed: Vec<Action> = Vec::new();
        let n = self.allows.len();
        let mut i: usize = 0;
        while i < n
            invariant
                n == self.allows@.len(),
                i <= n,
                obeys_concrete_eq::<Action>(),
                allowed@.no_duplicates(),
                forall|a: Action|
                    allowed@.contains(a) <==> (self.allows@.subrange(0, i as int).contains(a)
                        && !self.denies@.contains(a)),
            decreases n - i,
        {
            let act = self.allows[i];
            let ghost prev = allowed@;
            if !contains(&self.denies, &act) && !contains(&allowed, &act) {
                allowed.push(act);
            }
            assert forall|a: Action|
                allowed@.contains(a) <==> (self.allows@.subrange(0, i + 1).contains(a)
                    && !self.denies@.contains(a)) by {
                let pre = self.allows@.subrange(0, i as int);
                let post = self.allows@.subrange(0, i + 1);
                assert(post[i as int] == act);
                if pre.contains(a) {
                    let j = choose|j: int| 0 <= j < pre.len() && pre[j] == a;
                    assert(post[j] == a);
                }
                if post.contains(a) && a != act {
                    let j = choose|j: int| 0 <= j < post.len() && post[j] == a;
                    assert(pre[j] == a);
                }
                if allowed@.contains(a) && a != act {
                    let j = choose|j: int| 0 <= j < allowed@.len() && allowed@[j] == a;
                    assert(prev[j] == a);
                }
                if prev.contains(a) {
                    let j = choose|j: int| 0 <= j < prev.len() && prev[j] == a;
                    assert(allowed@[j] == a);
                }
                if allowed@.len() > prev.len() {
                    assert(allowed@[prev.len() as int] == act);
                }
            }
            i = i + 1;
        }
        assert(self.allows@.subrange(0, n as int) =~= self.allows@);
        assert(allowed@.to_set() =~= allowed_set(self@.0, self@.1));
        allowed
    }

    /// Removes every allow and deny marker.
    pub fn clear_actions(&mut self)
        ensures
            final(self)@ == (
                Set::<Action>::empty(),
                Set::<Action>::empty(),
                old(self)@.2,
                old(self)@.3,
            ),
    {
        self.allows = Vec::new();
        self.denies = Vec::new();
        assert(self.allows@.to_set() =~= Set::<Action>::empty());
        assert(self.denies@.to_set() =~= Set::<Action>::empty());
    }

    /// The wrapped state.
    pub fn inner(&self) -> (r: &State)
        ensures
            r@ == self@.3,
    {
        &self.state
    }

    /// The epoch in which the markers were last set or cleared.
    pub fn last_seen(&self) -> (r: usize)
        ensures
            r == self@.2,
    {
        self.last_seen_timestamp
    }
}

/// Pushing an element inserts it into the set of elements.
proof fn lemma_push_to_set<A>(s: Seq<A>, a: A)
    ensures
        s.push(a).to_set() == s.to_set().insert(a),
{
    assert forall|x: A| s.push(a).to_set().contains(x) <==> s.to_set().insert(a).contains(x) by {
        if s.contains(x) {
            let j = choose|j: int| 0 <= j < s.len() && s[j] == x;
            assert(s.push(a)[j] == x);
        }
        if x == a {
            assert(s.push(a)[s.len() as int] == x);
        }
        if s.push(a).contains(x) && x != a {
            let j = choose|j: int| 0 <= j < s.push(a).len() && s.push(a)[j] == x;
            assert(s[j] == x);
        }
    }
    assert(s.push(a).to_set() =~= s.to_set().insert(a));
}

/// `true` when `v` holds an action equal to `a`.
fn contains<Action: PartialEq>(v: &Vec<Action>, a: &Action) -> (r: bool)
    requires
        obeys_concrete_eq::<Action>(),
    ensures
        r == v@.contains(*a),
{
    proof {
        reveal(obeys_concrete_eq);
    }
    let mut i: usize = 0;
    while i < v.len()
        invariant
            i <= v@.len(),
            obeys_concrete_eq::<Action>(),
            forall|j: int| 0 <= j < i ==> v@[j] != *a,
        decreases v.len() - i,
    {
        proof {
            reveal(obeys_concrete_eq);
        }
        if v[i] == *a {
            return true;
        }
        i = i + 1;
    }
    false
}

/// A transaction over an `ActionState`: either one of the inner state, or a marker.
pub enum ActionTx<Action, STx> {
    StateTx(STx),
    ActionAllow(Action),
    ActionDeny(Action),
}

/// The model of an `ActionTx`.
pub ghost enum ActionTxView<Action, V> {
    StateTx(V),
    ActionAllow(Action),
    ActionDeny(Action),
}

impl<Action, STx: View> View for ActionTx<Action, STx> {
    type V = ActionTxView<Action, STx::V>;

    open spec fn view(&self) -> Self::V {
        match self {
            ActionTx::StateTx(t) => ActionTxView::StateTx(t@),
            ActionTx::ActionAllow(a) => ActionTxView::ActionAllow(*a),
            ActionTx::ActionDeny(a) => ActionTxView::ActionDeny(*a),
        }
    }
}

/// The markers as they stand once epoch `epoch` has been seen: cleared when it is new.
pub open spec fn enter_epoch<Action, V>(s: ActionStateView<Action, V>, epoch: usize) -> ActionStateView<
    Action,
    V,
> {
    if s.2 != epoch {
        (Set::empty(), Set::empty(), epoch, s.3)
    } else {
        s
    }
}

impl<Action: Copy + PartialEq, STx: Transaction> Transaction for ActionTx<Action, STx> {
    type State = ActionState<Action, STx::State>;

    type ErrorType = STx::ErrorType;

    /// Enters the epoch, then applies the inner transaction or adds the marker.
    open spec fn apply_spec(
        tx: ActionTxView<Action, STx::V>,
        s: ActionStateView<Action, <STx::State as View>::V>,
        epoch: usize,
    ) -> (Result<(), STx::ErrorType>, ActionStateView<Action, <STx::State as View>::V>) {
        let s1 = enter_epoch(s, epoch);
        match tx {
            ActionTxView::StateTx(t) => {
                let (r, inner) = STx::apply_spec(t, s1.3, epoch);
                (r, (s1.0, s1.1, s1.2, inner))
            },
            ActionTxView::ActionAllow(a) => (Ok(()), (s1.0.insert(a), s1.1, s1.2, s1.3)),
            ActionTxView::ActionDeny(a) => (Ok(()), (s1.0, s1.1.insert(a), s1.2, s1.3)),
        }
    }

    /// Only two inner transactions can collide, as the inner predicate says.
    open spec fn safe_spec(a: ActionTxView<Action, STx::V>, b: ActionTxView<Action, STx::V>) -> bool {
        match (a, b) {
            (ActionTxView::StateTx(x), ActionTxView::StateTx(y)) => STx::safe_spec(x, y),
            _ => true,
        }
    }

    proof fn lemma_safe_symmetric(a: ActionTxView<Action, STx::V>, b: ActionTxView<Action, STx::V>) {
        match (a, b) {
            (ActionTxView::StateTx(x), ActionTxView::StateTx(y)) => {
                STx::lemma_safe_symmetric(x, y);
            },
            _ => {},
        }
    }

    fn apply(&self, state: &mut ActionState<Action, STx::State>, epoch: usize) -> (r: Result<
        (),
        STx::ErrorType,
    >) {
        if state.last_seen_timestamp != epoch {
            state.allows = Vec::new();
            state.denies = Vec::new();
            state.last_seen_timestamp = epoch;
            assert(state.allows@.to_set() =~= Set::<Action>::empty());
            assert(state.denies@.to_set() =~= Set::<Action>::empty());
        }
        let r = match self {
            ActionTx::StateTx(stx) => stx.apply(&mut state.state, epoch),
            ActionTx::ActionAllow(act) => {
                let ghost prev = state.allows@;
                state.allows.push(*act);
                proof {
                    lemma_push_to_set(prev, *act);
                }
                Ok(())
            },
            ActionTx::ActionDeny(act) => {
                let ghost prev = state.denies@;
                state.denies.push(*act);
                proof {
                    lemma_push_to_set(prev, *act);
                }
                Ok(())
            },
        };
        r
    }

    fn is_collision_safe_with(&self, other: &Self) -> (r: bool) {
        match (self, other) {
            (ActionTx::StateTx(a), ActionTx::StateTx(b)) => a.is_collision_safe_with(b),
            _ => true,
        }
    }
}

/// The markers last one epoch: whatever transaction is applied first in an epoch other than
/// the one last seen, the markers set before are gone, so no action stays allowed unless the
/// transaction itself allows it.
pub proof fn lemma_new_epoch_clears_markers<Action: Copy + PartialEq, STx: Transaction>(
    tx: ActionTxView<Action, STx::V>,
    s: ActionStateView<Action, <STx::State as View>::V>,
    epoch: usize,
)
    requires
        s.2 != epoch,
    ensures
        ({
            let after = ActionTx::<Action, STx>::apply_spec(tx, s, epoch).1;
            &&& after.2 == epoch
            &&& tx is StateTx ==> allowed_set(after.0, after.1) == Set::<Action>::empty()
            &&& tx is ActionAllow ==> after.0 == Set::<Action>::empty().insert(tx->ActionAllow_0)
            &&& tx is ActionDeny ==> after.0 == Set::<Action>::empty()
        }),
{
    let after = ActionTx::<Action, STx>::apply_spec(tx, s, epoch).1;
    assert(allowed_set(Set::<Action>::empty(), after.1) =~= Set::<Action>::empty());
}

/// Reducers over an `ActionState`.
pub trait ActionReducer<State, Action, Input, StateTx>: Reducer<
    State,
    Input,
    ActionTx<Action, StateTx>,
> where State: View, Action: Copy + PartialEq, StateTx: Transaction {

}

/// An engine over an `ActionState`.
pub type ActionEngine<State, Action, Input, StateTx, AR> = Engine<
    State,
    Input,
    ActionTx<Action, StateTx>,
    AR,
>;

} // verus!
