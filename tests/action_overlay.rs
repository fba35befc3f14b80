use reducer_engine::bit_engine::{BitState, Operation};
use reducer_engine::engine::Transaction;
use reducer_engine::ext::action::{ActionState, ActionTx};
use reducer_engine::ext::bit::{BitError, BitTx};

type Overlay = ActionState<u64, BitState>;
type Tx = ActionTx<u64, BitTx>;

fn sorted(mut v: Vec<u64>) -> Vec<u64> {
    v.sort();
    v
}

#[test]
fn markers_reset_at_epoch_boundary() {
    let mut st: Overlay = ActionState::new(BitState::with_len(4));
    let allow: Tx = ActionTx::ActionAllow(9);
    assert_eq!(allow.apply(&mut st, 1), Ok(()));
    assert_eq!(st.allowed_actions(), vec![9]);
    assert_eq!(st.last_seen(), 1);

    let inner: Tx = ActionTx::StateTx(BitTx::new());
    assert_eq!(inner.apply(&mut st, 2), Ok(()));
    assert!(st.allowed_actions().is_empty());
    assert_eq!(st.last_seen(), 2);
}

#[test]
fn markers_stay_within_an_epoch() {
    let mut st: Overlay = ActionState::new(BitState::with_len(2));
    let a: Tx = ActionTx::ActionAllow(1);
    let b: Tx = ActionTx::ActionAllow(2);
    let again: Tx = ActionTx::ActionAllow(1);
    assert_eq!(a.apply(&mut st, 5), Ok(()));
    assert_eq!(b.apply(&mut st, 5), Ok(()));
    assert_eq!(again.apply(&mut st, 5), Ok(()));
    assert_eq!(sorted(st.allowed_actions()), vec![1, 2]);
}

#[test]
fn deny_wins_over_allow() {
    let mut st: Overlay = ActionState::new(BitState::with_len(2));
    let txs: Vec<Tx> = vec![
        ActionTx::ActionAllow(1),
        ActionTx::ActionDeny(1),
        ActionTx::ActionAllow(2),
        ActionTx::ActionDeny(3),
    ];
    for tx in &txs {
        assert_eq!(tx.apply(&mut st, 1), Ok(()));
    }
    assert_eq!(st.allowed_actions(), vec![2]);
}

#[test]
fn clear_actions_removes_markers() {
    let mut st: Overlay = ActionState::new(BitState::with_len(2));
    let a: Tx = ActionTx::ActionAllow(4);
    assert_eq!(a.apply(&mut st, 1), Ok(()));
    st.clear_actions();
    assert!(st.allowed_actions().is_empty());
    assert_eq!(st.last_seen(), 1);
}

#[test]
fn inner_transaction_reaches_inner_state() {
    let mut st: Overlay = ActionState::new(BitState::with_len(3));
    let mut bt = BitTx::new();
    bt.append(Operation::Exchange(0, 2));
    let tx: Tx = ActionTx::StateTx(bt);
    assert_eq!(tx.apply(&mut st, 1), Ok(()));
    assert_eq!(st.inner().len(), 3);

    let mut bad = BitTx::new();
    bad.append(Operation::Exchange(0, 3));
    let tx: Tx = ActionTx::StateTx(bad);
    assert_eq!(tx.apply(&mut st, 1), Err(BitError::IndexOutOfRange));
}

#[test]
fn only_inner_transactions_collide() {
    let mut x = BitTx::new();
    x.append(Operation::Exchange(0, 1));
    let mut y = BitTx::new();
    y.append(Operation::Exchange(1, 2));
    let a: Tx = ActionTx::StateTx(x);
    let b: Tx = ActionTx::StateTx(y);
    let m: Tx = ActionTx::ActionAllow(1);
    let d: Tx = ActionTx::ActionDeny(1);
    assert!(!a.is_collision_safe_with(&b));
    assert!(!b.is_collision_safe_with(&a));
    assert!(a.is_collision_safe_with(&m));
    assert!(m.is_collision_safe_with(&a));
    assert!(m.is_collision_safe_with(&d));
    assert!(d.is_collision_safe_with(&m));
}
