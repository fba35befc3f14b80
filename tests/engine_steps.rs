use fixedbitset::FixedBitSet;
use reducer_engine::bit_engine::{apply, BitState, Operation};
use reducer_engine::engine::{Engine, EngineResult, Transaction};
use reducer_engine::ext::bit::{BitEngine, BitError, BitProposer, BitTx};

fn tx_of(ops: &[(usize, usize)]) -> BitTx {
    let mut tx = BitTx::new();
    for (a, b) in ops {
        tx.append(Operation::Exchange(*a, *b));
    }
    tx
}

fn bits(st: &BitState) -> Vec<bool> {
    (0..st.len()).map(|i| st.get(i)).collect()
}

fn state_of(v: &[bool]) -> BitState {
    let mut st = BitState::with_len(v.len());
    for (i, b) in v.iter().enumerate() {
        st.set(i, *b);
    }
    st
}

fn engine_with(state: BitState, proposals: &[&[(usize, usize)]]) -> BitEngine<u32, BitProposer> {
    let mut e: BitEngine<u32, BitProposer> = Engine::new(state);
    for p in proposals {
        e.add_reducer(BitProposer::new(tx_of(p)));
    }
    e
}

#[test]
fn disjoint_exchanges_commit() {
    let mut e = engine_with(BitState::with_len(4), &[&[(0, 1)], &[(2, 3)]]);
    let r = e.step(7);
    assert!(matches!(r, EngineResult::Success));
    assert_eq!(bits(e.observe()), vec![false; 4]);
    assert_eq!(e.time(), 1);
    let m1 = tx_of(&[(0, 1)]).touching_mask();
    let m2 = tx_of(&[(2, 3)]).touching_mask();
    assert!(m1.iter().all(|k| !m2.contains(k)));
    assert_eq!(e.events().len(), 1);
    assert_eq!(*e.events()[0].input(), 7);
    assert_eq!(e.events()[0].transactions().len(), 2);
}

#[test]
fn overlapping_exchanges_conflict() {
    let start = [true, false, true, false];
    let mut e = engine_with(state_of(&start), &[&[(0, 1)], &[(1, 2)]]);
    let r = e.step(1);
    match r {
        EngineResult::TransactionConflict(pairs) => assert_eq!(pairs, vec![(1, 0)]),
        _ => panic!("expected a conflict"),
    }
    assert_eq!(bits(e.observe()), start.to_vec());
    assert_eq!(e.events().len(), 1);
    let logged = e.events()[0].transactions();
    assert_eq!(logged.len(), 2);
    assert_eq!(logged[0].0, 0);
    assert_eq!(logged[1].0, 1);
    assert_eq!(logged[0].1.ops(), &vec![Operation::Exchange(0, 1)]);
    assert_eq!(logged[1].1.ops(), &vec![Operation::Exchange(1, 2)]);
    assert_eq!(e.time(), 1);
}

#[test]
fn conflict_reports_every_pair() {
    let mut e = engine_with(BitState::with_len(4), &[&[(0, 1)], &[(2, 3)], &[(1, 2)]]);
    match e.step(0) {
        EngineResult::TransactionConflict(pairs) => assert_eq!(pairs, vec![(2, 0), (2, 1)]),
        _ => panic!("expected a conflict"),
    }
}

#[test]
fn crash_keeps_earlier_mutations() {
    let mut e = engine_with(state_of(&[true, false, false, false]), &[&[(0, 1)], &[(2, 9)]]);
    let r = e.step(3);
    match r {
        EngineResult::TransactionCrashed(err) => assert_eq!(err, BitError::IndexOutOfRange),
        _ => panic!("expected a crash"),
    }
    assert_eq!(bits(e.observe()), vec![false, true, false, false]);
    assert_eq!(e.events().len(), 1);
    assert_eq!(e.events()[0].transactions().len(), 2);
}

#[test]
fn successful_step_applies_in_order() {
    let mut e = engine_with(state_of(&[true, false, true, true, false]), &[&[(0, 1), (1, 4)], &[(2, 3)]]);
    assert!(matches!(e.step(0), EngineResult::Success));
    // (0,1) then (1,4) moves the first bit to index 4; (2,3) swaps two equal bits.
    assert_eq!(bits(e.observe()), vec![false, false, true, true, true]);
    assert!(matches!(e.step(0), EngineResult::Success));
    assert_eq!(bits(e.observe()), vec![false, true, true, true, false]);
    assert_eq!(e.time(), 2);
    assert_eq!(e.events().len(), 2);
}

#[test]
fn empty_engine_steps_and_counts() {
    let mut e = engine_with(BitState::with_len(2), &[]);
    assert!(matches!(e.step(0), EngineResult::Success));
    assert!(matches!(e.step(0), EngineResult::Success));
    assert_eq!(e.time(), 2);
    assert_eq!(e.events().len(), 2);
    assert!(e.events()[1].transactions().is_empty());
}

#[test]
fn reducer_ids_follow_registration_order() {
    let mut e: BitEngine<u32, BitProposer> = Engine::new(BitState::with_len(8));
    assert_eq!(e.add_reducer(BitProposer::new(tx_of(&[(0, 1)]))), 0);
    assert_eq!(e.add_reducer(BitProposer::new(tx_of(&[(2, 3)]))), 1);
    assert_eq!(e.add_reducer(BitProposer::new(tx_of(&[(4, 5)]))), 2);
    assert_eq!(e.get_reducer(0).unwrap().tx().ops(), &vec![Operation::Exchange(0, 1)]);
    assert_eq!(e.get_reducer(1).unwrap().tx().ops(), &vec![Operation::Exchange(2, 3)]);
    assert_eq!(e.get_reducer(2).unwrap().tx().ops(), &vec![Operation::Exchange(4, 5)]);
    assert!(e.get_reducer(3).is_none());
    assert!(e.get_reducer(usize::MAX).is_none());
}

#[test]
fn collision_predicate_is_symmetric() {
    let cases: Vec<(BitTx, BitTx)> = vec![
        (tx_of(&[(0, 1)]), tx_of(&[(2, 3)])),
        (tx_of(&[(0, 1)]), tx_of(&[(1, 2)])),
        (tx_of(&[]), tx_of(&[(1, 2)])),
        (tx_of(&[(0, 5), (6, 7)]), tx_of(&[(3, 7)])),
    ];
    for (a, b) in &cases {
        assert_eq!(a.is_collision_safe_with(b), b.is_collision_safe_with(a));
    }
}

#[test]
fn bit_collision_rule() {
    assert!(tx_of(&[(0, 1)]).is_collision_safe_with(&tx_of(&[(2, 3)])));
    assert!(tx_of(&[]).is_collision_safe_with(&tx_of(&[(0, 1)])));
    assert!(!tx_of(&[(0, 1)]).is_collision_safe_with(&tx_of(&[(1, 2)])));
    // The same exchange twice would commute, yet shares indices.
    assert!(!tx_of(&[(0, 1)]).is_collision_safe_with(&tx_of(&[(0, 1)])));
    // An exchange of an index with itself touches that index.
    assert!(!tx_of(&[(3, 3)]).is_collision_safe_with(&tx_of(&[(3, 4)])));
}

#[test]
fn safe_batch_order_does_not_matter() {
    let start = [true, false, true, false, false, true];
    let txs = vec![tx_of(&[(0, 1)]), tx_of(&[(2, 3), (3, 4)]), tx_of(&[(5, 5)])];
    let orders: Vec<Vec<usize>> = vec![vec![0, 1, 2], vec![2, 1, 0], vec![1, 0, 2], vec![1, 2, 0]];
    let mut results = vec![];
    for order in &orders {
        let mut st = state_of(&start);
        for i in order {
            assert_eq!(txs[*i].apply(&mut st, 1), Ok(()));
        }
        results.push(bits(&st));
    }
    assert_eq!(results[0], vec![false, true, false, false, true, true]);
    for r in &results {
        assert_eq!(r, &results[0]);
    }
}

#[test]
fn out_of_range_transaction_leaves_state() {
    let mut st = state_of(&[true, false]);
    let tx = tx_of(&[(0, 1), (1, 2)]);
    assert_eq!(tx.apply(&mut st, 1), Err(BitError::IndexOutOfRange));
    assert_eq!(bits(&st), vec![true, false]);
}

#[test]
fn exchange_swaps_two_bits() {
    let mut st = state_of(&[true, false, false]);
    apply(&mut st, &Operation::Exchange(0, 2));
    assert_eq!(bits(&st), vec![false, false, true]);
    apply(&mut st, &Operation::Exchange(1, 1));
    assert_eq!(bits(&st), vec![false, false, true]);
}

#[test]
fn bit_state_wraps_a_bitset() {
    let mut fb = FixedBitSet::with_capacity(5);
    fb.insert(3);
    let mut st = BitState::from_bits(fb);
    assert_eq!(st.len(), 5);
    assert_eq!(bits(&st), vec![false, false, false, true, false]);
    assert!(!st.get(5));
    assert!(!st.get(100));
    st.set(0, true);
    assert!(st.bits().contains(0));
    assert!(st.bits().contains(3));
    assert_eq!(st.bits().len(), 5);
    assert_eq!(BitState::with_len(0).len(), 0);
}

#[test]
fn touching_mask_lists_indices() {
    let mut m = tx_of(&[(4, 1), (1, 7)]).touching_mask();
    m.sort();
    m.dedup();
    assert_eq!(m, vec![1, 4, 7]);
    assert!(BitTx::new().touching_mask().is_empty());
}

#[test]
fn duplicate_keeps_operations() {
    let tx = tx_of(&[(1, 2), (3, 4)]);
    let d = tx.duplicate();
    assert_eq!(d.ops(), &vec![Operation::Exchange(1, 2), Operation::Exchange(3, 4)]);
}
