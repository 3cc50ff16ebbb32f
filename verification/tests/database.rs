use libp2p::PeerId;
use swap::database::{
    Alice, AliceEndState, Bob, BobEndState, Database, RoleMismatchError, StorageError, Swap,
};
use uuid::Uuid;

fn empty() -> Database {
    Database::open(&Vec::new(), &Vec::new()).unwrap()
}

#[test]
fn can_write_and_read_to_multiple_keys() {
    let mut db = empty();

    let state_1 = Swap::Alice(Alice::Done(AliceEndState::BtcRedeemed));
    let swap_id_1 = Uuid::new_v4().as_u128();
    db.insert_latest_state(swap_id_1, state_1.clone())
        .expect("Failed to save second state");

    let state_2 = Swap::Bob(Bob::Done(BobEndState::SafelyAborted));
    let swap_id_2 = Uuid::new_v4().as_u128();
    db.insert_latest_state(swap_id_2, state_2.clone())
        .expect("Failed to save first state");

    let recovered_1 = db
        .get_state(swap_id_1)
        .expect("Failed to recover first state");

    let recovered_2 = db
        .get_state(swap_id_2)
        .expect("Failed to recover second state");

    assert_eq!(recovered_1, state_1);
    assert_eq!(recovered_2, state_2);
}

#[test]
fn can_write_twice_to_one_key() {
    let mut db = empty();

    let state = Swap::Alice(Alice::Done(AliceEndState::SafelyAborted));

    let swap_id = Uuid::new_v4().as_u128();
    db.insert_latest_state(swap_id, state.clone())
        .expect("Failed to save state the first time");
    let recovered = db
        .get_state(swap_id)
        .expect("Failed to recover state the first time");

    // We insert and recover twice to ensure database implementation allows the
    // caller to write to an existing key
    db.insert_latest_state(swap_id, recovered)
        .expect("Failed to save state the second time");
    let recovered = db
        .get_state(swap_id)
        .expect("Failed to recover state the second time");

    assert_eq!(recovered, state);
}

#[test]
fn all_swaps_as_alice() {
    let mut db = empty();

    let alice_state = Alice::Done(AliceEndState::BtcPunished);
    let alice_swap = Swap::Alice(alice_state.clone());
    let alice_swap_id = Uuid::new_v4().as_u128();
    db.insert_latest_state(alice_swap_id, alice_swap)
        .expect("Failed to save alice state 1");

    let alice_swaps = db.all_alice().unwrap();
    assert_eq!(alice_swaps.len(), 1);
    assert!(alice_swaps.contains(&(alice_swap_id, alice_state)));

    let bob_state = Bob::Done(BobEndState::SafelyAborted);
    let bob_swap = Swap::Bob(bob_state);
    let bob_swap_id = Uuid::new_v4().as_u128();
    db.insert_latest_state(bob_swap_id, bob_swap)
        .expect("Failed to save bob state 1");

    let err = db.all_alice().unwrap_err();

    assert_eq!(err, RoleMismatchError::NotInitiator);
}

#[test]
fn all_swaps_as_bob() {
    let mut db = empty();

    let bob_state = Bob::Done(BobEndState::SafelyAborted);
    let bob_swap = Swap::Bob(bob_state.clone());
    let bob_swap_id = Uuid::new_v4().as_u128();
    db.insert_latest_state(bob_swap_id, bob_swap)
        .expect("Failed to save bob state 1");

    let bob_swaps = db.all_bob().unwrap();
    assert_eq!(bob_swaps.len(), 1);
    assert!(bob_swaps.contains(&(bob_swap_id, bob_state)));

    let alice_state = Alice::Done(AliceEndState::BtcPunished);
    let alice_swap = Swap::Alice(alice_state);
    let alice_swap_id = Uuid::new_v4().as_u128();
    db.insert_latest_state(alice_swap_id, alice_swap)
        .expect("Failed to save alice state 1");

    let err = db.all_bob().unwrap_err();

    assert_eq!(err, RoleMismatchError::NotResponder);
}

#[test]
fn can_save_swap_state_and_peer_id_with_same_swap_id() {
    let mut db = empty();

    let alice_id = Uuid::new_v4().as_u128();
    let alice_state = Alice::Done(AliceEndState::BtcPunished);
    let alice_swap = Swap::Alice(alice_state);
    let peer_id = PeerId::random();

    db.insert_latest_state(alice_id, alice_swap.clone()).unwrap();
    db.insert_peer_id(alice_id, peer_id).unwrap();

    let loaded_swap = db.get_state(alice_id).unwrap();
    let loaded_peer_id = db.get_peer_id(alice_id).unwrap();

    assert_eq!(alice_swap, loaded_swap);
    assert_eq!(peer_id, loaded_peer_id);
}

#[test]
fn test_reopen_db() {
    let alice_id = Uuid::new_v4().as_u128();
    let alice_state = Alice::Done(AliceEndState::BtcPunished);
    let alice_swap = Swap::Alice(alice_state);

    let peer_id = PeerId::random();

    let (swap_records, peer_records) = {
        let mut db = empty();
        db.insert_latest_state(alice_id, alice_swap.clone()).unwrap();
        db.insert_peer_id(alice_id, peer_id).unwrap();
        (db.swap_records(), db.peer_records())
    };

    let db = Database::open(&swap_records, &peer_records).unwrap();

    let loaded_swap = db.get_state(alice_id).unwrap();
    let loaded_peer_id = db.get_peer_id(alice_id).unwrap();

    assert_eq!(alice_swap, loaded_swap);
    assert_eq!(peer_id, loaded_peer_id);
}

#[test]
fn try_into_alice_returns_the_wrapped_state() {
    let state = Alice::BtcLocked;
    assert_eq!(Swap::Alice(state).try_into_alice(), Ok(state));
    assert_eq!(
        Swap::Bob(Bob::Started).try_into_alice(),
        Err(RoleMismatchError::NotInitiator)
    );
}

#[test]
fn try_into_bob_returns_the_wrapped_state() {
    let state = Bob::EncSigSent;
    assert_eq!(Swap::Bob(state).try_into_bob(), Ok(state));
    assert_eq!(
        Swap::Alice(Alice::Started).try_into_bob(),
        Err(RoleMismatchError::NotResponder)
    );
}

#[test]
fn states_convert_into_tagged_records() {
    assert_eq!(Swap::from(Alice::XmrLocked), Swap::Alice(Alice::XmrLocked));
    assert_eq!(Swap::from(Bob::BtcLocked), Swap::Bob(Bob::BtcLocked));
}

#[test]
fn missing_records_are_not_found() {
    let db = empty();
    assert_eq!(db.get_state(7), Err(StorageError::NotFound));
    assert_eq!(db.get_peer_id(7), Err(StorageError::NotFound));
    assert_eq!(db.current(7), None);
}

#[test]
fn latest_state_replaces_the_earlier_one() {
    let mut db = empty();
    db.insert_latest_state(1, Swap::Alice(Alice::Started)).unwrap();
    db.insert_latest_state(1, Swap::Alice(Alice::BtcLocked)).unwrap();
    assert_eq!(db.get_state(1), Ok(Swap::Alice(Alice::BtcLocked)));
    assert_eq!(db.swap_records(), vec![(1, Swap::Alice(Alice::BtcLocked))]);
}

#[test]
fn one_of_two_writers_with_the_same_expectation_wins() {
    let mut db = empty();
    db.insert_latest_state(5, Swap::Bob(Bob::Started)).unwrap();

    let found_by_first = db.current(5);
    let found_by_second = db.current(5);
    assert_eq!(found_by_first, Some(Swap::Bob(Bob::Started)));

    let first = db.compare_and_swap(5, found_by_first, Swap::Bob(Bob::Negotiated));
    let second = db.compare_and_swap(5, found_by_second, Swap::Bob(Bob::BtcLocked));

    assert_eq!(first, Ok(()));
    assert_eq!(second, Err(StorageError::Conflict));
    assert_eq!(db.get_state(5), Ok(Swap::Bob(Bob::Negotiated)));
}

#[test]
fn first_write_conflicts_when_a_record_appeared() {
    let mut db = empty();
    let found = db.current(9);
    assert_eq!(found, None);
    db.insert_latest_state(9, Swap::Alice(Alice::Started)).unwrap();

    let late = db.compare_and_swap(9, found, Swap::Alice(Alice::Negotiated));

    assert_eq!(late, Err(StorageError::Conflict));
    assert_eq!(db.get_state(9), Ok(Swap::Alice(Alice::Started)));
}

#[test]
fn writing_back_the_found_record_keeps_the_other_writer_valid() {
    let mut db = empty();
    let found = Swap::Alice(Alice::Started);
    db.insert_latest_state(3, found).unwrap();

    assert_eq!(db.compare_and_swap(3, Some(found), found), Ok(()));
    assert_eq!(db.compare_and_swap(3, Some(found), Swap::Alice(Alice::Negotiated)), Ok(()));
    assert_eq!(db.get_state(3), Ok(Swap::Alice(Alice::Negotiated)));
}

#[test]
fn peer_identity_is_never_replaced() {
    let mut db = empty();
    let first = PeerId::random();
    let second = PeerId::random();

    assert_eq!(db.insert_peer_id(11, first), Ok(()));
    assert_eq!(db.insert_peer_id(11, second), Err(StorageError::Conflict));
    assert_eq!(db.get_peer_id(11), Ok(first));
    assert_eq!(db.peer_records(), vec![(11, first)]);
}

#[test]
fn listings_are_in_ascending_order_of_the_identifiers() {
    let mut db = empty();
    db.insert_latest_state(30, Swap::Alice(Alice::BtcLocked)).unwrap();
    db.insert_latest_state(10, Swap::Alice(Alice::Done(AliceEndState::BtcRedeemed))).unwrap();
    db.insert_latest_state(20, Swap::Alice(Alice::Started)).unwrap();

    assert_eq!(
        db.all_alice(),
        Ok(vec![
            (10, Alice::Done(AliceEndState::BtcRedeemed)),
            (20, Alice::Started),
            (30, Alice::BtcLocked),
        ])
    );
    assert_eq!(
        db.unfinished_alice(),
        Ok(vec![(20, Alice::Started), (30, Alice::BtcLocked)])
    );
    assert_eq!(db.all_bob(), Err(RoleMismatchError::NotResponder));
    assert_eq!(db.unfinished_bob(), Err(RoleMismatchError::NotResponder));
}

#[test]
fn unfinished_listing_of_bob_leaves_out_done_swaps() {
    let mut db = empty();
    db.insert_latest_state(2, Swap::Bob(Bob::Done(BobEndState::XmrRedeemed))).unwrap();
    db.insert_latest_state(1, Swap::Bob(Bob::XmrLocked)).unwrap();

    assert_eq!(db.unfinished_bob(), Ok(vec![(1, Bob::XmrLocked)]));
    assert_eq!(
        db.all_bob(),
        Ok(vec![(1, Bob::XmrLocked), (2, Bob::Done(BobEndState::XmrRedeemed))])
    );
}

#[test]
fn unfinished_listing_fails_on_a_record_of_the_other_role() {
    let mut db = empty();
    db.insert_latest_state(1, Swap::Alice(Alice::Started)).unwrap();
    db.insert_latest_state(2, Swap::Bob(Bob::Done(BobEndState::SafelyAborted))).unwrap();

    assert_eq!(db.unfinished_alice(), Err(RoleMismatchError::NotInitiator));
}

#[test]
fn empty_store_lists_nothing() {
    let db = empty();
    assert_eq!(db.all_alice(), Ok(vec![]));
    assert_eq!(db.all_bob(), Ok(vec![]));
    assert_eq!(db.swap_records(), vec![]);
}

#[test]
fn open_refuses_a_repeated_identifier() {
    let records = vec![
        (4, Swap::Alice(Alice::Started)),
        (8, Swap::Alice(Alice::Negotiated)),
        (4, Swap::Alice(Alice::BtcLocked)),
    ];
    assert!(matches!(
        Database::open(&records, &Vec::new()),
        Err(StorageError::Open)
    ));

    let peer = PeerId::random();
    let peers = vec![(1, peer), (1, peer)];
    assert!(matches!(
        Database::open(&Vec::new(), &peers),
        Err(StorageError::Open)
    ));
}

#[test]
fn open_accepts_records_in_any_order() {
    let records = vec![
        (8, Swap::Bob(Bob::Negotiated)),
        (4, Swap::Bob(Bob::Started)),
    ];
    let db = Database::open(&records, &Vec::new()).unwrap();
    assert_eq!(db.get_state(4), Ok(Swap::Bob(Bob::Started)));
    assert_eq!(db.get_state(8), Ok(Swap::Bob(Bob::Negotiated)));
    assert_eq!(
        db.swap_records(),
        vec![(4, Swap::Bob(Bob::Started)), (8, Swap::Bob(Bob::Negotiated))]
    );
}
