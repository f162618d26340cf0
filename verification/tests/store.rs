use sentra::error::ErrorCode;
use sentra::identity::{authorize, Pubkey};
use sentra::records::{RiskAlertEvent, RiskPreference, RiskSnapshot};
use sentra::store::RiskStore;

#[test]
fn authorize_accepts_owner_and_rejects_others() {
    let alice = Pubkey::new(10);
    let bob = Pubkey::new(20);
    assert_eq!(authorize(alice, alice), Ok(()));
    assert_eq!(authorize(alice, bob), Err(ErrorCode::Unauthorized));
}

#[test]
fn initialize_succeeds_exactly_once() {
    let mut store = RiskStore::new();
    let alice = Pubkey::new(1);
    let rec = store.initialize_preferences(alice, 60, 100).unwrap();
    assert_eq!(
        rec,
        RiskPreference {
            owner: alice,
            threshold: 60,
            last_risk_score: 0,
            created_at: 100,
            last_updated: 100,
        }
    );
    // A second attempt fails regardless of the argument, valid or not.
    assert_eq!(
        store.initialize_preferences(alice, 10, 200),
        Err(ErrorCode::AlreadyExists)
    );
    assert_eq!(
        store.initialize_preferences(alice, 255, 200),
        Err(ErrorCode::AlreadyExists)
    );
    // The stored record is untouched by the failed attempts.
    assert_eq!(store.get_preference(alice), Some(rec));
}

#[test]
fn initialize_rejects_out_of_range_threshold() {
    let mut store = RiskStore::new();
    let alice = Pubkey::new(1);
    assert_eq!(
        store.initialize_preferences(alice, 101, 5),
        Err(ErrorCode::InvalidThreshold)
    );
    assert_eq!(
        store.initialize_preferences(alice, 255, 5),
        Err(ErrorCode::InvalidThreshold)
    );
    assert_eq!(store.get_preference(alice), None);
}

#[test]
fn update_rejects_out_of_range_threshold_and_leaves_record() {
    let mut store = RiskStore::new();
    let alice = Pubkey::new(1);
    let rec = store.initialize_preferences(alice, 30, 5).unwrap();
    assert_eq!(
        store.update_threshold(alice, alice, 101, 9),
        Err(ErrorCode::InvalidThreshold)
    );
    assert_eq!(
        store.update_threshold(alice, alice, 255, 9),
        Err(ErrorCode::InvalidThreshold)
    );
    assert_eq!(store.get_preference(alice), Some(rec));
}

#[test]
fn update_by_non_owner_is_unauthorized_and_changes_nothing() {
    let mut store = RiskStore::new();
    let alice = Pubkey::new(1);
    let mallory = Pubkey::new(66);
    let rec = store.initialize_preferences(alice, 30, 5).unwrap();
    assert_eq!(
        store.update_threshold(alice, mallory, 55, 9),
        Err(ErrorCode::Unauthorized)
    );
    let read_back = store.get_preference(alice).unwrap();
    assert_eq!(read_back.threshold, 30);
    assert_eq!(read_back.last_updated, 5);
    assert_eq!(read_back, rec);
}

#[test]
fn update_without_record_is_not_found() {
    let mut store = RiskStore::new();
    let alice = Pubkey::new(1);
    assert_eq!(
        store.update_threshold(alice, alice, 55, 9),
        Err(ErrorCode::NotFound)
    );
}

#[test]
fn update_overwrites_threshold_only() {
    let mut store = RiskStore::new();
    let alice = Pubkey::new(1);
    store.initialize_preferences(alice, 30, 5).unwrap();
    let rec = store.update_threshold(alice, alice, 80, 9).unwrap();
    assert_eq!(
        rec,
        RiskPreference {
            owner: alice,
            threshold: 80,
            last_risk_score: 0,
            created_at: 5,
            last_updated: 9,
        }
    );
    assert_eq!(store.get_preference(alice), Some(rec));
}

#[test]
fn record_measurement_updates_cache_snapshot_and_event() {
    let mut store = RiskStore::new();
    let alice = Pubkey::new(1);
    store.initialize_preferences(alice, 50, 5).unwrap();
    let (snap, event) = store.record_risk_score(alice, alice, 73, 40).unwrap();
    assert_eq!(
        snap,
        RiskSnapshot { owner: alice, risk_score: 73, timestamp: 40 }
    );
    assert_eq!(
        event,
        RiskAlertEvent { owner: alice, risk_score: 73, threshold: 50, timestamp: 40 }
    );
    let pref = store.get_preference(alice).unwrap();
    assert_eq!(pref.last_risk_score, 73);
    assert_eq!(pref.last_updated, 40);
    assert_eq!(pref.threshold, 50);
    assert_eq!(pref.created_at, 5);
    assert_eq!(store.get_snapshot(alice, 40), Some(snap));
    assert_eq!(store.snapshot_count(), 1);
}

#[test]
fn event_is_emitted_even_when_score_is_below_threshold() {
    let mut store = RiskStore::new();
    let alice = Pubkey::new(1);
    store.initialize_preferences(alice, 90, 5).unwrap();
    let (_, event) = store.record_risk_score(alice, alice, 10, 40).unwrap();
    assert_eq!(
        event,
        RiskAlertEvent { owner: alice, risk_score: 10, threshold: 90, timestamp: 40 }
    );
}

#[test]
fn record_rejects_out_of_range_score() {
    let mut store = RiskStore::new();
    let alice = Pubkey::new(1);
    let rec = store.initialize_preferences(alice, 50, 5).unwrap();
    assert_eq!(
        store.record_risk_score(alice, alice, 101, 40),
        Err(ErrorCode::InvalidRiskScore)
    );
    assert_eq!(store.get_preference(alice), Some(rec));
    assert_eq!(store.snapshot_count(), 0);
}

#[test]
fn record_without_preference_is_not_found() {
    let mut store = RiskStore::new();
    let alice = Pubkey::new(1);
    assert_eq!(
        store.record_risk_score(alice, alice, 10, 40),
        Err(ErrorCode::NotFound)
    );
}

#[test]
fn record_by_non_owner_is_unauthorized() {
    let mut store = RiskStore::new();
    let alice = Pubkey::new(1);
    let mallory = Pubkey::new(66);
    let rec = store.initialize_preferences(alice, 50, 5).unwrap();
    assert_eq!(
        store.record_risk_score(alice, mallory, 10, 40),
        Err(ErrorCode::Unauthorized)
    );
    assert_eq!(store.get_preference(alice), Some(rec));
    assert_eq!(store.snapshot_count(), 0);
}

#[test]
fn duplicate_timestamp_is_rejected_and_changes_nothing() {
    let mut store = RiskStore::new();
    let alice = Pubkey::new(1);
    store.initialize_preferences(alice, 50, 5).unwrap();
    let (snap, _) = store.record_risk_score(alice, alice, 73, 40).unwrap();
    assert_eq!(
        store.record_risk_score(alice, alice, 20, 40),
        Err(ErrorCode::DuplicateSnapshot)
    );
    let pref = store.get_preference(alice).unwrap();
    assert_eq!(pref.last_risk_score, 73);
    assert_eq!(pref.last_updated, 40);
    assert_eq!(store.get_snapshot(alice, 40), Some(snap));
    assert_eq!(store.snapshot_count(), 1);
}

#[test]
fn later_measurement_wins_and_both_snapshots_persist() {
    let mut store = RiskStore::new();
    let alice = Pubkey::new(1);
    store.initialize_preferences(alice, 50, 5).unwrap();
    let (snap1, _) = store.record_risk_score(alice, alice, 73, 40).unwrap();
    let (snap2, _) = store.record_risk_score(alice, alice, 20, 41).unwrap();
    assert_eq!(store.get_snapshot(alice, 40), Some(snap1));
    assert_eq!(store.get_snapshot(alice, 41), Some(snap2));
    assert_eq!(store.snapshot_count(), 2);
    let pref = store.get_preference(alice).unwrap();
    assert_eq!(pref.last_risk_score, 20);
    assert_eq!(pref.last_updated, 41);
}

#[test]
fn round_trip_preserves_initial_values() {
    let mut store = RiskStore::new();
    let alice = Pubkey::new(1);
    store.initialize_preferences(alice, 42, 5).unwrap();
    let pref = store.get_preference(alice).unwrap();
    assert_eq!(pref.threshold, 42);
    assert_eq!(pref.last_risk_score, 0);
    assert_eq!(pref.created_at, pref.last_updated);
}

#[test]
fn conflicting_initializations_have_one_winner_in_either_order() {
    // The runtime serializes conflicting creations; whichever runs first
    // wins and the loser observes `AlreadyExists`.
    let alice = Pubkey::new(1);

    let mut store = RiskStore::new();
    assert!(store.initialize_preferences(alice, 10, 5).is_ok());
    assert_eq!(
        store.initialize_preferences(alice, 20, 6),
        Err(ErrorCode::AlreadyExists)
    );
    assert_eq!(store.get_preference(alice).unwrap().threshold, 10);

    let mut store = RiskStore::new();
    assert!(store.initialize_preferences(alice, 20, 6).is_ok());
    assert_eq!(
        store.initialize_preferences(alice, 10, 5),
        Err(ErrorCode::AlreadyExists)
    );
    assert_eq!(store.get_preference(alice).unwrap().threshold, 20);
}

#[test]
fn distinct_owners_do_not_interfere() {
    let mut store = RiskStore::new();
    let alice = Pubkey::new(1);
    let bob = Pubkey::new(2);
    store.initialize_preferences(alice, 10, 5).unwrap();
    store.initialize_preferences(bob, 90, 6).unwrap();
    store.record_risk_score(bob, bob, 33, 7).unwrap();
    let alice_pref = store.get_preference(alice).unwrap();
    assert_eq!(alice_pref.threshold, 10);
    assert_eq!(alice_pref.last_risk_score, 0);
    let bob_pref = store.get_preference(bob).unwrap();
    assert_eq!(bob_pref.threshold, 90);
    assert_eq!(bob_pref.last_risk_score, 33);
    assert_eq!(store.get_snapshot(alice, 7), None);
    assert_eq!(store.get_snapshot(bob, 7).unwrap().risk_score, 33);
}
