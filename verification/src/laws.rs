//! The library-wide guarantees, stated over the abstract model and proved
//! from the transition functions that the executable operations are known to
//! follow.
//!
//! Because every transition either commits all of its effects or returns the
//! state unchanged, these laws transfer directly to the executable store:
//! each operation's contract equates its outcome with the transition applied
//! to the store's view.

use crate::error::ErrorCode;
use crate::identity::Pubkey;
use crate::model::{
    fresh_preference, lemma_snap_at_is, spec_apply_measurement, spec_initialize,
    spec_record_risk_score, spec_update_threshold, StoreModel,
};
use crate::records::{pref_valid, snap_valid, RiskAlertEvent, RiskPreference, RiskSnapshot};
use vstd::prelude::*;

verus! {

/// Initialization preserves well-formedness: ranges stay valid, each record
/// stays keyed by its owner, and snapshot addresses stay unique.
pub proof fn lemma_initialize_preserves_wf(m: StoreModel, owner: Pubkey, threshold: u8, now: i64)
    requires
        m.wf(),
    ensures
        spec_initialize(m, owner, threshold, now).0.wf(),
{
    let m1 = spec_initialize(m, owner, threshold, now).0;
    if !m.prefs.dom().contains(owner) && threshold <= 100 {
        let rec = fresh_preference(owner, threshold, now);
        assert forall|o: Pubkey| #[trigger]
            m1.prefs.dom().contains(o) implies m1.prefs[o].owner == o && pref_valid(
            m1.prefs[o],
        ) by {
            if o == owner {
                assert(m1.prefs[o] == rec);
            } else {
                assert(m1.prefs[o] == m.prefs[o]);
                assert(m.prefs.dom().contains(o));
            }
        }
    }
}

/// A threshold update preserves well-formedness.
pub proof fn lemma_update_threshold_preserves_wf(
    m: StoreModel,
    owner: Pubkey,
    requester: Pubkey,
    new_threshold: u8,
    now: i64,
)
    requires
        m.wf(),
    ensures
        spec_update_threshold(m, owner, requester, new_threshold, now).0.wf(),
{
    let m1 = spec_update_threshold(m, owner, requester, new_threshold, now).0;
    if new_threshold <= 100 && m.prefs.dom().contains(owner) && requester
        == m.prefs[owner].owner {
        assert forall|o: Pubkey| #[trigger]
            m1.prefs.dom().contains(o) implies m1.prefs[o].owner == o && pref_valid(
            m1.prefs[o],
        ) by {
            if o != owner {
                assert(m1.prefs[o] == m.prefs[o]);
                assert(m.prefs.dom().contains(o));
            }
        }
    }
}

/// Refreshing the cached last score preserves well-formedness.
pub proof fn lemma_apply_measurement_preserves_wf(
    m: StoreModel,
    owner: Pubkey,
    new_score: u8,
    now: i64,
)
    requires
        m.wf(),
    ensures
        spec_apply_measurement(m, owner, new_score, now).0.wf(),
{
    let m1 = spec_apply_measurement(m, owner, new_score, now).0;
    if new_score <= 100 && m.prefs.dom().contains(owner) {
        assert forall|o: Pubkey| #[trigger]
            m1.prefs.dom().contains(o) implies m1.prefs[o].owner == o && pref_valid(
            m1.prefs[o],
        ) by {
            if o != owner {
                assert(m1.prefs[o] == m.prefs[o]);
                assert(m.prefs.dom().contains(o));
            }
        }
    }
}

/// Recording a measurement preserves well-formedness; in particular the
/// appended snapshot occupies a previously free `(owner, timestamp)` slot,
/// so snapshot addresses stay unique.
pub proof fn lemma_record_preserves_wf(
    m: StoreModel,
    owner: Pubkey,
    requester: Pubkey,
    risk_score: u8,
    timestamp: i64,
)
    requires
        m.wf(),
    ensures
        spec_record_risk_score(m, owner, requester, risk_score, timestamp).0.wf(),
{
    let m1 = spec_record_risk_score(m, owner, requester, risk_score, timestamp).0;
    if risk_score <= 100 && m.prefs.dom().contains(owner) && requester == m.prefs[owner].owner
        && !m.has_snap(owner, timestamp) {
        lemma_apply_measurement_preserves_wf(m, owner, risk_score, timestamp);
        let snap = RiskSnapshot { owner, risk_score, timestamp };
        let t = m1.snaps;
        let n: int = t.len() - 1;
        assert(t == m.snaps.push(snap));
        assert forall|a: int| 0 <= a < t.len() implies snap_valid(#[trigger] t[a]) by {
            if a < n {
                assert(t[a] == m.snaps[a]);
            } else {
                assert(t[a] == snap);
            }
        }
        assert forall|a: int, b: int|
            #![trigger t[a], t[b]]
            0 <= a < t.len() && 0 <= b < t.len() && t[a].owner == t[b].owner && t[a].timestamp
                == t[b].timestamp implies a == b by {
            if a < n && b == n {
                assert(t[a] == m.snaps[a] && t[b] == snap);
                assert(m.has_snap(owner, timestamp));
            } else if a == n && b < n {
                assert(t[a] == snap && t[b] == m.snaps[b]);
                assert(m.has_snap(owner, timestamp));
            } else if a < n && b < n {
                assert(t[a] == m.snaps[a] && t[b] == m.snaps[b]);
            }
        }
    }
}

/// An owner's preference record is created exactly once: when the owner has
/// no record yet and the threshold is in range, initialization succeeds, and
/// any further initialization for the same owner fails with `AlreadyExists`
/// — whatever its arguments — leaving the store unchanged.
pub proof fn lemma_initialize_succeeds_once(
    m: StoreModel,
    owner: Pubkey,
    t1: u8,
    n1: i64,
    t2: u8,
    n2: i64,
)
    requires
        !m.prefs.dom().contains(owner),
        t1 <= 100,
    ensures
        spec_initialize(m, owner, t1, n1).1 == Ok::<RiskPreference, ErrorCode>(
            fresh_preference(owner, t1, n1),
        ),
        spec_initialize(spec_initialize(m, owner, t1, n1).0, owner, t2, n2).1 == Err::<
            RiskPreference,
            ErrorCode,
        >(ErrorCode::AlreadyExists),
        spec_initialize(spec_initialize(m, owner, t1, n1).0, owner, t2, n2).0 == spec_initialize(
            m,
            owner,
            t1,
            n1,
        ).0,
{
    let m1 = spec_initialize(m, owner, t1, n1).0;
    assert(m1.prefs.dom().contains(owner));
}

/// A threshold outside `[0, 100]` is rejected with `InvalidThreshold` by both
/// initialization (when the owner is still free — otherwise `AlreadyExists`
/// wins) and threshold update, and the store is left unchanged either way.
pub proof fn lemma_invalid_threshold_rejected(
    m: StoreModel,
    owner: Pubkey,
    requester: Pubkey,
    threshold: u8,
    now: i64,
)
    requires
        threshold > 100,
    ensures
        spec_initialize(m, owner, threshold, now).0 == m,
        !m.prefs.dom().contains(owner) ==> spec_initialize(m, owner, threshold, now).1 == Err::<
            RiskPreference,
            ErrorCode,
        >(ErrorCode::InvalidThreshold),
        m.prefs.dom().contains(owner) ==> spec_initialize(m, owner, threshold, now).1 == Err::<
            RiskPreference,
            ErrorCode,
        >(ErrorCode::AlreadyExists),
        spec_update_threshold(m, owner, requester, threshold, now).0 == m,
        spec_update_threshold(m, owner, requester, threshold, now).1 == Err::<
            RiskPreference,
            ErrorCode,
        >(ErrorCode::InvalidThreshold),
{
}

/// A mutation requested by anyone but the record's owner fails with
/// `Unauthorized` and leaves the store — in particular the record's
/// `threshold` and `last_updated` — unchanged. This covers both the
/// threshold update and the measurement write.
pub proof fn lemma_unauthorized_mutation_rejected(
    m: StoreModel,
    owner: Pubkey,
    requester: Pubkey,
    new_threshold: u8,
    risk_score: u8,
    timestamp: i64,
)
    requires
        m.wf(),
        m.prefs.dom().contains(owner),
        requester != owner,
        new_threshold <= 100,
        risk_score <= 100,
    ensures
        spec_update_threshold(m, owner, requester, new_threshold, timestamp).0 == m,
        spec_update_threshold(m, owner, requester, new_threshold, timestamp).1 == Err::<
            RiskPreference,
            ErrorCode,
        >(ErrorCode::Unauthorized),
        spec_record_risk_score(m, owner, requester, risk_score, timestamp).0 == m,
        spec_record_risk_score(m, owner, requester, risk_score, timestamp).1 == Err::<
            (RiskSnapshot, RiskAlertEvent),
            ErrorCode,
        >(ErrorCode::Unauthorized),
{
    assert(m.prefs[owner].owner == owner);
}

/// At most one measurement can occupy a `(owner, timestamp)` slot: once a
/// measurement is recorded there, recording another at the same timestamp
/// fails with `DuplicateSnapshot` — whatever its score — and both the
/// preference record and the first snapshot remain unchanged.
pub proof fn lemma_duplicate_snapshot_rejected(
    m: StoreModel,
    owner: Pubkey,
    s1: u8,
    s2: u8,
    timestamp: i64,
)
    requires
        m.wf(),
        m.prefs.dom().contains(owner),
        s1 <= 100,
        s2 <= 100,
        !m.has_snap(owner, timestamp),
    ensures
        spec_record_risk_score(m, owner, owner, s1, timestamp).1 == Ok::<
            (RiskSnapshot, RiskAlertEvent),
            ErrorCode,
        >(
            (
                RiskSnapshot { owner, risk_score: s1, timestamp },
                RiskAlertEvent {
                    owner,
                    risk_score: s1,
                    threshold: m.prefs[owner].threshold,
                    timestamp,
                },
            ),
        ),
        spec_record_risk_score(spec_record_risk_score(m, owner, owner, s1, timestamp).0, owner, owner, s2, timestamp).0
            == spec_record_risk_score(m, owner, owner, s1, timestamp).0,
        spec_record_risk_score(spec_record_risk_score(m, owner, owner, s1, timestamp).0, owner, owner, s2, timestamp).1
            == Err::<(RiskSnapshot, RiskAlertEvent), ErrorCode>(ErrorCode::DuplicateSnapshot),
{
    assert(m.prefs[owner].owner == owner);
    let m1 = spec_record_risk_score(m, owner, owner, s1, timestamp).0;
    let snap = RiskSnapshot { owner, risk_score: s1, timestamp };
    assert(m1.snaps[m.snaps.len() as int] == snap);
    assert(m1.has_snap(owner, timestamp));
    assert(m1.prefs.dom().contains(owner));
    assert(m1.prefs[owner].owner == owner);
}

/// Measurements at distinct timestamps accumulate: recording at `t1` and
/// then at a later `t2` succeeds both times, both snapshots persist in
/// order, and the preference record caches only the later write while its
/// `owner`, `threshold` and `created_at` stay untouched.
pub proof fn lemma_measurement_history_accumulates(
    m: StoreModel,
    owner: Pubkey,
    s1: u8,
    s2: u8,
    t1: i64,
    t2: i64,
)
    requires
        m.wf(),
        m.prefs.dom().contains(owner),
        s1 <= 100,
        s2 <= 100,
        t1 < t2,
        !m.has_snap(owner, t1),
        !m.has_snap(owner, t2),
    ensures
        ({
            let first = spec_record_risk_score(m, owner, owner, s1, t1);
            let second = spec_record_risk_score(first.0, owner, owner, s2, t2);
            let snap1 = RiskSnapshot { owner, risk_score: s1, timestamp: t1 };
            let snap2 = RiskSnapshot { owner, risk_score: s2, timestamp: t2 };
            &&& first.1 == Ok::<(RiskSnapshot, RiskAlertEvent), ErrorCode>(
                (
                    snap1,
                    RiskAlertEvent {
                        owner,
                        risk_score: s1,
                        threshold: m.prefs[owner].threshold,
                        timestamp: t1,
                    },
                ),
            )
            &&& second.1 == Ok::<(RiskSnapshot, RiskAlertEvent), ErrorCode>(
                (
                    snap2,
                    RiskAlertEvent {
                        owner,
                        risk_score: s2,
                        threshold: m.prefs[owner].threshold,
                        timestamp: t2,
                    },
                ),
            )
            &&& second.0.snaps == m.snaps.push(snap1).push(snap2)
            &&& second.0.snap_at(owner, t1) == Some(snap1)
            &&& second.0.snap_at(owner, t2) == Some(snap2)
            &&& second.0.prefs[owner].last_risk_score == s2
            &&& second.0.prefs[owner].last_updated == t2
            &&& second.0.prefs[owner].owner == owner
            &&& second.0.prefs[owner].threshold == m.prefs[owner].threshold
            &&& second.0.prefs[owner].created_at == m.prefs[owner].created_at
        }),
{
    assert(m.prefs[owner].owner == owner);
    let m1 = spec_record_risk_score(m, owner, owner, s1, t1).0;
    let snap1 = RiskSnapshot { owner, risk_score: s1, timestamp: t1 };
    let snap2 = RiskSnapshot { owner, risk_score: s2, timestamp: t2 };
    lemma_record_preserves_wf(m, owner, owner, s1, t1);
    assert(m1.prefs.dom().contains(owner));
    assert(m1.prefs[owner].owner == owner);
    assert(m1.snaps == m.snaps.push(snap1));
    assert forall|a: int|
        0 <= a < m1.snaps.len() implies !((#[trigger] m1.snaps[a]).owner == owner
        && m1.snaps[a].timestamp == t2) by {
        if a < m.snaps.len() {
            assert(m1.snaps[a] == m.snaps[a]);
            if m.snaps[a].owner == owner && m.snaps[a].timestamp == t2 {
                assert(m.has_snap(owner, t2));
            }
        } else {
            assert(m1.snaps[a] == snap1);
        }
    }
    assert(!m1.has_snap(owner, t2));
    let m2 = spec_record_risk_score(m1, owner, owner, s2, t2).0;
    lemma_record_preserves_wf(m1, owner, owner, s2, t2);
    assert(m2.snaps == m1.snaps.push(snap2));
    lemma_snap_at_is(m2, m.snaps.len() as int, owner, t1);
    lemma_snap_at_is(m2, m.snaps.len() as int + 1, owner, t2);
    assert(m2.snaps[m.snaps.len() as int] == snap1);
    assert(m2.snaps[m.snaps.len() as int + 1] == snap2);
}

/// When the record's threshold is in range, initialization both returns and
/// stores a record that reads back with exactly the requested threshold, a
/// zero last score, and equal creation and update times.
pub proof fn lemma_initialize_round_trip(m: StoreModel, owner: Pubkey, threshold: u8, now: i64)
    requires
        !m.prefs.dom().contains(owner),
        threshold <= 100,
    ensures
        spec_initialize(m, owner, threshold, now).1 == Ok::<RiskPreference, ErrorCode>(
            fresh_preference(owner, threshold, now),
        ),
        spec_initialize(m, owner, threshold, now).0.prefs[owner] == fresh_preference(
            owner,
            threshold,
            now,
        ),
        fresh_preference(owner, threshold, now).threshold == threshold,
        fresh_preference(owner, threshold, now).last_risk_score == 0,
        fresh_preference(owner, threshold, now).created_at == now,
        fresh_preference(owner, threshold, now).last_updated == now,
{
}

/// Two initialization attempts for the same owner, serialized in either
/// order as the concurrency model requires, have exactly one winner: the
/// attempt that runs first succeeds and the other observes `AlreadyExists`.
pub proof fn lemma_concurrent_initialize_one_winner(
    m: StoreModel,
    owner: Pubkey,
    t1: u8,
    n1: i64,
    t2: u8,
    n2: i64,
)
    requires
        !m.prefs.dom().contains(owner),
        t1 <= 100,
        t2 <= 100,
    ensures
        spec_initialize(m, owner, t1, n1).1 == Ok::<RiskPreference, ErrorCode>(
            fresh_preference(owner, t1, n1),
        ),
        spec_initialize(spec_initialize(m, owner, t1, n1).0, owner, t2, n2).1 == Err::<
            RiskPreference,
            ErrorCode,
        >(ErrorCode::AlreadyExists),
        spec_initialize(m, owner, t2, n2).1 == Ok::<RiskPreference, ErrorCode>(
            fresh_preference(owner, t2, n2),
        ),
        spec_initialize(spec_initialize(m, owner, t2, n2).0, owner, t1, n1).1 == Err::<
            RiskPreference,
            ErrorCode,
        >(ErrorCode::AlreadyExists),
{
    lemma_initialize_succeeds_once(m, owner, t1, n1, t2, n2);
    lemma_initialize_succeeds_once(m, owner, t2, n2, t1, n1);
}

} // verus!
