//! The mathematical model of the store and the transition functions that the
//! executable operations are proved to follow.
//!
//! A store is a map from owner to preference record together with the
//! chronological sequence of snapshots taken so far. Each transition returns
//! the successor state and the operation's result; on any error the state is
//! returned unchanged, so every operation is atomic by construction.

use crate::error::ErrorCode;
use crate::identity::Pubkey;
use crate::records::{pref_valid, snap_valid, RiskAlertEvent, RiskPreference, RiskSnapshot};
use vstd::prelude::*;

verus! {

/// The abstract state of the store: the per-owner configuration records and
/// the append-only measurement history, oldest first.
#[verifier::ext_equal]
pub struct StoreModel {
    pub prefs: Map<Pubkey, RiskPreference>,
    pub snaps: Seq<RiskSnapshot>,
}

impl StoreModel {
    /// The store with no records at all.
    pub open spec fn empty() -> StoreModel {
        StoreModel { prefs: Map::empty(), snaps: Seq::empty() }
    }

    /// Well-formedness: every preference record is keyed by its own owner and
    /// in range, every snapshot is in range, and no two snapshots share an
    /// `(owner, timestamp)` address.
    pub open spec fn wf(self) -> bool {
        &&& (forall|o: Pubkey|
            #[trigger] self.prefs.dom().contains(o) ==> self.prefs[o].owner == o
                && pref_valid(self.prefs[o]))
        &&& (forall|i: int| 0 <= i < self.snaps.len() ==> snap_valid(#[trigger] self.snaps[i]))
        &&& (forall|i: int, j: int|
            #![trigger self.snaps[i], self.snaps[j]]
            0 <= i < self.snaps.len() && 0 <= j < self.snaps.len()
                && self.snaps[i].owner == self.snaps[j].owner
                && self.snaps[i].timestamp == self.snaps[j].timestamp ==> i == j)
    }

    /// Whether some snapshot already occupies the `(owner, timestamp)` slot.
    pub open spec fn has_snap(self, owner: Pubkey, timestamp: i64) -> bool {
        exists|i: int|
            0 <= i < self.snaps.len() && (#[trigger] self.snaps[i]).owner == owner
                && self.snaps[i].timestamp == timestamp
    }

    /// The snapshot stored at `(owner, timestamp)`, if any. Under `wf` the
    /// slot holds at most one snapshot, so the value is determined.
    pub open spec fn snap_at(self, owner: Pubkey, timestamp: i64) -> Option<RiskSnapshot> {
        if self.has_snap(owner, timestamp) {
            Some(
                self.snaps[
                    choose|i: int|
                        0 <= i < self.snaps.len() && (#[trigger] self.snaps[i]).owner == owner
                            && self.snaps[i].timestamp == timestamp
                ],
            )
        } else {
            None
        }
    }
}

/// A snapshot with matching address at index `i` is the one `snap_at`
/// returns: under `wf` the `(owner, timestamp)` slot holds at most one
/// snapshot.
pub proof fn lemma_snap_at_is(m: StoreModel, i: int, owner: Pubkey, timestamp: i64)
    requires
        m.wf(),
        0 <= i < m.snaps.len(),
        m.snaps[i].owner == owner,
        m.snaps[i].timestamp == timestamp,
    ensures
        m.has_snap(owner, timestamp),
        m.snap_at(owner, timestamp) == Some(m.snaps[i]),
{
    assert(m.has_snap(owner, timestamp));
    let j = choose|i: int|
        0 <= i < m.snaps.len() && (#[trigger] m.snaps[i]).owner == owner
            && m.snaps[i].timestamp == timestamp;
    assert(m.snaps[j].owner == owner && m.snaps[j].timestamp == timestamp);
}

/// The preference record created for `owner` at logical time `now`.
pub open spec fn fresh_preference(owner: Pubkey, threshold: u8, now: i64) -> RiskPreference {
    RiskPreference { owner, threshold, last_risk_score: 0, created_at: now, last_updated: now }
}

/// Creation of an owner's preference record.
///
/// Re-initialization is rejected, whatever the argument, so that an owner's
/// history can never be silently reset; only then is the threshold range
/// checked. On success the record starts with `last_risk_score == 0` and
/// `created_at == last_updated == now`.
pub open spec fn spec_initialize(
    m: StoreModel,
    owner: Pubkey,
    threshold: u8,
    now: i64,
) -> (StoreModel, Result<RiskPreference, ErrorCode>) {
    if m.prefs.dom().contains(owner) {
        (m, Err(ErrorCode::AlreadyExists))
    } else if threshold > 100 {
        (m, Err(ErrorCode::InvalidThreshold))
    } else {
        let rec = fresh_preference(owner, threshold, now);
        (StoreModel { prefs: m.prefs.insert(owner, rec), ..m }, Ok(rec))
    }
}

/// Owner-gated change of the configured threshold.
///
/// The argument range is checked first, then the record's existence, then
/// authorization against the record's declared owner. On success only
/// `threshold` and `last_updated` change.
pub open spec fn spec_update_threshold(
    m: StoreModel,
    owner: Pubkey,
    requester: Pubkey,
    new_threshold: u8,
    now: i64,
) -> (StoreModel, Result<RiskPreference, ErrorCode>) {
    if new_threshold > 100 {
        (m, Err(ErrorCode::InvalidThreshold))
    } else if !m.prefs.dom().contains(owner) {
        (m, Err(ErrorCode::NotFound))
    } else if requester != m.prefs[owner].owner {
        (m, Err(ErrorCode::Unauthorized))
    } else {
        let rec = RiskPreference { threshold: new_threshold, last_updated: now, ..m.prefs[owner] };
        (StoreModel { prefs: m.prefs.insert(owner, rec), ..m }, Ok(rec))
    }
}

/// Update of the cached last score on a measurement write. Invoked from
/// `spec_record_risk_score`, never as a public operation of its own. On
/// success only `last_risk_score` and `last_updated` change.
pub open spec fn spec_apply_measurement(
    m: StoreModel,
    owner: Pubkey,
    new_score: u8,
    now: i64,
) -> (StoreModel, Result<RiskPreference, ErrorCode>) {
    if new_score > 100 {
        (m, Err(ErrorCode::InvalidRiskScore))
    } else if !m.prefs.dom().contains(owner) {
        (m, Err(ErrorCode::NotFound))
    } else {
        let rec = RiskPreference { last_risk_score: new_score, last_updated: now, ..m.prefs[owner] };
        (StoreModel { prefs: m.prefs.insert(owner, rec), ..m }, Ok(rec))
    }
}

/// Recording of one measurement: atomically refreshes the owner's cached
/// score, appends an immutable snapshot at `(owner, timestamp)`, and emits an
/// alert event carrying the owner's current threshold.
///
/// The score range is checked first, then the preference record's existence,
/// then authorization, then snapshot-slot freshness; on any error the state
/// is unchanged. The event is emitted on every successful write, whether or
/// not the score exceeds the threshold.
pub open spec fn spec_record_risk_score(
    m: StoreModel,
    owner: Pubkey,
    requester: Pubkey,
    risk_score: u8,
    timestamp: i64,
) -> (StoreModel, Result<(RiskSnapshot, RiskAlertEvent), ErrorCode>) {
    if risk_score > 100 {
        (m, Err(ErrorCode::InvalidRiskScore))
    } else if !m.prefs.dom().contains(owner) {
        (m, Err(ErrorCode::NotFound))
    } else if requester != m.prefs[owner].owner {
        (m, Err(ErrorCode::Unauthorized))
    } else if m.has_snap(owner, timestamp) {
        (m, Err(ErrorCode::DuplicateSnapshot))
    } else {
        let m1 = spec_apply_measurement(m, owner, risk_score, timestamp).0;
        let snap = RiskSnapshot { owner, risk_score, timestamp };
        let event = RiskAlertEvent {
            owner,
            risk_score,
            threshold: m1.prefs[owner].threshold,
            timestamp,
        };
        (StoreModel { snaps: m1.snaps.push(snap), ..m1 }, Ok((snap, event)))
    }
}

} // verus!
