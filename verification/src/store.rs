//! The executable store: one mutable preference record per owner and the
//! append-only snapshot log, together with the operations of the public API.
//!
//! Records are held in plain vectors whose well-formedness invariant keeps
//! each address — `owner` for preferences, `(owner, timestamp)` for
//! snapshots — unique, which makes the vectors a faithful implementation of
//! the keyed record spaces of [`crate::model::StoreModel`]. Every operation
//! is proved to change the abstract state exactly as the corresponding
//! transition function says, so atomicity (all effects or none) holds by
//! construction.

use crate::error::ErrorCode;
use crate::identity::{authorize, Pubkey};
use crate::model::{
    lemma_snap_at_is, spec_apply_measurement, spec_initialize, spec_record_risk_score,
    spec_update_threshold, StoreModel,
};
use crate::records::{pref_valid, snap_valid, RiskAlertEvent, RiskPreference, RiskSnapshot};
use vstd::prelude::*;

verus! {

/// Whether some element of `s` belongs to owner `o`.
pub open spec fn has_owner(s: Seq<RiskPreference>, o: Pubkey) -> bool {
    exists|i: int| 0 <= i < s.len() && (#[trigger] s[i]).owner == o
}

/// The element of `s` belonging to owner `o`; determined when owners are
/// unique and some element matches.
pub open spec fn pref_for(s: Seq<RiskPreference>, o: Pubkey) -> RiskPreference {
    s[choose|i: int| 0 <= i < s.len() && (#[trigger] s[i]).owner == o]
}

/// No two elements of `s` belong to the same owner.
pub open spec fn owners_unique(s: Seq<RiskPreference>) -> bool {
    forall|i: int, j: int|
        #![trigger s[i], s[j]]
        0 <= i < s.len() && 0 <= j < s.len() && s[i].owner == s[j].owner ==> i == j
}

/// The per-owner map that a sequence of uniquely-owned records represents.
pub open spec fn prefs_as_map(s: Seq<RiskPreference>) -> Map<Pubkey, RiskPreference> {
    Map::new(|o: Pubkey| has_owner(s, o), |o: Pubkey| pref_for(s, o))
}

/// The store itself: the single mutable configuration record of each owner,
/// and the immutable measurement history in the order it was written.
pub struct RiskStore {
    preferences: Vec<RiskPreference>,
    snapshots: Vec<RiskSnapshot>,
}

impl View for RiskStore {
    type V = StoreModel;

    closed spec fn view(&self) -> StoreModel {
        StoreModel { prefs: prefs_as_map(self.preferences@), snaps: self.snapshots@ }
    }
}

/// An element with owner `o` at index `i` is the element `pref_for` picks,
/// provided owners are unique.
proof fn lemma_pref_for_is(s: Seq<RiskPreference>, i: int, o: Pubkey)
    requires
        owners_unique(s),
        0 <= i < s.len(),
        s[i].owner == o,
    ensures
        has_owner(s, o),
        pref_for(s, o) == s[i],
{
    assert(has_owner(s, o));
    let j = choose|i: int| 0 <= i < s.len() && (#[trigger] s[i]).owner == o;
    assert(s[j].owner == o);
}

/// Appending a record for a fresh owner keeps owners unique and inserts the
/// record into the represented map.
proof fn lemma_prefs_map_push(s: Seq<RiskPreference>, rec: RiskPreference)
    requires
        owners_unique(s),
        !has_owner(s, rec.owner),
    ensures
        owners_unique(s.push(rec)),
        prefs_as_map(s.push(rec)) == prefs_as_map(s).insert(rec.owner, rec),
{
    let t = s.push(rec);
    assert forall|i: int, j: int|
        #![trigger t[i], t[j]]
        0 <= i < t.len() && 0 <= j < t.len() && t[i].owner == t[j].owner implies i == j by {
        if i < s.len() && j == s.len() {
            assert(t[i] == s[i] && t[j] == rec);
            assert(has_owner(s, rec.owner));
        } else if i == s.len() && j < s.len() {
            assert(t[i] == rec && t[j] == s[j]);
            assert(has_owner(s, rec.owner));
        } else if i < s.len() && j < s.len() {
            assert(t[i] == s[i] && t[j] == s[j]);
        }
    }
    let m1 = prefs_as_map(t);
    let m2 = prefs_as_map(s).insert(rec.owner, rec);
    assert forall|o: Pubkey|
        #![trigger m1.dom().contains(o)]
        #![trigger m2.dom().contains(o)]
        m1.dom().contains(o) <==> m2.dom().contains(o) by {
        if has_owner(t, o) {
            let i = choose|i: int| 0 <= i < t.len() && (#[trigger] t[i]).owner == o;
            if i < s.len() {
                assert(s[i] == t[i]);
                assert(has_owner(s, o));
            } else {
                assert(t[i] == rec);
            }
        }
        if has_owner(s, o) {
            let i = choose|i: int| 0 <= i < s.len() && (#[trigger] s[i]).owner == o;
            assert(t[i] == s[i]);
            assert(has_owner(t, o));
        }
        if o == rec.owner {
            assert(t[s.len() as int] == rec);
            assert(has_owner(t, o));
        }
    }
    assert forall|o: Pubkey| #![trigger m1[o]] m1.dom().contains(o) implies m1[o] == m2[o] by {
        if o == rec.owner {
            lemma_pref_for_is(t, s.len() as int, o);
        } else {
            assert(has_owner(t, o) && m2.dom().contains(o));
            assert(has_owner(s, o));
            let i = choose|i: int| 0 <= i < s.len() && (#[trigger] s[i]).owner == o;
            assert(t[i] == s[i]);
            lemma_pref_for_is(t, i, o);
            lemma_pref_for_is(s, i, o);
        }
    }
    assert(m1 =~= m2);
}

/// Overwriting the record at `i` with one for the same owner keeps owners
/// unique and updates the owner's entry in the represented map.
proof fn lemma_prefs_map_set(s: Seq<RiskPreference>, i: int, rec: RiskPreference)
    requires
        owners_unique(s),
        0 <= i < s.len(),
        rec.owner == s[i].owner,
    ensures
        owners_unique(s.update(i, rec)),
        prefs_as_map(s.update(i, rec)) == prefs_as_map(s).insert(rec.owner, rec),
{
    let t = s.update(i, rec);
    assert forall|a: int, b: int|
        #![trigger t[a], t[b]]
        0 <= a < t.len() && 0 <= b < t.len() && t[a].owner == t[b].owner implies a == b by {
        assert(t[a].owner == s[a].owner && t[b].owner == s[b].owner);
    }
    let m1 = prefs_as_map(t);
    let m2 = prefs_as_map(s).insert(rec.owner, rec);
    assert forall|o: Pubkey|
        #![trigger m1.dom().contains(o)]
        #![trigger m2.dom().contains(o)]
        m1.dom().contains(o) <==> m2.dom().contains(o) by {
        if has_owner(t, o) {
            let a = choose|a: int| 0 <= a < t.len() && (#[trigger] t[a]).owner == o;
            assert(s[a].owner == t[a].owner);
            assert(has_owner(s, o));
        }
        if has_owner(s, o) {
            let a = choose|a: int| 0 <= a < s.len() && (#[trigger] s[a]).owner == o;
            assert(t[a].owner == s[a].owner);
            assert(has_owner(t, o));
        }
    }
    assert forall|o: Pubkey| #![trigger m1[o]] m1.dom().contains(o) implies m1[o] == m2[o] by {
        if o == rec.owner {
            assert(t[i] == rec);
            lemma_pref_for_is(t, i, o);
        } else {
            assert(has_owner(s, o));
            let a = choose|a: int| 0 <= a < s.len() && (#[trigger] s[a]).owner == o;
            assert(a != i);
            assert(t[a] == s[a]);
            lemma_pref_for_is(t, a, o);
            lemma_pref_for_is(s, a, o);
        }
    }
    assert(m1 =~= m2);
}

/// Every entry of the represented map is keyed by its own owner and valid,
/// provided every element of the sequence is valid.
proof fn lemma_prefs_map_valid(s: Seq<RiskPreference>)
    requires
        forall|i: int| 0 <= i < s.len() ==> pref_valid(#[trigger] s[i]),
    ensures
        forall|o: Pubkey|
            #![trigger prefs_as_map(s).dom().contains(o)]
            prefs_as_map(s).dom().contains(o) ==> prefs_as_map(s)[o].owner == o && pref_valid(
                prefs_as_map(s)[o],
            ),
{
    assert forall|o: Pubkey|
        #![trigger prefs_as_map(s).dom().contains(o)]
        prefs_as_map(s).dom().contains(o) implies prefs_as_map(s)[o].owner == o && pref_valid(
        prefs_as_map(s)[o],
    ) by {
        let i = choose|i: int| 0 <= i < s.len() && (#[trigger] s[i]).owner == o;
        assert(prefs_as_map(s)[o] == s[i]);
    }
}

impl RiskStore {
    /// Well-formedness of the representation: unique addresses and in-range
    /// values. Established by [`RiskStore::new`] and preserved by every
    /// operation.
    pub closed spec fn wf(self) -> bool {
        &&& owners_unique(self.preferences@)
        &&& (forall|i: int|
            0 <= i < self.preferences@.len() ==> pref_valid(#[trigger] self.preferences@[i]))
        &&& (forall|i: int|
            0 <= i < self.snapshots@.len() ==> snap_valid(#[trigger] self.snapshots@[i]))
        &&& (forall|i: int, j: int|
            #![trigger self.snapshots@[i], self.snapshots@[j]]
            0 <= i < self.snapshots@.len() && 0 <= j < self.snapshots@.len()
                && self.snapshots@[i].owner == self.snapshots@[j].owner
                && self.snapshots@[i].timestamp == self.snapshots@[j].timestamp ==> i == j)
    }

    /// The empty store.
    pub fn new() -> (r: RiskStore)
        ensures
            r.wf(),
            r@.wf(),
            r@ == StoreModel::empty(),
    {
        let store = RiskStore { preferences: Vec::new(), snapshots: Vec::new() };
        proof {
            assert(store@.prefs =~= StoreModel::empty().prefs);
            assert(store@ =~= StoreModel::empty());
        }
        store
    }

    /// The index of `owner`'s preference record, if one exists.
    fn find_pref(&self, owner: Pubkey) -> (r: Option<usize>)
        ensures
            match r {
                Some(i) => i < self.preferences@.len() && self.preferences@[i as int].owner
                    == owner,
                None => !has_owner(self.preferences@, owner),
            },
    {
        let mut i: usize = 0;
        while i < self.preferences.len()
            invariant
                i <= self.preferences@.len(),
                forall|j: int| 0 <= j < i ==> (#[trigger] self.preferences@[j]).owner != owner,
            decreases self.preferences@.len() - i,
        {
            if self.preferences[i].owner == owner {
                return Some(i);
            }
            i = i + 1;
        }
        None
    }

    /// The index of the snapshot at `(owner, timestamp)`, if one exists.
    fn find_snapshot(&self, owner: Pubkey, timestamp: i64) -> (r: Option<usize>)
        ensures
            match r {
                Some(i) => i < self.snapshots@.len() && self.snapshots@[i as int].owner == owner
                    && self.snapshots@[i as int].timestamp == timestamp,
                None => !self@.has_snap(owner, timestamp),
            },
    {
        let mut i: usize = 0;
        while i < self.snapshots.len()
            invariant
                i <= self.snapshots@.len(),
                forall|j: int|
                    0 <= j < i ==> !((#[trigger] self.snapshots@[j]).owner == owner
                        && self.snapshots@[j].timestamp == timestamp),
            decreases self.snapshots@.len() - i,
        {
            if self.snapshots[i].owner == owner && self.snapshots[i].timestamp == timestamp {
                return Some(i);
            }
            i = i + 1;
        }
        None
    }

    /// Creates `owner`'s preference record at logical time `now`.
    ///
    /// Fails with `AlreadyExists` if the owner already has a record — whatever
    /// the argument — and with `InvalidThreshold` if `threshold` is outside
    /// `[0, 100]`; on either error nothing changes. On success the record
    /// starts with `last_risk_score == 0` and `created_at == last_updated ==
    /// now`, and no other record is touched.
    pub fn initialize_preferences(&mut self, owner: Pubkey, threshold: u8, now: i64) -> (r: Result<
        RiskPreference,
        ErrorCode,
    >)
        requires
            old(self).wf(),
        ensures
            final(self).wf(),
            final(self)@.wf(),
            final(self)@ == spec_initialize(old(self)@, owner, threshold, now).0,
            r == spec_initialize(old(self)@, owner, threshold, now).1,
    {
        proof {
            lemma_prefs_map_valid(self.preferences@);
        }
        if let Some(_) = self.find_pref(owner) {
            proof {
                assert(has_owner(self.preferences@, owner));
            }
            return Err(ErrorCode::AlreadyExists);
        }
        if threshold > 100 {
            return Err(ErrorCode::InvalidThreshold);
        }
        let rec = RiskPreference {
            owner,
            threshold,
            last_risk_score: 0,
            created_at: now,
            last_updated: now,
        };
        proof {
            lemma_prefs_map_push(self.preferences@, rec);
        }
        self.preferences.push(rec);
        proof {
            let t = self.preferences@;
            let n: int = t.len() - 1;
            assert forall|a: int| 0 <= a < t.len() implies pref_valid(#[trigger] t[a]) by {
                if a < n {
                    assert(t[a] == old(self).preferences@[a]);
                } else {
                    assert(t[a] == rec);
                }
            }
            lemma_prefs_map_valid(t);
            assert(self@ =~= spec_initialize(old(self)@, owner, threshold, now).0);
        }
        Ok(rec)
    }

    /// Overwrites the threshold of `owner`'s record on behalf of `requester`.
    ///
    /// Fails with `InvalidThreshold` if `new_threshold` is outside `[0, 100]`,
    /// with `NotFound` if the owner has no record, and with `Unauthorized` if
    /// the requester is not the record's declared owner; on any error nothing
    /// changes. On success only `threshold` and `last_updated` change, and no
    /// other record is touched.
    pub fn update_threshold(
        &mut self,
        owner: Pubkey,
        requester: Pubkey,
        new_threshold: u8,
        now: i64,
    ) -> (r: Result<RiskPreference, ErrorCode>)
        requires
            old(self).wf(),
        ensures
            final(self).wf(),
            final(self)@.wf(),
            final(self)@ == spec_update_threshold(
                old(self)@,
                owner,
                requester,
                new_threshold,
                now,
            ).0,
            r == spec_update_threshold(old(self)@, owner, requester, new_threshold, now).1,
    {
        proof {
            lemma_prefs_map_valid(self.preferences@);
        }
        if new_threshold > 100 {
            return Err(ErrorCode::InvalidThreshold);
        }
        let i = match self.find_pref(owner) {
            None => {
                return Err(ErrorCode::NotFound);
            },
            Some(i) => i,
        };
        let current = self.preferences[i];
        proof {
            lemma_pref_for_is(self.preferences@, i as int, owner);
        }
        if let Err(e) = authorize(current.owner, requester) {
            return Err(e);
        }
        let rec = RiskPreference {
            owner: current.owner,
            threshold: new_threshold,
            last_risk_score: current.last_risk_score,
            created_at: current.created_at,
            last_updated: now,
        };
        proof {
            lemma_prefs_map_set(self.preferences@, i as int, rec);
        }
        self.preferences[i] = rec;
        proof {
            let t = self.preferences@;
            assert forall|a: int| 0 <= a < t.len() implies pref_valid(#[trigger] t[a]) by {
                if a != i as int {
                    assert(t[a] == old(self).preferences@[a]);
                } else {
                    assert(t[a] == rec);
                }
            }
            lemma_prefs_map_valid(t);
            assert(self@ =~= spec_update_threshold(
                old(self)@,
                owner,
                requester,
                new_threshold,
                now,
            ).0);
        }
        Ok(rec)
    }

    /// Refreshes the cached last score of `owner`'s record. Part of a
    /// measurement write; [`RiskStore::record_risk_score`] is the public way
    /// in, which is why this stays crate-private.
    pub(crate) fn apply_measurement(&mut self, owner: Pubkey, new_score: u8, now: i64) -> (r:
        Result<RiskPreference, ErrorCode>)
        requires
            old(self).wf(),
        ensures
            final(self).wf(),
            final(self)@.wf(),
            final(self)@ == spec_apply_measurement(old(self)@, owner, new_score, now).0,
            r == spec_apply_measurement(old(self)@, owner, new_score, now).1,
    {
        proof {
            lemma_prefs_map_valid(self.preferences@);
        }
        if new_score > 100 {
            return Err(ErrorCode::InvalidRiskScore);
        }
        let i = match self.find_pref(owner) {
            None => {
                return Err(ErrorCode::NotFound);
            },
            Some(i) => i,
        };
        let current = self.preferences[i];
        proof {
            lemma_pref_for_is(self.preferences@, i as int, owner);
        }
        let rec = RiskPreference {
            owner: current.owner,
            threshold: current.threshold,
            last_risk_score: new_score,
            created_at: current.created_at,
            last_updated: now,
        };
        proof {
            lemma_prefs_map_set(self.preferences@, i as int, rec);
        }
        self.preferences[i] = rec;
        proof {
            let t = self.preferences@;
            assert forall|a: int| 0 <= a < t.len() implies pref_valid(#[trigger] t[a]) by {
                if a != i as int {
                    assert(t[a] == old(self).preferences@[a]);
                } else {
                    assert(t[a] == rec);
                }
            }
            lemma_prefs_map_valid(t);
            assert(self@ =~= spec_apply_measurement(old(self)@, owner, new_score, now).0);
        }
        Ok(rec)
    }

    /// Records one measurement for `owner` on behalf of `requester`:
    /// atomically refreshes the owner's cached score, appends the immutable
    /// snapshot at `(owner, timestamp)`, and returns it together with the
    /// alert event to publish.
    ///
    /// Fails with `InvalidRiskScore` if the score is outside `[0, 100]`, with
    /// `NotFound` if the owner has no preference record, with `Unauthorized`
    /// if the requester is not the record's declared owner, and with
    /// `DuplicateSnapshot` if the `(owner, timestamp)` slot is already taken;
    /// on any error nothing changes. The event is returned on every
    /// successful write, whether or not the score exceeds the threshold.
    pub fn record_risk_score(
        &mut self,
        owner: Pubkey,
        requester: Pubkey,
        risk_score: u8,
        timestamp: i64,
    ) -> (r: Result<(RiskSnapshot, RiskAlertEvent), ErrorCode>)
        requires
            old(self).wf(),
        ensures
            final(self).wf(),
            final(self)@.wf(),
            final(self)@ == spec_record_risk_score(
                old(self)@,
                owner,
                requester,
                risk_score,
                timestamp,
            ).0,
            r == spec_record_risk_score(old(self)@, owner, requester, risk_score, timestamp).1,
    {
        proof {
            lemma_prefs_map_valid(self.preferences@);
        }
        if risk_score > 100 {
            return Err(ErrorCode::InvalidRiskScore);
        }
        let i = match self.find_pref(owner) {
            None => {
                return Err(ErrorCode::NotFound);
            },
            Some(i) => i,
        };
        let current = self.preferences[i];
        proof {
            lemma_pref_for_is(self.preferences@, i as int, owner);
        }
        if let Err(e) = authorize(current.owner, requester) {
            return Err(e);
        }
        if let Some(_) = self.find_snapshot(owner, timestamp) {
            proof {
                assert(self@.has_snap(owner, timestamp));
            }
            return Err(ErrorCode::DuplicateSnapshot);
        }
        let updated = match self.apply_measurement(owner, risk_score, timestamp) {
            Ok(p) => p,
            Err(e) => {
                proof {
                    assert(false);
                }
                return Err(e);
            },
        };
        let snap = RiskSnapshot { owner, risk_score, timestamp };
        let event = RiskAlertEvent { owner, risk_score, threshold: updated.threshold, timestamp };
        self.snapshots.push(snap);
        proof {
            let t = self.snapshots@;
            let n: int = t.len() - 1;
            assert(t == old(self)@.snaps.push(snap));
            assert forall|a: int| 0 <= a < t.len() implies snap_valid(#[trigger] t[a]) by {
                if a < n {
                    assert(t[a] == old(self)@.snaps[a]);
                } else {
                    assert(t[a] == snap);
                }
            }
            assert forall|a: int, b: int|
                #![trigger t[a], t[b]]
                0 <= a < t.len() && 0 <= b < t.len() && t[a].owner == t[b].owner
                    && t[a].timestamp == t[b].timestamp implies a == b by {
                if a < n && b == n {
                    assert(t[a] == old(self)@.snaps[a] && t[b] == snap);
                    assert(old(self)@.has_snap(owner, timestamp));
                } else if a == n && b < n {
                    assert(t[a] == snap && t[b] == old(self)@.snaps[b]);
                    assert(old(self)@.has_snap(owner, timestamp));
                } else if a < n && b < n {
                    assert(t[a] == old(self)@.snaps[a] && t[b] == old(self)@.snaps[b]);
                }
            }
            assert(self@ =~= spec_record_risk_score(
                old(self)@,
                owner,
                requester,
                risk_score,
                timestamp,
            ).0);
        }
        Ok((snap, event))
    }

    /// Reads `owner`'s preference record, if one exists. No side effects.
    pub fn get_preference(&self, owner: Pubkey) -> (r: Option<RiskPreference>)
        requires
            self.wf(),
        ensures
            r == (if self@.prefs.dom().contains(owner) {
                Some(self@.prefs[owner])
            } else {
                None::<RiskPreference>
            }),
    {
        match self.find_pref(owner) {
            Some(i) => {
                let p = self.preferences[i];
                proof {
                    lemma_pref_for_is(self.preferences@, i as int, owner);
                }
                Some(p)
            },
            None => None,
        }
    }

    /// Reads the snapshot at `(owner, timestamp)`, if one exists. No side
    /// effects.
    pub fn get_snapshot(&self, owner: Pubkey, timestamp: i64) -> (r: Option<RiskSnapshot>)
        requires
            self.wf(),
        ensures
            r == self@.snap_at(owner, timestamp),
    {
        match self.find_snapshot(owner, timestamp) {
            Some(i) => {
                let s = self.snapshots[i];
                proof {
                    lemma_prefs_map_valid(self.preferences@);
                    assert(self@.wf());
                    lemma_snap_at_is(self@, i as int, owner, timestamp);
                }
                Some(s)
            },
            None => None,
        }
    }

    /// The number of snapshots recorded so far, over all owners.
    pub fn snapshot_count(&self) -> (r: usize)
        ensures
            r == self@.snaps.len(),
    {
        self.snapshots.len()
    }
}

} // verus!
