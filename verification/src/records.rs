//! The three record shapes the core works with, and their validity
//! predicates.

use crate::identity::Pubkey;
use vstd::prelude::*;

verus! {

/// The single mutable configuration record of one owning identity.
///
/// Exactly one exists per owner; it is created once, mutated only by its
/// owner, and never deleted.
#[derive(Clone, Copy, Debug, PartialEq, Eq, Structural)]
pub struct RiskPreference {
    /// The owning identity; immutable after creation.
    pub owner: Pubkey,
    /// Risk-score percentage above which an alert is actionable; in `[0, 100]`.
    pub threshold: u8,
    /// The most recently recorded risk score; in `[0, 100]`, initially 0.
    pub last_risk_score: u8,
    /// Logical time at which the record was created.
    pub created_at: i64,
    /// Logical time of the most recent mutation.
    pub last_updated: i64,
}

/// One immutable measurement. Together, `(owner, timestamp)` form its unique
/// address; a second measurement for the same address is rejected rather than
/// overwritten.
#[derive(Clone, Copy, Debug, PartialEq, Eq, Structural)]
pub struct RiskSnapshot {
    /// The owning identity, copied from the preference record.
    pub owner: Pubkey,
    /// The measured risk score; in `[0, 100]`.
    pub risk_score: u8,
    /// Logical time of the measurement; part of the record's address.
    pub timestamp: i64,
}

/// A transient notification emitted on every recorded measurement. It is not
/// persisted; the threshold is carried as context for the observer, and
/// emission does not depend on whether the score exceeds it.
#[derive(Clone, Copy, Debug, PartialEq, Eq, Structural)]
pub struct RiskAlertEvent {
    pub owner: Pubkey,
    pub risk_score: u8,
    /// The owner's threshold at the time of the write.
    pub threshold: u8,
    pub timestamp: i64,
}

/// Range invariant of a preference record: both percentages lie in `[0, 100]`.
pub open spec fn pref_valid(p: RiskPreference) -> bool {
    p.threshold <= 100 && p.last_risk_score <= 100
}

/// Range invariant of a snapshot: the score lies in `[0, 100]`.
pub open spec fn snap_valid(s: RiskSnapshot) -> bool {
    s.risk_score <= 100
}

} // verus!
