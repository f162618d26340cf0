//! Identities and the authorization guard.
//!
//! An identity is an opaque fixed-size key; the core only ever compares two
//! identities for bit-equality. Authorization is a pure, stateless predicate:
//! an operation on an existing record is allowed exactly when the requester
//! is bit-equal to the record's declared owner.

use crate::error::ErrorCode;
use vstd::prelude::*;

verus! {

/// An opaque identity key. The core never inspects it beyond comparing two
/// keys for equality, so it is modelled as a single opaque machine word.
#[derive(Clone, Copy, Debug, PartialEq, Eq, Hash, Structural)]
pub struct Pubkey {
    pub id: u64,
}

impl Pubkey {
    /// Builds a key from its raw value.
    pub fn new(id: u64) -> (r: Pubkey)
        ensures
            r == (Pubkey { id }),
    {
        Pubkey { id }
    }
}

/// The authorization guard: succeeds exactly when the requester is the
/// record's declared owner, with no side effect.
pub fn authorize(record_owner: Pubkey, requester: Pubkey) -> (r: Result<(), ErrorCode>)
    ensures
        record_owner == requester ==> r == Ok::<(), ErrorCode>(()),
        record_owner != requester ==> r == Err::<(), ErrorCode>(ErrorCode::Unauthorized),
{
    if record_owner == requester {
        Ok(())
    } else {
        Err(ErrorCode::Unauthorized)
    }
}

} // verus!
