//! Supervisor-call ABI.
//!
//! A synchronous trap carries a service id and up to three word-sized
//! arguments and returns one word-sized result. The core's contract
//! with the dispatch stub is only this ABI; the service table itself is
//! an extensibility point with no functional handlers yet. What the
//! kernel decides — which word encodes which service, and which words
//! decode at all — is pinned down here; moving the words through the
//! trap is the firmware's job.

use vstd::prelude::*;

verus! {

/// The services the supervisor call can name.
#[derive(Clone, Copy, PartialEq, Eq, Structural, Debug)]
pub enum SysCall {
    /// Allocate memory on behalf of unprivileged code.
    ALLOC,
    /// Free memory on behalf of unprivileged code.
    FREE,
}

/// The word encoding of each service.
pub open spec fn spec_service_id(s: SysCall) -> usize {
    match s {
        SysCall::ALLOC => 0,
        SysCall::FREE => 1,
    }
}

/// Encodes a service as the word passed in the first trap register.
pub fn service_id(s: SysCall) -> (r: usize)
    ensures
        r == spec_service_id(s),
{
    match s {
        SysCall::ALLOC => 0,
        SysCall::FREE => 1,
    }
}

/// Decodes the word found in the first trap register back into a
/// service; words naming no service are rejected.
pub fn decode_service(id: usize) -> (r: Option<SysCall>)
    ensures
        id == 0 ==> r == Some(SysCall::ALLOC),
        id == 1 ==> r == Some(SysCall::FREE),
        id >= 2 ==> r is None,
{
    if id == 0 {
        Some(SysCall::ALLOC)
    } else if id == 1 {
        Some(SysCall::FREE)
    } else {
        None
    }
}

/// Round trip of the ABI: every service decodes back from its own
/// encoding.
pub proof fn lemma_service_id_round_trip(s: SysCall)
    ensures
        spec_service_id(s) == 0 ==> s == SysCall::ALLOC,
        spec_service_id(s) == 1 ==> s == SysCall::FREE,
{
}

} // verus!
