//! The identity that a successful authentication yields.

use vstd::prelude::*;
use vstd::slice::slice_to_vec;

verus! {

/// The verified identity of a caller: who it is, and until when that holds.
///
/// A principal belongs to the request or the session it was established for
/// and has no life beyond it.
#[derive(Debug, PartialEq, Eq)]
pub struct Principal {
    /// The subject identifier, as opaque bytes.
    pub subject: Vec<u8>,
    /// The second after which the identity no longer holds, if there is one.
    pub expires_at: Option<i64>,
}

/// The mathematical form of a [`Principal`].
pub struct PrincipalView {
    pub subject: Seq<u8>,
    pub expires_at: Option<i64>,
}

impl View for Principal {
    type V = PrincipalView;

    open spec fn view(&self) -> PrincipalView {
        PrincipalView { subject: self.subject@, expires_at: self.expires_at }
    }
}

impl Clone for Principal {
    fn clone(&self) -> (copy: Principal)
        ensures
            copy@ == self@,
    {
        Principal { subject: slice_to_vec(self.subject.as_slice()), expires_at: self.expires_at }
    }
}

impl Principal {
    /// The principal with the given subject and no expiry.
    pub fn new(subject: &[u8]) -> (principal: Principal)
        ensures
            principal@ == (PrincipalView { subject: subject@, expires_at: None }),
    {
        Principal { subject: slice_to_vec(subject), expires_at: None }
    }
}

/// An outcome of authentication, as a mathematical value.
pub open spec fn outcome_view<E>(outcome: Result<Principal, E>) -> Result<PrincipalView, E> {
    match outcome {
        Ok(principal) => Ok(principal@),
        Err(e) => Err(e),
    }
}

} // verus!
