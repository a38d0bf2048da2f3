use vstd::prelude::*;

verus! {

/// A handler that sends a welcome email when a user has been created.
pub struct SendEmailOnUserCreated;

} // verus!
