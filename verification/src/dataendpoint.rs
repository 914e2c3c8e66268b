//! Mapping an incoming action number to the request body for the backend.
use vstd::prelude::*;
use crate::error::CliError;
use crate::types::{Action, ProvAcionRequest, action_from_code, action_name};

verus! {

/// Maps the action number of a provisioning request to the body that is sent
/// to the backend. Only the known action numbers are accepted.
pub fn action_mapper(action: i32) -> (r: Result<ProvAcionRequest, CliError>)
    requires
        action_from_code(action) is Some,
    ensures
        r matches Ok(p) && p.action@ == action_name(action_from_code(action)->0),
{
    let a: Action = if action == 0 {
        Action::Retry
    } else {
        Action::ManualComplete
    };
    Ok(ProvAcionRequest { action: a.to_string() })
}

/// Decides whether an action number is known, so that `action_mapper`
/// accepts it.
pub fn is_known_action(action: i32) -> (b: bool)
    ensures
        b == (action_from_code(action) is Some),
{
    action == 0 || action == 1
}

} // verus!
