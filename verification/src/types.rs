//! The provisioning actions that a request can ask for.
use vstd::prelude::*;
use vstd::std_specs::convert::TryFromSpecImpl;
use vstd::string::*;

verus! {

/// The body sent to the backend for a provisioning action.
#[derive(Debug, Clone)]
pub struct ProvAcionRequest {
    pub action: String,
}

/// An action on a provisioning task.
#[derive(Debug, Clone, Copy, PartialEq, Eq, Structural)]
pub enum Action {
    Retry,
    ManualComplete,
}

/// The wire number of an action (its position in the enum).
pub open spec fn action_code(a: Action) -> i32 {
    match a {
        Action::Retry => 0,
        Action::ManualComplete => 1,
    }
}

/// The action with wire number `v`, if there is one.
pub open spec fn action_from_code(v: i32) -> Option<Action> {
    if v == 0 {
        Some(Action::Retry)
    } else if v == 1 {
        Some(Action::ManualComplete)
    } else {
        None
    }
}

/// The name of an action: its variant name in lower case.
pub open spec fn action_name(a: Action) -> Seq<char> {
    match a {
        Action::Retry => "retry"@,
        Action::ManualComplete => "manualcomplete"@,
    }
}

impl Action {
    /// The action's name, as its `Display` gives it (`retry`, `manualcomplete`).
    pub fn to_string(&self) -> (s: String)
        ensures
            s@ == action_name(*self),
    {
        match self {
            Action::Retry => String::from_str("retry"),
            Action::ManualComplete => String::from_str("manualcomplete"),
        }
    }

    /// The action's wire number.
    pub fn code(&self) -> (c: i32)
        ensures
            c == action_code(*self),
    {
        match self {
            Action::Retry => 0,
            Action::ManualComplete => 1,
        }
    }
}

impl TryFrom<i32> for Action {
    type Error = ();

    fn try_from(v: i32) -> (r: Result<Self, Self::Error>) {
        if v == 0 {
            Ok(Action::Retry)
        } else if v == 1 {
            Ok(Action::ManualComplete)
        } else {
            Err(())
        }
    }
}

impl TryFromSpecImpl<i32> for Action {
    open spec fn obeys_try_from_spec() -> bool {
        true
    }

    open spec fn try_from_spec(v: i32) -> Result<Self, Self::Error> {
        match action_from_code(v) {
            Some(a) => Ok(a),
            None => Err(()),
        }
    }
}

/// Reading back an action's wire number gives the action again, and no other
/// number gives an action.
pub proof fn action_code_round_trip(a: Action, v: i32)
    ensures
        action_from_code(action_code(a)) == Some(a),
        action_from_code(v) matches Some(b) ==> action_code(b) == v,
{
}

/// Distinct actions have distinct names.
pub proof fn action_names_distinct(a: Action, b: Action)
    ensures
        action_name(a) == action_name(b) ==> a == b,
{
    reveal_strlit("retry");
    reveal_strlit("manualcomplete");
    if a != b {
        assert(action_name(a).len() != action_name(b).len());
    }
}

} // verus!
