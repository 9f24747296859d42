//! The blocking flag: a two-valued tag telling whether the proxy's
//! content-blocking feature is active, and its JSON wire form.

use vstd::prelude::*;
use vstd::string::StringExecFns;

verus! {

/// Whether the proxy's content blocking is currently active.
/// Exactly these two values are representable at the API boundary.
#[derive(Clone, Copy, Debug, PartialEq, Eq, Structural)]
pub enum BlockingState {
    Enabled,
    Disabled,
}

/// The name of a state as it appears on the wire: `Enabled` or `Disabled`.
pub open spec fn spec_state_name(s: BlockingState) -> Seq<char> {
    match s {
        BlockingState::Enabled => "Enabled"@,
        BlockingState::Disabled => "Disabled"@,
    }
}

/// The JSON body that reports or echoes a blocking state.
pub open spec fn spec_blocking_json(s: BlockingState) -> Seq<char> {
    match s {
        BlockingState::Enabled => "{\"state\":\"Enabled\"}"@,
        BlockingState::Disabled => "{\"state\":\"Disabled\"}"@,
    }
}

/// The state denoted by a wire name, if any: only the exact strings
/// `Enabled` and `Disabled` denote a state.
pub open spec fn spec_state_from_name(n: Seq<char>) -> Option<BlockingState> {
    if n == "Enabled"@ {
        Some(BlockingState::Enabled)
    } else if n == "Disabled"@ {
        Some(BlockingState::Disabled)
    } else {
        None
    }
}

impl BlockingState {
    /// The store keeps the flag as a boolean; `true` means blocking is enabled.
    pub fn from_enabled(enabled: bool) -> (r: BlockingState)
        ensures
            r == (if enabled {
                BlockingState::Enabled
            } else {
                BlockingState::Disabled
            }),
    {
        if enabled {
            BlockingState::Enabled
        } else {
            BlockingState::Disabled
        }
    }

    /// The boolean the store expects for this state.
    pub fn to_enabled(self) -> (r: bool)
        ensures
            r == (self == BlockingState::Enabled),
    {
        match self {
            BlockingState::Enabled => true,
            BlockingState::Disabled => false,
        }
    }

    /// The wire name of this state.
    pub fn name(self) -> (r: String)
        ensures
            r@ == spec_state_name(self),
    {
        match self {
            BlockingState::Enabled => String::from_str("Enabled"),
            BlockingState::Disabled => String::from_str("Disabled"),
        }
    }
}

/// The JSON body `{"state":"Enabled"}` or `{"state":"Disabled"}` reporting
/// or echoing a blocking state.
pub fn blocking_state_json(s: BlockingState) -> (r: String)
    ensures
        r@ == spec_blocking_json(s),
{
    match s {
        BlockingState::Enabled => String::from_str("{\"state\":\"Enabled\"}"),
        BlockingState::Disabled => String::from_str("{\"state\":\"Disabled\"}"),
    }
}

/// The state named by `name`, or `None` for any other string.
pub fn state_from_name(name: &str) -> (r: Option<BlockingState>)
    ensures
        r == spec_state_from_name(name@),
{
    let n = String::from_str(name);
    if n == String::from_str("Enabled") {
        Some(BlockingState::Enabled)
    } else if n == String::from_str("Disabled") {
        Some(BlockingState::Disabled)
    } else {
        None
    }
}

/// Reading a state's wire name back gives the same state: the two names
/// are distinct and each denotes exactly its own state.
pub proof fn lemma_state_name_round_trip(s: BlockingState)
    ensures
        spec_state_from_name(spec_state_name(s)) == Some(s),
{
    reveal_strlit("Enabled");
    reveal_strlit("Disabled");
    assert("Enabled"@.len() == 7);
    assert("Disabled"@.len() == 8);
}

} // verus!
