//! What the engine asks of a policy: given a state, where should the
//! player go?

use vstd::prelude::*;
use crate::entity::{Player, PlayerView};
use crate::rules::Rules;
use crate::state::{GameState, StateView};

verus! {

/// A way of deciding where the player goes. The engine does not know how a
/// policy decides; it asks only that the same state gets the same answer,
/// and that the answer lies on the map.
pub trait Policy {
    /// The destination and the label that the policy chooses in `state`.
    spec fn choice(&self, state: StateView, rules: Rules) -> PlayerView;

    /// Chooses a destination and a label for the player.
    fn decide(&self, state: &GameState, rules: &Rules) -> (p: Player)
        requires
            rules.wf(),
            state.wf(*rules),
        ensures
            p@ == self.choice(state@, *rules),
            rules.on_map(p.pos),
    ;
}

impl StateView {
    /// The state one turn later under `policy`: targeting is worked out
    /// afresh, the policy chooses, and the turn is played.
    pub open spec fn stepped<P: Policy>(self, policy: &P, rules: Rules) -> StateView {
        let fresh = self.resolved();
        fresh.advanced(policy.choice(fresh, rules), rules)
    }
}

} // verus!
