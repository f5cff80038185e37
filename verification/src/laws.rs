//! What holds of the engine as a whole: of scores over the turns, of the
//! search on games that are over, and of the search over a single policy.

use vstd::prelude::*;
use crate::entity::PlayerView;
use crate::policy::Policy;
use crate::rules::Rules;
use crate::search::{
    best_below, first_move, first_move_value, is_best_first_move, leader, leaf_value, tree_value,
    LOST,
};
use crate::state::StateView;

verus! {

/// The state after `n` turns under `policy`.
pub open spec fn after_turns<P: Policy>(s: StateView, policy: &P, rules: Rules, n: nat) -> StateView
    decreases n,
{
    if n == 0 {
        s
    } else {
        after_turns(s, policy, rules, (n - 1) as nat).stepped(policy, rules)
    }
}

/// The state reached by playing `policy` until the game is over, but for
/// `n` turns at most.
pub open spec fn played_out<P: Policy>(s: StateView, policy: &P, rules: Rules, n: nat) -> StateView
    decreases n,
{
    if s.ended() || n == 0 {
        s
    } else {
        played_out(s.stepped(policy, rules), policy, rules, (n - 1) as nat)
    }
}

/// A turn never lowers the score, wherever the player heads.
pub proof fn lemma_turn_keeps_score(s: StateView, choice: PlayerView, rules: Rules)
    ensures
        s.advanced(choice, rules).score >= s.score,
        s.resolved().score == s.score,
{
}

/// The score never drops from one turn to a later one.
pub proof fn lemma_score_never_drops<P: Policy>(
    s: StateView,
    policy: &P,
    rules: Rules,
    m: nat,
    n: nat,
)
    requires
        m <= n,
    ensures
        after_turns(s, policy, rules, m).score <= after_turns(s, policy, rules, n).score,
    decreases n - m,
{
    if m < n {
        lemma_score_never_drops(s, policy, rules, m, (n - 1) as nat);
        let before = after_turns(s, policy, rules, (n - 1) as nat);
        let fresh = before.resolved();
        lemma_turn_keeps_score(fresh, policy.choice(fresh, rules), rules);
    }
}

/// Playing a game out never lowers the score.
pub proof fn lemma_played_out_score<P: Policy>(s: StateView, policy: &P, rules: Rules, n: nat)
    ensures
        played_out(s, policy, rules, n).score >= s.score,
    decreases n,
{
    if !(s.ended() || n == 0) {
        let fresh = s.resolved();
        lemma_turn_keeps_score(fresh, policy.choice(fresh, rules), rules);
        lemma_played_out_score(s.stepped(policy, rules), policy, rules, (n - 1) as nat);
    }
}

/// A game that is over is worth the same however far the search may still
/// look: nothing if no human is left, and its score if humans are left and
/// no zombie is.
pub proof fn lemma_terminal<P: Policy>(policies: Seq<P>, s: StateView, depth: nat, rules: Rules)
    requires
        s.ended(),
    ensures
        tree_value(policies, s, depth, rules) == leaf_value(s, rules),
        s.humans.len() == 0 ==> tree_value(policies, s, depth, rules) == LOST,
        s.humans.len() > 0 ==> tree_value(policies, s, depth, rules) == s.score,
{
    if s.humans.len() > 0 {
        assert(s.resolved().zombies.len() == 0);
    }
}

/// With a single policy the search sees what playing that policy yields:
/// if the state that the policy reaches within `depth` turns still has a
/// human and is winnable, the search values the start at that state's
/// score.
pub proof fn lemma_single_policy<P: Policy>(
    policies: Seq<P>,
    s: StateView,
    depth: nat,
    rules: Rules,
)
    requires
        policies.len() == 1,
        played_out(s, &policies[0], rules, depth).humans.len() > 0,
        played_out(s, &policies[0], rules, depth).winnable(rules),
    ensures
        tree_value(policies, s, depth, rules) == played_out(s, &policies[0], rules, depth).score,
    decreases depth,
{
    let p = &policies[0];
    if !(s.ended() || depth == 0) {
        let child = s.stepped(p, rules);
        lemma_single_policy(policies, child, (depth - 1) as nat, rules);
        lemma_played_out_score(child, p, rules, (depth - 1) as nat);
        let fresh = s.resolved();
        lemma_turn_keeps_score(fresh, p.choice(fresh, rules), rules);
        assert(best_below(policies, s, depth, rules, 0) == s.score);
        assert(tree_value(policies, s, depth, rules) == best_below(policies, s, depth, rules, 1));
    }
}

/// A search over a single policy makes that policy's move, and values it
/// at the score that playing the policy for `depth` further turns yields,
/// if the state reached in the end still has a human and is winnable.
pub proof fn lemma_single_policy_first_move<P: Policy>(
    policies: Seq<P>,
    start: StateView,
    depth: nat,
    rules: Rules,
)
    requires
        policies.len() == 1,
        played_out(first_move(policies, start, rules, 0), &policies[0], rules, depth).humans.len()
            > 0,
        played_out(first_move(policies, start, rules, 0), &policies[0], rules, depth).winnable(
            rules,
        ),
    ensures
        leader(policies, start, depth, rules, 1) == 0,
        is_best_first_move(policies, start, depth, rules, 0),
        first_move_value(policies, start, depth, rules, 0) == played_out(
            first_move(policies, start, rules, 0),
            &policies[0],
            rules,
            depth,
        ).score,
{
    lemma_single_policy(policies, first_move(policies, start, rules, 0), depth, rules);
}

} // verus!
