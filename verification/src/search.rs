//! The lookahead search: play every policy from every state, a fixed number
//! of turns deep, and keep the first move under which the best score is in
//! sight.

use vstd::prelude::*;
use crate::policy::Policy;
use crate::rules::Rules;
use crate::state::{GameState, StateView};

verus! {

/// The value that stands for a branch not worth following: lower than any
/// score.
pub const LOST: i128 = -1;

/// The larger of two integers.
pub open spec fn max(a: int, b: int) -> int {
    if a >= b {
        a
    } else {
        b
    }
}

/// What a state is worth where the search stops: its score, or `LOST` if no
/// human is left or the state is not winnable.
pub open spec fn leaf_value(s: StateView, rules: Rules) -> int {
    if s.humans.len() == 0 || !s.winnable(rules) {
        LOST as int
    } else {
        s.score
    }
}

/// What a state is worth to a search that looks `depth` turns ahead: where
/// the game is over or no turn is left, what the state is worth as it is;
/// else the most that its own score and its successors under the policies
/// are worth.
pub open spec fn tree_value<P: Policy>(
    policies: Seq<P>,
    s: StateView,
    depth: nat,
    rules: Rules,
) -> int
    decreases depth, policies.len() + 1,
{
    if s.ended() || depth == 0 {
        leaf_value(s, rules)
    } else {
        best_below(policies, s, depth, rules, policies.len())
    }
}

/// The most that the score of `s` and its successors under the first `n`
/// policies are worth, each successor looked at `depth - 1` turns ahead.
pub open spec fn best_below<P: Policy>(
    policies: Seq<P>,
    s: StateView,
    depth: nat,
    rules: Rules,
    n: nat,
) -> int
    decreases depth, n,
{
    if n == 0 || n > policies.len() || depth == 0 {
        s.score
    } else {
        max(
            best_below(policies, s, depth, rules, (n - 1) as nat),
            tree_value(
                policies,
                s.stepped(&policies[n - 1], rules),
                (depth - 1) as nat,
                rules,
            ),
        )
    }
}

/// The state one turn after `start` under the policy at index `i`.
pub open spec fn first_move<P: Policy>(
    policies: Seq<P>,
    start: StateView,
    rules: Rules,
    i: int,
) -> StateView {
    start.stepped(&policies[i], rules)
}

/// What the first move under the policy at index `i` is worth to a search
/// that looks `depth` turns ahead from it.
pub open spec fn first_move_value<P: Policy>(
    policies: Seq<P>,
    start: StateView,
    depth: nat,
    rules: Rules,
    i: int,
) -> int {
    tree_value(policies, first_move(policies, start, rules, i), depth, rules)
}

/// The policy at index `i` makes the best first move: none is worth more,
/// and every earlier one is worth strictly less.
pub open spec fn is_best_first_move<P: Policy>(
    policies: Seq<P>,
    start: StateView,
    depth: nat,
    rules: Rules,
    i: int,
) -> bool {
    &&& 0 <= i < policies.len()
    &&& forall|j: int|
        0 <= j < policies.len() ==> #[trigger] first_move_value(policies, start, depth, rules, j)
            <= first_move_value(policies, start, depth, rules, i)
    &&& forall|j: int|
        0 <= j < i ==> #[trigger] first_move_value(policies, start, depth, rules, j)
            < first_move_value(policies, start, depth, rules, i)
}

/// The index of the policy in the lead once the first moves under the first
/// `n` policies have been valued: the first policy leads at the start, and a
/// later one takes the lead only if its first move is worth strictly more.
pub open spec fn leader<P: Policy>(
    policies: Seq<P>,
    start: StateView,
    depth: nat,
    rules: Rules,
    n: nat,
) -> int
    decreases n,
{
    if n <= 1 {
        0
    } else {
        let before = leader(policies, start, depth, rules, (n - 1) as nat);
        if first_move_value(policies, start, depth, rules, n - 1) > first_move_value(
            policies,
            start,
            depth,
            rules,
            before,
        ) {
            n - 1
        } else {
            before
        }
    }
}

/// The policy in the lead after `n` policies is one of them, none of them
/// is worth more, and every earlier one is worth strictly less.
pub proof fn lemma_leader<P: Policy>(
    policies: Seq<P>,
    start: StateView,
    depth: nat,
    rules: Rules,
    n: nat,
)
    requires
        1 <= n <= policies.len(),
    ensures
        0 <= leader(policies, start, depth, rules, n) < n,
        forall|j: int|
            0 <= j < n ==> #[trigger] first_move_value(policies, start, depth, rules, j)
                <= first_move_value(
                policies,
                start,
                depth,
                rules,
                leader(policies, start, depth, rules, n),
            ),
        forall|j: int|
            0 <= j < leader(policies, start, depth, rules, n) ==> #[trigger] first_move_value(
                policies,
                start,
                depth,
                rules,
                j,
            ) < first_move_value(
                policies,
                start,
                depth,
                rules,
                leader(policies, start, depth, rules, n),
            ),
        n == policies.len() ==> is_best_first_move(
            policies,
            start,
            depth,
            rules,
            leader(policies, start, depth, rules, n),
        ),
    decreases n,
{
    if n > 1 {
        lemma_leader(policies, start, depth, rules, (n - 1) as nat);
    }
}

/// A search over a list of policies, with the best first move that its
/// last run found.
pub struct SimTree<P: Policy> {
    pub strategies: Vec<P>,
    pub best_score: i128,
    pub best_state: GameState,
}

impl<P: Policy> SimTree<P> {
    /// A search over `strategies` that has not run yet.
    pub fn with_strategies(strategies: Vec<P>) -> (r: Self)
        ensures
            r.strategies == strategies,
            r.best_score == LOST,
            r.best_state@ == GameState::empty_view(),
    {
        SimTree { strategies, best_score: LOST, best_state: GameState::empty() }
    }

    /// Plays one turn from `starting_state` under each policy, looks
    /// `lookahead_turns` further turns ahead from each successor, and returns
    /// the successor under which the most is in sight; among successors worth
    /// the same, the one of the earliest policy. What earlier runs found
    /// plays no part. A search without policies returns the empty state.
    pub fn calculate_best_state(
        &mut self,
        starting_state: &GameState,
        lookahead_turns: u32,
        rules: &Rules,
    ) -> (best: GameState)
        requires
            rules.wf(),
            starting_state.wf(*rules),
        ensures
            final(self).strategies == old(self).strategies,
            best@ == final(self).best_state@,
            old(self).strategies@.len() == 0 ==> final(self).best_score == LOST && best@
                == GameState::empty_view(),
            old(self).strategies@.len() > 0 ==> exists|i: int|
                {
                    &&& #[trigger] is_best_first_move(
                        old(self).strategies@,
                        starting_state@,
                        lookahead_turns as nat,
                        *rules,
                        i,
                    )
                    &&& i == leader(
                        old(self).strategies@,
                        starting_state@,
                        lookahead_turns as nat,
                        *rules,
                        old(self).strategies@.len(),
                    )
                    &&& best@ == first_move(old(self).strategies@, starting_state@, *rules, i)
                    &&& final(self).best_score == first_move_value(
                        old(self).strategies@,
                        starting_state@,
                        lookahead_turns as nat,
                        *rules,
                        i,
                    )
                },
    {
        if self.strategies.len() == 0 {
            self.best_score = LOST;
            self.best_state = GameState::empty();
            return self.best_state.clone();
        }
        let first = starting_state.simulate(&self.strategies[0], rules);
        let first_score = self.calc_max_score_inner_rec(&first, lookahead_turns, rules);
        self.best_score = first_score;
        self.best_state = first;
        let ghost mut lead: int = 0;
        let mut i: usize = 1;
        while i < self.strategies.len()
            invariant
                1 <= i <= self.strategies.len(),
                rules.wf(),
                starting_state.wf(*rules),
                self.strategies == old(self).strategies,
                lead == leader(
                    self.strategies@,
                    starting_state@,
                    lookahead_turns as nat,
                    *rules,
                    i as nat,
                ),
                0 <= lead < i,
                self.best_state@ == first_move(self.strategies@, starting_state@, *rules, lead),
                self.best_score == first_move_value(
                    self.strategies@,
                    starting_state@,
                    lookahead_turns as nat,
                    *rules,
                    lead,
                ),
            decreases self.strategies.len() - i,
        {
            let state = starting_state.simulate(&self.strategies[i], rules);
            let max_score = self.calc_max_score_inner_rec(&state, lookahead_turns, rules);
            if max_score > self.best_score {
                self.best_score = max_score;
                self.best_state = state;
                proof {
                    lead = i as int;
                }
            }
            i = i + 1;
        }
        proof {
            lemma_leader(
                self.strategies@,
                starting_state@,
                lookahead_turns as nat,
                *rules,
                self.strategies@.len(),
            );
        }
        self.best_state.clone()
    }

    /// What `state` is worth to a search that looks `depth` turns ahead.
    pub fn calc_max_score_inner_rec(&self, state: &GameState, depth: u32, rules: &Rules) -> (r:
        i128)
        requires
            rules.wf(),
            state.wf(*rules),
        ensures
            r == tree_value(self.strategies@, state@, depth as nat, *rules),
        decreases depth,
    {
        if state.ended() || depth == 0 {
            if state.humans.is_empty() {
                return LOST;
            }
            let mut probe = state.clone();
            if !probe.winnable(rules) {
                return LOST;
            }
            return state.score;
        }
        let mut max_score: i128 = state.score;
        let mut i: usize = 0;
        while i < self.strategies.len()
            invariant
                i <= self.strategies.len(),
                rules.wf(),
                state.wf(*rules),
                depth > 0,
                max_score == best_below(
                    self.strategies@,
                    state@,
                    depth as nat,
                    *rules,
                    i as nat,
                ),
            decreases self.strategies.len() - i,
        {
            let new_state = state.simulate(&self.strategies[i], rules);
            let score = self.calc_max_score_inner_rec(&new_state, depth - 1, rules);
            if score > max_score {
                max_score = score;
            }
            i = i + 1;
        }
        max_score
    }
}

} // verus!
