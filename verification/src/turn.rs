//! The steps of a turn, carried out on a `GameState`.

use vstd::prelude::*;
use crate::arith::square;
use crate::entity::{
    hunter, lemma_hunter, lemma_nearest, Human, Player, PlayerView, Target, Zombie, FAR,
};
use crate::rules::{lemma_on_map_fits, Rules};
use crate::scoring::{checked_reward, lemma_reward_monotone, reward};
use crate::invariants::{
    lemma_advanced, lemma_caught, lemma_cleared_placed, lemma_cleared_resolved, lemma_led,
    lemma_moved, lemma_placed_surveyable, lemma_resolved_wf, lemma_struck,
};
use crate::policy::Policy;
use crate::state::{not_caught, out_of_range, GameState, StateView};
use crate::vector::{dist_sq, move_from_to_capped, Vec2};

verus! {

impl Clone for GameState {
    fn clone(&self) -> (r: Self)
        ensures
            r@ == self@,
    {
        let mut humans: Vec<Human> = Vec::new();
        let mut i: usize = 0;
        while i < self.humans.len()
            invariant
                i <= self.humans.len(),
                humans@ == self.humans@.take(i as int),
            decreases self.humans.len() - i,
        {
            humans.push(self.humans[i]);
            assert(self.humans@.take(i + 1) =~= self.humans@.take(i as int).push(self.humans@[i as int]));
            i = i + 1;
        }
        assert(self.humans@.take(i as int) =~= self.humans@);
        let mut zombies: Vec<Zombie> = Vec::new();
        let mut j: usize = 0;
        while j < self.zombies.len()
            invariant
                j <= self.zombies.len(),
                zombies@ == self.zombies@.take(j as int),
            decreases self.zombies.len() - j,
        {
            zombies.push(self.zombies[j]);
            assert(self.zombies@.take(j + 1) =~= self.zombies@.take(j as int).push(self.zombies@[j as int]));
            j = j + 1;
        }
        assert(self.zombies@.take(j as int) =~= self.zombies@);
        GameState { player: self.player.clone(), humans, zombies, score: self.score }
    }
}

impl GameState {
    /// The state is one that the engine works on.
    pub open spec fn wf(&self, rules: Rules) -> bool {
        self@.wf(rules)
    }

    /// A state at the start of a game: nothing scored yet.
    pub fn new(player: Player, humans: Vec<Human>, zombies: Vec<Zombie>) -> (r: Self)
        ensures
            r.player == player,
            r.humans == humans,
            r.zombies == zombies,
            r.score == 0,
    {
        GameState { player, humans, zombies, score: 0 }
    }

    /// What `empty` returns.
    pub open spec fn empty_view() -> StateView {
        StateView {
            player: PlayerView { pos: Vec2 { x: 0, y: 0 }, msg: "???"@ },
            humans: Seq::empty(),
            zombies: Seq::empty(),
            score: 0,
        }
    }

    /// A state with nobody on the map, the player at the origin under the
    /// label `???`.
    pub fn empty() -> (r: Self)
        ensures
            r@ == Self::empty_view(),
    {
        GameState {
            player: Player::new_labeled(Vec2::new(), "???"),
            humans: Vec::new(),
            zombies: Vec::new(),
            score: 0,
        }
    }

    /// Tells whether the game is over.
    pub fn ended(&self) -> (over: bool)
        ensures
            over == self@.ended(),
    {
        self.humans.is_empty() || self.zombies.is_empty()
    }

    /// Forgets all targeting: no human is held, and every zombie hunts the
    /// player from infinitely far.
    pub fn clear_targets(&mut self)
        ensures
            final(self)@ == old(self)@.cleared(),
    {
        let mut i: usize = 0;
        while i < self.humans.len()
            invariant
                i <= self.humans.len(),
                self.humans.len() == old(self).humans.len(),
                self.player == old(self).player,
                self.zombies == old(self).zombies,
                self.score == old(self).score,
                forall|j: int| 0 <= j < i ==> self.humans@[j] == old(self).humans@[j].unclaimed(),
                forall|j: int| i <= j < self.humans.len() ==> self.humans@[j] == old(self).humans@[j],
            decreases self.humans.len() - i,
        {
            self.humans[i].targeted_by = None;
            i = i + 1;
        }
        let mut k: usize = 0;
        while k < self.zombies.len()
            invariant
                k <= self.zombies.len(),
                self.zombies.len() == old(self).zombies.len(),
                self.player == old(self).player,
                self.humans@ == old(self)@.cleared().humans,
                self.score == old(self).score,
                forall|j: int| 0 <= j < k ==> self.zombies@[j] == old(self).zombies@[j].untargeted(),
                forall|j: int| k <= j < self.zombies.len() ==> self.zombies@[j] == old(self).zombies@[j],
            decreases self.zombies.len() - k,
        {
            self.zombies[k].target = Target::Player;
            self.zombies[k].target_dist_sq = FAR;
            k = k + 1;
        }
        assert(self.zombies@ =~= old(self)@.cleared().zombies);
    }

    /// Lets every zombie arrive where it was going.
    pub fn move_zombies(&mut self)
        ensures
            final(self)@ == old(self)@.moved(),
    {
        let mut k: usize = 0;
        while k < self.zombies.len()
            invariant
                k <= self.zombies.len(),
                self.zombies.len() == old(self).zombies.len(),
                self.player == old(self).player,
                self.humans == old(self).humans,
                self.score == old(self).score,
                forall|j: int| 0 <= j < k ==> self.zombies@[j] == old(self).zombies@[j].arrived(),
                forall|j: int| k <= j < self.zombies.len() ==> self.zombies@[j] == old(self).zombies@[j],
            decreases self.zombies.len() - k,
        {
            self.zombies[k].pos = self.zombies[k].next_pos;
            k = k + 1;
        }
        assert(self.zombies@ =~= old(self)@.moved().zombies);
    }

    /// The worth of killing `killed_zombies_count` zombies in one turn while
    /// `humans_alive_count` humans live.
    pub fn calc_score_for_zombie_kills(
        killed_zombies_count: usize,
        humans_alive_count: usize,
        rules: &Rules,
    ) -> (r: i128)
        requires
            0 <= rules.zombie_points,
            reward(rules.zombie_points as nat, killed_zombies_count as nat, humans_alive_count as nat)
                <= i128::MAX,
        ensures
            r == reward(
                rules.zombie_points as nat,
                killed_zombies_count as nat,
                humans_alive_count as nat,
            ),
    {
        match checked_reward(
            rules.zombie_points,
            killed_zombies_count,
            humans_alive_count,
            i128::MAX,
        ) {
            Some(worth) => worth,
            None => vstd::pervasive::unreached(),
        }
    }

    /// Fires the player's weapon: removes the zombies within range and adds
    /// their worth to the score.
    pub fn kill_zombies(&mut self, rules: &Rules)
        requires
            0 <= rules.player_range,
            0 <= rules.zombie_points,
            old(self)@.placed(*rules),
            old(self)@.funded(*rules),
        ensures
            final(self)@ == old(self)@.struck(*rules),
    {
        let before_cnt: usize = self.zombies.len();
        let ghost pred = out_of_range(self.player.pos, rules.player_range as int);
        let mut kept: Vec<Zombie> = Vec::new();
        let mut i: usize = 0;
        while i < before_cnt
            invariant
                i <= before_cnt,
                before_cnt == self.zombies.len(),
                *self == *old(self),
                0 <= rules.player_range,
                self@.placed(*rules),
                pred == out_of_range(self.player.pos, rules.player_range as int),
                kept@ == self.zombies@.take(i as int).filter(pred),
            decreases before_cnt - i,
        {
            let z: Zombie = self.zombies[i];
            proof {
                lemma_on_map_fits(*rules, z.pos, self.player.pos);
                self.zombies@.take(i as int).lemma_filter_push(z, pred);
                assert(self.zombies@.take(i + 1) =~= self.zombies@.take(i as int).push(z));
            }
            if !z.check_within_player(&self.player, rules) {
                kept.push(z);
            }
            i = i + 1;
        }
        proof {
            assert(self.zombies@.take(i as int) =~= self.zombies@);
            self.zombies@.lemma_filter_len(pred);
            lemma_reward_monotone(
                rules.zombie_points as nat,
                self.zombies@.len(),
                (before_cnt - kept@.len()) as nat,
                self.humans@.len(),
                self.humans@.len(),
            );
        }
        let killed_cnt: usize = before_cnt - kept.len();
        self.zombies = kept;
        self.score = self.score + Self::calc_score_for_zombie_kills(
            killed_cnt,
            self.humans.len(),
            rules,
        );
    }

    /// Lets the zombies feed: removes the humans on whose place a zombie
    /// stands.
    pub fn kill_humans(&mut self)
        ensures
            final(self)@ == old(self)@.caught(),
    {
        let ghost pred = not_caught(self.zombies@);
        let mut kept: Vec<Human> = Vec::new();
        let mut i: usize = 0;
        while i < self.humans.len()
            invariant
                i <= self.humans.len(),
                *self == *old(self),
                pred == not_caught(self.zombies@),
                kept@ == self.humans@.take(i as int).filter(pred),
            decreases self.humans.len() - i,
        {
            let h: Human = self.humans[i];
            proof {
                self.humans@.take(i as int).lemma_filter_push(h, pred);
                assert(self.humans@.take(i + 1) =~= self.humans@.take(i as int).push(h));
            }
            if !h.check_within_zombie(self.zombies.as_slice()) {
                kept.push(h);
            }
            i = i + 1;
        }
        assert(self.humans@.take(i as int) =~= self.humans@);
        self.humans = kept;
    }

    /// Tells every human who holds it: no one, or the zombie that is nearest
    /// to its target among the zombies that hunt this human.
    fn claim_humans(&mut self)
        requires
            forall|i: int|
                0 <= i < old(self).zombies@.len() ==> (#[trigger] old(self).zombies@[i].target matches Target::Human(
                    k,
                ) ==> k < old(self).humans@.len()),
        ensures
            final(self).player == old(self).player,
            final(self).zombies == old(self).zombies,
            final(self).score == old(self).score,
            final(self).humans@.len() == old(self).humans@.len(),
            forall|h: int|
                0 <= h < old(self).humans@.len() ==> #[trigger] final(self).humans@[h] == old(
                    self,
                ).humans@[h].held(
                    hunter(old(self).zombies@, h, old(self).zombies@.len() as int),
                ),
    {
        let mut j: usize = 0;
        while j < self.humans.len()
            invariant
                j <= self.humans.len(),
                self.humans.len() == old(self).humans.len(),
                self.player == old(self).player,
                self.zombies == old(self).zombies,
                self.score == old(self).score,
                forall|h: int| 0 <= h < j ==> self.humans@[h] == old(self).humans@[h].unclaimed(),
                forall|h: int| j <= h < self.humans.len() ==> self.humans@[h] == old(self).humans@[h],
            decreases self.humans.len() - j,
        {
            self.humans[j].targeted_by = None;
            j = j + 1;
        }
        let mut i: usize = 0;
        while i < self.zombies.len()
            invariant
                i <= self.zombies.len(),
                self.humans.len() == old(self).humans.len(),
                self.player == old(self).player,
                self.zombies == old(self).zombies,
                self.score == old(self).score,
                forall|i: int|
                    0 <= i < self.zombies@.len() ==> (#[trigger] self.zombies@[i].target matches Target::Human(
                        k,
                    ) ==> k < self.humans@.len()),
                forall|h: int|
                    0 <= h < self.humans.len() ==> #[trigger] self.humans@[h] == old(
                        self,
                    ).humans@[h].held(hunter(self.zombies@, h, i as int)),
            decreases self.zombies.len() - i,
        {
            let ghost before = self.humans@;
            if let Target::Human(t) = self.zombies[i].target {
                proof {
                    lemma_hunter(self.zombies@, t as int, i as int);
                }
                self.humans[t].set_target(self.zombies.as_slice(), i);
            }
            assert forall|h: int| 0 <= h < self.humans.len() implies #[trigger] self.humans@[h]
                == old(self).humans@[h].held(hunter(self.zombies@, h, i + 1)) by {
                assert(before[h] == old(self).humans@[h].held(hunter(self.zombies@, h, i as int)));
            }
            i = i + 1;
        }
    }

    /// Works out the targeting afresh: every zombie picks the nearest of the
    /// player and the humans, and every human learns who holds it.
    pub fn zombies_set_targets(&mut self)
        requires
            old(self)@.surveyable(),
        ensures
            final(self)@ == old(self)@.resolved(),
    {
        let mut i: usize = 0;
        while i < self.zombies.len()
            invariant
                i <= self.zombies.len(),
                self.zombies.len() == old(self).zombies.len(),
                self.player == old(self).player,
                self.humans == old(self).humans,
                self.score == old(self).score,
                old(self)@.surveyable(),
                forall|j: int|
                    0 <= j < i ==> self.zombies@[j] == old(self).zombies@[j].retargeted(
                        self.player.pos,
                        self.humans@,
                    ),
                forall|j: int| i <= j < self.zombies.len() ==> self.zombies@[j] == old(self).zombies@[j],
            decreases self.zombies.len() - i,
        {
            assert(old(self)@.zombies[i as int].in_sight(self.player.pos, self.humans@));
            self.zombies[i].set_target(&self.player, self.humans.as_slice());
            i = i + 1;
        }
        assert(self.zombies@ =~= old(self)@.resolved().zombies);
        proof {
            assert forall|i: int| 0 <= i < self.zombies@.len() implies (
            #[trigger] self.zombies@[i].target matches Target::Human(k) ==> k < self.humans@.len()) by {
                assert(self.humans@.len() == self.humans.len());
                lemma_nearest(
                    old(self).zombies@[i].next_pos,
                    self.player.pos,
                    self.humans@,
                    self.humans@.len() as int,
                );
            }
        }
        self.claim_humans();
        assert(self.humans@ =~= old(self)@.resolved().humans);
    }

    /// Lets every zombie pick a fresh target and plan one step toward it,
    /// and tells every human who holds it.
    pub fn calc_zombies_next_move(&mut self, rules: &Rules)
        requires
            0 <= rules.zombie_step,
            old(self)@.surveyable(),
        ensures
            final(self)@ == old(self)@.replanned(*rules),
    {
        let mut i: usize = 0;
        while i < self.zombies.len()
            invariant
                i <= self.zombies.len(),
                self.zombies.len() == old(self).zombies.len(),
                self.player == old(self).player,
                self.humans == old(self).humans,
                self.score == old(self).score,
                0 <= rules.zombie_step,
                old(self)@.surveyable(),
                forall|j: int|
                    0 <= j < i ==> self.zombies@[j] == old(self).zombies@[j].replanned(
                        self.player.pos,
                        self.humans@,
                        rules.zombie_step as int,
                    ),
                forall|j: int| i <= j < self.zombies.len() ==> self.zombies@[j] == old(self).zombies@[j],
            decreases self.zombies.len() - i,
        {
            assert(old(self)@.zombies[i as int].in_sight(self.player.pos, self.humans@));
            self.zombies[i].set_next_move(&self.player, self.humans.as_slice(), rules);
            i = i + 1;
        }
        assert(self.zombies@ =~= old(self)@.replanned(*rules).zombies);
        proof {
            assert forall|i: int| 0 <= i < self.zombies@.len() implies (
            #[trigger] self.zombies@[i].target matches Target::Human(k) ==> k < self.humans@.len()) by {
                assert(self.humans@.len() == self.humans.len());
                lemma_nearest(
                    old(self).zombies@[i].next_pos,
                    self.player.pos,
                    self.humans@,
                    self.humans@.len() as int,
                );
            }
        }
        self.claim_humans();
        assert(self.humans@ =~= old(self)@.replanned(*rules).humans);
    }

    /// Plays one turn under `strategy` and returns the state that follows;
    /// `self` stays as it is. The targeting is worked out afresh, the
    /// strategy chooses a destination, the player steps toward it, the
    /// zombies arrive, the player's weapon fires, the zombies feed, and the
    /// zombies plan their next move.
    pub fn simulate<P: Policy>(&self, strategy: &P, rules: &Rules) -> (next: GameState)
        requires
            rules.wf(),
            self.wf(*rules),
        ensures
            next@ == self@.stepped(strategy, *rules),
            next.wf(*rules),
            next.score >= self.score,
            next.zombies@.len() <= self.zombies@.len(),
            next.humans@.len() <= self.humans@.len(),
            dist_sq(self.player.pos, next.player.pos) <= square(rules.player_step as int),
    {
        let mut next_state = self.clone();
        next_state.clear_targets();
        proof {
            lemma_cleared_resolved(self@);
            lemma_resolved_wf(self@, *rules);
            lemma_cleared_placed(self@, *rules);
            lemma_placed_surveyable(next_state@, *rules);
        }
        next_state.zombies_set_targets();
        let ghost fresh = self@.resolved();
        assert(next_state@ == fresh);
        let player_target = strategy.decide(&next_state, rules);
        next_state.player.pos = move_from_to_capped(
            next_state.player.pos,
            player_target.pos,
            rules.player_step,
        );
        next_state.player.msg = player_target.msg;
        let ghost led = fresh.led(player_target@, *rules);
        assert(next_state@ == led);
        proof {
            lemma_advanced(fresh, player_target@, *rules);
            lemma_led(fresh, player_target@, *rules);
            lemma_moved(led, *rules);
            lemma_struck(led.moved(), *rules);
            lemma_caught(led.moved().struck(*rules), *rules);
            lemma_placed_surveyable(led.moved().struck(*rules).caught(), *rules);
        }
        next_state.move_zombies();
        next_state.kill_zombies(rules);
        next_state.kill_humans();
        next_state.calc_zombies_next_move(rules);
        next_state
    }

    /// Works out the targeting afresh and tells whether the state is not
    /// lost yet: no zombie is left, or some human can be saved.
    pub fn winnable(&mut self, rules: &Rules) -> (ok: bool)
        requires
            rules.wf(),
            old(self).wf(*rules),
        ensures
            final(self)@ == old(self)@.resolved(),
            final(self).wf(*rules),
            ok == old(self)@.winnable(*rules),
    {
        proof {
            lemma_cleared_resolved(self@);
            lemma_resolved_wf(self@, *rules);
            lemma_cleared_placed(self@, *rules);
            lemma_placed_surveyable(self@.cleared(), *rules);
        }
        self.clear_targets();
        self.zombies_set_targets();
        if self.zombies.is_empty() {
            return true;
        }
        let mut i: usize = 0;
        while i < self.humans.len()
            invariant
                i <= self.humans.len(),
                rules.wf(),
                self.wf(*rules),
                self@ == old(self)@.resolved(),
                self.zombies@.len() > 0,
                forall|h: int|
                    0 <= h < i ==> !(#[trigger] self.humans@[h]).is_savable(
                        self.player.pos,
                        self.zombies@,
                        *rules,
                    ),
            decreases self.humans.len() - i,
        {
            if self.humans[i].savable(&self.player, self.zombies.as_slice(), rules) {
                return true;
            }
            i = i + 1;
        }
        false
    }

    /// Takes the score over from the state a turn before and adds what the
    /// zombies that have gone since were worth.
    pub fn calculate_new_score(&mut self, previous_state: &GameState, rules: &Rules)
        requires
            0 <= rules.zombie_points,
            previous_state@.funded(*rules),
            old(self).zombies@.len() <= previous_state.zombies@.len(),
        ensures
            final(self).score == previous_state.score + reward(
                rules.zombie_points as nat,
                (previous_state.zombies@.len() - old(self).zombies@.len()) as nat,
                previous_state.humans@.len(),
            ),
            final(self).player == old(self).player,
            final(self).humans == old(self).humans,
            final(self).zombies == old(self).zombies,
    {
        let zombie_kills: usize = previous_state.zombies.len() - self.zombies.len();
        proof {
            lemma_reward_monotone(
                rules.zombie_points as nat,
                previous_state.zombies@.len(),
                zombie_kills as nat,
                previous_state.humans@.len(),
                previous_state.humans@.len(),
            );
        }
        let move_got_score: i128 = Self::calc_score_for_zombie_kills(
            zombie_kills,
            previous_state.humans.len(),
            rules,
        );
        self.score = previous_state.score + move_got_score;
    }
}

} // verus!
