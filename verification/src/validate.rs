//! Checking at run time that a state is one that the engine works on.

use vstd::prelude::*;
use crate::arith::square;
use crate::entity::Target;
use crate::rules::{lemma_on_map_fits, Rules};
use crate::scoring::checked_reward;
use crate::state::GameState;
use crate::vector::{dist_sq, dist_squared};

verus! {

impl GameState {
    /// Tells whether everyone stands on the map and no zombie plans to move
    /// farther than a zombie's step.
    pub fn is_placed(&self, rules: &Rules) -> (ok: bool)
        ensures
            ok == self@.placed(*rules),
    {
        if !rules.contains(self.player.pos) {
            return false;
        }
        let mut i: usize = 0;
        while i < self.humans.len()
            invariant
                i <= self.humans.len(),
                forall|j: int| 0 <= j < i ==> rules.on_map(#[trigger] self@.humans[j].pos),
            decreases self.humans.len() - i,
        {
            if !rules.contains(self.humans[i].pos) {
                return false;
            }
            i = i + 1;
        }
        let step: i64 = rules.zombie_step as i64;
        assert(0 <= step * step <= 0x8000_0000 * 0x8000_0000) by (nonlinear_arith)
            requires
                -0x8000_0000 <= step <= 0x7fff_ffff,
        ;
        let reach: i64 = step * step;
        let mut k: usize = 0;
        while k < self.zombies.len()
            invariant
                k <= self.zombies.len(),
                reach == square(rules.zombie_step as int),
                forall|j: int|
                    0 <= j < k ==> {
                        &&& rules.on_map((#[trigger] self@.zombies[j]).pos)
                        &&& rules.on_map(self@.zombies[j].next_pos)
                        &&& dist_sq(self@.zombies[j].pos, self@.zombies[j].next_pos) <= square(
                            rules.zombie_step as int,
                        )
                    },
            decreases self.zombies.len() - k,
        {
            let z = self.zombies[k];
            if !rules.contains(z.pos) || !rules.contains(z.next_pos) {
                return false;
            }
            proof {
                lemma_on_map_fits(*rules, z.pos, z.next_pos);
            }
            if dist_squared(z.pos, z.next_pos) > reach {
                return false;
            }
            k = k + 1;
        }
        true
    }

    /// Tells whether the score is not negative and leaves room for all that
    /// the zombies still alive can be worth.
    pub fn is_funded(&self, rules: &Rules) -> (ok: bool)
        requires
            0 <= rules.zombie_points,
        ensures
            ok == self@.funded(*rules),
    {
        if self.score < 0 {
            return false;
        }
        checked_reward(
            rules.zombie_points,
            self.zombies.len(),
            self.humans.len(),
            i128::MAX - self.score,
        ).is_some()
    }

    /// Tells whether targets and hunters point at each other.
    pub fn is_linked(&self) -> (ok: bool)
        ensures
            ok == self@.linked(),
    {
        let mut i: usize = 0;
        while i < self.zombies.len()
            invariant
                i <= self.zombies.len(),
                forall|j: int|
                    0 <= j < i ==> (#[trigger] self@.zombies[j].target matches Target::Human(k)
                        ==> k < self@.humans.len()),
            decreases self.zombies.len() - i,
        {
            if let Target::Human(k) = self.zombies[i].target {
                if k >= self.humans.len() {
                    return false;
                }
            }
            i = i + 1;
        }
        let mut h: usize = 0;
        while h < self.humans.len()
            invariant
                h <= self.humans.len(),
                forall|j: int|
                    0 <= j < h ==> (#[trigger] self@.humans[j].targeted_by matches Some(p) ==> {
                        &&& p < self@.zombies.len()
                        &&& self@.zombies[p as int].target == Target::Human(j as usize)
                    }),
            decreases self.humans.len() - h,
        {
            if let Some(p) = self.humans[h].targeted_by {
                if p >= self.zombies.len() {
                    return false;
                }
                if self.zombies[p].target != Target::Human(h) {
                    return false;
                }
            }
            h = h + 1;
        }
        true
    }

    /// Tells whether the state is one that the engine works on.
    pub fn is_wf(&self, rules: &Rules) -> (ok: bool)
        requires
            0 <= rules.zombie_points,
        ensures
            ok == self.wf(*rules),
    {
        self.is_placed(rules) && self.is_funded(rules) && self.is_linked()
    }
}

} // verus!
