//! What every step of a turn keeps true of a state.

use vstd::prelude::*;
use crate::arith::square;
use crate::entity::{lemma_hunter, lemma_nearest, lemma_nearest_by_place, PlayerView, Target};
use crate::rules::{lemma_on_map_fits, Rules};
use crate::scoring::{lemma_reward_monotone, lemma_reward_split};
use crate::state::{not_caught, out_of_range, StateView};
use crate::vector::{dist_sq, lemma_move_toward, move_toward, Vec2};

verus! {

/// A step from a point on the map toward a point on the map ends on the map.
pub proof fn lemma_step_on_map(rules: Rules, from: Vec2, to: Vec2, cap: int)
    requires
        0 <= cap,
        rules.on_map(from),
        rules.on_map(to),
    ensures
        rules.on_map(move_toward(from, to, cap)),
        dist_sq(from, move_toward(from, to, cap)) <= square(cap),
{
    lemma_move_toward(from, to, cap);
}

/// On the map every distance that targeting measures fits.
pub proof fn lemma_placed_surveyable(s: StateView, rules: Rules)
    requires
        s.placed(rules),
    ensures
        s.surveyable(),
{
    assert forall|i: int| 0 <= i < s.zombies.len() implies (#[trigger] s.zombies[i]).in_sight(
        s.player.pos,
        s.humans,
    ) by {
        let z = s.zombies[i];
        lemma_on_map_fits(rules, z.next_pos, s.player.pos);
        assert forall|h: int| 0 <= h < s.humans.len() implies dist_sq(
            z.next_pos,
            #[trigger] s.humans[h].pos,
        ) <= i64::MAX by {
            lemma_on_map_fits(rules, z.next_pos, s.humans[h].pos);
        }
    }
}

/// Forgetting the targeting moves nobody.
pub proof fn lemma_cleared_placed(s: StateView, rules: Rules)
    requires
        s.placed(rules),
    ensures
        s.cleared().placed(rules),
{
    let c = s.cleared();
    assert forall|i: int| 0 <= i < c.zombies.len() implies rules.on_map(
        (#[trigger] c.zombies[i]).pos,
    ) && rules.on_map(c.zombies[i].next_pos) && dist_sq(c.zombies[i].pos, c.zombies[i].next_pos)
        <= square(rules.zombie_step as int) by {
        assert(c.zombies[i] == s.zombies[i].untargeted());
    }
    assert forall|i: int| 0 <= i < c.humans.len() implies rules.on_map(
        #[trigger] c.humans[i].pos,
    ) by {
        assert(c.humans[i] == s.humans[i].unclaimed());
    }
}

/// Working out the targeting afresh does not look at the old targeting.
pub proof fn lemma_cleared_resolved(s: StateView)
    ensures
        s.cleared().resolved() == s.resolved(),
{
    let a = s.cleared().resolved();
    let b = s.resolved();
    assert forall|i: int| 0 <= i < a.zombies.len() implies a.zombies[i] == b.zombies[i] by {
        lemma_nearest_by_place(
            s.zombies[i].next_pos,
            s.player.pos,
            s.cleared().humans,
            s.humans,
            s.humans.len() as int,
        );
    }
    assert(a.zombies =~= b.zombies);
    assert(a.humans =~= b.humans);
}

/// Fresh targeting moves nobody, scores nothing, and links targets and
/// hunters.
pub proof fn lemma_resolved_wf(s: StateView, rules: Rules)
    requires
        s.placed(rules),
        s.funded(rules),
    ensures
        s.resolved().wf(rules),
        s.resolved().player == s.player,
        s.resolved().score == s.score,
{
    let r = s.resolved();
    assert forall|i: int| 0 <= i < r.zombies.len() implies (#[trigger] r.zombies[i].target matches Target::Human(
        k,
    ) ==> k < r.humans.len()) by {
        lemma_nearest(s.zombies[i].next_pos, s.player.pos, s.humans, s.humans.len() as int);
    }
    assert forall|h: int| 0 <= h < r.humans.len() implies (#[trigger] r.humans[h].targeted_by matches Some(
        p,
    ) ==> p < r.zombies.len() && r.zombies[p as int].target == Target::Human(h as usize)) by {
        lemma_hunter(r.zombies, h, r.zombies.len() as int);
    }
    assert forall|i: int| 0 <= i < r.zombies.len() implies rules.on_map(
        (#[trigger] r.zombies[i]).pos,
    ) && rules.on_map(r.zombies[i].next_pos) && dist_sq(r.zombies[i].pos, r.zombies[i].next_pos)
        <= square(rules.zombie_step as int) by {
        assert(r.zombies[i].pos == s.zombies[i].pos);
    }
    assert forall|i: int| 0 <= i < r.humans.len() implies rules.on_map(
        #[trigger] r.humans[i].pos,
    ) by {
        assert(r.humans[i].pos == s.humans[i].pos);
    }
}

/// The player's step keeps everyone on the map.
pub proof fn lemma_led(s: StateView, choice: PlayerView, rules: Rules)
    requires
        0 <= rules.player_step,
        s.placed(rules),
        s.funded(rules),
        rules.on_map(choice.pos),
    ensures
        s.led(choice, rules).placed(rules),
        s.led(choice, rules).funded(rules),
        dist_sq(s.player.pos, s.led(choice, rules).player.pos) <= square(rules.player_step as int),
{
    lemma_step_on_map(rules, s.player.pos, choice.pos, rules.player_step as int);
}

/// The zombies' arrival keeps everyone on the map.
pub proof fn lemma_moved(s: StateView, rules: Rules)
    requires
        s.placed(rules),
        s.funded(rules),
    ensures
        s.moved().placed(rules),
        s.moved().funded(rules),
{
    let m = s.moved();
    assert(0 <= square(rules.zombie_step as int)) by (nonlinear_arith);
    assert(square(0) == 0);
    assert forall|i: int| 0 <= i < m.zombies.len() implies rules.on_map(
        (#[trigger] m.zombies[i]).pos,
    ) && rules.on_map(m.zombies[i].next_pos) && dist_sq(m.zombies[i].pos, m.zombies[i].next_pos)
        <= square(rules.zombie_step as int) by {
        assert(m.zombies[i] == s.zombies[i].arrived());
    }
}

/// The player's fire leaves fewer zombies, never a lower score, and room
/// for all that is still to be earned.
pub proof fn lemma_struck(s: StateView, rules: Rules)
    requires
        s.placed(rules),
        s.funded(rules),
    ensures
        s.struck(rules).placed(rules),
        s.struck(rules).funded(rules),
        s.struck(rules).score >= s.score,
        s.struck(rules).zombies.len() <= s.zombies.len(),
{
    let t = s.struck(rules);
    let pred = out_of_range(s.player.pos, rules.player_range as int);
    s.zombies.lemma_filter_len(pred);
    let k = (s.zombies.len() - t.zombies.len()) as nat;
    lemma_reward_split(
        rules.zombie_points as nat,
        k,
        t.zombies.len(),
        s.humans.len(),
        s.humans.len(),
    );
    assert forall|i: int| 0 <= i < t.zombies.len() implies rules.on_map(
        (#[trigger] t.zombies[i]).pos,
    ) && rules.on_map(t.zombies[i].next_pos) && dist_sq(t.zombies[i].pos, t.zombies[i].next_pos)
        <= square(rules.zombie_step as int) by {
        assert(s.zombies.filter(pred).contains(t.zombies[i]));
        s.zombies.lemma_filter_contains_rev(pred, t.zombies[i]);
        let j = choose|j: int| 0 <= j < s.zombies.len() && s.zombies[j] == t.zombies[i];
        assert(rules.on_map(s.zombies[j].pos));
    }
}

/// The zombies' meal leaves fewer humans, all of them on the map.
pub proof fn lemma_caught(s: StateView, rules: Rules)
    requires
        s.placed(rules),
        s.funded(rules),
    ensures
        s.caught().placed(rules),
        s.caught().funded(rules),
        s.caught().humans.len() <= s.humans.len(),
{
    let t = s.caught();
    let pred = not_caught(s.zombies);
    s.humans.lemma_filter_len(pred);
    lemma_reward_monotone(
        rules.zombie_points as nat,
        s.zombies.len(),
        s.zombies.len(),
        s.humans.len(),
        t.humans.len(),
    );
    assert forall|i: int| 0 <= i < t.humans.len() implies rules.on_map(
        #[trigger] t.humans[i].pos,
    ) by {
        assert(s.humans.filter(pred).contains(t.humans[i]));
        s.humans.lemma_filter_contains_rev(pred, t.humans[i]);
        let j = choose|j: int| 0 <= j < s.humans.len() && s.humans[j] == t.humans[i];
        assert(rules.on_map(s.humans[j].pos));
    }
}

/// Planning the zombies' next move leaves a state that the engine works on.
pub proof fn lemma_replanned(s: StateView, rules: Rules)
    requires
        0 <= rules.zombie_step,
        s.placed(rules),
        s.funded(rules),
    ensures
        s.replanned(rules).wf(rules),
{
    let r = s.replanned(rules);
    assert forall|i: int| 0 <= i < r.zombies.len() implies {
        &&& rules.on_map((#[trigger] r.zombies[i]).pos)
        &&& rules.on_map(r.zombies[i].next_pos)
        &&& dist_sq(r.zombies[i].pos, r.zombies[i].next_pos) <= square(rules.zombie_step as int)
        &&& r.zombies[i].target matches Target::Human(k) ==> k < r.humans.len()
    } by {
        let z = s.zombies[i];
        lemma_nearest(z.next_pos, s.player.pos, s.humans, s.humans.len() as int);
        let t = z.retargeted(s.player.pos, s.humans);
        let goal = t.target_pos(s.player.pos, s.humans);
        assert(rules.on_map(goal));
        lemma_step_on_map(rules, z.pos, goal, rules.zombie_step as int);
        assert(r.zombies[i] == z.replanned(s.player.pos, s.humans, rules.zombie_step as int));
    }
    assert forall|h: int| 0 <= h < r.humans.len() implies rules.on_map(
        (#[trigger] r.humans[h]).pos,
    ) && (r.humans[h].targeted_by matches Some(p) ==> p < r.zombies.len() && r.zombies[p as int].target
        == Target::Human(h as usize)) by {
        lemma_hunter(r.zombies, h, r.zombies.len() as int);
        assert(r.humans[h].pos == s.humans[h].pos);
    }
}

/// A turn played on a state that the engine works on, toward a destination
/// on the map, leaves such a state again; the score does not drop, and the
/// player covers no more than a player's step.
pub proof fn lemma_advanced(s: StateView, choice: PlayerView, rules: Rules)
    requires
        0 <= rules.player_step,
        0 <= rules.zombie_step,
        s.placed(rules),
        s.funded(rules),
        rules.on_map(choice.pos),
    ensures
        s.advanced(choice, rules).wf(rules),
        s.advanced(choice, rules).score >= s.score,
        s.advanced(choice, rules).zombies.len() <= s.zombies.len(),
        s.advanced(choice, rules).humans.len() <= s.humans.len(),
        dist_sq(s.player.pos, s.advanced(choice, rules).player.pos) <= square(
            rules.player_step as int,
        ),
{
    let a = s.led(choice, rules);
    lemma_led(s, choice, rules);
    let b = a.moved();
    lemma_moved(a, rules);
    let c = b.struck(rules);
    lemma_struck(b, rules);
    let d = c.caught();
    lemma_caught(c, rules);
    lemma_replanned(d, rules);
}

} // verus!
