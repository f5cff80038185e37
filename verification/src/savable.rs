//! Can the player reach a human before the zombie that hunts it does?
//!
//! Write `p` for the distance from the human to the player, `z` for the
//! distance from the human to its hunter, and `theta` for the angle at the
//! human between the two. The zombie needs `t = ceil(z / zombie_step)`
//! turns. If the zombie comes from behind the player's line of approach
//! (`cos theta <= 0`), the player needs `ceil((p - range) / player_step)`
//! turns. Otherwise the zombie closes in by `c = cos(theta) * zombie_step`
//! a turn along that line, and the player needs
//! `ceil((p - c - range) / (player_step - c))` turns. The human can be saved
//! if the player needs no more turns than the zombie.
//!
//! Since `t` is whole, the player is in time exactly when
//! `p + (t - 1) * c <= t * player_step + range`, with `c` taken as zero in
//! the first case. All of this is decided here in whole numbers, without
//! rounding: with `a = p^2`, `b = z^2` and `d` the dot product of the two
//! directions, `cos theta = d / (p * z)`, and squaring twice removes the
//! roots.

use vstd::prelude::*;
use crate::arith::{isqrt_ceil, lemma_square_monotone, product_le, square};
use crate::entity::{Human, Player, Zombie};
use crate::rules::{lemma_on_map_near, Rules};
use crate::state::StateView;
use crate::vector::{dist_sq, Vec2};

verus! {

/// The dot product of the directions from `origin` to `u` and to `v`.
pub open spec fn dot_from(origin: Vec2, u: Vec2, v: Vec2) -> int {
    (u.x - origin.x) * (v.x - origin.x) + (u.y - origin.y) * (v.y - origin.y)
}

/// `t` is the number of turns that it takes to cover a distance whose square
/// is `b` in steps of `step`: the least `t` with `t * step >= sqrt(b)`.
pub open spec fn is_turns(t: int, b: int, step: int) -> bool {
    &&& 0 <= t
    &&& b <= square(t * step)
    &&& t > 0 ==> square((t - 1) * step) < b
}

/// The number of turns that `is_turns` describes.
pub open spec fn turns_to_cover(b: int, step: int) -> int {
    choose|t: int| is_turns(t, b, step)
}

/// The player, `sqrt(a)` away from the human, arrives within `t` turns,
/// where the hunter is `sqrt(b)` away and `d` is the dot product of the
/// directions from the human to the player and to the hunter.
///
/// With `r = t * player_step + range`: if `d <= 0` the test is
/// `sqrt(a) <= r`. Otherwise it is
/// `sqrt(a) + k / (sqrt(a) * sqrt(b)) <= r` with
/// `k = zombie_step * (t - 1) * d`; multiplied by `sqrt(a) * sqrt(b)` and
/// squared, `2 * a * k * sqrt(b) <= a * b * (r^2 - a) - k^2`; and squared
/// once more, with the right side not negative.
pub open spec fn in_time(t: int, a: int, b: int, d: int, rules: Rules) -> bool {
    let r = t * rules.player_step + rules.player_range;
    if d <= 0 {
        a <= r * r
    } else {
        let k = rules.zombie_step * (t - 1) * d;
        let v = a * b * (r * r - a) - k * k;
        v >= 0 && (2 * a * k) * (2 * a * k * b) <= v * v
    }
}

/// The player at `player` can reach the human at `human` before the zombie
/// at `hunter` does. A human on whose place its hunter stands already counts
/// as one that can be saved: there is no angle to measure.
pub open spec fn can_save(human: Vec2, hunter: Vec2, player: Vec2, rules: Rules) -> bool {
    let a = dist_sq(human, player);
    let b = dist_sq(human, hunter);
    b == 0 || in_time(
        turns_to_cover(b, rules.zombie_step as int),
        a,
        b,
        dot_from(human, player, hunter),
        rules,
    )
}

impl Human {
    /// The human is held by a zombie, and the player can reach it before
    /// that zombie does.
    pub open spec fn is_savable(self, player: Vec2, zombies: Seq<Zombie>, rules: Rules) -> bool {
        match self.targeted_by {
            None => false,
            Some(z) => can_save(self.pos, zombies[z as int].pos, player, rules),
        }
    }

    /// Tells whether the player can reach this human before the zombie that
    /// holds it does. A human that no zombie holds is not counted as one to
    /// save.
    pub fn savable(&self, player: &Player, zombies: &[Zombie], rules: &Rules) -> (ok: bool)
        requires
            rules.wf(),
            rules.on_map(self.pos),
            rules.on_map(player.pos),
            self.targeted_by matches Some(z) ==> z < zombies@.len() && rules.on_map(
                zombies@[z as int].pos,
            ),
        ensures
            ok == self.is_savable(player.pos, zombies@, *rules),
    {
        match self.targeted_by {
            None => false,
            Some(z_idx) => rescue_in_time(self.pos, zombies[z_idx].pos, player.pos, rules),
        }
    }
}

impl StateView {
    /// The state is not lost yet: once its targeting is worked out afresh,
    /// no zombie is left, or some human can be saved.
    pub open spec fn winnable(self, rules: Rules) -> bool {
        let fresh = self.resolved();
        fresh.zombies.len() == 0 || exists|h: int|
            0 <= h < fresh.humans.len() && (#[trigger] fresh.humans[h]).is_savable(
                fresh.player.pos,
                fresh.zombies,
                rules,
            )
    }
}

/// Where both distances are whole numbers, `p` to the player and `z` to the
/// hunter, `in_time` is the test that its roots were squared away from:
/// `p <= r` if the zombie comes from behind, and `p + k / (p * z) <= r`
/// otherwise, here multiplied by `p * z`.
pub proof fn lemma_in_time_whole(t: int, p: int, z: int, d: int, rules: Rules)
    requires
        rules.wf(),
        t >= 1,
        p > 0,
        z > 0,
    ensures
        ({
            let r = t * rules.player_step + rules.player_range;
            let k = rules.zombie_step * (t - 1) * d;
            in_time(t, p * p, z * z, d, rules) <==> if d <= 0 {
                p <= r
            } else {
                p * (p * z) + k <= r * (p * z)
            }
        }),
{
    let r = t * rules.player_step + rules.player_range;
    let a = p * p;
    let b = z * z;
    assert(r >= 0) by (nonlinear_arith)
        requires
            r == t * rules.player_step + rules.player_range,
            t >= 1,
            rules.player_step >= 0,
            rules.player_range >= 0,
    ;
    if d <= 0 {
        lemma_square_monotone(p, r);
    } else {
        let m = rules.zombie_step * (t - 1);
        let k = m * d;
        assert(k >= 0) by (nonlinear_arith)
            requires
                k == m * d,
                m == rules.zombie_step * (t - 1),
                rules.zombie_step >= 1,
                t >= 1,
                d > 0,
        ;
        let q = p * z;
        let x = p * q + k;
        let y = r * q;
        let l = 2 * a * k * z;
        let v = a * b * (r * r - a) - k * k;
        assert(q > 0) by (nonlinear_arith)
            requires
                q == p * z,
                p > 0,
                z > 0,
        ;
        assert(x >= 0 && y >= 0 && l >= 0) by (nonlinear_arith)
            requires
                x == p * q + k,
                y == r * q,
                l == 2 * a * k * z,
                a == p * p,
                p > 0,
                q > 0,
                k >= 0,
                r >= 0,
                z > 0,
        ;
        lemma_square_monotone(x, y);
        lemma_square_monotone(l, if v >= 0 {
            v
        } else {
            0
        });
        assert(q * q == a * b) by (nonlinear_arith)
            requires
                q == p * z,
                a == p * p,
                b == z * z,
        ;
        assert(p * q == a * z) by (nonlinear_arith)
            requires
                q == p * z,
                a == p * p,
        ;
        let u = a * z;
        assert(x * x == u * u + 2 * u * k + k * k) by (nonlinear_arith)
            requires
                x == u + k,
        ;
        assert(u * u == a * (a * b)) by (nonlinear_arith)
            requires
                u == a * z,
                b == z * z,
        ;
        assert(2 * u * k == l) by (nonlinear_arith)
            requires
                u == a * z,
                l == 2 * a * k * z,
        ;
        let ab = a * b;
        assert(y * y == (r * r) * ab) by (nonlinear_arith)
            requires
                y == r * q,
                q * q == ab,
        ;
        assert(v == (r * r) * ab - a * ab - k * k) by (nonlinear_arith)
            requires
                v == ab * (r * r - a) - k * k,
        ;
        assert(y * y - x * x == v - l);
        assert((2 * a * k) * (2 * a * k * b) == l * l) by (nonlinear_arith)
            requires
                l == 2 * a * k * z,
                b == z * z,
        ;
        assert(rules.zombie_step * (t - 1) * d == k);
    }
}

/// Only one number of turns fits `is_turns`.
pub proof fn lemma_turns_unique(t: int, u: int, b: int, step: int)
    requires
        step >= 1,
        is_turns(t, b, step),
        is_turns(u, b, step),
    ensures
        t == u,
{
    if t < u {
        assert(0 <= t * step <= (u - 1) * step) by (nonlinear_arith)
            requires
                0 <= t <= u - 1,
                step >= 1,
        ;
        lemma_square_monotone(t * step, (u - 1) * step);
    } else if u < t {
        assert(0 <= u * step <= (t - 1) * step) by (nonlinear_arith)
            requires
                0 <= u <= t - 1,
                step >= 1,
        ;
        lemma_square_monotone(u * step, (t - 1) * step);
    }
}

/// The number of turns that it takes to cover a distance whose square is
/// `b` in steps of `step`.
pub fn turns_needed(b: u64, step: u32) -> (t: u64)
    requires
        step >= 1,
    ensures
        is_turns(t as int, b as int, step as int),
        t as int == turns_to_cover(b as int, step as int),
        t <= 0x1_0000_0000,
{
    let c: u128 = isqrt_ceil(b as u128);
    proof {
        if c > 0x1_0000_0000 {
            lemma_square_monotone(0x1_0000_0000, c - 1);
        }
    }
    let s: u128 = step as u128;
    let t: u128 = (c + s - 1) / s;
    proof {
        let ti = t as int;
        let ci = c as int;
        let si = s as int;
        assert(ti * si >= ci && (ti - 1) * si < ci && ti >= 0 && ti <= ci) by (nonlinear_arith)
            requires
                ti == (ci + si - 1) / si,
                si >= 1,
                ci >= 0,
        ;
        lemma_square_monotone(ci, ti * si);
        if ti > 0 {
            assert((ti - 1) * si >= 0) by (nonlinear_arith)
                requires
                    ti >= 1,
                    si >= 1,
            ;
            lemma_square_monotone((ti - 1) * si, ci - 1);
        }
        assert(is_turns(ti, b as int, si));
        lemma_turns_unique(ti, turns_to_cover(b as int, si), b as int, si);
    }
    t as u64
}

/// Tells whether the player at `player` can reach the human at `human`
/// before the zombie at `hunter` does.
pub fn rescue_in_time(human: Vec2, hunter: Vec2, player: Vec2, rules: &Rules) -> (ok: bool)
    requires
        rules.wf(),
        rules.on_map(human),
        rules.on_map(hunter),
        rules.on_map(player),
    ensures
        ok == can_save(human, hunter, player, *rules),
{
    let px: i128 = (player.x - human.x) as i128;
    let py: i128 = (player.y - human.y) as i128;
    let zx: i128 = (hunter.x - human.x) as i128;
    let zy: i128 = (hunter.y - human.y) as i128;
    proof {
        lemma_on_map_near(*rules, human, player);
        lemma_on_map_near(*rules, human, hunter);
        lemma_products(px as int, py as int, zx as int, zy as int);
    }
    let a: i128 = px * px + py * py;
    let b: i128 = zx * zx + zy * zy;
    let d: i128 = px * zx + py * zy;
    assert(a == dist_sq(human, player) && b == dist_sq(human, hunter) && d == dot_from(
        human,
        player,
        hunter,
    )) by (nonlinear_arith)
        requires
            a == px * px + py * py,
            b == zx * zx + zy * zy,
            d == px * zx + py * zy,
            px == player.x - human.x,
            py == player.y - human.y,
            zx == hunter.x - human.x,
            zy == hunter.y - human.y,
            dist_sq(human, player) == (human.x - player.x) * (human.x - player.x) + (human.y
                - player.y) * (human.y - player.y),
            dist_sq(human, hunter) == (human.x - hunter.x) * (human.x - hunter.x) + (human.y
                - hunter.y) * (human.y - hunter.y),
            dot_from(human, player, hunter) == (player.x - human.x) * (hunter.x - human.x) + (
            player.y - human.y) * (hunter.y - human.y),
    ;
    if b == 0 {
        return true;
    }
    let t: i128 = turns_needed(b as u64, rules.zombie_step as u32) as i128;
    let ps: i128 = rules.player_step as i128;
    let kr: i128 = rules.player_range as i128;
    let zs: i128 = rules.zombie_step as i128;
    proof {
        lemma_turn_bounds(t as int, b as int, zs as int);
        assert(0 <= t * ps <= 46341 * 32768) by (nonlinear_arith)
            requires
                0 <= t <= 46341,
                0 <= ps <= 32768,
        ;
    }
    let r: i128 = t * ps + kr;
    assert(0 <= r * r <= 0x8000_0000 * 0x8000_0000) by (nonlinear_arith)
        requires
            0 <= r <= 0x8000_0000,
    ;
    if d <= 0 {
        return a <= r * r;
    }
    let m: i128 = zs * (t - 1);
    assert(0 <= m * d <= 46341 * 0x8000_0000) by (nonlinear_arith)
        requires
            0 <= m <= 46341,
            0 <= d <= 0x8000_0000,
    ;
    let k: i128 = m * d;
    assert(0 <= a * b <= 0x8000_0000 * 0x8000_0000) by (nonlinear_arith)
        requires
            0 <= a <= 0x8000_0000,
            0 <= b <= 0x8000_0000,
    ;
    let ab: i128 = a * b;
    let w: i128 = r * r - a;
    proof {
        assert(-(0x4000_0000_0000_0000 * 0x4000_0000_0000_0000) <= ab * w
            <= 0x4000_0000_0000_0000 * 0x4000_0000_0000_0000) by (nonlinear_arith)
            requires
                0 <= ab <= 0x4000_0000_0000_0000,
                -0x4000_0000_0000_0000 <= w <= 0x4000_0000_0000_0000,
        ;
        assert(0 <= k * k <= 0x8000_0000_0000 * 0x8000_0000_0000) by (nonlinear_arith)
            requires
                0 <= k <= 0x8000_0000_0000,
        ;
        assert(0 <= a * k <= 0x8000_0000 * 0x8000_0000_0000) by (nonlinear_arith)
            requires
                0 <= a <= 0x8000_0000,
                0 <= k <= 0x8000_0000_0000,
        ;
    }
    let v: i128 = ab * w - k * k;
    if v < 0 {
        proof {
            lemma_in_time_terms(t as int, a as int, b as int, d as int, *rules);
        }
        return false;
    }
    let e: i128 = 2 * (a * k);
    assert(0 <= e * b <= 0x1_0000_0000_0000_0000_0000 * 0x8000_0000) by (nonlinear_arith)
        requires
            0 <= e <= 0x1_0000_0000_0000_0000_0000,
            0 <= b <= 0x8000_0000,
    ;
    let f: i128 = e * b;
    proof {
        lemma_in_time_terms(t as int, a as int, b as int, d as int, *rules);
    }
    product_le(e as u128, f as u128, v as u128, v as u128)
}

/// On the map the coordinates of a direction are small, and so are their
/// products.
proof fn lemma_products(px: int, py: int, zx: int, zy: int)
    requires
        -32768 < px < 32768,
        -32768 < py < 32768,
        -32768 < zx < 32768,
        -32768 < zy < 32768,
    ensures
        0 <= px * px <= 0x4000_0000,
        0 <= py * py <= 0x4000_0000,
        0 <= zx * zx <= 0x4000_0000,
        0 <= zy * zy <= 0x4000_0000,
        -0x4000_0000 <= px * zx <= 0x4000_0000,
        -0x4000_0000 <= py * zy <= 0x4000_0000,
{
    assert(0 <= px * px <= 0x4000_0000) by (nonlinear_arith)
        requires
            -32768 < px < 32768,
    ;
    assert(0 <= py * py <= 0x4000_0000) by (nonlinear_arith)
        requires
            -32768 < py < 32768,
    ;
    assert(0 <= zx * zx <= 0x4000_0000) by (nonlinear_arith)
        requires
            -32768 < zx < 32768,
    ;
    assert(0 <= zy * zy <= 0x4000_0000) by (nonlinear_arith)
        requires
            -32768 < zy < 32768,
    ;
    assert(-0x4000_0000 <= px * zx <= 0x4000_0000) by (nonlinear_arith)
        requires
            -32768 < px < 32768,
            -32768 < zx < 32768,
    ;
    assert(-0x4000_0000 <= py * zy <= 0x4000_0000) by (nonlinear_arith)
        requires
            -32768 < py < 32768,
            -32768 < zy < 32768,
    ;
}

/// A zombie on the map reaches its prey in few turns, and all its steps but
/// the last fall short of the prey.
proof fn lemma_turn_bounds(t: int, b: int, step: int)
    requires
        step >= 1,
        0 < b <= 0x8000_0000,
        is_turns(t, b, step),
    ensures
        1 <= t <= 46341,
        0 <= step * (t - 1) <= 46341,
{
    if t == 0 {
        assert(square(0 * step) == 0) by (nonlinear_arith);
    }
    assert((t - 1) * step >= 0) by (nonlinear_arith)
        requires
            t >= 1,
            step >= 1,
    ;
    if (t - 1) * step > 46341 {
        lemma_square_monotone(46341, (t - 1) * step);
    }
    assert(t - 1 <= (t - 1) * step) by (nonlinear_arith)
        requires
            t >= 1,
            step >= 1,
    ;
    assert(step * (t - 1) == (t - 1) * step) by (nonlinear_arith);
}

/// The terms of `in_time`, as the code computes them.
proof fn lemma_in_time_terms(t: int, a: int, b: int, d: int, rules: Rules)
    requires
        d > 0,
    ensures
        ({
            let r = t * rules.player_step + rules.player_range;
            let m = rules.zombie_step * (t - 1);
            let k = m * d;
            let v = (a * b) * (r * r - a) - k * k;
            let e = 2 * (a * k);
            in_time(t, a, b, d, rules) == (v >= 0 && e * (e * b) <= v * v)
        }),
{
    let r = t * rules.player_step + rules.player_range;
    let m = rules.zombie_step * (t - 1);
    let k = m * d;
    let e = 2 * (a * k);
    assert(a * b * (r * r - a) == (a * b) * (r * r - a));
    assert(2 * a * k == e) by (nonlinear_arith)
        requires
            e == 2 * (a * k),
    ;
    assert(2 * a * k * b == e * b) by (nonlinear_arith)
        requires
            e == 2 * (a * k),
    ;
}

} // verus!
