//! The worth of a turn's kills: each further zombie killed in the same turn
//! counts for the next Fibonacci number, and every kill counts for more the
//! more humans are alive.

use vstd::prelude::*;

verus! {

/// The Fibonacci numbers: 0, 1, 1, 2, 3, 5, ...
pub open spec fn fib(n: nat) -> nat
    decreases n,
{
    if n == 0 {
        0
    } else if n == 1 {
        1
    } else {
        fib((n - 1) as nat) + fib((n - 2) as nat)
    }
}

/// The worth of killing `killed` zombies in one turn while `alive` humans
/// live: the sum over `i` from 1 to `killed` of `points * alive^2 * fib(i + 1)`.
pub open spec fn reward(points: nat, killed: nat, alive: nat) -> nat
    decreases killed,
{
    if killed == 0 {
        0
    } else {
        reward(points, (killed - 1) as nat, alive) + points * alive * alive * fib(killed + 1)
    }
}

/// From the first on, no Fibonacci number is zero, and none is smaller than
/// the one before.
pub proof fn lemma_fib_grows(n: nat)
    ensures
        fib(n + 1) >= 1,
        fib(n + 1) >= fib(n),
    decreases n,
{
    if n >= 1 {
        lemma_fib_grows((n - 1) as nat);
    }
}

/// The Fibonacci numbers do not decrease.
pub proof fn lemma_fib_monotone(m: nat, n: nat)
    requires
        m <= n,
    ensures
        fib(m) <= fib(n),
    decreases n - m,
{
    if m < n {
        lemma_fib_monotone(m, (n - 1) as nat);
        lemma_fib_grows((n - 1) as nat);
    }
}

/// A reward in closed form: the Fibonacci numbers from the second to the
/// one after `killed` sum up to `fib(killed + 3) - 2`.
pub proof fn lemma_reward_closed(points: nat, killed: nat, alive: nat)
    ensures
        reward(points, killed, alive) == points * alive * alive * (fib(killed + 3) - 2),
    decreases killed,
{
    let unit = points * alive * alive;
    if killed == 0 {
        assert(fib(3) == 2) by {
            reveal_with_fuel(fib, 4);
        }
        assert(unit * (fib(3) - 2) == 0) by (nonlinear_arith)
            requires
                fib(3) == 2,
        ;
    } else {
        lemma_reward_closed(points, (killed - 1) as nat, alive);
        let a = fib((killed + 2) as nat) - 2;
        let b = fib(killed + 1) as int;
        assert(fib(killed + 3) == fib((killed + 2) as nat) + fib(killed + 1));
        assert(unit * a + unit * b == unit * (a + b)) by (nonlinear_arith);
    }
}

/// Kills pay best together: splitting `k + j` kills over two turns, with no
/// more humans alive in the second than in the first, earns no more than
/// all of them at once.
pub proof fn lemma_reward_split(points: nat, k: nat, j: nat, alive: nat, later: nat)
    requires
        later <= alive,
    ensures
        reward(points, k, alive) + reward(points, j, later) <= reward(points, k + j, alive),
{
    lemma_reward_closed(points, k, alive);
    lemma_reward_closed(points, j, later);
    lemma_reward_closed(points, k + j, alive);
    lemma_fib_sum(k, j);
    lemma_fib_monotone(3, j + 3);
    lemma_fib_monotone(3, k + 3);
    assert(fib(3) == 2) by {
        reveal_with_fuel(fib, 4);
    }
    let u = points * alive * alive;
    let v = points * later * later;
    let a = fib(k + 3) - 2;
    let b = fib(j + 3) - 2;
    let c = fib(k + j + 3) - 2;
    assert(v <= u) by (nonlinear_arith)
        requires
            later <= alive,
            u == points * alive * alive,
            v == points * later * later,
    ;
    assert(u * a + v * b <= u * c) by (nonlinear_arith)
        requires
            0 <= v <= u,
            0 <= a,
            0 <= b,
            a + b <= c,
    ;
}

/// `fib(a + 3) + fib(b + 3) - 2 <= fib(a + b + 3)`.
proof fn lemma_fib_sum(a: nat, b: nat)
    ensures
        fib(a + 3) + fib(b + 3) - 2 <= fib(a + b + 3),
    decreases b,
{
    assert(fib(3) == 2 && fib(4) == 3) by {
        reveal_with_fuel(fib, 5);
    }
    lemma_fib_monotone(3, a + 3);
    if b == 0 {
    } else if b == 1 {
        lemma_fib_grows(a + 1);
        assert(fib(a + 4) == fib(a + 3) + fib(a + 2));
    } else {
        lemma_fib_sum(a, (b - 1) as nat);
        lemma_fib_sum(a, (b - 2) as nat);
        assert(fib(a + b + 3) == fib((a + b + 2) as nat) + fib((a + b + 1) as nat));
        assert(fib(b + 3) == fib((b + 2) as nat) + fib((b + 1) as nat));
    }
}

/// Nothing is earned where there are no points to earn or nobody to earn
/// them for.
pub proof fn lemma_reward_nothing(points: nat, killed: nat, alive: nat)
    requires
        points == 0 || alive == 0,
    ensures
        reward(points, killed, alive) == 0,
    decreases killed,
{
    if killed > 0 {
        lemma_reward_nothing(points, (killed - 1) as nat, alive);
        assert(points * alive * alive * fib(killed + 1) == 0) by (nonlinear_arith)
            requires
                points == 0 || alive == 0,
        ;
    }
}

/// A reward does not shrink with more kills or more humans alive.
pub proof fn lemma_reward_monotone(points: nat, k: nat, j: nat, alive: nat, later: nat)
    requires
        j <= k,
        later <= alive,
    ensures
        reward(points, j, later) <= reward(points, k, alive),
{
    lemma_reward_split(points, (k - j) as nat, j, alive, later);
}

/// The worth of killing `killed` zombies in one turn while `alive` humans
/// live, if it is at most `room`; nothing if it is more.
pub fn checked_reward(points: i32, killed: usize, alive: usize, room: i128) -> (r: Option<i128>)
    requires
        0 <= points,
        0 <= room,
    ensures
        r matches Some(v) ==> v == reward(points as nat, killed as nat, alive as nat) && v <= room,
        r is None ==> reward(points as nat, killed as nat, alive as nat) > room,
{
    let ghost p = points as nat;
    let ghost h = alive as nat;
    let ghost k = killed as nat;
    if killed == 0 {
        return Some(0);
    }
    if alive == 0 || points == 0 {
        proof {
            lemma_reward_nothing(p, k, h);
        }
        return Some(0);
    }
    assert(0 <= points * alive <= 0x7fff_ffff * 0xffff_ffff_ffff_ffff)
        by (nonlinear_arith)
        requires
            0 <= points <= 0x7fff_ffff,
            0 <= alive <= 0xffff_ffff_ffff_ffff,
    ;
    let ph: i128 = (points as i128) * (alive as i128);
    let hh: i128 = alive as i128;
    proof {
        lemma_reward_monotone(p, k, 1, h, h);
        reveal_with_fuel(reward, 2);
        reveal_with_fuel(fib, 3);
        assert(reward(p, 1, h) == p * h * h * 1);
        assert(p * h * h >= 1) by (nonlinear_arith)
            requires
                p >= 1,
                h >= 1,
        ;
    }
    if ph > room / hh {
        assert(ph * hh > room) by (nonlinear_arith)
            requires
                ph > room / hh,
                hh >= 1,
                room >= 0,
        ;
        return None;
    }
    assert(0 <= ph * hh <= room) by (nonlinear_arith)
        requires
            0 <= ph <= room / hh,
            hh >= 1,
            room >= 0,
    ;
    let unit: i128 = ph * hh;
    let mut a: i128 = 1;
    let mut b: i128 = 1;
    let mut sum: i128 = 0;
    let mut i: usize = 0;
    while i < killed
        invariant
            i <= killed,
            p == points,
            h == alive,
            k == killed,
            unit == p * h * h,
            1 <= unit <= room,
            0 <= sum <= room,
            sum == reward(p, i as nat, h),
            i < killed ==> a == fib((i + 1) as nat) && b == fib((i + 2) as nat),
            i < killed ==> 0 <= a <= b <= room,
        decreases killed - i,
    {
        proof {
            lemma_reward_monotone(p, k, (i + 1) as nat, h, h);
            assert(reward(p, (i + 1) as nat, h) == reward(p, i as nat, h) + p * h * h * fib(
                (i + 2) as nat,
            ));
        }
        let rest: i128 = room - sum;
        if b > rest / unit {
            assert(unit * b > rest) by (nonlinear_arith)
                requires
                    b > rest / unit,
                    unit >= 1,
                    rest >= 0,
            ;
            return None;
        }
        assert(0 <= unit * b <= rest) by (nonlinear_arith)
            requires
                0 <= b <= rest / unit,
                unit >= 1,
                rest >= 0,
        ;
        sum = sum + unit * b;
        i = i + 1;
        if i < killed {
            proof {
                let f = fib((i + 2) as nat) as int;
                lemma_reward_monotone(p, k, (i + 1) as nat, h, h);
                assert(reward(p, (i + 1) as nat, h) == reward(p, i as nat, h) + p * h * h * fib(
                    (i + 2) as nat,
                ));
                assert(f <= unit * f) by (nonlinear_arith)
                    requires
                        unit >= 1,
                        f >= 0,
                ;
                assert(fib((i + 2) as nat) == fib((i + 1) as nat) + fib(i as nat));
            }
            if a > room - b {
                return None;
            }
            let c: i128 = a + b;
            a = b;
            b = c;
        }
    }
    Some(sum)
}

} // verus!
