//! What one tick does, stated in plain units: durations count down by one tick and
//! expire, cooldowns tick down, Heartseeker Barrage rolls 20% for extra damage on a marked
//! target, the rPPM proc chance grows with real time since the last chance, and each
//! ability has its focus price.
use vstd::prelude::*;

use crate::common::{first_match, is_first_match, lemma_first_match_in_range, lemma_first_match_unique, Ability};
use crate::sim::{
    ability_effects, bookkeeping, cooldown_of, decay_buffs, decay_debuffs, heartseeker_projectiles,
    heartseeker_volley, impetus_charges, is_usable, key_is, last_check, lcg_next,
    mark_roll_succeeds, marked_projectile_damage, pay_for, proc_after, record_check, rppm_chance,
    rppm_roll_succeeds, haste_numerator, strike, uses_impetus, BuffView, CooldownState,
    DebuffView, GameView, TargetId, apply_mark, has_mark, is_mark, mark_pred, enemy_marked,
    execute, cooldown_insert, ability_is, Action, EnemyView, LUNARLIGHT_MARK, buffs_well_shaped,
    consume_impetus, grant_impetus, initial_view, CELESTIAL_IMPETUS,
};
use crate::config::SimConfig;
use crate::invariants::{lemma_consume_spends_one, lemma_grant_adds_one};

verus! {

// ---------------------------------------------------------------------------
// Durations
// ---------------------------------------------------------------------------

/// A debuff one tick older: one tick fewer left, nothing else changed.
pub open spec fn debuff_older(d: DebuffView) -> DebuffView {
    DebuffView { duration_ticks: (d.duration_ticks - 1) as i32, ..d }
}

/// `d` is one tick older than some debuff of `ds` that had more than one tick left.
pub open spec fn debuff_aged_from(d: DebuffView, ds: Seq<DebuffView>) -> bool {
    exists|j: int| 0 <= j < ds.len() && ds[j].duration_ticks > 1 && d == debuff_older(ds[j])
}

/// `ds` holds `d` one tick older.
pub open spec fn debuff_kept_in(d: DebuffView, ds: Seq<DebuffView>) -> bool {
    exists|k: int| 0 <= k < ds.len() && ds[k] == debuff_older(d)
}

/// How many debuffs of `ds` have more than one tick left.
pub open spec fn debuffs_lasting(ds: Seq<DebuffView>) -> nat
    decreases ds.len(),
{
    if ds.len() == 0 {
        0
    } else {
        debuffs_lasting(ds.drop_last()) + if ds.last().duration_ticks > 1 {
            1nat
        } else {
            0nat
        }
    }
}

proof fn lemma_decay_debuffs_pointwise(ds: Seq<DebuffView>)
    ensures
        decay_debuffs(ds).len() == debuffs_lasting(ds),
        forall|k: int|
            0 <= k < decay_debuffs(ds).len() ==> debuff_aged_from(#[trigger] decay_debuffs(ds)[k], ds),
        forall|j: int|
            0 <= j < ds.len() && ds[j].duration_ticks > 1 ==> debuff_kept_in(
                #[trigger] ds[j],
                decay_debuffs(ds),
            ),
    decreases ds.len(),
{
    if ds.len() > 0 {
        let p = ds.drop_last();
        lemma_decay_debuffs_pointwise(p);
        let rp = decay_debuffs(p);
        let r = decay_debuffs(ds);
        let d = ds.last();
        assert(ds[ds.len() - 1] == d);
        assert forall|k: int| 0 <= k < r.len() implies debuff_aged_from(#[trigger] r[k], ds) by {
            if k < rp.len() {
                assert(r[k] == rp[k]);
                assert(debuff_aged_from(rp[k], p));
                let j = choose|j: int|
                    0 <= j < p.len() && p[j].duration_ticks > 1 && rp[k] == debuff_older(p[j]);
                assert(p[j] == ds[j]);
            } else {
                assert(r[k] == debuff_older(d));
            }
        }
        assert forall|j: int| 0 <= j < ds.len() && ds[j].duration_ticks > 1 implies debuff_kept_in(
            #[trigger] ds[j],
            r,
        ) by {
            if j < p.len() {
                assert(ds[j] == p[j]);
                assert(debuff_kept_in(p[j], rp));
                let k = choose|k: int| 0 <= k < rp.len() && rp[k] == debuff_older(p[j]);
                assert(r[k] == rp[k]);
            } else {
                assert(r[rp.len() as int] == debuff_older(d));
            }
        }
    }
}

/// Bookkeeping ages every enemy's debuffs by one tick: each debuff left afterwards is one
/// that had more than one tick left, with exactly one tick fewer and the same id and
/// stacks; each debuff that had more than one tick left is still there one tick older; a
/// debuff with at most one tick left is gone; and nothing else is added. Health, maximum
/// health and the number of enemies are unchanged.
pub proof fn lemma_bookkeeping_ages_debuffs(v: GameView, i: int)
    requires
        0 <= i < v.enemies.len(),
    ensures
        bookkeeping(v).enemies.len() == v.enemies.len(),
        bookkeeping(v).enemies[i].health == v.enemies[i].health,
        bookkeeping(v).enemies[i].max_health == v.enemies[i].max_health,
        bookkeeping(v).enemies[i].debuffs.len() == debuffs_lasting(v.enemies[i].debuffs),
        forall|k: int|
            0 <= k < bookkeeping(v).enemies[i].debuffs.len() ==> debuff_aged_from(
                #[trigger] bookkeeping(v).enemies[i].debuffs[k],
                v.enemies[i].debuffs,
            ),
        forall|j: int|
            0 <= j < v.enemies[i].debuffs.len() && v.enemies[i].debuffs[j].duration_ticks > 1
                ==> debuff_kept_in(#[trigger] v.enemies[i].debuffs[j], bookkeeping(v).enemies[i].debuffs),
{
    lemma_decay_debuffs_pointwise(v.enemies[i].debuffs);
}

/// The debuffs after `n` ticks of bookkeeping.
pub open spec fn debuffs_after(ds: Seq<DebuffView>, n: nat) -> Seq<DebuffView>
    decreases n,
{
    if n == 0 {
        ds
    } else {
        debuffs_after(decay_debuffs(ds), (n - 1) as nat)
    }
}

/// Debuffs expire: when every debuff has at most `n >= 1` ticks left, none is left after
/// `n` ticks. In particular a debuff put on with a duration of `n` ticks and not refreshed
/// is gone after `n` ticks.
pub proof fn lemma_debuffs_expire(ds: Seq<DebuffView>, n: nat)
    requires
        n >= 1,
        forall|j: int| 0 <= j < ds.len() ==> (#[trigger] ds[j]).duration_ticks <= n,
    ensures
        debuffs_after(ds, n).len() == 0,
    decreases n,
{
    lemma_decay_debuffs_pointwise(ds);
    let r = decay_debuffs(ds);
    assert forall|k: int| 0 <= k < r.len() implies 1 <= (#[trigger] r[k]).duration_ticks <= n - 1 by {
        assert(debuff_aged_from(r[k], ds));
        let j = choose|j: int| 0 <= j < ds.len() && ds[j].duration_ticks > 1 && r[k] == debuff_older(ds[j]);
        assert(ds[j].duration_ticks <= n);
    }
    assert(debuffs_after(ds, n) == debuffs_after(r, (n - 1) as nat));
    if n == 1 {
        if r.len() > 0 {
            assert(1 <= r[0].duration_ticks <= 0);
        }
    } else {
        lemma_debuffs_expire(r, (n - 1) as nat);
    }
}

/// A buff one tick older: one tick fewer left, nothing else changed.
pub open spec fn buff_older(b: BuffView) -> BuffView {
    BuffView { duration_ticks: (b.duration_ticks - 1) as i32, ..b }
}

/// `b` is one tick older than some buff of `bs` that had more than one tick left.
pub open spec fn buff_aged_from(b: BuffView, bs: Seq<BuffView>) -> bool {
    exists|j: int| 0 <= j < bs.len() && bs[j].duration_ticks > 1 && b == buff_older(bs[j])
}

/// `bs` holds `b` one tick older.
pub open spec fn buff_kept_in(b: BuffView, bs: Seq<BuffView>) -> bool {
    exists|k: int| 0 <= k < bs.len() && bs[k] == buff_older(b)
}

/// How many buffs of `bs` have more than one tick left.
pub open spec fn buffs_lasting(bs: Seq<BuffView>) -> nat
    decreases bs.len(),
{
    if bs.len() == 0 {
        0
    } else {
        buffs_lasting(bs.drop_last()) + if bs.last().duration_ticks > 1 {
            1nat
        } else {
            0nat
        }
    }
}

/// Bookkeeping ages the buffs by one tick: each buff left afterwards is one that had more
/// than one tick left, with exactly one tick fewer and the same id and charges; each buff
/// that had more than one tick left is still there one tick older; a buff with at most one
/// tick left is gone; and nothing else is added.
pub proof fn lemma_bookkeeping_ages_buffs(v: GameView)
    ensures
        bookkeeping(v).buffs.len() == buffs_lasting(v.buffs),
        forall|k: int|
            0 <= k < bookkeeping(v).buffs.len() ==> buff_aged_from(
                #[trigger] bookkeeping(v).buffs[k],
                v.buffs,
            ),
        forall|j: int|
            0 <= j < v.buffs.len() && v.buffs[j].duration_ticks > 1 ==> buff_kept_in(
                #[trigger] v.buffs[j],
                bookkeeping(v).buffs,
            ),
    decreases v.buffs.len(),
{
    let bs = v.buffs;
    if bs.len() > 0 {
        let w = GameView { buffs: bs.drop_last(), ..v };
        lemma_bookkeeping_ages_buffs(w);
        let p = bs.drop_last();
        let rp = decay_buffs(p);
        let r = decay_buffs(bs);
        let b = bs.last();
        assert(bs[bs.len() - 1] == b);
        assert forall|k: int| 0 <= k < r.len() implies buff_aged_from(#[trigger] r[k], bs) by {
            if k < rp.len() {
                assert(r[k] == rp[k]);
                assert(buff_aged_from(rp[k], p));
                let j = choose|j: int|
                    0 <= j < p.len() && p[j].duration_ticks > 1 && rp[k] == buff_older(p[j]);
                assert(p[j] == bs[j]);
            } else {
                assert(r[k] == buff_older(b));
            }
        }
        assert forall|j: int| 0 <= j < bs.len() && bs[j].duration_ticks > 1 implies buff_kept_in(
            #[trigger] bs[j],
            r,
        ) by {
            if j < p.len() {
                assert(bs[j] == p[j]);
                assert(buff_kept_in(p[j], rp));
                let k = choose|k: int| 0 <= k < rp.len() && rp[k] == buff_older(p[j]);
                assert(r[k] == rp[k]);
            } else {
                assert(r[rp.len() as int] == buff_older(b));
            }
        }
    }
}

/// Bookkeeping ticks every cooldown down: each entry keeps its ability and multiplier, and
/// its remaining ticks drop by the multiplier, but not below 0.
pub proof fn lemma_bookkeeping_ticks_cooldowns(v: GameView)
    ensures
        bookkeeping(v).cooldowns.len() == v.cooldowns.len(),
        forall|k: int|
            0 <= k < v.cooldowns.len() ==> (#[trigger] bookkeeping(v).cooldowns[k]).0
                == v.cooldowns[k].0 && bookkeeping(v).cooldowns[k].1.cdr_multiplier
                == v.cooldowns[k].1.cdr_multiplier && bookkeeping(v).cooldowns[k].1.remaining_ticks
                == if v.cooldowns[k].1.remaining_ticks >= v.cooldowns[k].1.cdr_multiplier {
                v.cooldowns[k].1.remaining_ticks - v.cooldowns[k].1.cdr_multiplier
            } else {
                0
            },
{
}

// ---------------------------------------------------------------------------
// Heartseeker Barrage
// ---------------------------------------------------------------------------

/// On a marked target each projectile rolls `seed / 2^64` against 20%: the first projectile
/// of a volley deals 38 (25 at 150%, rounded) when `seed / 2^64 < 0.2` and 25 otherwise,
/// and the rest of the volley rolls on from the next seed.
pub proof fn lemma_marked_volley_first_roll(seed: u64, n: nat)
    requires
        n >= 1,
    ensures
        heartseeker_volley(seed, n, true).0 == (if (seed as int) * 5 < 0x1_0000_0000_0000_0000 {
            38int
        } else {
            25int
        }) + heartseeker_volley(lcg_next(seed), (n - 1) as nat, true).0,
        heartseeker_volley(seed, n, true).1 == heartseeker_volley(
            lcg_next(seed),
            (n - 1) as nat,
            true,
        ).1,
    decreases n,
{
    lemma_roll_in_units(seed);
    if n == 1 {
        assert(heartseeker_volley(seed, 0, true) == (0int, seed));
        assert(heartseeker_volley(lcg_next(seed), 0, true) == (0int, lcg_next(seed)));
    } else {
        lemma_marked_volley_first_roll(seed, (n - 1) as nat);
        let s = heartseeker_volley(seed, (n - 1) as nat, true).1;
        lemma_roll_in_units(s);
    }
}

proof fn lemma_roll_in_units(s: u64)
    ensures
        mark_roll_succeeds(s) == ((s as int) * 5 < 0x1_0000_0000_0000_0000),
        marked_projectile_damage() == 38,
{
}

/// Each projectile adds 25 or 38 damage to a marked volley, and the volley's last seed has
/// rolled once per projectile.
pub proof fn lemma_marked_volley_bounds(seed: u64, n: nat)
    ensures
        25 * n <= heartseeker_volley(seed, n, true).0 <= 38 * n,
    decreases n,
{
    if n > 0 {
        lemma_marked_volley_bounds(seed, (n - 1) as nat);
    }
}

/// On a target without Lunarlight Mark every projectile deals 25 and nothing is rolled.
pub proof fn lemma_unmarked_volley(seed: u64, n: nat)
    ensures
        heartseeker_volley(seed, n, false) == (25 * n as int, seed),
    decreases n,
{
    if n > 0 {
        lemma_unmarked_volley(seed, (n - 1) as nat);
    }
}

/// Heartseeker Barrage fires ten projectiles per unit of haste multiplier
/// `haste_num / 17000`, rounded to the nearest (halves up).
pub proof fn lemma_projectile_count(haste_num: int)
    requires
        haste_num > 0,
    ensures
        heartseeker_projectiles(haste_num) * 34000 <= 20 * haste_num + 17000,
        20 * haste_num + 17000 < (heartseeker_projectiles(haste_num) + 1) * 34000,
{
    let p = heartseeker_projectiles(haste_num);
    assert(p == (haste_num * 10 + 8500) / 17000);
    assert(p * 17000 <= haste_num * 10 + 8500 < (p + 1) * 17000) by (nonlinear_arith)
        requires
            p == (haste_num * 10 + 8500) / 17000,
            haste_num > 0,
    ;
}

// ---------------------------------------------------------------------------
// rPPM
// ---------------------------------------------------------------------------

/// The rPPM roll in real units: with `e` ticks of 100 ms since the last chance, the proc
/// happens exactly when `seed / 2^64 < ppm * haste * min(e * 100 ms, 10 000 ms) / 60 000 ms`,
/// where the haste multiplier is `haste_num / 17000`.
pub proof fn lemma_rppm_roll_units(seed: u64, ppm: u32, haste_num: int, e: int)
    ensures
        rppm_roll_succeeds(seed, ppm, haste_num, e) == ({
            let ms: int = if e * 100 < 10000 {
                e * 100
            } else {
                10000
            };
            (seed as int) * 17000 * 60000 < (ppm as int) * haste_num * ms * 0x1_0000_0000_0000_0000
        }),
{
    let ms: int = if e * 100 < 10000 {
        e * 100
    } else {
        10000
    };
    assert((seed as int) * 17000 * 60000 == (seed as int) * (17000 * 60000)) by (nonlinear_arith);
}

/// A proc chance measures time from the previous chance of the same proc: the roll uses
/// the ticks since that chance (all ticks so far when there was none), the chance is
/// recorded at the current tick, and the seed advances by one roll.
pub proof fn lemma_rppm_chance_elapsed(v: GameView, id: Seq<char>, ppm: u32)
    ensures
        rppm_chance(v, id, ppm).0 == rppm_roll_succeeds(
            v.rng_seed,
            ppm,
            haste_numerator(v.config),
            if v.tick >= last_check(v.rppm_last_check_tick, id) {
                v.tick - last_check(v.rppm_last_check_tick, id)
            } else {
                0
            },
        ),
        last_check(rppm_chance(v, id, ppm).1.rppm_last_check_tick, id) == v.tick,
        rppm_chance(v, id, ppm).1.rng_seed == lcg_next(v.rng_seed),
{
    let m = v.rppm_last_check_tick;
    let r = record_check(m, id, v.tick);
    lemma_first_match_in_range(m, key_is(id));
    let i = first_match(m, key_is(id));
    if i >= 0 {
        assert forall|j: int| 0 <= j < i implies !key_is(id)(#[trigger] r[j]) by {
            assert(r[j] == m[j]);
        }
        assert(is_first_match(r, key_is(id), i));
        lemma_first_match_unique(r, key_is(id), i);
    } else {
        let n = m.len() as int;
        assert forall|j: int| 0 <= j < n implies !key_is(id)(#[trigger] r[j]) by {
            assert(r[j] == m[j]);
            if key_is(id)(m[j]) {
                crate::common::lemma_first_match_found(m, key_is(id), j);
            }
        }
        assert(is_first_match(r, key_is(id), n));
        lemma_first_match_unique(r, key_is(id), n);
    }
}

/// A second chance of the same proc in the same tick never procs: no time has passed.
pub proof fn lemma_rppm_no_proc_twice_in_a_tick(v: GameView, id: Seq<char>, ppm: u32)
    ensures
        !rppm_chance(rppm_chance(v, id, ppm).1, id, ppm).0,
{
    lemma_rppm_chance_elapsed(v, id, ppm);
    let w = rppm_chance(v, id, ppm).1;
    lemma_rppm_chance_elapsed(w, id, ppm);
    let h = haste_numerator(w.config);
    assert((ppm as int) * h * 0 * 0x1_0000_0000_0000_0000 == 0) by (nonlinear_arith);
    assert(!rppm_roll_succeeds(w.rng_seed, ppm, h, 0));
}

// ---------------------------------------------------------------------------
// Focus prices
// ---------------------------------------------------------------------------

/// What an ability costs in focus: Celestial Shot 15 (nothing while a Celestial Impetus
/// charge is held), Focused Shot generates 20, Heartseeker Barrage 30, Highwind Arrow 30,
/// Multishot 40, the cooldown abilities nothing.
pub open spec fn focus_price(v: GameView, a: Ability) -> int {
    match a {
        Ability::CelestialShot => if impetus_charges(v.buffs) > 0 {
            0
        } else {
            15
        },
        Ability::FocusedShot => -20,
        Ability::HeartseekerBarrage => 30,
        Ability::HighwindArrow => 30,
        Ability::Multishot => 40,
        Ability::EventHorizon => 0,
        Ability::SkystridersGrace => 0,
        Ability::LunarlightMark => 0,
        Ability::StarfallVolley => 0,
        Ability::SkystridersSupremacy => 0,
    }
}

/// Firing an ability changes focus by exactly its price (focus gained stops at the
/// maximum), from any focus that is not negative.
pub proof fn lemma_firing_pays_price(v: GameView, a: Ability, t: TargetId)
    requires
        0 <= v.focus,
    ensures
        ability_effects(v, a, t).focus == if v.focus - focus_price(v, a) < v.max_focus {
            v.focus - focus_price(v, a)
        } else {
            v.max_focus as int
        },
{
    let p = pay_for(v, a);
    lemma_pay_for_focus(v, a);
    let s = strike(p, a, t, uses_impetus(v, a));
    lemma_strike_keeps_focus(p, a, t, uses_impetus(v, a));
    lemma_proc_keeps_focus(s, a);
}

/// An ability is usable exactly when no cast or channel is under way, it is off cooldown
/// and the focus covers its price.
pub proof fn lemma_usable_iff_price_covered(v: GameView, a: Ability)
    ensures
        is_usable(v, a) == (v.casting is None && v.channeling is None && v.focus >= focus_price(
            v,
            a,
        ) && match cooldown_of(v.cooldowns, a) {
            Some(cd) => cd.remaining_ticks == 0,
            None => true,
        }),
{
}

proof fn lemma_pay_for_focus(v: GameView, a: Ability)
    requires
        0 <= v.focus,
    ensures
        pay_for(v, a).focus == if v.focus - focus_price(v, a) < v.max_focus {
            v.focus - focus_price(v, a)
        } else {
            v.max_focus as int
        },
{
}

proof fn lemma_strike_keeps_focus(v: GameView, a: Ability, t: TargetId, marks: bool)
    ensures
        strike(v, a, t, marks).focus == v.focus,
{
}

proof fn lemma_proc_keeps_focus(v: GameView, a: Ability)
    ensures
        proc_after(v, a).focus == v.focus,
{
}


// ---------------------------------------------------------------------------
// Damage, marks, cooldowns, casts
// ---------------------------------------------------------------------------

/// The damage an ability deals to its target: Heartseeker Barrage its volley, Celestial
/// Shot 150, Focused Shot 200, the others none.
pub open spec fn damage_dealt(v: GameView, a: Ability, t: TargetId) -> int {
    match a {
        Ability::HeartseekerBarrage => heartseeker_volley(
            v.rng_seed,
            heartseeker_projectiles(haste_numerator(v.config)),
            enemy_marked(v, t),
        ).0,
        Ability::CelestialShot => 150,
        Ability::FocusedShot => 200,
        _ => 0,
    }
}

/// A strike hits only its target: the target's health drops by the ability's damage, not
/// below 0, its maximum health is kept, it gains Lunarlight Mark exactly when `marks`
/// (else its debuffs are kept), and every other enemy is untouched.
pub proof fn lemma_strike_hits_target(v: GameView, a: Ability, t: TargetId, marks: bool)
    requires
        t < v.enemies.len(),
    ensures
        strike(v, a, t, marks).enemies.len() == v.enemies.len(),
        strike(v, a, t, marks).enemies[t as int].health == if v.enemies[t as int].health
            - damage_dealt(v, a, t) > 0 {
            v.enemies[t as int].health - damage_dealt(v, a, t)
        } else {
            0
        },
        strike(v, a, t, marks).enemies[t as int].max_health == v.enemies[t as int].max_health,
        marks ==> has_mark(strike(v, a, t, marks).enemies[t as int]),
        !marks ==> strike(v, a, t, marks).enemies[t as int].debuffs == v.enemies[t as int].debuffs,
        forall|i: int|
            0 <= i < v.enemies.len() && i != t ==> #[trigger] strike(v, a, t, marks).enemies[i]
                == v.enemies[i],
{
    let n = heartseeker_projectiles(haste_numerator(v.config));
    if enemy_marked(v, t) {
        lemma_marked_volley_bounds(v.rng_seed, n);
    } else {
        lemma_unmarked_volley(v.rng_seed, n);
    }
    let hit = crate::sim::take_damage(v.enemies[t as int], damage_dealt(v, a, t));
    if marks {
        lemma_mark_applied(hit, 3);
    }
}

/// Lunarlight Mark `e` carries after a mark of `s` stacks at debuff `k`: same id, a fresh
/// 150 ticks, and `s` more stacks than debuff `k` had.
pub open spec fn mark_refreshed_at(e: EnemyView, r: Seq<DebuffView>, s: u32, k: int) -> bool {
    &&& 0 <= k < e.debuffs.len()
    &&& is_mark(e.debuffs[k])
    &&& r[k] == DebuffView {
        id: e.debuffs[k].id,
        duration_ticks: 150,
        stacks: (e.debuffs[k].stacks + s) as u32,
    }
    &&& forall|j: int| 0 <= j < e.debuffs.len() && j != k ==> #[trigger] r[j] == e.debuffs[j]
}

/// Putting `s` stacks of Lunarlight Mark on an enemy: it is marked afterwards; a mark it
/// already had gains the stacks and a fresh 150 ticks, every other debuff kept; with no
/// mark, a new one with `s` stacks and 150 ticks is added after its debuffs. Health is
/// unchanged.
pub proof fn lemma_mark_applied(e: EnemyView, s: u32)
    ensures
        has_mark(apply_mark(e, s)),
        apply_mark(e, s).health == e.health,
        apply_mark(e, s).max_health == e.max_health,
        has_mark(e) ==> apply_mark(e, s).debuffs.len() == e.debuffs.len() && exists|k: int|
            mark_refreshed_at(e, apply_mark(e, s).debuffs, s, k),
        !has_mark(e) ==> apply_mark(e, s).debuffs == e.debuffs.push(
            DebuffView { id: LUNARLIGHT_MARK@, duration_ticks: 150, stacks: s },
        ),
{
    let ds = e.debuffs;
    let r = apply_mark(e, s).debuffs;
    lemma_first_match_in_range(ds, mark_pred());
    let i = first_match(ds, mark_pred());
    if i >= 0 {
        assert(mark_refreshed_at(e, r, s, i));
        assert(is_mark(r[i]));
    } else {
        if has_mark(e) {
            let k = choose|k: int| 0 <= k < ds.len() && is_mark(#[trigger] ds[k]);
            assert(mark_pred()(ds[k]));
            crate::common::lemma_first_match_found(ds, mark_pred(), k);
        }
        assert(is_mark(r[ds.len() as int]));
    }
}

/// The cooldown an ability starts, in ticks: Event Horizon 180, Skystrider's Grace 90,
/// Lunarlight Mark 60, Starfall Volley 120, Skystrider's Supremacy 300, Heartseeker
/// Barrage 200, the others none.
pub open spec fn cooldown_started(a: Ability) -> int {
    match a {
        Ability::EventHorizon => 180,
        Ability::SkystridersGrace => 90,
        Ability::LunarlightMark => 60,
        Ability::StarfallVolley => 120,
        Ability::SkystridersSupremacy => 300,
        Ability::HeartseekerBarrage => 200,
        _ => 0,
    }
}

proof fn lemma_cooldown_insert_found(cds: Seq<(Ability, CooldownState)>, a: Ability, cd: CooldownState)
    ensures
        cooldown_of(cooldown_insert(cds, a, cd), a) == Some(cd),
{
    let r = cooldown_insert(cds, a, cd);
    lemma_first_match_in_range(cds, ability_is(a));
    let i = first_match(cds, ability_is(a));
    if i >= 0 {
        assert forall|j: int| 0 <= j < i implies !ability_is(a)(#[trigger] r[j]) by {
            assert(r[j] == cds[j]);
        }
        assert(is_first_match(r, ability_is(a), i));
        lemma_first_match_unique(r, ability_is(a), i);
    } else {
        let n = cds.len() as int;
        assert forall|j: int| 0 <= j < n implies !ability_is(a)(#[trigger] r[j]) by {
            assert(r[j] == cds[j]);
            if ability_is(a)(cds[j]) {
                crate::common::lemma_first_match_found(cds, ability_is(a), j);
            }
        }
        assert(is_first_match(r, ability_is(a), n));
        lemma_first_match_unique(r, ability_is(a), n);
    }
}

/// Firing an ability with a cooldown puts it on that cooldown, at full length with a
/// multiplier of 1; firing one without leaves the cooldowns as they were.
pub proof fn lemma_firing_starts_cooldown(v: GameView, a: Ability, t: TargetId)
    ensures
        cooldown_started(a) > 0 ==> cooldown_of(ability_effects(v, a, t).cooldowns, a) == Some(
            CooldownState { remaining_ticks: cooldown_started(a) as u32, cdr_multiplier: 1 },
        ),
        cooldown_started(a) == 0 ==> ability_effects(v, a, t).cooldowns == v.cooldowns,
{
    let p = pay_for(v, a);
    lemma_pay_for_cooldowns(v, a);
    let s = strike(p, a, t, uses_impetus(v, a));
    lemma_strike_keeps_cooldowns(p, a, t, uses_impetus(v, a));
    lemma_proc_keeps_cooldowns(s, a);
}

proof fn lemma_pay_for_cooldowns(v: GameView, a: Ability)
    ensures
        cooldown_started(a) > 0 ==> cooldown_of(pay_for(v, a).cooldowns, a) == Some(
            CooldownState { remaining_ticks: cooldown_started(a) as u32, cdr_multiplier: 1 },
        ),
        cooldown_started(a) == 0 ==> pay_for(v, a).cooldowns == v.cooldowns,
{
    if cooldown_started(a) > 0 {
        lemma_cooldown_insert_found(
            v.cooldowns,
            a,
            CooldownState { remaining_ticks: cooldown_started(a) as u32, cdr_multiplier: 1 },
        );
    }
}

proof fn lemma_strike_keeps_cooldowns(v: GameView, a: Ability, t: TargetId, marks: bool)
    ensures
        strike(v, a, t, marks).cooldowns == v.cooldowns,
{
}

proof fn lemma_proc_keeps_cooldowns(v: GameView, a: Ability)
    ensures
        proc_after(v, a).cooldowns == v.cooldowns,
{
}

/// With nothing under way, using a usable Focused Shot starts a 12-tick cast (1.22 s at
/// 100 ms ticks, rounded) and using a usable Heartseeker Barrage starts a 25-tick channel,
/// at the chosen target; nothing else changes until they complete.
pub proof fn lemma_cast_and_channel_start(v: GameView, t: TargetId)
    requires
        v.casting is None,
        v.channeling is None,
    ensures
        is_usable(v, Ability::FocusedShot) ==> execute(v, Action::UseAbility(Ability::FocusedShot), t)
            == (true, GameView { casting: Some((Ability::FocusedShot, t, 12u32)), ..v }),
        is_usable(v, Ability::HeartseekerBarrage) ==> execute(
            v,
            Action::UseAbility(Ability::HeartseekerBarrage),
            t,
        ) == (true, GameView { channeling: Some((Ability::HeartseekerBarrage, t, 25u32)), ..v }),
{
}


/// Celestial Shot and Celestial Impetus: fired while a charge is held, it spends exactly
/// one charge and marks its target; fired with none, it leaves the buffs and the target's
/// debuffs as they were.
pub proof fn lemma_celestial_shot_uses_impetus(v: GameView, t: TargetId)
    requires
        buffs_well_shaped(v.buffs),
        t < v.enemies.len(),
    ensures
        impetus_charges(v.buffs) > 0 ==> impetus_charges(
            ability_effects(v, Ability::CelestialShot, t).buffs,
        ) == impetus_charges(v.buffs) - 1 && has_mark(
            ability_effects(v, Ability::CelestialShot, t).enemies[t as int],
        ),
        impetus_charges(v.buffs) == 0 ==> ability_effects(v, Ability::CelestialShot, t).buffs
            == v.buffs && ability_effects(v, Ability::CelestialShot, t).enemies[t as int].debuffs
            == v.enemies[t as int].debuffs,
{
    let a = Ability::CelestialShot;
    let p = pay_for(v, a);
    if impetus_charges(v.buffs) > 0 {
        lemma_consume_spends_one(v.buffs);
    }
    lemma_strike_hits_target(p, a, t, uses_impetus(v, a));
}

/// Focused Shot and Celestial Impetus: when it fires, one rPPM chance at 2 procs per
/// minute is taken (the chance `rppm_chance` gives for the state it fires from); if it
/// procs, one charge is gained up to the maximum of 2, otherwise the charges stay.
pub proof fn lemma_focused_shot_procs_impetus(v: GameView, t: TargetId)
    requires
        buffs_well_shaped(v.buffs),
    ensures
        impetus_charges(ability_effects(v, Ability::FocusedShot, t).buffs) == if rppm_chance(
            v,
            CELESTIAL_IMPETUS@,
            2,
        ).0 {
            if impetus_charges(v.buffs) < 2 {
                impetus_charges(v.buffs) + 1
            } else {
                2
            }
        } else {
            impetus_charges(v.buffs)
        },
{
    let a = Ability::FocusedShot;
    let p = pay_for(v, a);
    let s = strike(p, a, t, false);
    assert(s.buffs == v.buffs);
    assert(rppm_chance(s, CELESTIAL_IMPETUS@, 2).0 == rppm_chance(v, CELESTIAL_IMPETUS@, 2).0);
    lemma_grant_adds_one(v.buffs);
}


/// A run starts at tick 0 with 100 of 100 focus, target 0, no buffs, cooldowns, cast,
/// channel or proc history, seed 0, and every enemy at its base health (also its maximum)
/// with no debuffs.
pub proof fn lemma_run_starts_fresh(config: SimConfig)
    ensures
        initial_view(config).tick == 0,
        initial_view(config).focus == 100,
        initial_view(config).max_focus == 100,
        initial_view(config).current_target == 0,
        initial_view(config).buffs.len() == 0,
        initial_view(config).cooldowns.len() == 0,
        initial_view(config).casting is None,
        initial_view(config).channeling is None,
        initial_view(config).rppm_last_check_tick.len() == 0,
        initial_view(config).rng_seed == 0,
        initial_view(config).config == config,
        initial_view(config).enemies.len() == config.encounter_config.enemies@.len(),
        forall|i: int|
            0 <= i < config.encounter_config.enemies@.len() ==> {
                let e = #[trigger] initial_view(config).enemies[i];
                &&& e.health == config.encounter_config.enemies@[i].base_health
                &&& e.max_health == config.encounter_config.enemies@[i].base_health
                &&& e.debuffs.len() == 0
            },
{
}

/// The random sequence is the linear congruential generator
/// `seed * 1103515245 + 12345 (mod 2^64)`.
pub proof fn lemma_seed_step(seed: u64)
    ensures
        lcg_next(seed) as int == ((seed as int) * 1103515245 + 12345) % 0x1_0000_0000_0000_0000,
{
    let r: int = 0x1_0000_0000_0000_0000;
    let x: int = (seed as int) * 1103515245;
    let m: int = x % r;
    assert(0 <= m < r) by (nonlinear_arith)
        requires
            r > 0,
            m == x % r,
    ;
    assert(vstd::wrapping::u64_specs::wrapping_mul(seed, 1103515245) as int == m);
    vstd::arithmetic::div_mod::lemma_add_mod_noop(x, 12345, r);
    assert(12345int % r == 12345);
    if m + 12345 >= r {
        vstd::arithmetic::div_mod::lemma_small_mod((m + 12345 - r) as nat, r as nat);
        vstd::arithmetic::div_mod::lemma_mod_sub_multiples_vanish(m + 12345, r);
        assert(-r + (m + 12345) == m + 12345 - r);
    } else {
        vstd::arithmetic::div_mod::lemma_small_mod((m + 12345) as nat, r as nat);
    }
}

} // verus!
