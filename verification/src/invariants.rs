//! What every tick of the simulation keeps: focus stays between 0 and its maximum, the
//! only buff is a Celestial Impetus holding at most its maximum charges, casts and channels
//! are well formed, Lunarlight Mark stacks grow by at most 3 per tick; and what a tick does
//! to enemies' health and to a cast under way.
use vstd::prelude::*;

use crate::common::{
    first_match, is_first_match, keys_distinct, lemma_first_match_found,
    lemma_first_match_in_range, lemma_keyed_set_distinct, Ability,
};
use crate::sim::{
    apply_mark, base_damage, bookkeeping, buffs_well_shaped, cast_ticks, channel_ticks,
    consumable_pred, consume_impetus, decay_buffs, decay_debuffs, decay_enemy, enemy_marked,
    execute, focus_cost, grant_impetus, haste_numerator, heartseeker_projectiles,
    heartseeker_volley, impetus_charges, impetus_pred, is_usable, lemma_impetus_charges_capped,
    is_impetus, mark_pred, pay_for, rppm_chance, sim_invariant, sim_tick, stacks_at_most, step_invariant,
    strike, take_damage, tick_action, uses_impetus, Action, BuffView, DebuffView, EnemyView,
    GameView, TargetId, ability_is, cooldown_info, key_is, CooldownState, CELESTIAL_IMPETUS, CELESTIAL_IMPETUS_RPPM, IMPETUS_DURATION_TICKS, MAX_CELESTIAL_IMPETUS_CHARGES,
    MAX_SIM_TICKS, ability_effects, policy_consulted,
};

verus! {

proof fn lemma_decay_buffs_shape(bs: Seq<BuffView>)
    requires
        buffs_well_shaped(bs),
    ensures
        buffs_well_shaped(decay_buffs(bs)),
{
    if bs.len() == 1 {
        assert(bs.drop_last() =~= Seq::<BuffView>::empty());
        assert(decay_buffs(bs.drop_last()) =~= Seq::<BuffView>::empty());
        assert(bs.last() == bs[0]);
    }
}

proof fn lemma_consume_shape(bs: Seq<BuffView>)
    requires
        buffs_well_shaped(bs),
    ensures
        buffs_well_shaped(consume_impetus(bs)),
{
    lemma_first_match_in_range(bs, consumable_pred());
    let i = first_match(bs, consumable_pred());
    if i >= 0 {
        assert(bs[i].charges matches Some(c) && c > 0);
        let r = consume_impetus(bs);
        assert forall|k: int| 0 <= k < r.len() implies is_impetus(#[trigger] r[k]) && (
        r[k].charges matches Some(c) && c <= MAX_CELESTIAL_IMPETUS_CHARGES) by {
            assert(is_impetus(bs[k]));
        }
    }
}

proof fn lemma_grant_shape(bs: Seq<BuffView>)
    requires
        buffs_well_shaped(bs),
    ensures
        buffs_well_shaped(grant_impetus(bs)),
{
    lemma_first_match_in_range(bs, impetus_pred());
    let i = first_match(bs, impetus_pred());
    if i < 0 && bs.len() == 1 {
        assert(is_impetus(bs[0]));
        assert(is_first_match(bs, impetus_pred(), 0));
    }
    let r = grant_impetus(bs);
    assert forall|k: int| 0 <= k < r.len() implies is_impetus(#[trigger] r[k]) && (
    r[k].charges matches Some(c) && c <= MAX_CELESTIAL_IMPETUS_CHARGES) by {
        if k < bs.len() {
            assert(is_impetus(bs[k]));
        }
    }
}

proof fn lemma_decay_debuffs_stacks(ds: Seq<DebuffView>, bound: int)
    requires
        forall|j: int| 0 <= j < ds.len() ==> (#[trigger] ds[j]).stacks <= bound,
    ensures
        forall|j: int|
            0 <= j < decay_debuffs(ds).len() ==> (#[trigger] decay_debuffs(ds)[j]).stacks <= bound,
    decreases ds.len(),
{
    if ds.len() > 0 {
        let prev = ds.drop_last();
        assert forall|j: int| 0 <= j < prev.len() implies (#[trigger] prev[j]).stacks <= bound by {
            assert(prev[j] == ds[j]);
        }
        lemma_decay_debuffs_stacks(prev, bound);
        assert(ds.last() == ds[ds.len() - 1]);
        let out = decay_debuffs(ds);
        let p = decay_debuffs(prev);
        assert forall|j: int| 0 <= j < out.len() implies (#[trigger] out[j]).stacks <= bound by {
            if j < p.len() {
                assert(out[j] == p[j]);
            }
        }
    }
}

proof fn lemma_bookkeeping_stacks(es: Seq<EnemyView>, bound: int)
    requires
        stacks_at_most(es, bound),
    ensures
        stacks_at_most(es.map_values(|e: EnemyView| decay_enemy(e)), bound),
{
    let out = es.map_values(|e: EnemyView| decay_enemy(e));
    assert forall|i: int, j: int|
        0 <= i < out.len() && 0 <= j < out[i].debuffs.len() implies (
        #[trigger] out[i].debuffs[j]).stacks <= bound by {
        let ds = es[i].debuffs;
        assert forall|k: int| 0 <= k < ds.len() implies (#[trigger] ds[k]).stacks <= bound by {
            assert(es[i].debuffs[k].stacks <= bound);
        }
        lemma_decay_debuffs_stacks(ds, bound);
        assert(out[i].debuffs == decay_debuffs(ds));
    }
}

/// Bookkeeping keeps the invariant.
pub proof fn lemma_bookkeeping_keeps_invariant(v: GameView)
    requires
        sim_invariant(v),
    ensures
        sim_invariant(bookkeeping(v)),
{
    lemma_bookkeeping_invariant(v);
}

proof fn lemma_bookkeeping_invariant(v: GameView)
    requires
        sim_invariant(v),
    ensures
        sim_invariant(bookkeeping(v)),
{
    lemma_decay_buffs_shape(v.buffs);
    lemma_bookkeeping_stacks(v.enemies, 3 * v.tick);
    let cds = bookkeeping(v).cooldowns;
    assert forall|i: int, j: int|
        0 <= i < cds.len() && 0 <= j < cds.len() && i != j implies #[trigger] cds[i].0
        != #[trigger] cds[j].0 by {
        assert(cds[i].0 == v.cooldowns[i].0 && cds[j].0 == v.cooldowns[j].0);
    }
}

proof fn lemma_apply_mark_stacks(e: EnemyView, bound: int)
    requires
        forall|j: int| 0 <= j < e.debuffs.len() ==> (#[trigger] e.debuffs[j]).stacks <= bound,
        bound >= 0,
    ensures
        forall|j: int|
            0 <= j < apply_mark(e, 3).debuffs.len() ==> (#[trigger] apply_mark(e, 3).debuffs[j]).stacks
                <= bound + 3,
{
    lemma_first_match_in_range(e.debuffs, mark_pred());
}

proof fn lemma_strike_stacks(v: GameView, a: Ability, t: TargetId, marks: bool, bound: int)
    requires
        stacks_at_most(v.enemies, bound),
        bound >= 0,
    ensures
        stacks_at_most(strike(v, a, t, marks).enemies, bound + 3),
        strike(v, a, t, marks).enemies.len() == v.enemies.len(),
{
    let out = strike(v, a, t, marks).enemies;
    assert forall|i: int, j: int|
        0 <= i < out.len() && 0 <= j < out[i].debuffs.len() implies (
        #[trigger] out[i].debuffs[j]).stacks <= bound + 3 by {
        if i == t && marks {
            let e = v.enemies[i];
            assert forall|k: int| 0 <= k < e.debuffs.len() implies (#[trigger] e.debuffs[k]).stacks
                <= bound by {
                assert(v.enemies[i].debuffs[k].stacks <= bound);
            }
            let (damage, seed) = if a == Ability::HeartseekerBarrage {
                heartseeker_volley(
                    v.rng_seed,
                    heartseeker_projectiles(haste_numerator(v.config)),
                    enemy_marked(v, t),
                )
            } else {
                (base_damage(a), v.rng_seed)
            };
            let hit = take_damage(e, damage);
            assert(hit.debuffs == e.debuffs);
            lemma_apply_mark_stacks(hit, bound);
            assert(out[i] == apply_mark(hit, 3));
        } else {
            assert(out[i].debuffs == v.enemies[i].debuffs);
            assert(v.enemies[i].debuffs[j].stacks <= bound);
        }
    }
}

/// Firing an ability keeps the step invariant (given it was usable or completes a cast or
/// channel under way) and adds at most 3 stacks to any debuff.
proof fn lemma_ability_effects_invariant(v: GameView, a: Ability, t: TargetId, bound: int)
    requires
        step_invariant(v),
        stacks_at_most(v.enemies, bound),
        bound >= 0,
        v.casting is None,
        v.channeling is None,
        v.focus >= focus_cost(impetus_charges(v.buffs), a),
    ensures
        step_invariant(ability_effects(v, a, t)),
        stacks_at_most(ability_effects(v, a, t).enemies, bound + 3),
        ability_effects(v, a, t).enemies.len() == v.enemies.len(),
        ability_effects(v, a, t).tick == v.tick,
        ability_effects(v, a, t).casting is None,
        ability_effects(v, a, t).channeling is None,
{
    let p = pay_for(v, a);
    if uses_impetus(v, a) {
        lemma_consume_shape(v.buffs);
    }
    let (base, cdr) = cooldown_info(a);
    lemma_keyed_set_distinct(
        v.cooldowns,
        ability_is(a),
        a,
        CooldownState { remaining_ticks: base, cdr_multiplier: cdr },
    );
    let s = strike(p, a, t, uses_impetus(v, a));
    lemma_strike_stacks(p, a, t, uses_impetus(v, a), bound);
    if a == Ability::FocusedShot {
        lemma_keyed_set_distinct(
            s.rppm_last_check_tick,
            key_is(CELESTIAL_IMPETUS@),
            CELESTIAL_IMPETUS@,
            s.tick,
        );
        let (procs, v3) = rppm_chance(s, CELESTIAL_IMPETUS@, CELESTIAL_IMPETUS_RPPM);
        if procs {
            lemma_grant_shape(v3.buffs);
        }
    }
}

/// Executing an action keeps the step invariant and adds at most 3 stacks to any debuff.
proof fn lemma_execute_invariant(v: GameView, action: Action, t: TargetId, bound: int)
    requires
        step_invariant(v),
        stacks_at_most(v.enemies, bound),
        bound >= 0,
    ensures
        step_invariant(execute(v, action, t).1),
        stacks_at_most(execute(v, action, t).1.enemies, bound + 3),
        execute(v, action, t).1.enemies.len() == v.enemies.len(),
        execute(v, action, t).1.tick == v.tick,
{
    match action {
        Action::Wait => {},
        Action::UseAbility(a) => {
            match v.casting {
                Some((ca, ct, rem)) => {
                    if ca == a && ct == t && rem <= 1 {
                        let w = GameView { casting: None, ..v };
                        assert(focus_cost(impetus_charges(w.buffs), a) == -20);
                        lemma_ability_effects_invariant(w, a, t, bound);
                    }
                },
                None => match v.channeling {
                    Some((ca, ct, rem)) => {
                        if ca == a && ct == t && rem <= 1 {
                            let w = GameView { channeling: None, ..v };
                            lemma_ability_effects_invariant(w, a, t, bound);
                        }
                    },
                    None => {
                        if cast_ticks(a) == 0 && channel_ticks(a) == 0 && is_usable(v, a) {
                            lemma_ability_effects_invariant(v, a, t, bound);
                        }
                    },
                },
            }
        },
    }
}

/// Every simulation tick keeps the simulation invariant, whatever the policy chooses: in
/// particular focus stays between 0 and its maximum and Celestial Impetus never holds more
/// than its maximum charges.
pub proof fn lemma_tick_preserves_invariant(v: GameView, choice: (Action, Option<TargetId>))
    requires
        sim_invariant(v),
        v.tick < MAX_SIM_TICKS,
    ensures
        sim_invariant(sim_tick(v, choice)),
        sim_tick(v, choice).tick == v.tick + 1,
        sim_tick(v, choice).enemies.len() == v.enemies.len(),
        sim_tick(v, choice).config == v.config,
        sim_tick(v, choice).max_focus == v.max_focus,
{
    let b = bookkeeping(v);
    lemma_bookkeeping_invariant(v);
    let (action, target) = tick_action(b, choice);
    lemma_execute_invariant(b, action, target, 3 * v.tick);
}

/// Under the simulation invariant, focus is between 0 and its maximum and Celestial
/// Impetus holds at most its maximum charges.
pub proof fn lemma_invariant_bounds(v: GameView)
    requires
        sim_invariant(v),
    ensures
        0 <= v.focus <= v.max_focus,
        impetus_charges(v.buffs) <= MAX_CELESTIAL_IMPETUS_CHARGES,
{
    lemma_impetus_charges_capped(v);
}


proof fn lemma_volley_nonnegative(seed: u64, n: nat, marked: bool)
    ensures
        heartseeker_volley(seed, n, marked).0 >= 0,
    decreases n,
{
    if n > 0 {
        lemma_volley_nonnegative(seed, (n - 1) as nat, marked);
    }
}

proof fn lemma_ability_effects_health(v: GameView, a: Ability, t: TargetId, i: int)
    requires
        0 <= i < v.enemies.len(),
        v.enemies[i].health >= 0,
    ensures
        ability_effects(v, a, t).enemies.len() == v.enemies.len(),
        0 <= ability_effects(v, a, t).enemies[i].health <= v.enemies[i].health,
        ability_effects(v, a, t).enemies[i].max_health == v.enemies[i].max_health,
{
    let p = pay_for(v, a);
    lemma_volley_nonnegative(
        p.rng_seed,
        heartseeker_projectiles(haste_numerator(p.config)),
        enemy_marked(p, t),
    );
    let s = strike(p, a, t, uses_impetus(v, a));
    lemma_first_match_in_range(p.enemies[i].debuffs, mark_pred());
}

/// A tick never heals an enemy: an enemy's health after a tick is between 0 and its
/// health before (for an enemy whose health was not negative), its maximum health is
/// unchanged, and no enemy appears or disappears.
pub proof fn lemma_tick_never_heals(v: GameView, choice: (Action, Option<TargetId>), i: int)
    requires
        0 <= i < v.enemies.len(),
        v.enemies[i].health >= 0,
    ensures
        sim_tick(v, choice).enemies.len() == v.enemies.len(),
        0 <= sim_tick(v, choice).enemies[i].health <= v.enemies[i].health,
        sim_tick(v, choice).enemies[i].max_health == v.enemies[i].max_health,
{
    let b = bookkeeping(v);
    assert(b.enemies[i] == decay_enemy(v.enemies[i]));
    let (action, target) = tick_action(b, choice);
    match action {
        Action::Wait => {},
        Action::UseAbility(a) => {
            lemma_ability_effects_health(b, a, target, i);
            lemma_ability_effects_health(GameView { casting: None, ..b }, a, target, i);
            lemma_ability_effects_health(GameView { channeling: None, ..b }, a, target, i);
        },
    }
}

/// While a cast or channel is under way the policy's choice does not matter: the tick
/// continues it.
pub proof fn lemma_locked_ignores_policy(
    v: GameView,
    c1: (Action, Option<TargetId>),
    c2: (Action, Option<TargetId>),
)
    requires
        !policy_consulted(v),
    ensures
        sim_tick(v, c1) == sim_tick(v, c2),
{
}

/// A cast counts down one tick at a time and, on its last tick, fires once and ends: with
/// more than one tick left, the tick leaves the same cast with one tick fewer and the
/// focus and enemies as they were; with one tick left, the cast is over afterwards.
pub proof fn lemma_cast_progress(v: GameView, choice: (Action, Option<TargetId>))
    requires
        v.casting is Some,
    ensures
        ({
            let (a, t, rem) = v.casting->0;
            let after = sim_tick(v, choice);
            if rem > 1 {
                &&& after.casting == Some((a, t, (rem - 1) as u32))
                &&& after.focus == v.focus
                &&& after.enemies == bookkeeping(v).enemies
            } else {
                after.casting is None
            }
        }),
{
}

proof fn lemma_charges_positive_iff_consumable(bs: Seq<BuffView>)
    ensures
        (impetus_charges(bs) > 0) == (exists|i: int|
            0 <= i < bs.len() && consumable_pred()(#[trigger] bs[i])),
    decreases bs.len(),
{
    if bs.len() > 0 {
        let prev = bs.drop_last();
        lemma_charges_positive_iff_consumable(prev);
        if exists|i: int| 0 <= i < prev.len() && consumable_pred()(#[trigger] prev[i]) {
            let i = choose|i: int| 0 <= i < prev.len() && consumable_pred()(#[trigger] prev[i]);
            assert(bs[i] == prev[i]);
        }
        if exists|i: int| 0 <= i < bs.len() && consumable_pred()(#[trigger] bs[i]) {
            let i = choose|i: int| 0 <= i < bs.len() && consumable_pred()(#[trigger] bs[i]);
            if i < prev.len() {
                assert(prev[i] == bs[i]);
            }
        }
    }
}

/// Spending a charge succeeds exactly when Celestial Impetus charges are held.
pub proof fn lemma_consume_succeeds_iff_charged(bs: Seq<BuffView>)
    ensures
        (first_match(bs, consumable_pred()) >= 0) == (impetus_charges(bs) > 0),
{
    lemma_charges_positive_iff_consumable(bs);
    lemma_first_match_in_range(bs, consumable_pred());
    if impetus_charges(bs) > 0 {
        let i = choose|i: int| 0 <= i < bs.len() && consumable_pred()(#[trigger] bs[i]);
        lemma_first_match_found(bs, consumable_pred(), i);
    }
}

/// With well-shaped buffs, spending a Celestial Impetus charge while one is held leaves
/// exactly one charge fewer.
pub proof fn lemma_consume_spends_one(bs: Seq<BuffView>)
    requires
        buffs_well_shaped(bs),
        impetus_charges(bs) > 0,
    ensures
        impetus_charges(consume_impetus(bs)) == impetus_charges(bs) - 1,
{
    lemma_consume_succeeds_iff_charged(bs);
    lemma_first_match_in_range(bs, consumable_pred());
    assert(bs.len() == 1);
    let r = consume_impetus(bs);
    assert(bs.drop_last() =~= Seq::<BuffView>::empty());
    assert(r.drop_last() =~= Seq::<BuffView>::empty());
    assert(impetus_charges(bs.drop_last()) == 0);
    assert(impetus_charges(r.drop_last()) == 0);
}

/// With well-shaped buffs, a Celestial Impetus grant adds one charge, up to the maximum,
/// and leaves a single Celestial Impetus buff with a full duration, at the maximum too.
pub proof fn lemma_grant_adds_one(bs: Seq<BuffView>)
    requires
        buffs_well_shaped(bs),
    ensures
        impetus_charges(grant_impetus(bs)) == if impetus_charges(bs)
            < MAX_CELESTIAL_IMPETUS_CHARGES {
            impetus_charges(bs) + 1
        } else {
            MAX_CELESTIAL_IMPETUS_CHARGES as nat
        },
        grant_impetus(bs).len() == 1,
        grant_impetus(bs)[0].duration_ticks == IMPETUS_DURATION_TICKS,
{
    lemma_first_match_in_range(bs, impetus_pred());
    let r = grant_impetus(bs);
    if bs.len() == 1 {
        assert(is_impetus(bs[0]));
        assert(is_first_match(bs, impetus_pred(), 0));
        assert(bs.drop_last() =~= Seq::<BuffView>::empty());
        assert(r.drop_last() =~= Seq::<BuffView>::empty());
        assert(impetus_charges(bs.drop_last()) == 0);
        assert(impetus_charges(r.drop_last()) == 0);
    } else {
        assert(r.drop_last() =~= Seq::<BuffView>::empty());
        assert(impetus_charges(r.drop_last()) == 0);
    }
}


/// A channel counts down one tick at a time and resolves on its last tick: with more than
/// one tick left, the tick leaves the same channel with one tick fewer and the focus and
/// enemies as they were; with one tick left, the channel is over afterwards.
pub proof fn lemma_channel_progress(v: GameView, choice: (Action, Option<TargetId>))
    requires
        v.casting is None,
        v.channeling is Some,
    ensures
        ({
            let (a, t, rem) = v.channeling->0;
            let after = sim_tick(v, choice);
            if rem > 1 {
                &&& after.channeling == Some((a, t, (rem - 1) as u32))
                &&& after.focus == v.focus
                &&& after.enemies == bookkeeping(v).enemies
            } else {
                after.channeling is None
            }
        }),
{
}

/// An invalid action is treated as waiting: it leaves the state as it was.
pub proof fn lemma_invalid_action_changes_nothing(v: GameView, action: Action, t: TargetId)
    ensures
        !execute(v, action, t).0 ==> execute(v, action, t).1 == v,
        action == Action::Wait ==> execute(v, action, t) == (true, v),
{
}

} // verus!
