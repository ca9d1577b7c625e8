//! The simulation: a tick-based loop in which, each tick, buffs, debuffs and cooldowns
//! decay, a policy chooses an action and a target (unless a cast or a channel is under
//! way), the action executes, and the game state evolves. Random procs draw from a seed
//! kept in the state, so a run is a function of its configuration and the policy.
use vstd::prelude::*;

use crate::common::{
    first_match, is_first_match, keys_distinct, lemma_first_match_none, lemma_first_match_unique,
    lemma_take_last, Ability,
};
use crate::config::{gear_valid, haste_total, EnemyConfig, SimConfig, HASTE_RATING_FOR_DOUBLE};
use crate::invariants::{
    lemma_bookkeeping_keeps_invariant, lemma_consume_succeeds_iff_charged,
    lemma_tick_preserves_invariant,
};

verus! {

/// Index into the encounter's enemy list, used as a target.
pub type TargetId = usize;

/// An action chosen by the policy.
#[derive(Clone, Copy, Debug, PartialEq, Eq, Structural)]
pub enum Action {
    UseAbility(Ability),
    /// Do nothing this tick (e.g. waiting for focus or a cooldown).
    Wait,
}

/// A buff on the player, with its remaining duration in ticks and optional charges.
#[derive(Clone, Debug)]
pub struct Buff {
    pub id: String,
    pub duration_ticks: i32,
    pub charges: Option<u32>,
}

/// A buff with its id as a character sequence.
pub struct BuffView {
    pub id: Seq<char>,
    pub duration_ticks: i32,
    pub charges: Option<u32>,
}

impl View for Buff {
    type V = BuffView;

    open spec fn view(&self) -> BuffView {
        BuffView { id: self.id@, duration_ticks: self.duration_ticks, charges: self.charges }
    }
}

/// Cooldown state of an ability: ticks remaining before it is usable, and how many ticks
/// of cooldown pass per simulation tick (1 is normal, 2 is double speed).
#[derive(Clone, Copy, Debug, PartialEq, Eq, Structural)]
pub struct CooldownState {
    pub remaining_ticks: u32,
    pub cdr_multiplier: u32,
}

impl Default for CooldownState {
    fn default() -> (c: CooldownState)
        ensures
            c.remaining_ticks == 0 && c.cdr_multiplier == 0,
    {
        CooldownState { remaining_ticks: 0, cdr_multiplier: 0 }
    }
}

/// A debuff on an enemy, with its remaining duration in ticks and its stacks.
#[derive(Clone, Debug)]
pub struct Debuff {
    pub id: String,
    pub duration_ticks: i32,
    pub stacks: u32,
}

/// A debuff with its id as a character sequence.
pub struct DebuffView {
    pub id: Seq<char>,
    pub duration_ticks: i32,
    pub stacks: u32,
}

impl View for Debuff {
    type V = DebuffView;

    open spec fn view(&self) -> DebuffView {
        DebuffView { id: self.id@, duration_ticks: self.duration_ticks, stacks: self.stacks }
    }
}

/// Runtime state of an enemy.
#[derive(Clone, Debug)]
pub struct EnemyState {
    pub health: i32,
    pub max_health: i32,
    pub debuffs: Vec<Debuff>,
}

/// An enemy with the views of its debuffs.
pub struct EnemyView {
    pub health: i32,
    pub max_health: i32,
    pub debuffs: Seq<DebuffView>,
}

impl View for EnemyState {
    type V = EnemyView;

    open spec fn view(&self) -> EnemyView {
        EnemyView {
            health: self.health,
            max_health: self.max_health,
            debuffs: self.debuffs@.map_values(|d: Debuff| d@),
        }
    }
}

/// The game state at a point in time.
#[derive(Debug)]
pub struct GameState {
    pub tick: u64,
    pub config: SimConfig,
    /// Primary resource. Abilities may cost focus.
    pub focus: i32,
    pub max_focus: i32,
    /// Current target. The policy can name another one.
    pub current_target: TargetId,
    /// Player buffs; their durations decay each tick.
    pub buffs: Vec<Buff>,
    /// Ability cooldowns, at most one entry per ability (kept by the step invariant).
    pub cooldowns: Vec<(Ability, CooldownState)>,
    /// Encounter enemies and their runtime state.
    pub enemies: Vec<EnemyState>,
    /// Seed for the random procs; advanced by each roll.
    pub rng_seed: u64,
    /// Cast under way: (ability, target, ticks remaining). The player is locked until it
    /// completes.
    pub casting: Option<(Ability, TargetId, u32)>,
    /// Channel under way: (ability, target, ticks remaining). The player is locked until it
    /// completes; its hits resolve at the end.
    pub channeling: Option<(Ability, TargetId, u32)>,
    /// For each proc id, the tick of its last proc chance, at most one entry per id.
    pub rppm_last_check_tick: Vec<(String, u64)>,
}

/// The game state with its collections as sequences of views.
pub struct GameView {
    pub tick: u64,
    pub config: SimConfig,
    pub focus: i32,
    pub max_focus: i32,
    pub current_target: TargetId,
    pub buffs: Seq<BuffView>,
    pub cooldowns: Seq<(Ability, CooldownState)>,
    pub enemies: Seq<EnemyView>,
    pub rng_seed: u64,
    pub casting: Option<(Ability, TargetId, u32)>,
    pub channeling: Option<(Ability, TargetId, u32)>,
    pub rppm_last_check_tick: Seq<(Seq<char>, u64)>,
}

impl View for GameState {
    type V = GameView;

    open spec fn view(&self) -> GameView {
        GameView {
            tick: self.tick,
            config: self.config,
            focus: self.focus,
            max_focus: self.max_focus,
            current_target: self.current_target,
            buffs: self.buffs@.map_values(|b: Buff| b@),
            cooldowns: self.cooldowns@,
            enemies: self.enemies@.map_values(|e: EnemyState| e@),
            rng_seed: self.rng_seed,
            casting: self.casting,
            channeling: self.channeling,
            rppm_last_check_tick: self.rppm_last_check_tick@.map_values(
                |e: (String, u64)| (e.0@, e.1),
            ),
        }
    }
}

/// Duration of a simulation tick in milliseconds.
pub const TICK_DURATION_MS: u32 = 100;

/// Buff id of Celestial Impetus.
pub const CELESTIAL_IMPETUS: &'static str = "CelestialImpetus";

/// Debuff id of Lunarlight Mark.
pub const LUNARLIGHT_MARK: &'static str = "LunarlightMark";

/// Most charges Celestial Impetus can hold.
pub const MAX_CELESTIAL_IMPETUS_CHARGES: u32 = 2;

/// Duration of a Celestial Impetus grant: 30 s.
pub const IMPETUS_DURATION_TICKS: i32 = 300;

/// Duration of Lunarlight Mark: 15 s.
pub const LUNARLIGHT_MARK_DURATION_TICKS: i32 = 150;

/// rPPM: the time since the last proc chance counts up to this many milliseconds, so a
/// first hit is not a guaranteed proc.
pub const RPPM_TIME_SINCE_CAP_MS: u64 = 10_000;

/// Milliseconds in a minute.
pub const MS_PER_MINUTE: u64 = 60_000;

/// Heartseeker Barrage: damage per projectile.
pub const HEARTSEEKER_PROJECTILE_DAMAGE: i32 = 25;

/// Heartseeker Barrage: chance, in percent, of extra damage per projectile when the target
/// has Lunarlight Mark.
pub const HEARTSEEKER_MARK_PROC_CHANCE_PCT: u64 = 20;

/// Heartseeker Barrage: damage of a projectile that gets the extra damage, in percent of
/// the base damage.
pub const HEARTSEEKER_MARK_EXTRA_DAMAGE_PCT: i32 = 150;

/// Focused Shot: procs per minute of Celestial Impetus (hasted rPPM).
pub const CELESTIAL_IMPETUS_RPPM: u32 = 2;

/// Cast time of Focused Shot in milliseconds.
pub const FOCUSED_SHOT_CAST_MS: u32 = 1220;

/// Channel time of Heartseeker Barrage in milliseconds.
pub const HEARTSEEKER_BARRAGE_CHANNEL_MS: u32 = 2500;

/// Cooldown of Heartseeker Barrage in milliseconds.
pub const HEARTSEEKER_BARRAGE_COOLDOWN_MS: u32 = 20_000;

/// Focus the player starts with, which is also the maximum.
pub const STARTING_MAX_FOCUS: i32 = 100;

/// The simulation's bookkeeping stays within machine integers for runs of at most this
/// many ticks (Lunarlight Mark stacks grow by at most 3 per tick).
pub const MAX_SIM_TICKS: u64 = 1_431_655_765;

/// 2 to the 64th: random rolls are `rng_seed / 2^64`.
pub open spec fn roll_range() -> int {
    0x1_0000_0000_0000_0000
}

/// The seed after one roll.
pub open spec fn lcg_next(seed: u64) -> u64 {
    vstd::wrapping::u64_specs::wrapping_add(
        vstd::wrapping::u64_specs::wrapping_mul(seed, 1103515245),
        12345,
    )
}

// ---------------------------------------------------------------------------
// Abilities
// ---------------------------------------------------------------------------

/// A duration in milliseconds as a number of ticks, rounded to the nearest.
pub open spec fn ms_to_ticks_rounded(ms: u32) -> u32 {
    ((ms + TICK_DURATION_MS / 2) / TICK_DURATION_MS as int) as u32
}

/// Cast time in ticks (0: not a cast).
pub open spec fn cast_ticks(a: Ability) -> u32 {
    match a {
        Ability::FocusedShot => ms_to_ticks_rounded(FOCUSED_SHOT_CAST_MS),
        _ => 0,
    }
}

/// Channel time in ticks (0: not a channel).
pub open spec fn channel_ticks(a: Ability) -> u32 {
    match a {
        Ability::HeartseekerBarrage => ms_to_ticks_rounded(HEARTSEEKER_BARRAGE_CHANNEL_MS),
        _ => 0,
    }
}

/// Base cooldown in ticks and cooldown-reduction multiplier of an ability.
pub open spec fn cooldown_info(a: Ability) -> (u32, u32) {
    match a {
        Ability::EventHorizon => (180, 1),
        Ability::SkystridersGrace => (90, 1),
        Ability::LunarlightMark => (60, 1),
        Ability::StarfallVolley => (120, 1),
        Ability::SkystridersSupremacy => (300, 1),
        Ability::HeartseekerBarrage => (HEARTSEEKER_BARRAGE_COOLDOWN_MS / TICK_DURATION_MS, 1),
        _ => (0, 1),
    }
}

/// Focus an ability costs, given the Celestial Impetus charges held (negative: it
/// generates focus).
pub open spec fn focus_cost(impetus: nat, a: Ability) -> int {
    match a {
        Ability::CelestialShot => if impetus > 0 {
            0
        } else {
            15
        },
        Ability::FocusedShot => -20,
        Ability::HeartseekerBarrage => 30,
        Ability::HighwindArrow => 30,
        Ability::Multishot => 40,
        _ => 0,
    }
}

/// Damage of an ability other than Heartseeker Barrage.
pub open spec fn base_damage(a: Ability) -> int {
    match a {
        Ability::CelestialShot => 150,
        Ability::FocusedShot => 200,
        _ => 0,
    }
}

// ---------------------------------------------------------------------------
// Buffs
// ---------------------------------------------------------------------------

/// A buff is Celestial Impetus.
pub open spec fn is_impetus(b: BuffView) -> bool {
    b.id == CELESTIAL_IMPETUS@
}

/// Matches Celestial Impetus buffs.
pub open spec fn impetus_pred() -> spec_fn(BuffView) -> bool {
    |b: BuffView| is_impetus(b)
}

/// Matches Celestial Impetus buffs that hold at least one charge.
pub open spec fn consumable_pred() -> spec_fn(BuffView) -> bool {
    |b: BuffView| is_impetus(b) && (b.charges matches Some(c) && c > 0)
}

/// The charges of a buff (none counts as 0).
pub open spec fn buff_charges(b: BuffView) -> nat {
    match b.charges {
        Some(c) => c as nat,
        None => 0,
    }
}

/// The Celestial Impetus charges held: the sum over all Celestial Impetus buffs.
pub open spec fn impetus_charges(bs: Seq<BuffView>) -> nat
    decreases bs.len(),
{
    if bs.len() == 0 {
        0
    } else {
        impetus_charges(bs.drop_last()) + if is_impetus(bs.last()) {
            buff_charges(bs.last())
        } else {
            0
        }
    }
}

/// The buffs after spending one Celestial Impetus charge from the first buff that holds
/// one; its duration drops to 0 when its last charge goes. Unchanged when no buff holds a
/// charge.
pub open spec fn consume_impetus(bs: Seq<BuffView>) -> Seq<BuffView> {
    let i = first_match(bs, consumable_pred());
    if i >= 0 {
        let b = bs[i];
        let c = (buff_charges(b) - 1) as u32;
        bs.update(
            i,
            BuffView {
                charges: Some(c),
                duration_ticks: if c == 0 {
                    0
                } else {
                    b.duration_ticks
                },
                ..b
            },
        )
    } else {
        bs
    }
}

/// The buffs after a Celestial Impetus grant: the first Celestial Impetus buff is refreshed
/// to a full duration and gains a charge unless it already holds the maximum; with no such
/// buff, a new one with one charge is added at the end.
pub open spec fn grant_impetus(bs: Seq<BuffView>) -> Seq<BuffView> {
    let i = first_match(bs, impetus_pred());
    if i >= 0 {
        let b = bs[i];
        bs.update(
            i,
            BuffView {
                charges: match b.charges {
                    Some(c) => if c < MAX_CELESTIAL_IMPETUS_CHARGES {
                        Some((c + 1) as u32)
                    } else {
                        Some(c)
                    },
                    None => None,
                },
                duration_ticks: IMPETUS_DURATION_TICKS,
                ..b
            },
        )
    } else {
        bs.push(
            BuffView {
                id: CELESTIAL_IMPETUS@,
                duration_ticks: IMPETUS_DURATION_TICKS,
                charges: Some(1),
            },
        )
    }
}

/// Buffs after one tick: each duration drops by one and expired buffs (duration no longer
/// positive) are removed; order is kept.
pub open spec fn decay_buffs(bs: Seq<BuffView>) -> Seq<BuffView>
    decreases bs.len(),
{
    if bs.len() == 0 {
        Seq::empty()
    } else {
        let prev = decay_buffs(bs.drop_last());
        let b = bs.last();
        if b.duration_ticks - 1 > 0 {
            prev.push(BuffView { duration_ticks: (b.duration_ticks - 1) as i32, ..b })
        } else {
            prev
        }
    }
}

// ---------------------------------------------------------------------------
// Enemies
// ---------------------------------------------------------------------------

/// A debuff is Lunarlight Mark.
pub open spec fn is_mark(d: DebuffView) -> bool {
    d.id == LUNARLIGHT_MARK@
}

/// Matches Lunarlight Mark debuffs.
pub open spec fn mark_pred() -> spec_fn(DebuffView) -> bool {
    |d: DebuffView| is_mark(d)
}

/// Debuffs after one tick: each duration drops by one and expired debuffs are removed.
pub open spec fn decay_debuffs(ds: Seq<DebuffView>) -> Seq<DebuffView>
    decreases ds.len(),
{
    if ds.len() == 0 {
        Seq::empty()
    } else {
        let prev = decay_debuffs(ds.drop_last());
        let d = ds.last();
        if d.duration_ticks - 1 > 0 {
            prev.push(DebuffView { duration_ticks: (d.duration_ticks - 1) as i32, ..d })
        } else {
            prev
        }
    }
}

/// An enemy after one tick of debuff decay.
pub open spec fn decay_enemy(e: EnemyView) -> EnemyView {
    EnemyView { debuffs: decay_debuffs(e.debuffs), ..e }
}

/// An enemy after Lunarlight Mark is applied with `stacks` stacks: the first mark gains
/// the stacks and a fresh duration; with no mark, a new one is added at the end.
pub open spec fn apply_mark(e: EnemyView, stacks: u32) -> EnemyView {
    let i = first_match(e.debuffs, mark_pred());
    if i >= 0 {
        let d = e.debuffs[i];
        EnemyView {
            debuffs: e.debuffs.update(
                i,
                DebuffView {
                    stacks: (d.stacks + stacks) as u32,
                    duration_ticks: LUNARLIGHT_MARK_DURATION_TICKS,
                    ..d
                },
            ),
            ..e
        }
    } else {
        EnemyView {
            debuffs: e.debuffs.push(
                DebuffView {
                    id: LUNARLIGHT_MARK@,
                    duration_ticks: LUNARLIGHT_MARK_DURATION_TICKS,
                    stacks,
                },
            ),
            ..e
        }
    }
}

/// An enemy has Lunarlight Mark.
pub open spec fn has_mark(e: EnemyView) -> bool {
    exists|i: int| 0 <= i < e.debuffs.len() && is_mark(#[trigger] e.debuffs[i])
}

/// Target `t` exists and has Lunarlight Mark.
pub open spec fn enemy_marked(v: GameView, t: TargetId) -> bool {
    t < v.enemies.len() && has_mark(v.enemies[t as int])
}

/// An enemy after taking `damage`: health drops by it but not below 0.
pub open spec fn take_damage(e: EnemyView, damage: int) -> EnemyView {
    EnemyView {
        health: if e.health - damage > 0 {
            (e.health - damage) as i32
        } else {
            0
        },
        ..e
    }
}

/// Every enemy is down (health at most 0); true of an empty encounter.
pub open spec fn all_defeated(es: Seq<EnemyView>) -> bool {
    forall|i: int| 0 <= i < es.len() ==> (#[trigger] es[i]).health <= 0
}

// ---------------------------------------------------------------------------
// Cooldowns
// ---------------------------------------------------------------------------

/// Matches the cooldown entry of ability `a`.
pub open spec fn ability_is(a: Ability) -> spec_fn((Ability, CooldownState)) -> bool {
    |e: (Ability, CooldownState)| e.0 == a
}

/// The cooldown state of ability `a`, if it has one.
pub open spec fn cooldown_of(cds: Seq<(Ability, CooldownState)>, a: Ability) -> Option<
    CooldownState,
> {
    let i = first_match(cds, ability_is(a));
    if i >= 0 {
        Some(cds[i].1)
    } else {
        None
    }
}

/// The cooldowns with ability `a` set to `cd`: its entry is replaced, or added at the end.
pub open spec fn cooldown_insert(
    cds: Seq<(Ability, CooldownState)>,
    a: Ability,
    cd: CooldownState,
) -> Seq<(Ability, CooldownState)> {
    let i = first_match(cds, ability_is(a));
    if i >= 0 {
        cds.update(i, (a, cd))
    } else {
        cds.push((a, cd))
    }
}

/// A cooldown after one tick: it drops by its multiplier, not below 0.
pub open spec fn tick_cooldown(cd: CooldownState) -> CooldownState {
    CooldownState {
        remaining_ticks: if cd.remaining_ticks > cd.cdr_multiplier {
            (cd.remaining_ticks - cd.cdr_multiplier) as u32
        } else {
            0
        },
        ..cd
    }
}

/// Every cooldown after one tick.
pub open spec fn tick_cooldowns(cds: Seq<(Ability, CooldownState)>) -> Seq<(Ability, CooldownState)> {
    cds.map_values(|e: (Ability, CooldownState)| (e.0, tick_cooldown(e.1)))
}

// ---------------------------------------------------------------------------
// Random procs
// ---------------------------------------------------------------------------

/// The haste multiplier's numerator over `HASTE_RATING_FOR_DOUBLE`.
pub open spec fn haste_numerator(config: SimConfig) -> int {
    HASTE_RATING_FOR_DOUBLE + haste_total(config.player_config.equipped_items@)
}

/// Matches the entry of proc id `id`.
pub open spec fn key_is(id: Seq<char>) -> spec_fn((Seq<char>, u64)) -> bool {
    |e: (Seq<char>, u64)| e.0 == id
}

/// The tick of the last chance of proc `id` (0 if it never had one).
pub open spec fn last_check(m: Seq<(Seq<char>, u64)>, id: Seq<char>) -> u64 {
    let i = first_match(m, key_is(id));
    if i >= 0 {
        m[i].1
    } else {
        0
    }
}

/// The last-chance ticks with proc `id` set to `t`.
pub open spec fn record_check(m: Seq<(Seq<char>, u64)>, id: Seq<char>, t: u64) -> Seq<
    (Seq<char>, u64),
> {
    let i = first_match(m, key_is(id));
    if i >= 0 {
        m.update(i, (id, t))
    } else {
        m.push((id, t))
    }
}

/// Hasted rPPM: the roll `seed / 2^64` is below the proc chance
/// `ppm * haste * time_since / 60 s`, where haste is `haste_num / HASTE_RATING_FOR_DOUBLE`
/// and `time_since` is the time since the last chance, capped at `RPPM_TIME_SINCE_CAP_MS`.
pub open spec fn rppm_roll_succeeds(seed: u64, ppm: u32, haste_num: int, elapsed_ticks: int) -> bool {
    let time_ms = if elapsed_ticks * TICK_DURATION_MS < RPPM_TIME_SINCE_CAP_MS {
        elapsed_ticks * TICK_DURATION_MS
    } else {
        RPPM_TIME_SINCE_CAP_MS as int
    };
    seed * (HASTE_RATING_FOR_DOUBLE * MS_PER_MINUTE) < ppm * haste_num * time_ms * roll_range()
}

/// One hasted rPPM proc chance for `id`: whether it procs, and the state with the chance
/// recorded at the current tick and the seed advanced.
pub open spec fn rppm_chance(v: GameView, id: Seq<char>, ppm: u32) -> (bool, GameView) {
    let last = last_check(v.rppm_last_check_tick, id);
    let elapsed = if v.tick > last {
        v.tick - last
    } else {
        0
    };
    (
        rppm_roll_succeeds(v.rng_seed, ppm, haste_numerator(v.config), elapsed),
        GameView {
            rppm_last_check_tick: record_check(v.rppm_last_check_tick, id, v.tick),
            rng_seed: lcg_next(v.rng_seed),
            ..v
        },
    )
}

/// Heartseeker Barrage fires 10 times the haste multiplier projectiles, rounded to the
/// nearest (none when the multiplier is not positive).
pub open spec fn heartseeker_projectiles(haste_num: int) -> nat {
    if haste_num <= 0 {
        0
    } else {
        ((haste_num * 10 + HASTE_RATING_FOR_DOUBLE / 2) / (HASTE_RATING_FOR_DOUBLE as int)) as nat
    }
}

/// Damage of a projectile that gets the extra damage: the base damage times the extra
/// percentage, rounded to the nearest.
pub open spec fn marked_projectile_damage() -> int {
    (HEARTSEEKER_PROJECTILE_DAMAGE * HEARTSEEKER_MARK_EXTRA_DAMAGE_PCT + 50) / 100
}

/// The roll `seed / 2^64` is below the extra-damage chance.
pub open spec fn mark_roll_succeeds(seed: u64) -> bool {
    seed * 100 < HEARTSEEKER_MARK_PROC_CHANCE_PCT * roll_range()
}

/// Total damage of `n` projectiles and the seed afterwards. On a marked target each
/// projectile rolls for extra damage (advancing the seed); otherwise no roll is made.
pub open spec fn heartseeker_volley(seed: u64, n: nat, marked: bool) -> (int, u64)
    decreases n,
{
    if n == 0 {
        (0, seed)
    } else {
        let (total, s) = heartseeker_volley(seed, (n - 1) as nat, marked);
        if marked {
            let hit = if mark_roll_succeeds(s) {
                marked_projectile_damage()
            } else {
                HEARTSEEKER_PROJECTILE_DAMAGE as int
            };
            (total + hit, lcg_next(s))
        } else {
            (total + HEARTSEEKER_PROJECTILE_DAMAGE, s)
        }
    }
}

// ---------------------------------------------------------------------------
// One tick
// ---------------------------------------------------------------------------

/// An ability is usable: no cast or channel is under way, the focus covers its cost, and
/// it is not on cooldown.
pub open spec fn is_usable(v: GameView, a: Ability) -> bool {
    &&& v.casting is None
    &&& v.channeling is None
    &&& v.focus >= focus_cost(impetus_charges(v.buffs), a)
    &&& match cooldown_of(v.cooldowns, a) {
        Some(cd) => cd.remaining_ticks == 0,
        None => true,
    }
}

/// Bookkeeping at the start of a tick: buffs, debuffs and cooldowns decay.
pub open spec fn bookkeeping(v: GameView) -> GameView {
    GameView {
        buffs: decay_buffs(v.buffs),
        enemies: v.enemies.map_values(|e: EnemyView| decay_enemy(e)),
        cooldowns: tick_cooldowns(v.cooldowns),
        ..v
    }
}

/// A Celestial Shot fired while Celestial Impetus charges are held.
pub open spec fn uses_impetus(v: GameView, a: Ability) -> bool {
    a == Ability::CelestialShot && impetus_charges(v.buffs) > 0
}

/// The first part of firing an ability: it costs focus (the focus stays at most the
/// maximum), goes on cooldown, and a Celestial Shot spends a Celestial Impetus charge if
/// one is held.
pub open spec fn pay_for(v: GameView, a: Ability) -> GameView {
    let cost = focus_cost(impetus_charges(v.buffs), a);
    let (base, cdr) = cooldown_info(a);
    GameView {
        focus: if v.focus - cost < v.max_focus {
            (v.focus - cost) as i32
        } else {
            v.max_focus
        },
        cooldowns: if base > 0 {
            cooldown_insert(
                v.cooldowns,
                a,
                CooldownState { remaining_ticks: base, cdr_multiplier: cdr },
            )
        } else {
            v.cooldowns
        },
        buffs: if uses_impetus(v, a) {
            consume_impetus(v.buffs)
        } else {
            v.buffs
        },
        ..v
    }
}

/// The second part: the ability's damage hits target `t` (Heartseeker Barrage rolls per
/// projectile), and `marks` puts 3 stacks of Lunarlight Mark on it.
pub open spec fn strike(v: GameView, a: Ability, t: TargetId, marks: bool) -> GameView {
    let (damage, seed) = if a == Ability::HeartseekerBarrage {
        heartseeker_volley(
            v.rng_seed,
            heartseeker_projectiles(haste_numerator(v.config)),
            enemy_marked(v, t),
        )
    } else {
        (base_damage(a), v.rng_seed)
    };
    GameView {
        enemies: if t < v.enemies.len() {
            let hit = take_damage(v.enemies[t as int], damage);
            v.enemies.update(
                t as int,
                if marks {
                    apply_mark(hit, 3)
                } else {
                    hit
                },
            )
        } else {
            v.enemies
        },
        rng_seed: seed,
        ..v
    }
}

/// The last part: a Focused Shot has an rPPM chance to grant Celestial Impetus.
pub open spec fn proc_after(v: GameView, a: Ability) -> GameView {
    if a == Ability::FocusedShot {
        let (procs, v3) = rppm_chance(v, CELESTIAL_IMPETUS@, CELESTIAL_IMPETUS_RPPM);
        if procs {
            GameView { buffs: grant_impetus(v3.buffs), ..v3 }
        } else {
            v3
        }
    } else {
        v
    }
}

/// What an ability does when it fires at target `t`: it is paid for, strikes (marking the
/// target when a Celestial Shot used Impetus), and may proc.
pub open spec fn ability_effects(v: GameView, a: Ability, t: TargetId) -> GameView {
    proc_after(strike(pay_for(v, a), a, t, uses_impetus(v, a)), a)
}

/// Executing an action at target `t`: whether it was valid, and the state after it.
/// While a cast (or channel) is under way only that ability at that target is valid; it
/// counts down and fires when its last tick passes. Otherwise a cast or channel starts if
/// the ability is usable, and an instant ability fires if it is usable.
pub open spec fn execute(v: GameView, action: Action, t: TargetId) -> (bool, GameView) {
    match action {
        Action::Wait => (true, v),
        Action::UseAbility(a) => match v.casting {
            Some((ca, ct, rem)) => if ca != a || ct != t {
                (false, v)
            } else if rem > 1 {
                (true, GameView { casting: Some((ca, ct, (rem - 1) as u32)), ..v })
            } else {
                (true, ability_effects(GameView { casting: None, ..v }, a, t))
            },
            None => match v.channeling {
                Some((ca, ct, rem)) => if ca != a || ct != t {
                    (false, v)
                } else if rem > 1 {
                    (true, GameView { channeling: Some((ca, ct, (rem - 1) as u32)), ..v })
                } else {
                    (true, ability_effects(GameView { channeling: None, ..v }, a, t))
                },
                None => if cast_ticks(a) > 0 {
                    if is_usable(v, a) {
                        (true, GameView { casting: Some((a, t, cast_ticks(a))), ..v })
                    } else {
                        (false, v)
                    }
                } else if channel_ticks(a) > 0 {
                    if is_usable(v, a) {
                        (true, GameView { channeling: Some((a, t, channel_ticks(a))), ..v })
                    } else {
                        (false, v)
                    }
                } else if is_usable(v, a) {
                    (true, ability_effects(v, a, t))
                } else {
                    (false, v)
                },
            },
        },
    }
}

/// The policy is asked for an action: no cast or channel is under way.
pub open spec fn policy_consulted(v: GameView) -> bool {
    v.casting is None && v.channeling is None
}

/// The action taken in a tick after bookkeeping left `b`: the cast or channel under way
/// continues, else the policy's choice stands.
pub open spec fn tick_action(b: GameView, choice: (Action, Option<TargetId>)) -> (Action, TargetId) {
    let (action, target) = match b.casting {
        Some((a, t, _)) => (Action::UseAbility(a), Some(t)),
        None => match b.channeling {
            Some((a, t, _)) => (Action::UseAbility(a), Some(t)),
            None => choice,
        },
    };
    (
        action,
        match target {
            Some(t) => t,
            None => b.current_target,
        },
    )
}

/// One simulation tick given the policy's choice: bookkeeping, the action (an invalid one
/// is treated as waiting), then the tick count advances.
pub open spec fn sim_tick(v: GameView, choice: (Action, Option<TargetId>)) -> GameView {
    let b = bookkeeping(v);
    let (action, target) = tick_action(b, choice);
    let after = execute(b, action, target).1;
    GameView { tick: (after.tick + 1) as u64, ..after }
}

/// The state a run starts from: tick 0, full focus, target 0, no buffs, cooldowns, casts or
/// proc history, seed 0, and each enemy at its base health with no debuffs.
pub open spec fn initial_view(config: SimConfig) -> GameView {
    GameView {
        tick: 0,
        config,
        focus: STARTING_MAX_FOCUS,
        max_focus: STARTING_MAX_FOCUS,
        current_target: 0,
        buffs: Seq::empty(),
        cooldowns: Seq::empty(),
        enemies: config.encounter_config.enemies@.map_values(
            |e: EnemyConfig| EnemyView { health: e.base_health, max_health: e.base_health, debuffs: Seq::empty() },
        ),
        rng_seed: 0,
        casting: None,
        channeling: None,
        rppm_last_check_tick: Seq::empty(),
    }
}

/// The buffs hold at most one buff, a Celestial Impetus with at most the maximum charges.
pub open spec fn buffs_well_shaped(bs: Seq<BuffView>) -> bool {
    &&& bs.len() <= 1
    &&& forall|i: int|
        0 <= i < bs.len() ==> is_impetus(#[trigger] bs[i]) && (bs[i].charges matches Some(c) && c
            <= MAX_CELESTIAL_IMPETUS_CHARGES)
}

/// No debuff of any enemy has more than `bound` stacks.
pub open spec fn stacks_at_most(es: Seq<EnemyView>, bound: int) -> bool {
    forall|i: int, j: int|
        0 <= i < es.len() && 0 <= j < es[i].debuffs.len() ==> (#[trigger] es[i].debuffs[j]).stacks
            <= bound
}

/// What every step of a run keeps: the gear is valid for its haste total, focus stays
/// between 0 and the maximum, the buffs are well shaped, a cast under way is a Focused
/// Shot and a channel under way a Heartseeker Barrage whose focus is still there, never
/// both at once, and each has at least one tick left; cooldowns and proc histories hold at
/// most one entry per ability and per proc.
pub open spec fn step_invariant(v: GameView) -> bool {
    &&& gear_valid(v.config.player_config.equipped_items@)
    &&& 0 <= v.focus <= v.max_focus <= STARTING_MAX_FOCUS
    &&& buffs_well_shaped(v.buffs)
    &&& v.casting matches Some((a, _, rem)) ==> a == Ability::FocusedShot && v.channeling is None
        && rem >= 1
    &&& v.channeling matches Some((a, _, rem)) ==> a == Ability::HeartseekerBarrage && v.focus
        >= focus_cost(0, Ability::HeartseekerBarrage) && rem >= 1
    &&& keys_distinct(v.cooldowns)
    &&& keys_distinct(v.rppm_last_check_tick)
}

/// What holds of every state a run passes through: the step invariant, no debuff has more
/// than 3 stacks per tick elapsed, and the tick count stays within `MAX_SIM_TICKS`.
pub open spec fn sim_invariant(v: GameView) -> bool {
    &&& step_invariant(v)
    &&& stacks_at_most(v.enemies, 3 * v.tick)
    &&& v.tick <= MAX_SIM_TICKS
}


// ---------------------------------------------------------------------------
// Executable state queries and updates
// ---------------------------------------------------------------------------

proof fn lemma_impetus_charges_prefix(bs: Seq<BuffView>, k: int)
    requires
        0 <= k <= bs.len(),
    ensures
        impetus_charges(bs.take(k)) <= impetus_charges(bs),
    decreases bs.len(),
{
    if k < bs.len() {
        lemma_impetus_charges_prefix(bs.drop_last(), k);
        assert(bs.drop_last().take(k) =~= bs.take(k));
    } else {
        assert(bs.take(k) =~= bs);
    }
}

/// Under the simulation invariant, at most the maximum Celestial Impetus charges are held.
pub proof fn lemma_impetus_charges_capped(v: GameView)
    requires
        sim_invariant(v),
    ensures
        impetus_charges(v.buffs) <= MAX_CELESTIAL_IMPETUS_CHARGES,
{
    if v.buffs.len() == 1 {
        assert(v.buffs.drop_last() =~= Seq::<BuffView>::empty());
        assert(impetus_charges(v.buffs.drop_last()) == 0);
        assert(is_impetus(v.buffs[0]));
        assert(v.buffs.last() == v.buffs[0]);
        assert(buff_charges(v.buffs[0]) <= MAX_CELESTIAL_IMPETUS_CHARGES);
    }
}

/// The position of the first cooldown entry of ability `a`, if any.
fn cooldown_position(cds: &Vec<(Ability, CooldownState)>, a: Ability) -> (r: Option<usize>)
    ensures
        match r {
            Some(k) => k < cds@.len() && first_match(cds@, ability_is(a)) == k,
            None => first_match(cds@, ability_is(a)) == -1,
        },
{
    let n = cds.len();
    for k in 0..n
        invariant
            n == cds@.len(),
            forall|j: int| 0 <= j < k ==> !ability_is(a)(#[trigger] cds@[j]),
    {
        if cds[k].0 == a {
            assert(is_first_match(cds@, ability_is(a), k as int));
            proof {
                lemma_first_match_unique(cds@, ability_is(a), k as int);
            }
            return Some(k);
        }
    }
    proof {
        lemma_first_match_none(cds@, ability_is(a));
    }
    None
}

/// Focus cost of an ability in the current state (negative: it generates focus).
fn ability_focus_cost(state: &GameState, ability: Ability) -> (r: i32)
    requires
        ability == Ability::CelestialShot ==> impetus_charges(state@.buffs) <= u32::MAX,
    ensures
        r == focus_cost(impetus_charges(state@.buffs), ability),
{
    match ability {
        Ability::CelestialShot => {
            if state.celestial_impetus_charges() > 0 {
                0
            } else {
                15
            }
        },
        Ability::FocusedShot => -20,
        Ability::HeartseekerBarrage => 30,
        Ability::HighwindArrow => 30,
        Ability::Multishot => 40,
        Ability::EventHorizon => 0,
        Ability::SkystridersGrace => 0,
        Ability::LunarlightMark => 0,
        Ability::StarfallVolley => 0,
        Ability::SkystridersSupremacy => 0,
    }
}

impl GameState {
    /// The target to act on: the one named, else the current target.
    pub fn resolve_target(&self, target: Option<TargetId>) -> (r: TargetId)
        ensures
            r == match target {
                Some(t) => t,
                None => self.current_target,
            },
    {
        match target {
            Some(t) => t,
            None => self.current_target,
        }
    }

    /// Whether an ability is usable: no cast or channel is under way, the focus covers its
    /// cost, and it is not on cooldown.
    pub fn is_ability_usable(&self, ability: Ability) -> (r: bool)
        requires
            ability == Ability::CelestialShot ==> impetus_charges(self@.buffs) <= u32::MAX,
        ensures
            r == is_usable(self@, ability),
    {
        if self.casting.is_some() || self.channeling.is_some() {
            return false;
        }
        let cost = ability_focus_cost(self, ability);
        if self.focus < cost {
            return false;
        }
        match cooldown_position(&self.cooldowns, ability) {
            Some(k) => self.cooldowns[k].1.remaining_ticks == 0,
            None => true,
        }
    }

    /// The Celestial Impetus charges held.
    pub fn celestial_impetus_charges(&self) -> (r: u32)
        requires
            impetus_charges(self@.buffs) <= u32::MAX,
        ensures
            r == impetus_charges(self@.buffs),
    {
        let ghost bs = self@.buffs;
        let id = CELESTIAL_IMPETUS.to_owned();
        let mut total: u32 = 0;
        let n = self.buffs.len();
        assert(bs.take(0) =~= Seq::<BuffView>::empty());
        for i in 0..n
            invariant
                bs == self@.buffs,
                n == bs.len(),
                id@ == CELESTIAL_IMPETUS@,
                impetus_charges(bs) <= u32::MAX,
                total == impetus_charges(bs.take(i as int)),
        {
            proof {
                lemma_take_last(bs, i as int);
                lemma_impetus_charges_prefix(bs, i + 1);
            }
            let b = &self.buffs[i];
            if b.id == id {
                if let Some(c) = b.charges {
                    total = total + c;
                }
            }
        }
        assert(bs.take(n as int) =~= bs);
        total
    }

    /// Spends one Celestial Impetus charge from the first buff that holds one; its
    /// duration drops to 0 when the last charge goes. Returns whether a charge was spent.
    pub fn consume_celestial_impetus(&mut self) -> (r: bool)
        ensures
            r == (impetus_charges(old(self)@.buffs) > 0),
            r == (first_match(old(self)@.buffs, consumable_pred()) >= 0),
            final(self)@ == (GameView { buffs: consume_impetus(old(self)@.buffs), ..old(self)@ }),
    {
        let ghost bs = self@.buffs;
        let id = CELESTIAL_IMPETUS.to_owned();
        let n = self.buffs.len();
        for i in 0..n
            invariant
                bs == self@.buffs,
                self@ == old(self)@,
                n == bs.len(),
                id@ == CELESTIAL_IMPETUS@,
                forall|j: int| 0 <= j < i ==> !consumable_pred()(#[trigger] bs[j]),
        {
            if self.buffs[i].id == id {
                if let Some(c) = self.buffs[i].charges {
                    if c > 0 {
                        assert(is_first_match(bs, consumable_pred(), i as int));
                        proof {
                            lemma_first_match_unique(bs, consumable_pred(), i as int);
                        }
                        let nb = Buff {
                            id: self.buffs[i].id.clone(),
                            duration_ticks: if c - 1 == 0 {
                                0
                            } else {
                                self.buffs[i].duration_ticks
                            },
                            charges: Some(c - 1),
                        };
                        self.buffs.set(i, nb);
                        assert(self@.buffs =~= consume_impetus(bs));
                        proof {
                            lemma_consume_succeeds_iff_charged(bs);
                        }
                        return true;
                    }
                }
            }
        }
        proof {
            lemma_first_match_none(bs, consumable_pred());
            lemma_consume_succeeds_iff_charged(bs);
        }
        false
    }

    /// Adds or refreshes Celestial Impetus: the first Celestial Impetus buff gets a fresh
    /// duration and one more charge, up to the maximum; with none, a buff with one charge
    /// is added.
    pub fn grant_celestial_impetus(&mut self)
        ensures
            final(self)@ == (GameView { buffs: grant_impetus(old(self)@.buffs), ..old(self)@ }),
    {
        let ghost bs = self@.buffs;
        let id = CELESTIAL_IMPETUS.to_owned();
        let n = self.buffs.len();
        for i in 0..n
            invariant
                bs == self@.buffs,
                self@ == old(self)@,
                n == bs.len(),
                id@ == CELESTIAL_IMPETUS@,
                forall|j: int| 0 <= j < i ==> !impetus_pred()(#[trigger] bs[j]),
        {
            if self.buffs[i].id == id {
                assert(is_first_match(bs, impetus_pred(), i as int));
                proof {
                    lemma_first_match_unique(bs, impetus_pred(), i as int);
                }
                let charges = match self.buffs[i].charges {
                    Some(c) => if c < MAX_CELESTIAL_IMPETUS_CHARGES {
                        Some(c + 1)
                    } else {
                        Some(c)
                    },
                    None => None,
                };
                let nb = Buff {
                    id: self.buffs[i].id.clone(),
                    duration_ticks: IMPETUS_DURATION_TICKS,
                    charges,
                };
                self.buffs.set(i, nb);
                assert(self@.buffs =~= grant_impetus(bs));
                return;
            }
        }
        proof {
            lemma_first_match_none(bs, impetus_pred());
        }
        self.buffs.push(
            Buff { id: id, duration_ticks: IMPETUS_DURATION_TICKS, charges: Some(1) },
        );
        assert(self@.buffs =~= grant_impetus(bs));
    }

    /// The target enemy, if the index is valid.
    pub fn target_enemy(&self, target_id: TargetId) -> (r: Option<&EnemyState>)
        ensures
            match r {
                Some(e) => target_id < self.enemies@.len() && *e == self.enemies@[target_id as int],
                None => target_id >= self.enemies@.len(),
            },
    {
        if target_id < self.enemies.len() {
            Some(&self.enemies[target_id])
        } else {
            None
        }
    }

    /// The target enemy for update, if the index is valid.
    pub fn target_enemy_mut(&mut self, target_id: TargetId) -> (r: Option<&mut EnemyState>)
        ensures
            match r {
                Some(e) => {
                    &&& target_id < old(self).enemies@.len()
                    &&& *e == old(self).enemies@[target_id as int]
                    &&& final(self).enemies@ == old(self).enemies@.update(target_id as int, *final(e))
                    &&& final(self).tick == old(self).tick
                    &&& final(self).config == old(self).config
                    &&& final(self).focus == old(self).focus
                    &&& final(self).max_focus == old(self).max_focus
                    &&& final(self).current_target == old(self).current_target
                    &&& final(self).buffs == old(self).buffs
                    &&& final(self).cooldowns == old(self).cooldowns
                    &&& final(self).rng_seed == old(self).rng_seed
                    &&& final(self).casting == old(self).casting
                    &&& final(self).channeling == old(self).channeling
                    &&& final(self).rppm_last_check_tick == old(self).rppm_last_check_tick
                },
                None => target_id >= old(self).enemies@.len() && *final(self) == *old(self),
            },
    {
        if target_id < self.enemies.len() {
            Some(&mut self.enemies[target_id])
        } else {
            None
        }
    }

    /// Whether the target enemy exists and has Lunarlight Mark.
    pub fn enemy_has_lunarlight_mark(&self, target_id: TargetId) -> (r: bool)
        ensures
            r == enemy_marked(self@, target_id),
    {
        if target_id >= self.enemies.len() {
            return false;
        }
        let id = LUNARLIGHT_MARK.to_owned();
        let debuffs = &self.enemies[target_id].debuffs;
        let ghost ds = self@.enemies[target_id as int].debuffs;
        let n = debuffs.len();
        for k in 0..n
            invariant
                n == ds.len(),
                target_id < self.enemies@.len(),
                ds == self@.enemies[target_id as int].debuffs,
                debuffs == self.enemies@[target_id as int].debuffs,
                id@ == LUNARLIGHT_MARK@,
                forall|j: int| 0 <= j < k ==> !is_mark(#[trigger] ds[j]),
        {
            if debuffs[k].id == id {
                assert(is_mark(self@.enemies[target_id as int].debuffs[k as int]));
                return true;
            }
        }
        false
    }
}

/// Cast time of an ability in ticks (0: instant). A cast locks the player until it
/// completes, then fires once.
pub fn ability_cast_ticks(ability: Ability) -> (r: u32)
    ensures
        r == cast_ticks(ability),
{
    match ability {
        Ability::FocusedShot => (FOCUSED_SHOT_CAST_MS + TICK_DURATION_MS / 2) / TICK_DURATION_MS,
        _ => 0,
    }
}

/// Channel time of an ability in ticks (0: not a channel). A channel locks the player until
/// it completes, then fires.
pub fn ability_channel_ticks(ability: Ability) -> (r: u32)
    ensures
        r == channel_ticks(ability),
{
    match ability {
        Ability::HeartseekerBarrage => (HEARTSEEKER_BARRAGE_CHANNEL_MS + TICK_DURATION_MS / 2)
            / TICK_DURATION_MS,
        _ => 0,
    }
}

/// Base cooldown in ticks and cooldown-reduction multiplier of an ability.
pub fn ability_cooldown_info(ability: Ability) -> (r: (u32, u32))
    ensures
        r == cooldown_info(ability),
{
    match ability {
        Ability::EventHorizon => (180, 1),
        Ability::SkystridersGrace => (90, 1),
        Ability::LunarlightMark => (60, 1),
        Ability::StarfallVolley => (120, 1),
        Ability::SkystridersSupremacy => (300, 1),
        Ability::HeartseekerBarrage => (HEARTSEEKER_BARRAGE_COOLDOWN_MS / TICK_DURATION_MS, 1),
        _ => (0, 1),
    }
}

/// Damage of an ability other than Heartseeker Barrage.
fn compute_ability_damage(_state: &GameState, ability: Ability, _target_id: TargetId) -> (r: i32)
    ensures
        r == base_damage(ability),
{
    match ability {
        Ability::CelestialShot => 150,
        Ability::FocusedShot => 200,
        _ => 0,
    }
}

/// Adds `stacks` stacks of Lunarlight Mark to the enemy and refreshes its duration, or
/// applies a new mark.
fn apply_lunarlight_mark(enemy: &mut EnemyState, stacks: u32)
    requires
        first_match(old(enemy)@.debuffs, mark_pred()) >= 0 ==> old(enemy)@.debuffs[first_match(
            old(enemy)@.debuffs,
            mark_pred(),
        )].stacks + stacks <= u32::MAX,
    ensures
        final(enemy)@ == apply_mark(old(enemy)@, stacks),
{
    let ghost ds = enemy@.debuffs;
    let id = LUNARLIGHT_MARK.to_owned();
    let n = enemy.debuffs.len();
    for i in 0..n
        invariant
            ds == enemy@.debuffs,
            enemy@ == old(enemy)@,
            *enemy == *old(enemy),
            n == ds.len(),
            id@ == LUNARLIGHT_MARK@,
            forall|j: int| 0 <= j < i ==> !mark_pred()(#[trigger] ds[j]),
            first_match(ds, mark_pred()) >= 0 ==> ds[first_match(ds, mark_pred())].stacks + stacks
                <= u32::MAX,
    {
        if enemy.debuffs[i].id == id {
            assert(is_first_match(ds, mark_pred(), i as int));
            proof {
                lemma_first_match_unique(ds, mark_pred(), i as int);
            }
            let nd = Debuff {
                id: enemy.debuffs[i].id.clone(),
                duration_ticks: LUNARLIGHT_MARK_DURATION_TICKS,
                stacks: enemy.debuffs[i].stacks + stacks,
            };
            enemy.debuffs.set(i, nd);
            assert(enemy@.debuffs =~= apply_mark(old(enemy)@, stacks).debuffs);
            return;
        }
    }
    proof {
        lemma_first_match_none(ds, mark_pred());
    }
    enemy.debuffs.push(Debuff { id: id, duration_ticks: LUNARLIGHT_MARK_DURATION_TICKS, stacks });
    assert(enemy@.debuffs =~= apply_mark(old(enemy)@, stacks).debuffs);
}

/// The buffs after one tick of decay.
fn decayed_buffs(bs: &Vec<Buff>) -> (r: Vec<Buff>)
    ensures
        r@.map_values(|b: Buff| b@) == decay_buffs(bs@.map_values(|b: Buff| b@)),
{
    let ghost bv = bs@.map_values(|b: Buff| b@);
    let mut out: Vec<Buff> = Vec::new();
    let n = bs.len();
    assert(bv.take(0) =~= Seq::<BuffView>::empty());
    assert(out@.map_values(|b: Buff| b@) =~= Seq::<BuffView>::empty());
    for i in 0..n
        invariant
            n == bv.len(),
            bv == bs@.map_values(|b: Buff| b@),
            out@.map_values(|b: Buff| b@) == decay_buffs(bv.take(i as int)),
    {
        proof {
            lemma_take_last(bv, i as int);
        }
        let b = &bs[i];
        if b.duration_ticks > 1 {
            let nb = Buff { id: b.id.clone(), duration_ticks: b.duration_ticks - 1, charges: b.charges };
            let ghost before = out@;
            out.push(nb);
            assert(out@.map_values(|b: Buff| b@) =~= before.map_values(|b: Buff| b@).push(nb@));
        }
    }
    assert(bv.take(n as int) =~= bv);
    out
}

/// The debuffs after one tick of decay.
fn decayed_debuffs(ds: &Vec<Debuff>) -> (r: Vec<Debuff>)
    ensures
        r@.map_values(|d: Debuff| d@) == decay_debuffs(ds@.map_values(|d: Debuff| d@)),
{
    let ghost dv = ds@.map_values(|d: Debuff| d@);
    let mut out: Vec<Debuff> = Vec::new();
    let n = ds.len();
    assert(dv.take(0) =~= Seq::<DebuffView>::empty());
    assert(out@.map_values(|d: Debuff| d@) =~= Seq::<DebuffView>::empty());
    for i in 0..n
        invariant
            n == dv.len(),
            dv == ds@.map_values(|d: Debuff| d@),
            out@.map_values(|d: Debuff| d@) == decay_debuffs(dv.take(i as int)),
    {
        proof {
            lemma_take_last(dv, i as int);
        }
        let d = &ds[i];
        if d.duration_ticks > 1 {
            let nd = Debuff { id: d.id.clone(), duration_ticks: d.duration_ticks - 1, stacks: d.stacks };
            let ghost before = out@;
            out.push(nd);
            assert(out@.map_values(|d: Debuff| d@) =~= before.map_values(|d: Debuff| d@).push(nd@));
        }
    }
    assert(dv.take(n as int) =~= dv);
    out
}

/// Bookkeeping at the start of a tick: buffs and enemy debuffs lose one tick of duration
/// (expired ones are removed) and cooldowns tick down by their multiplier.
fn tick_bookkeeping(state: &mut GameState)
    ensures
        final(state)@ == bookkeeping(old(state)@),
{
    let ghost v = state@;
    let buffs = decayed_buffs(&state.buffs);
    state.buffs = buffs;

    let mut enemies: Vec<EnemyState> = Vec::new();
    let n = state.enemies.len();
    for i in 0..n
        invariant
            n == state.enemies@.len(),
            state.enemies@ == old(state).enemies@,
            enemies@.len() == i,
            forall|j: int| 0 <= j < i ==> (#[trigger] enemies@[j])@ == decay_enemy(state.enemies@[j]@),
    {
        let e = &state.enemies[i];
        enemies.push(EnemyState { health: e.health, max_health: e.max_health, debuffs: decayed_debuffs(&e.debuffs) });
    }
    state.enemies = enemies;
    assert(state@.enemies =~= v.enemies.map_values(|e: EnemyView| decay_enemy(e)));

    let mut cooldowns: Vec<(Ability, CooldownState)> = Vec::new();
    let m = state.cooldowns.len();
    for i in 0..m
        invariant
            m == state.cooldowns@.len(),
            state.cooldowns@ == old(state).cooldowns@,
            cooldowns@ == tick_cooldowns(state.cooldowns@.take(i as int)),
    {
        let (a, cd) = state.cooldowns[i];
        let remaining = if cd.remaining_ticks > cd.cdr_multiplier {
            cd.remaining_ticks - cd.cdr_multiplier
        } else {
            0
        };
        cooldowns.push((a, CooldownState { remaining_ticks: remaining, cdr_multiplier: cd.cdr_multiplier }));
        assert(cooldowns@ =~= tick_cooldowns(state.cooldowns@.take(i + 1)));
    }
    assert(state.cooldowns@.take(m as int) =~= state.cooldowns@);
    state.cooldowns = cooldowns;
    assert(state@ =~= bookkeeping(v));
}

impl GameState {
    /// The state a run starts from: see `initial_view`.
    pub fn from_config(config: SimConfig) -> (s: GameState)
        ensures
            s@ == initial_view(config),
    {
        let max_focus = STARTING_MAX_FOCUS;
        let mut enemies: Vec<EnemyState> = Vec::new();
        let n = config.encounter_config.enemies.len();
        for i in 0..n
            invariant
                n == config.encounter_config.enemies@.len(),
                enemies@.len() == i,
                forall|j: int|
                    0 <= j < i ==> (#[trigger] enemies@[j])@ == (EnemyView {
                        health: config.encounter_config.enemies@[j].base_health,
                        max_health: config.encounter_config.enemies@[j].base_health,
                        debuffs: Seq::empty(),
                    }),
        {
            let base = config.encounter_config.enemies[i].base_health;
            let e = EnemyState { health: base, max_health: base, debuffs: Vec::new() };
            assert(e@.debuffs =~= Seq::<DebuffView>::empty());
            enemies.push(e);
        }
        let s = GameState {
            tick: 0,
            config,
            focus: max_focus,
            max_focus,
            current_target: 0,
            buffs: Vec::new(),
            cooldowns: Vec::new(),
            enemies,
            rng_seed: 0,
            casting: None,
            channeling: None,
            rppm_last_check_tick: Vec::new(),
        };
        assert(s@.buffs =~= Seq::<BuffView>::empty());
        assert(s@.rppm_last_check_tick =~= Seq::<(Seq<char>, u64)>::empty());
        assert(s@.enemies =~= initial_view(s.config).enemies);
        s
    }
}

/// Whether a hasted rPPM roll procs: `seed / 2^64` is below
/// `ppm * (haste_num / HASTE_RATING_FOR_DOUBLE) * time_ms / MS_PER_MINUTE`.
fn rppm_roll(seed: u64, ppm: u32, haste_num: i64, time_ms: u64) -> (r: bool)
    requires
        time_ms <= RPPM_TIME_SINCE_CAP_MS,
        haste_num <= HASTE_RATING_FOR_DOUBLE + i32::MAX,
    ensures
        r == (seed * (HASTE_RATING_FOR_DOUBLE * MS_PER_MINUTE) < ppm * haste_num * time_ms
            * roll_range()),
{
    if haste_num <= 0 || ppm == 0 || time_ms == 0 {
        assert(ppm * haste_num * time_ms <= 0) by (nonlinear_arith)
            requires
                haste_num <= 0 || ppm == 0 || time_ms == 0,
                ppm >= 0,
                time_ms >= 0,
        ;
        assert(ppm * haste_num * time_ms * roll_range() <= 0) by (nonlinear_arith)
            requires
                ppm * haste_num * time_ms <= 0,
                roll_range() > 0,
        ;
        assert(seed * (HASTE_RATING_FOR_DOUBLE * MS_PER_MINUTE) >= 0) by (nonlinear_arith)
            requires
                seed >= 0,
        ;
        return false;
    }
    assert(0 < ppm * haste_num <= 0x1_0000_0000 * 0x1_0000_0000) by (nonlinear_arith)
        requires
            0 < ppm <= 0x1_0000_0000,
            0 < haste_num <= 0x1_0000_0000,
    ;
    assert(0 < ppm * haste_num * time_ms <= 0x1_0000_0000 * 0x1_0000_0000 * 10_000)
        by (nonlinear_arith)
        requires
            0 < ppm * haste_num <= 0x1_0000_0000 * 0x1_0000_0000,
            0 < time_ms <= 10_000,
    ;
    let k: u128 = ppm as u128 * haste_num as u128 * time_ms as u128;
    let d: u128 = HASTE_RATING_FOR_DOUBLE as u128 * MS_PER_MINUTE as u128;
    if k >= d {
        assert(seed * d < k * roll_range()) by (nonlinear_arith)
            requires
                0 <= seed < roll_range(),
                0 < d <= k,
        ;
        true
    } else {
        assert(seed * d < roll_range() * d) by (nonlinear_arith)
            requires
                0 <= seed < roll_range(),
                0 < d,
        ;
        assert(k * roll_range() < d * roll_range()) by (nonlinear_arith)
            requires
                k < d,
                0 < roll_range(),
        ;
        (seed as u128) * d < k * 0x1_0000_0000_0000_0000u128
    }
}

/// The position of the entry of proc id `id`, if any.
fn check_position(checks: &Vec<(String, u64)>, id: &String) -> (r: Option<usize>)
    ensures
        match r {
            Some(k) => k < checks@.len() && first_match(
                checks@.map_values(|e: (String, u64)| (e.0@, e.1)),
                key_is(id@),
            ) == k,
            None => first_match(checks@.map_values(|e: (String, u64)| (e.0@, e.1)), key_is(id@))
                == -1,
        },
{
    let ghost m = checks@.map_values(|e: (String, u64)| (e.0@, e.1));
    let n = checks.len();
    for k in 0..n
        invariant
            n == m.len(),
            m == checks@.map_values(|e: (String, u64)| (e.0@, e.1)),
            forall|j: int| 0 <= j < k ==> !key_is(id@)(#[trigger] m[j]),
    {
        if checks[k].0 == *id {
            assert(is_first_match(m, key_is(id@), k as int));
            proof {
                lemma_first_match_unique(m, key_is(id@), k as int);
            }
            return Some(k);
        }
    }
    proof {
        lemma_first_match_none(m, key_is(id@));
    }
    None
}

/// Hasted rPPM proc chance for `proc_id`: records the chance at the current tick, advances
/// the seed, and returns whether it procs. The chance is
/// `ppm * haste * min(time since the last chance, 10 s) / 60 s`.
fn try_proc_rppm(state: &mut GameState, proc_id: &str, ppm: u32) -> (r: bool)
    requires
        gear_valid(old(state).config.player_config.equipped_items@),
    ensures
        (r, final(state)@) == rppm_chance(old(state)@, proc_id@, ppm),
{
    let ghost v = state@;
    let rating = state.config.player_config.total_haste_rating();
    let haste_num: i64 = HASTE_RATING_FOR_DOUBLE + rating as i64;
    let id = proc_id.to_owned();
    let pos = check_position(&state.rppm_last_check_tick, &id);
    let last: u64 = match pos {
        Some(k) => state.rppm_last_check_tick[k].1,
        None => 0,
    };
    assert(last == last_check(v.rppm_last_check_tick, proc_id@));
    let elapsed = state.tick.saturating_sub(last);
    let time_ms: u64 = if elapsed < RPPM_TIME_SINCE_CAP_MS / TICK_DURATION_MS as u64 {
        elapsed * TICK_DURATION_MS as u64
    } else {
        RPPM_TIME_SINCE_CAP_MS
    };
    let procs = rppm_roll(state.rng_seed, ppm, haste_num, time_ms);
    let tick = state.tick;
    match pos {
        Some(k) => {
            state.rppm_last_check_tick.set(k, (id, tick));
        },
        None => {
            state.rppm_last_check_tick.push((id, tick));
        },
    }
    assert(state@.rppm_last_check_tick =~= record_check(v.rppm_last_check_tick, proc_id@, tick));
    state.rng_seed = state.rng_seed.wrapping_mul(1103515245).wrapping_add(12345);
    assert(state@ =~= rppm_chance(v, proc_id@, ppm).1);
    procs
}

/// Focused Shot's proc: grants Celestial Impetus through hasted rPPM.
fn try_proc_celestial_impetus(state: &mut GameState)
    requires
        gear_valid(old(state).config.player_config.equipped_items@),
    ensures
        final(state)@ == ({
            let (procs, v) = rppm_chance(old(state)@, CELESTIAL_IMPETUS@, CELESTIAL_IMPETUS_RPPM);
            if procs {
                GameView { buffs: grant_impetus(v.buffs), ..v }
            } else {
                v
            }
        }),
{
    if try_proc_rppm(state, CELESTIAL_IMPETUS, CELESTIAL_IMPETUS_RPPM) {
        state.grant_celestial_impetus();
    }
}

/// Heartseeker Barrage's damage: 10 times the haste multiplier projectiles (rounded), each
/// dealing the projectile damage; on a target with Lunarlight Mark each projectile rolls
/// for extra damage, advancing the seed.
fn compute_heartseeker_barrage_damage(state: &mut GameState, target_id: TargetId) -> (r: i32)
    requires
        gear_valid(old(state).config.player_config.equipped_items@),
    ensures
        ({
            let (damage, seed) = heartseeker_volley(
                old(state)@.rng_seed,
                heartseeker_projectiles(haste_numerator(old(state)@.config)),
                enemy_marked(old(state)@, target_id),
            );
            r == damage && final(state)@ == (GameView { rng_seed: seed, ..old(state)@ })
        }),
        0 <= r,
{
    let ghost v = state@;
    let rating = state.config.player_config.total_haste_rating();
    let haste_num: i64 = HASTE_RATING_FOR_DOUBLE + rating as i64;
    let projectiles: u32 = if haste_num <= 0 {
        0
    } else {
        ((haste_num * 10 + HASTE_RATING_FOR_DOUBLE / 2) / HASTE_RATING_FOR_DOUBLE) as u32
    };
    assert(projectiles == heartseeker_projectiles(haste_numerator(v.config)));
    assert(projectiles <= 1_300_000);
    let has_mark = state.enemy_has_lunarlight_mark(target_id);
    let mut total: i32 = 0;
    for k in 0..projectiles
        invariant
            state@ == (GameView { rng_seed: state@.rng_seed, ..v }),
            projectiles <= 1_300_000,
            0 <= total <= 38 * k,
            (total as int, state@.rng_seed) == heartseeker_volley(v.rng_seed, k as nat, has_mark),
    {
        let mut damage = HEARTSEEKER_PROJECTILE_DAMAGE;
        if has_mark {
            let hit = (state.rng_seed as u128) * 100 < (HEARTSEEKER_MARK_PROC_CHANCE_PCT as u128)
                * 0x1_0000_0000_0000_0000u128;
            state.rng_seed = state.rng_seed.wrapping_mul(1103515245).wrapping_add(12345);
            if hit {
                damage = (HEARTSEEKER_PROJECTILE_DAMAGE * HEARTSEEKER_MARK_EXTRA_DAMAGE_PCT + 50) / 100;
            }
        }
        total = total + damage;
    }
    total
}

/// Pays for an ability: focus cost (focus stays at most the maximum), cooldown, and the
/// Celestial Impetus charge a Celestial Shot spends. Returns whether a charge was spent.
fn pay_for_ability(state: &mut GameState, ability: Ability) -> (had_impetus: bool)
    requires
        impetus_charges(old(state)@.buffs) <= MAX_CELESTIAL_IMPETUS_CHARGES,
        0 <= old(state).focus <= old(state).max_focus <= STARTING_MAX_FOCUS,
    ensures
        had_impetus == uses_impetus(old(state)@, ability),
        final(state)@ == pay_for(old(state)@, ability),
{
    let ghost v = state@;
    let cost = ability_focus_cost(state, ability);
    let next_focus = state.focus - cost;
    state.focus = if next_focus < state.max_focus {
        next_focus
    } else {
        state.max_focus
    };

    let (base_ticks, cdr_mult) = ability_cooldown_info(ability);
    if base_ticks > 0 {
        let cd = CooldownState { remaining_ticks: base_ticks, cdr_multiplier: cdr_mult };
        match cooldown_position(&state.cooldowns, ability) {
            Some(k) => {
                state.cooldowns.set(k, (ability, cd));
            },
            None => {
                state.cooldowns.push((ability, cd));
            },
        }
        assert(state.cooldowns@ =~= cooldown_insert(v.cooldowns, ability, cd));
    }
    let had_impetus = if ability == Ability::CelestialShot {
        state.celestial_impetus_charges() > 0
    } else {
        false
    };
    if had_impetus {
        state.consume_celestial_impetus();
    }
    assert(state@ =~= pay_for(v, ability));
    had_impetus
}

/// Deals the ability's damage to the target (not below 0 health) and, when `marks`, puts 3
/// stacks of Lunarlight Mark on it.
fn strike_target(state: &mut GameState, ability: Ability, target_id: TargetId, marks: bool)
    requires
        gear_valid(old(state).config.player_config.equipped_items@),
        forall|i: int, j: int|
            0 <= i < old(state)@.enemies.len() && 0 <= j < old(state)@.enemies[i].debuffs.len()
                ==> (#[trigger] old(state)@.enemies[i].debuffs[j]).stacks + 3 <= u32::MAX,
    ensures
        final(state)@ == strike(old(state)@, ability, target_id, marks),
{
    let ghost v = state@;
    let damage = if ability == Ability::HeartseekerBarrage {
        compute_heartseeker_barrage_damage(state, target_id)
    } else {
        compute_ability_damage(state, ability, target_id)
    };
    let ghost rolled = state@;
    assert(rolled.enemies == v.enemies);
    assert(0 <= damage);
    let ghost pre = *state;
    if let Some(enemy) = state.target_enemy_mut(target_id) {
        let ghost before = enemy@;
        enemy.health = if enemy.health as i64 - damage as i64 > 0 {
            enemy.health - damage
        } else {
            0
        };
        assert(enemy@ == take_damage(before, damage as int));
        if marks {
            assert forall|j: int| 0 <= j < enemy.debuffs@.len() implies (
            #[trigger] enemy.debuffs@[j]).stacks + 3 <= u32::MAX by {
                assert(v.enemies[target_id as int].debuffs[j] == enemy.debuffs@[j]@);
            }
            apply_lunarlight_mark(enemy, 3);
        }
        let ghost after = enemy@;
        assert(state.enemies@ == pre.enemies@.update(target_id as int, *enemy));
        assert(state@.enemies =~= rolled.enemies.update(target_id as int, after));
    }
    assert(state@.enemies =~= strike(v, ability, target_id, marks).enemies);
    assert(state@ =~= strike(v, ability, target_id, marks));
}

/// Fires an ability at target `t`: it is paid for, strikes the target (marking it when a
/// Celestial Shot used Impetus), and a Focused Shot may grant Celestial Impetus. Always
/// succeeds.
fn execute_ability_effects(state: &mut GameState, ability: Ability, target_id: TargetId) -> (r:
    bool)
    requires
        sim_invariant(old(state)@),
        old(state)@.tick < MAX_SIM_TICKS,
    ensures
        r,
        final(state)@ == ability_effects(old(state)@, ability, target_id),
{
    let ghost v = state@;
    proof {
        lemma_impetus_charges_capped(v);
    }
    let had_impetus = pay_for_ability(state, ability);
    assert forall|i: int, j: int|
        0 <= i < state@.enemies.len() && 0 <= j < state@.enemies[i].debuffs.len() implies (
        #[trigger] state@.enemies[i].debuffs[j]).stacks + 3 <= u32::MAX by {
        assert(state@.enemies[i].debuffs[j].stacks <= 3 * v.tick);
    }
    strike_target(state, ability, target_id, had_impetus && ability == Ability::CelestialShot);
    if ability == Ability::FocusedShot {
        try_proc_celestial_impetus(state);
    }
    true
}

/// Executes the chosen action at target `t` and returns whether it was valid. While a cast
/// (or channel) is under way only that ability at that target is valid: it counts down and
/// fires on its last tick. Otherwise a cast or channel starts if the ability is usable, and
/// an instant ability fires if it is usable. An invalid action changes nothing.
fn execute_action(state: &mut GameState, action: Action, target_id: TargetId) -> (r: bool)
    requires
        sim_invariant(old(state)@),
        old(state)@.tick < MAX_SIM_TICKS,
    ensures
        (r, final(state)@) == execute(old(state)@, action, target_id),
        !r ==> final(state)@ == old(state)@,
{
    let ghost v = state@;
    proof {
        lemma_impetus_charges_capped(v);
    }
    let ability = match action {
        Action::UseAbility(a) => a,
        Action::Wait => return true,
    };

    let cast_ticks = ability_cast_ticks(ability);
    let channel_ticks = ability_channel_ticks(ability);

    if let Some((cast_ability, cast_target, remaining)) = state.casting {
        if cast_ability != ability || cast_target != target_id {
            return false;
        }
        if remaining > 1 {
            state.casting = Some((cast_ability, cast_target, remaining - 1));
            return true;
        }
        state.casting = None;
        return execute_ability_effects(state, ability, target_id);
    }

    if let Some((chan_ability, chan_target, remaining)) = state.channeling {
        if chan_ability != ability || chan_target != target_id {
            return false;
        }
        if remaining > 1 {
            state.channeling = Some((chan_ability, chan_target, remaining - 1));
            return true;
        }
        state.channeling = None;
        return execute_ability_effects(state, ability, target_id);
    }

    if cast_ticks > 0 {
        if !state.is_ability_usable(ability) {
            return false;
        }
        state.casting = Some((ability, target_id, cast_ticks));
        return true;
    }

    if channel_ticks > 0 {
        if !state.is_ability_usable(ability) {
            return false;
        }
        state.channeling = Some((ability, target_id, channel_ticks));
        return true;
    }

    if !state.is_ability_usable(ability) {
        return false;
    }
    execute_ability_effects(state, ability, target_id)
}


/// A record of a run of `ticks` ticks from `config` under `policy` that ended in `last`:
/// the state before each tick and after the last one, the state the policy was shown in
/// each tick, and each tick's choice. Each state follows from the one before by a
/// simulation tick with that tick's choice; when the policy was consulted, the choice is
/// one the policy can return for the state it was shown (the state after bookkeeping); and
/// no state before the last has every enemy down.
pub open spec fn run_record<P: Fn(&GameState) -> (Action, Option<TargetId>)>(
    config: SimConfig,
    policy: P,
    ticks: int,
    last: GameState,
    states: Seq<GameState>,
    seen: Seq<GameState>,
    choices: Seq<(Action, Option<TargetId>)>,
) -> bool {
    &&& states.len() == ticks + 1
    &&& seen.len() == ticks
    &&& choices.len() == ticks
    &&& states[0]@ == initial_view(config)
    &&& states[ticks] == last
    &&& forall|i: int|
        0 <= i < ticks ==> #[trigger] states[i + 1]@ == sim_tick(states[i]@, choices[i])
    &&& forall|i: int|
        0 <= i < ticks && policy_consulted(#[trigger] states[i]@) ==> seen[i]@ == bookkeeping(
            states[i]@,
        ) && call_ensures(policy, (&seen[i],), choices[i])
    &&& forall|i: int| 0 < i < ticks ==> !all_defeated(#[trigger] states[i]@.enemies)
}

/// A run record extends by one tick.
proof fn lemma_extend_record<P: Fn(&GameState) -> (Action, Option<TargetId>)>(
    config: SimConfig,
    policy: P,
    ticks: int,
    last: GameState,
    states: Seq<GameState>,
    seen: Seq<GameState>,
    choices: Seq<(Action, Option<TargetId>)>,
    next: GameState,
    shown: GameState,
    choice: (Action, Option<TargetId>),
)
    requires
        run_record(config, policy, ticks, last, states, seen, choices),
        ticks >= 0,
        next@ == sim_tick(last@, choice),
        policy_consulted(last@) ==> shown@ == bookkeeping(last@) && call_ensures(
            policy,
            (&shown,),
            choice,
        ),
        ticks > 0 ==> !all_defeated(last@.enemies),
    ensures
        run_record(
            config,
            policy,
            ticks + 1,
            next,
            states.push(next),
            seen.push(shown),
            choices.push(choice),
        ),
{
    let states2 = states.push(next);
    let seen2 = seen.push(shown);
    let choices2 = choices.push(choice);
    assert forall|i: int| 0 <= i < ticks + 1 implies #[trigger] states2[i + 1]@ == sim_tick(
        states2[i]@,
        choices2[i],
    ) by {
        if i < ticks {
            assert(states2[i + 1] == states[i + 1]);
            assert(states[i + 1]@ == sim_tick(states[i]@, choices[i]));
        }
    }
    assert forall|i: int|
        0 <= i < ticks + 1 && policy_consulted(#[trigger] states2[i]@) implies seen2[i]@
        == bookkeeping(states2[i]@) && call_ensures(policy, (&seen2[i],), choices2[i]) by {
        if i < ticks {
            assert(states2[i] == states[i]);
        }
    }
    assert forall|i: int| 0 < i < ticks + 1 implies !all_defeated(#[trigger] states2[i]@.enemies) by {
        if i < ticks {
            assert(states2[i] == states[i]);
        }
    }
}

/// Whether every enemy is down (health at most 0).
fn all_enemies_defeated(enemies: &Vec<EnemyState>) -> (r: bool)
    ensures
        r == all_defeated(enemies@.map_values(|e: EnemyState| e@)),
{
    let ghost es = enemies@.map_values(|e: EnemyState| e@);
    let n = enemies.len();
    for i in 0..n
        invariant
            n == es.len(),
            es == enemies@.map_values(|e: EnemyState| e@),
            forall|j: int| 0 <= j < i ==> (#[trigger] es[j]).health <= 0,
    {
        if enemies[i].health > 0 {
            assert(es[i as int].health > 0);
            return false;
        }
    }
    true
}

/// Runs the simulation from `config` for at most `max_ticks` ticks, stopping after the
/// first tick that leaves every enemy down. Each tick: bookkeeping; then the cast or
/// channel under way continues, or else the policy chooses an action and a target (none:
/// the current target); the action executes (an invalid one counts as waiting); the tick
/// count advances. At least one tick runs when `max_ticks` is positive, even if every
/// enemy starts down. Returns the final state and the number of ticks run.
#[verifier::rlimit(40)]
pub fn run_simulation<P>(config: SimConfig, policy: P, max_ticks: u64) -> (r: (GameState, u64)) where
    P: Fn(&GameState) -> (Action, Option<TargetId>),

    requires
        gear_valid(config.player_config.equipped_items@),
        max_ticks <= MAX_SIM_TICKS,
        forall|s: &GameState| #[trigger] policy.requires((s,)),
    ensures
        r.1 <= max_ticks,
        max_ticks > 0 ==> r.1 >= 1,
        r.0@.tick == r.1,
        r.1 < max_ticks ==> all_defeated(r.0@.enemies),
        sim_invariant(r.0@),
        exists|
            states: Seq<GameState>,
            seen: Seq<GameState>,
            choices: Seq<(Action, Option<TargetId>)>,
        | #[trigger] run_record(config, policy, r.1 as int, r.0, states, seen, choices),
{
    let ghost cfg = config;
    let mut state = GameState::from_config(config);
    let mut ticks_run: u64 = 0;
    let ghost mut states: Seq<GameState> = seq![state];
    let ghost mut seen: Seq<GameState> = Seq::empty();
    let ghost mut choices: Seq<(Action, Option<TargetId>)> = Seq::empty();
    assert(sim_invariant(state@)) by {
        assert(state@.buffs.len() == 0);
    }
    while ticks_run < max_ticks
        invariant_except_break
            ticks_run <= max_ticks,
            ticks_run > 0 ==> !all_defeated(state@.enemies),
        invariant
            max_ticks <= MAX_SIM_TICKS,
            forall|s: &GameState| #[trigger] policy.requires((s,)),
            state@.tick == ticks_run,
            ticks_run <= max_ticks,
            sim_invariant(state@),
            run_record(cfg, policy, ticks_run as int, state, states, seen, choices),
        ensures
            ticks_run == max_ticks || all_defeated(state@.enemies),
            ticks_run <= max_ticks,
            max_ticks > 0 ==> ticks_run >= 1,
        decreases max_ticks - ticks_run,
    {
        let ghost before = state;
        tick_bookkeeping(&mut state);
        let ghost shown = state;
        let (action, target_opt) = if let Some((ability, target_id, _)) = state.casting {
            (Action::UseAbility(ability), Some(target_id))
        } else if let Some((ability, target_id, _)) = state.channeling {
            (Action::UseAbility(ability), Some(target_id))
        } else {
            policy(&state)
        };
        let target_id = state.resolve_target(target_opt);
        proof {
            lemma_tick_preserves_invariant(before@, (action, target_opt));
            lemma_bookkeeping_keeps_invariant(before@);
            assert(tick_action(shown@, (action, target_opt)) == (action, target_id));
        }
        execute_action(&mut state, action, target_id);
        let ghost executed = state@;
        state.tick = state.tick + 1;
        ticks_run = ticks_run + 1;
        proof {
            assert(state@ == (GameView { tick: (executed.tick + 1) as u64, ..executed }));
            assert(state@ == sim_tick(before@, (action, target_opt)));
            lemma_extend_record(
                cfg,
                policy,
                (ticks_run - 1) as int,
                before,
                states,
                seen,
                choices,
                state,
                shown,
                (action, target_opt),
            );
            states = states.push(state);
            seen = seen.push(shown);
            choices = choices.push((action, target_opt));
        }
        if all_enemies_defeated(&state.enemies) {
            break;
        }
    }
    (state, ticks_run)
}


/// A policy that always waits.
pub fn dummy_policy(_state: &GameState) -> (r: (Action, Option<TargetId>))
    ensures
        r == (Action::Wait, None::<TargetId>),
{
    (Action::Wait, None)
}

} // verus!
