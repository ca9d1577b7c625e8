use fellowship_sim::common::Ability;
use fellowship_sim::config::{EncounterConfig, EnemyConfig, PlayerConfig, SimConfig};
use fellowship_sim::sim::{
    ability_cast_ticks, ability_channel_ticks, ability_cooldown_info, dummy_policy,
    run_simulation, Action, Buff, CooldownState, Debuff, GameState, TargetId, CELESTIAL_IMPETUS,
    LUNARLIGHT_MARK,
};

fn bare_config(healths: &[i32]) -> SimConfig {
    SimConfig {
        player_config: PlayerConfig {
            talents: vec![],
            equipped_items: vec![],
            weapon_traits: vec![],
            set_bonuses: vec![],
        },
        encounter_config: EncounterConfig {
            enemies: healths
                .iter()
                .map(|&h| EnemyConfig { name: "Dummy".to_string(), base_health: h })
                .collect(),
        },
    }
}

fn impetus(charges: u32) -> Buff {
    Buff { id: CELESTIAL_IMPETUS.to_string(), duration_ticks: 300, charges: Some(charges) }
}

#[test]
fn cast_channel_and_cooldown_times() {
    assert_eq!(ability_cast_ticks(Ability::FocusedShot), 12);
    assert_eq!(ability_cast_ticks(Ability::CelestialShot), 0);
    assert_eq!(ability_channel_ticks(Ability::HeartseekerBarrage), 25);
    assert_eq!(ability_channel_ticks(Ability::FocusedShot), 0);
    assert_eq!(ability_cooldown_info(Ability::HeartseekerBarrage), (200, 1));
    assert_eq!(ability_cooldown_info(Ability::EventHorizon), (180, 1));
    assert_eq!(ability_cooldown_info(Ability::SkystridersSupremacy), (300, 1));
    assert_eq!(ability_cooldown_info(Ability::Multishot), (0, 1));
}

#[test]
fn initial_state_from_config() {
    let s = GameState::from_config(SimConfig::sample());
    assert_eq!(s.tick, 0);
    assert_eq!(s.focus, 100);
    assert_eq!(s.max_focus, 100);
    assert_eq!(s.current_target, 0);
    assert_eq!(s.enemies.len(), 1);
    assert_eq!(s.enemies[0].health, 1_000_000);
    assert_eq!(s.enemies[0].max_health, 1_000_000);
    assert!(s.buffs.is_empty() && s.cooldowns.is_empty() && s.casting.is_none());
    assert_eq!(s.rng_seed, 0);
}

#[test]
fn resolve_target_prefers_explicit() {
    let mut s = GameState::from_config(bare_config(&[10, 20]));
    s.current_target = 1;
    assert_eq!(s.resolve_target(Some(0)), 0);
    assert_eq!(s.resolve_target(None), 1);
}

#[test]
fn usability_checks_focus_cooldown_and_casting() {
    let mut s = GameState::from_config(bare_config(&[10]));
    assert!(s.is_ability_usable(Ability::Multishot));
    s.focus = 39;
    assert!(!s.is_ability_usable(Ability::Multishot));
    assert!(s.is_ability_usable(Ability::HighwindArrow));
    s.cooldowns.push((Ability::HighwindArrow, CooldownState { remaining_ticks: 3, cdr_multiplier: 1 }));
    assert!(!s.is_ability_usable(Ability::HighwindArrow));
    s.cooldowns[0].1.remaining_ticks = 0;
    assert!(s.is_ability_usable(Ability::HighwindArrow));
    s.casting = Some((Ability::FocusedShot, 0, 3));
    assert!(!s.is_ability_usable(Ability::FocusedShot));
}

#[test]
fn celestial_shot_is_free_with_impetus() {
    let mut s = GameState::from_config(bare_config(&[10]));
    s.focus = 10;
    assert!(!s.is_ability_usable(Ability::CelestialShot));
    s.buffs.push(impetus(1));
    assert!(s.is_ability_usable(Ability::CelestialShot));
}

#[test]
fn impetus_charges_count_only_impetus() {
    let mut s = GameState::from_config(bare_config(&[10]));
    assert_eq!(s.celestial_impetus_charges(), 0);
    s.buffs.push(impetus(2));
    s.buffs.push(Buff { id: "Other".to_string(), duration_ticks: 5, charges: Some(7) });
    s.buffs.push(Buff { id: CELESTIAL_IMPETUS.to_string(), duration_ticks: 5, charges: None });
    assert_eq!(s.celestial_impetus_charges(), 2);
}

#[test]
fn grant_then_consume_impetus() {
    let mut s = GameState::from_config(bare_config(&[10]));
    assert!(!s.consume_celestial_impetus());
    s.grant_celestial_impetus();
    assert_eq!(s.buffs.len(), 1);
    assert_eq!(s.buffs[0].charges, Some(1));
    assert_eq!(s.buffs[0].duration_ticks, 300);
    s.buffs[0].duration_ticks = 40;
    s.grant_celestial_impetus();
    assert_eq!(s.buffs[0].charges, Some(2));
    assert_eq!(s.buffs[0].duration_ticks, 300);
    s.buffs[0].duration_ticks = 40;
    s.grant_celestial_impetus();
    assert_eq!(s.buffs.len(), 1);
    assert_eq!(s.buffs[0].charges, Some(2));
    assert_eq!(s.buffs[0].duration_ticks, 300);
    s.buffs[0].duration_ticks = 40;
    assert_eq!(s.celestial_impetus_charges(), 2);
    assert!(s.consume_celestial_impetus());
    assert_eq!(s.buffs[0].charges, Some(1));
    assert_eq!(s.buffs[0].duration_ticks, 40);
    assert!(s.consume_celestial_impetus());
    assert_eq!(s.buffs[0].charges, Some(0));
    assert_eq!(s.buffs[0].duration_ticks, 0);
    assert!(!s.consume_celestial_impetus());
}

#[test]
fn target_enemy_lookup_and_mark() {
    let mut s = GameState::from_config(bare_config(&[10, 20]));
    assert_eq!(s.target_enemy(1).map(|e| e.health), Some(20));
    assert!(s.target_enemy(2).is_none());
    assert!(!s.enemy_has_lunarlight_mark(1));
    s.enemies[1].debuffs.push(Debuff { id: LUNARLIGHT_MARK.to_string(), duration_ticks: 5, stacks: 3 });
    assert!(s.enemy_has_lunarlight_mark(1));
    assert!(!s.enemy_has_lunarlight_mark(0));
    assert!(!s.enemy_has_lunarlight_mark(7));
    if let Some(e) = s.target_enemy_mut(0) {
        e.health = 3;
    }
    assert_eq!(s.enemies[0].health, 3);
    assert!(s.target_enemy_mut(9).is_none());
}

#[test]
fn dummy_policy_waits() {
    let s = GameState::from_config(bare_config(&[10]));
    assert_eq!(dummy_policy(&s), (Action::Wait, None));
}

#[test]
fn waiting_run_uses_all_ticks() {
    let (state, ticks) = run_simulation(SimConfig::sample(), dummy_policy, 100);
    assert_eq!(ticks, 100);
    assert_eq!(state.tick, 100);
    assert_eq!(state.focus, 100);
    assert_eq!(state.max_focus, 100);
    assert_eq!(state.enemies[0].health, 1_000_000);
}

#[test]
fn zero_tick_run() {
    let (state, ticks) = run_simulation(SimConfig::sample(), dummy_policy, 0);
    assert_eq!(ticks, 0);
    assert_eq!(state.tick, 0);
}

fn focused_shot_policy(_s: &GameState) -> (Action, Option<TargetId>) {
    (Action::UseAbility(Ability::FocusedShot), None)
}

#[test]
fn focused_shot_casts_lock_and_fire() {
    let (state, ticks) = run_simulation(SimConfig::sample(), focused_shot_policy, 100);
    assert_eq!(ticks, 100);
    // A cast takes 12 ticks and fires on the 13th: completions at ticks 12, 25, ..., 90.
    assert_eq!(state.enemies[0].health, 1_000_000 - 7 * 200);
    assert_eq!(state.focus, 100);
    // Cast started at tick 91, counted down through tick 99.
    assert_eq!(state.casting, Some((Ability::FocusedShot, 0, 4)));
    // The first rPPM chances with a small seed proc; charges are capped.
    assert_eq!(state.buffs.len(), 1);
    assert_eq!(state.buffs[0].charges, Some(2));
}

fn celestial_shot_policy(_s: &GameState) -> (Action, Option<TargetId>) {
    (Action::UseAbility(Ability::CelestialShot), None)
}

#[test]
fn run_stops_when_all_enemies_are_down() {
    let (state, ticks) = run_simulation(bare_config(&[150]), celestial_shot_policy, 50);
    assert_eq!(ticks, 1);
    assert_eq!(state.enemies[0].health, 0);
    assert_eq!(state.focus, 85);
}

#[test]
fn run_with_no_enemies_stops_after_one_tick() {
    let (_, ticks) = run_simulation(bare_config(&[]), dummy_policy, 50);
    assert_eq!(ticks, 1);
}

#[test]
fn focus_runs_out_for_celestial_shot() {
    let (state, ticks) = run_simulation(bare_config(&[1_000_000]), celestial_shot_policy, 10);
    assert_eq!(ticks, 10);
    // 100 focus pays for six shots at 15 each.
    assert_eq!(state.focus, 10);
    assert_eq!(state.enemies[0].health, 1_000_000 - 6 * 150);
}

fn barrage_policy(_s: &GameState) -> (Action, Option<TargetId>) {
    (Action::UseAbility(Ability::HeartseekerBarrage), Some(0))
}

#[test]
fn heartseeker_barrage_channels_then_cools_down() {
    let (state, ticks) = run_simulation(SimConfig::sample(), barrage_policy, 40);
    assert_eq!(ticks, 40);
    // Haste 140 rating: round(10 * 17140 / 17000) = 10 projectiles of 25, no mark.
    assert_eq!(state.enemies[0].health, 1_000_000 - 250);
    assert_eq!(state.focus, 70);
    assert!(state.channeling.is_none());
    // Cooldown of 200 ticks set on completion at tick 25, ticked down through tick 39.
    assert_eq!(state.cooldowns, vec![(Ability::HeartseekerBarrage, CooldownState { remaining_ticks: 186, cdr_multiplier: 1 })]);
}

fn target_two_policy(_s: &GameState) -> (Action, Option<TargetId>) {
    (Action::UseAbility(Ability::CelestialShot), Some(2))
}

#[test]
fn shots_at_a_missing_target_cost_focus_but_hit_nothing() {
    let (state, ticks) = run_simulation(bare_config(&[500, 500]), target_two_policy, 2);
    assert_eq!(ticks, 2);
    assert_eq!(state.focus, 70);
    assert_eq!(state.enemies[0].health, 500);
    assert_eq!(state.enemies[1].health, 500);
}

fn impetus_policy(s: &GameState) -> (Action, Option<TargetId>) {
    if s.celestial_impetus_charges() > 0 {
        (Action::UseAbility(Ability::CelestialShot), None)
    } else {
        (Action::UseAbility(Ability::FocusedShot), None)
    }
}

#[test]
fn celestial_shot_with_impetus_marks_the_target() {
    let (state, ticks) = run_simulation(SimConfig::sample(), impetus_policy, 28);
    assert_eq!(ticks, 28);
    // Focused Shot completes at tick 12 and procs Impetus; Celestial Shot at tick 13 spends it
    // for free and marks; again at ticks 26 and 27.
    assert_eq!(state.enemies[0].health, 1_000_000 - 2 * (200 + 150));
    assert_eq!(state.focus, 100);
    assert_eq!(state.celestial_impetus_charges(), 0);
    assert_eq!(state.enemies[0].debuffs.len(), 1);
    assert_eq!(state.enemies[0].debuffs[0].id, LUNARLIGHT_MARK);
    assert_eq!(state.enemies[0].debuffs[0].stacks, 6);
    assert_eq!(state.enemies[0].debuffs[0].duration_ticks, 150);
    assert!(state.enemy_has_lunarlight_mark(0));
}

#[test]
fn run_with_enemies_already_down_still_runs_one_tick() {
    let (state, ticks) = run_simulation(bare_config(&[0, -5]), dummy_policy, 50);
    assert_eq!(ticks, 1);
    assert_eq!(state.tick, 1);
}
