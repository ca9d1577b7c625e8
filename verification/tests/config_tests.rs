use fellowship_sim::common::{Stat, StaticEffect, Talent};
use fellowship_sim::config::{EquippedItem, PlayerConfig, SetBonus, SimConfig};
use fellowship_sim::gem::{Gem, GemColor, GemPowerThreshold, GemPowerTree, GemTreeSource};

fn item(ratings: Vec<(Stat, i32)>, gem: Option<Gem>, pct: u32) -> EquippedItem {
    EquippedItem {
        name: "Item".to_string(),
        stat_ratings: ratings,
        gem_power_increase_pct: pct,
        slotted_gem: gem,
        static_effects: vec![],
        set: None,
    }
}

fn player(items: Vec<EquippedItem>) -> PlayerConfig {
    PlayerConfig { talents: vec![], equipped_items: items, weapon_traits: vec![], set_bonuses: vec![] }
}

#[test]
fn sample_config_contents() {
    let c = SimConfig::sample();
    assert_eq!(c.player_config.talents.len(), 5);
    assert_eq!(c.player_config.talents[0], Talent::FocusedExpanse);
    assert_eq!(c.player_config.equipped_items.len(), 2);
    assert_eq!(c.player_config.equipped_items[0].name, "Starforged Longbow");
    assert_eq!(c.player_config.equipped_items[1].name, "Windrunner's Pauldrons");
    assert_eq!(c.player_config.weapon_traits.len(), 1);
    assert_eq!(c.player_config.weapon_traits[0].name, "Celestial Precision");
    assert_eq!(c.player_config.weapon_traits[0].description, "");
    assert_eq!(c.encounter_config.enemies.len(), 1);
    assert_eq!(c.encounter_config.enemies[0].name, "Training Dummy");
    assert_eq!(c.encounter_config.enemies[0].base_health, 1_000_000);
    assert!(c.player_config.totals_fit());
}

#[test]
fn sample_haste_rating_and_multiplier() {
    let c = SimConfig::sample();
    assert_eq!(c.player_config.total_haste_rating(), 140);
    let h = c.player_config.haste_multiplier();
    assert_eq!(h.numerator, 17140);
    assert_eq!(h.denominator, 17000);
}

#[test]
fn haste_rating_sums_items_and_skips_items_without_haste() {
    let p = player(vec![
        item(vec![(Stat::Haste, 100), (Stat::Crit, 50)], None, 100),
        item(vec![(Stat::Agility, 10)], None, 100),
        item(vec![(Stat::Haste, -30)], None, 100),
    ]);
    assert_eq!(p.total_haste_rating(), 70);
    assert_eq!(player(vec![]).total_haste_rating(), 0);
}

#[test]
fn haste_of_1700_rating_is_ten_percent() {
    let p = player(vec![item(vec![(Stat::Haste, 1700)], None, 100)]);
    let h = p.haste_multiplier();
    assert_eq!(h.numerator * 100, h.denominator * 110);
}

#[test]
fn sample_gem_power_by_color() {
    let c = SimConfig::sample();
    assert_eq!(
        c.player_config.total_gem_power_by_color(),
        vec![(GemColor::Diamond, 960), (GemColor::Purple, 360)]
    );
}

#[test]
fn gem_power_sums_per_colour_in_first_appearance_order() {
    let p = player(vec![
        item(vec![], Some(Gem { color: GemColor::Red, power: 120 }), 100),
        item(vec![], Some(Gem { color: GemColor::Blue, power: 240 }), 200),
        item(vec![], None, 100),
        item(vec![], Some(Gem { color: GemColor::Red, power: 360 }), 135),
    ]);
    assert_eq!(p.total_gem_power_by_color(), vec![(GemColor::Red, 120 + 486), (GemColor::Blue, 480)]);
}

#[test]
fn gem_power_multiplier_truncates() {
    let p = player(vec![item(vec![], Some(Gem { color: GemColor::Yellow, power: 125 }), 133)]);
    // 125 * 1.33 = 166.25
    assert_eq!(p.total_gem_power_by_color(), vec![(GemColor::Yellow, 166)]);
}

#[test]
fn all_static_effects_fellowship_sample() {
    let c = SimConfig::sample();
    let effects = c.player_config.all_static_effects(GemTreeSource::FellowshipDefault);
    let names: Vec<&str> = effects.iter().map(|e| e.name.as_str()).collect();
    assert_eq!(
        names,
        vec![
            "Harmonious Soul",
            "Stoic's Teachings",
            "Tranquil Resolve",
            "Ancient's Wisdom",
            "Blessing Of The Artisan",
            "Sealed Fate",
            "Berserker's Zeal",
            "Celestial Precision",
        ]
    );
}

#[test]
fn all_static_effects_without_gems_has_traits_and_item_effects() {
    let mut p = player(vec![
        item(vec![], Some(Gem { color: GemColor::Red, power: 480 }), 100),
        item(vec![], None, 100),
    ]);
    p.weapon_traits = vec![StaticEffect { name: "Trait".to_string(), description: "t".to_string() }];
    p.equipped_items[1].static_effects =
        vec![StaticEffect { name: "Proc".to_string(), description: "p".to_string() }];
    let effects = p.all_static_effects(GemTreeSource::NoGems);
    let names: Vec<&str> = effects.iter().map(|e| e.name.as_str()).collect();
    assert_eq!(names, vec!["Trait", "Proc"]);
}

#[test]
fn all_static_effects_custom_tree() {
    let p = player(vec![item(vec![], Some(Gem { color: GemColor::Red, power: 480 }), 100)]);
    let tree = GemPowerTree {
        by_color: vec![(
            GemColor::Red,
            vec![GemPowerThreshold {
                power: 400,
                effects: vec![StaticEffect { name: "Red400".to_string(), description: String::new() }],
                slot: None,
            }],
        )],
    };
    let effects = p.all_static_effects(GemTreeSource::Custom(&tree));
    assert_eq!(effects.len(), 1);
    assert_eq!(effects[0].name, "Red400");
}

#[test]
fn totals_fit_detects_overflowing_haste() {
    let p = player(vec![
        item(vec![(Stat::Haste, i32::MAX)], None, 100),
        item(vec![(Stat::Haste, 1)], None, 100),
    ]);
    assert!(!p.totals_fit());
    let q = player(vec![
        item(vec![(Stat::Haste, i32::MAX)], None, 100),
        item(vec![(Stat::Haste, -1)], None, 100),
    ]);
    assert!(q.totals_fit());
}

#[test]
fn totals_fit_detects_overflowing_gem_power() {
    let p = player(vec![
        item(vec![], Some(Gem { color: GemColor::Green, power: i32::MAX }), 100),
        item(vec![], Some(Gem { color: GemColor::Green, power: 1 }), 100),
    ]);
    assert!(!p.totals_fit());
}

fn set_item(set: Option<&str>) -> EquippedItem {
    let mut it = item(vec![], None, 100);
    it.set = set.map(|s| s.to_string());
    it
}

fn bonus(set_id: &str, threshold: u32, name: &str) -> SetBonus {
    SetBonus {
        set_id: set_id.to_string(),
        threshold,
        effect: StaticEffect { name: name.to_string(), description: format!("{} bonus", name) },
    }
}

#[test]
fn set_bonus_met_by_one_piece_adds_its_effect() {
    let mut p = player(vec![set_item(Some("S"))]);
    p.set_bonuses = vec![bonus("S", 1, "S1")];
    let effects = p.all_static_effects(GemTreeSource::NoGems);
    assert_eq!(effects.len(), 1);
    assert_eq!(effects[0].name, "S1");
    assert_eq!(effects[0].description, "S1 bonus");
}

#[test]
fn set_bonuses_count_pieces_per_set_and_follow_listed_order() {
    let mut p = player(vec![
        set_item(Some("Starforged")),
        set_item(Some("Windrunner")),
        set_item(None),
        set_item(Some("Starforged")),
    ]);
    p.weapon_traits = vec![StaticEffect { name: "Trait".to_string(), description: String::new() }];
    p.set_bonuses = vec![
        bonus("Starforged", 4, "SF4"),
        bonus("Starforged", 2, "SF2"),
        bonus("Windrunner", 2, "WR2"),
        bonus("Windrunner", 1, "WR1"),
        bonus("Missing", 0, "Zero"),
    ];
    let effects = p.all_static_effects(GemTreeSource::NoGems);
    let names: Vec<&str> = effects.iter().map(|e| e.name.as_str()).collect();
    assert_eq!(names, vec!["Trait", "SF2", "WR1", "Zero"]);
}

#[test]
fn set_bonus_below_threshold_adds_nothing() {
    let mut p = player(vec![set_item(Some("S")), set_item(Some("T"))]);
    p.set_bonuses = vec![bonus("S", 2, "S2")];
    assert!(p.all_static_effects(GemTreeSource::NoGems).is_empty());
}

#[test]
fn totals_fit_rejects_a_stat_listed_twice_on_an_item() {
    let p = player(vec![item(vec![(Stat::Haste, 10), (Stat::Crit, 5), (Stat::Haste, 20)], None, 100)]);
    assert!(!p.totals_fit());
    let q = player(vec![
        item(vec![(Stat::Haste, 10), (Stat::Crit, 5)], None, 100),
        item(vec![(Stat::Haste, 20), (Stat::Crit, 5)], None, 100),
    ]);
    assert!(q.totals_fit());
}
