use fellowship_sim::common::StaticEffect;
use fellowship_sim::gem::{
    effects_from_tree, fellowship_effects_for_color, fellowship_effects_from_tree, GemColor,
    GemPowerThreshold, GemPowerTree, FellowshipThreshold, BLUE, DIAMOND, GREEN, PURPLE, RED,
    YELLOW,
};

fn names(effects: &[StaticEffect]) -> Vec<String> {
    effects.iter().map(|e| e.name.clone()).collect()
}

fn effect(name: &str) -> StaticEffect {
    StaticEffect { name: name.to_string(), description: format!("{} text", name) }
}

fn threshold(power: i32, names: &[&str], slot: Option<u8>) -> GemPowerThreshold {
    GemPowerThreshold { power, effects: names.iter().map(|n| effect(n)).collect(), slot }
}

fn as_tree_thresholds(table: &[FellowshipThreshold]) -> Vec<GemPowerThreshold> {
    table
        .iter()
        .map(|&(power, name, desc, slot)| GemPowerThreshold {
            power,
            effects: vec![StaticEffect { name: name.to_string(), description: desc.to_string() }],
            slot: Some(slot),
        })
        .collect()
}

fn fellowship_as_custom_tree() -> GemPowerTree {
    GemPowerTree {
        by_color: vec![
            (GemColor::Red, as_tree_thresholds(&RED)),
            (GemColor::Purple, as_tree_thresholds(&PURPLE)),
            (GemColor::Yellow, as_tree_thresholds(&YELLOW)),
            (GemColor::Green, as_tree_thresholds(&GREEN)),
            (GemColor::Blue, as_tree_thresholds(&BLUE)),
            (GemColor::Diamond, as_tree_thresholds(&DIAMOND)),
        ],
    }
}

#[test]
fn fellowship_below_first_threshold_grants_nothing() {
    assert!(fellowship_effects_for_color(119, &RED).is_empty());
    assert!(fellowship_effects_for_color(0, &DIAMOND).is_empty());
    assert!(fellowship_effects_for_color(-500, &BLUE).is_empty());
}

#[test]
fn fellowship_threshold_is_inclusive() {
    let effects = fellowship_effects_for_color(120, &RED);
    assert_eq!(names(&effects), vec!["Might Of The Minotaur"]);
    assert_eq!(effects[0].description, "+3% primary stat while you are above 80% health.");
}

#[test]
fn fellowship_grants_each_met_slot() {
    let effects = fellowship_effects_for_color(500, &RED);
    assert_eq!(
        names(&effects),
        vec!["Might Of The Minotaur", "Champion's Heart", "Unyielding Vitality"]
    );
}

#[test]
fn fellowship_upgrade_replaces_base_in_its_slot() {
    let effects = fellowship_effects_for_color(1300, &RED);
    assert_eq!(
        names(&effects),
        vec![
            "Champion's Heart",
            "Unyielding Vitality",
            "Titan's Blood",
            "Blessing Of The Conqueror",
            "Might Of The Minotaur II",
        ]
    );
}

#[test]
fn fellowship_full_power_grants_all_upgrades() {
    let effects = fellowship_effects_for_color(5000, &YELLOW);
    assert_eq!(
        names(&effects),
        vec![
            "Adrenaline Rush II",
            "Thief's Alacrity II",
            "Rogue's Resurgence II",
            "Feline Grace II",
            "Blessing Of The Virtuoso II",
        ]
    );
}

#[test]
fn fellowship_tree_goes_colour_by_colour() {
    let effects = fellowship_effects_from_tree(&vec![(GemColor::Diamond, 960), (GemColor::Purple, 360)]);
    assert_eq!(
        names(&effects),
        vec![
            "Harmonious Soul",
            "Stoic's Teachings",
            "Tranquil Resolve",
            "Ancient's Wisdom",
            "Blessing Of The Artisan",
            "Sealed Fate",
            "Berserker's Zeal",
        ]
    );
}

#[test]
fn fellowship_tree_of_no_gems_is_empty() {
    assert!(fellowship_effects_from_tree(&vec![]).is_empty());
}

#[test]
fn fellowship_tree_uses_each_colour_table() {
    let effects = fellowship_effects_from_tree(&vec![
        (GemColor::Green, 240),
        (GemColor::Blue, 120),
    ]);
    assert_eq!(names(&effects), vec!["First Strike", "Vanguard's Resolve", "Ancestral Surge"]);
}

#[test]
fn fellowship_matches_same_data_as_custom_tree() {
    let tree = fellowship_as_custom_tree();
    for power in [0, 119, 120, 500, 1200, 1300, 1999, 2640, 9999] {
        let p = vec![
            (GemColor::Red, power),
            (GemColor::Diamond, power / 2),
            (GemColor::Purple, power + 100),
        ];
        let a = fellowship_effects_from_tree(&p);
        let b = effects_from_tree(&p, &tree);
        assert_eq!(names(&a), names(&b));
        let da: Vec<String> = a.iter().map(|e| e.description.clone()).collect();
        let db: Vec<String> = b.iter().map(|e| e.description.clone()).collect();
        assert_eq!(da, db);
    }
}

#[test]
fn custom_tree_unslotted_grants_every_met_threshold() {
    let tree = GemPowerTree {
        by_color: vec![(
            GemColor::Red,
            vec![
                threshold(100, &["A", "B"], None),
                threshold(200, &["C"], None),
                threshold(300, &["D"], None),
            ],
        )],
    };
    let effects = effects_from_tree(&vec![(GemColor::Red, 250)], &tree);
    assert_eq!(names(&effects), vec!["A", "B", "C"]);
    assert_eq!(effects[0].description, "A text");
}

#[test]
fn custom_tree_slotted_keeps_highest_per_slot() {
    let tree = GemPowerTree {
        by_color: vec![(
            GemColor::Blue,
            vec![
                threshold(100, &["Base"], Some(0)),
                threshold(150, &["Other"], Some(1)),
                threshold(200, &["Upgrade"], Some(0)),
                threshold(900, &["Far"], Some(0)),
            ],
        )],
    };
    let effects = effects_from_tree(&vec![(GemColor::Blue, 250)], &tree);
    assert_eq!(names(&effects), vec!["Other", "Upgrade"]);
}

#[test]
fn custom_tree_keeps_unslotted_beside_slot_winners() {
    let tree = GemPowerTree {
        by_color: vec![(
            GemColor::Green,
            vec![threshold(100, &["Loose"], None), threshold(100, &["Slotted"], Some(3))],
        )],
    };
    let effects = effects_from_tree(&vec![(GemColor::Green, 100)], &tree);
    assert_eq!(names(&effects), vec!["Loose", "Slotted"]);
}

#[test]
fn custom_tree_upgrade_replaces_base_and_keeps_unslotted() {
    let tree = GemPowerTree {
        by_color: vec![(
            GemColor::Green,
            vec![
                threshold(100, &["U"], None),
                threshold(100, &["S1"], Some(1)),
                threshold(500, &["S2"], Some(1)),
            ],
        )],
    };
    let effects = effects_from_tree(&vec![(GemColor::Green, 600)], &tree);
    assert_eq!(names(&effects), vec!["U", "S2"]);
    let effects = effects_from_tree(&vec![(GemColor::Green, 499)], &tree);
    assert_eq!(names(&effects), vec!["U", "S1"]);
}

#[test]
fn custom_tree_slot_tie_keeps_first() {
    let tree = GemPowerTree {
        by_color: vec![(
            GemColor::Green,
            vec![threshold(100, &["First"], Some(1)), threshold(100, &["Second"], Some(1))],
        )],
    };
    let effects = effects_from_tree(&vec![(GemColor::Green, 150)], &tree);
    assert_eq!(names(&effects), vec!["First"]);
}

#[test]
fn custom_tree_ignores_colours_it_lacks_and_unmet_thresholds() {
    let tree = GemPowerTree {
        by_color: vec![(GemColor::Red, vec![threshold(100, &["R"], Some(0))])],
    };
    let p = vec![(GemColor::Yellow, 5000), (GemColor::Red, 99)];
    assert!(effects_from_tree(&p, &tree).is_empty());
    let p = vec![(GemColor::Yellow, 5000), (GemColor::Red, 100)];
    assert_eq!(names(&effects_from_tree(&p, &tree)), vec!["R"]);
}

#[test]
fn default_tree_is_empty() {
    let tree = GemPowerTree::default();
    assert!(tree.by_color.is_empty());
    assert!(effects_from_tree(&vec![(GemColor::Red, 9999)], &tree).is_empty());
}

fn sorted_names(effects: &[StaticEffect]) -> Vec<String> {
    let mut v = names(effects);
    v.sort();
    v
}

fn two_colour_tree() -> GemPowerTree {
    GemPowerTree {
        by_color: vec![
            (
                GemColor::Red,
                vec![
                    threshold(100, &["R1"], None),
                    threshold(200, &["R2"], Some(0)),
                    threshold(300, &["R3"], Some(0)),
                ],
            ),
            (GemColor::Blue, vec![threshold(50, &["B1"], Some(2)), threshold(80, &["B2"], None)]),
        ],
    }
}

#[test]
fn custom_tree_totals_listed_together_grant_each_part() {
    let tree = two_colour_tree();
    let both = effects_from_tree(&vec![(GemColor::Red, 350), (GemColor::Blue, 90)], &tree);
    let red = effects_from_tree(&vec![(GemColor::Red, 350)], &tree);
    let blue = effects_from_tree(&vec![(GemColor::Blue, 90)], &tree);
    let mut joined = names(&red);
    joined.extend(names(&blue));
    assert_eq!(names(&both), joined);
    assert_eq!(names(&both), vec!["R1", "R3", "B1", "B2"]);
    assert!(effects_from_tree(&vec![], &tree).is_empty());
}

#[test]
fn custom_tree_unslotted_more_power_keeps_every_effect() {
    let tree = GemPowerTree {
        by_color: vec![(
            GemColor::Yellow,
            vec![threshold(300, &["C"], None), threshold(100, &["A"], None), threshold(200, &["B"], None)],
        )],
    };
    let low = names(&effects_from_tree(&vec![(GemColor::Yellow, 150)], &tree));
    let high = names(&effects_from_tree(&vec![(GemColor::Yellow, 250)], &tree));
    assert_eq!(low, vec!["A"]);
    assert_eq!(high, vec!["A", "B"]);
    assert!(low.iter().all(|n| high.contains(n)));

    let two = GemPowerTree {
        by_color: vec![
            (GemColor::Yellow, vec![threshold(100, &["Y1"], None), threshold(200, &["Y2"], None)]),
            (GemColor::Red, vec![threshold(50, &["R1"], None)]),
        ],
    };
    let small = names(&effects_from_tree(&vec![(GemColor::Yellow, 120)], &two));
    let large = names(&effects_from_tree(
        &vec![(GemColor::Red, 60), (GemColor::Yellow, 220)],
        &two,
    ));
    assert_eq!(small, vec!["Y1"]);
    assert_eq!(large, vec!["R1", "Y1", "Y2"]);
    assert!(small.iter().all(|n| large.contains(n)));
}

#[test]
fn custom_tree_threshold_order_does_not_change_granted_effects() {
    let tree = two_colour_tree();
    let mut reordered = two_colour_tree();
    reordered.by_color[0].1.reverse();
    reordered.by_color[1].1.reverse();
    for &(red, blue) in &[(0, 0), (150, 60), (250, 100), (400, 40)] {
        let p = vec![(GemColor::Red, red), (GemColor::Blue, blue)];
        let a = effects_from_tree(&p, &tree);
        let b = effects_from_tree(&p, &reordered);
        assert_eq!(sorted_names(&a), sorted_names(&b));
    }
}
