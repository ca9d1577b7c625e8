//! Gem types and the gem power tree: per-colour power thresholds that grant
//! static effects, either from the built-in Fellowship data or from a custom tree.
use vstd::prelude::*;

use crate::common::{
    effects_view, extend_effects, first_match, is_first_match, keys_distinct,
    lemma_first_match_found, lemma_first_match_in_range, lemma_first_match_none,
    lemma_first_match_unique, EffectView, StaticEffect,
};

verus! {

/// The colour of a gem; gem power is totalled per colour.
#[derive(Clone, Copy, Debug, Hash, PartialEq, Eq, Structural)]
pub enum GemColor {
    Red,
    Purple,
    Yellow,
    Green,
    Blue,
    Diamond,
}

/// A gem slotted into an item. Its power is typically 120, 240, 360 or 480.
#[derive(Clone, Copy, Debug)]
pub struct Gem {
    pub color: GemColor,
    pub power: i32,
}

/// A single threshold in the gem power tree: when the total power for a colour meets or
/// exceeds `power`, the player gains these effects. If `slot` is set, only the highest
/// met threshold of that slot is applied (an upgraded power replaces its base); a met
/// threshold without a slot always applies.
#[derive(Clone)]
pub struct GemPowerThreshold {
    pub power: i32,
    pub effects: Vec<StaticEffect>,
    /// When set, only the effect from the highest power threshold in this slot is granted.
    pub slot: Option<u8>,
}

/// A threshold as its power, the names and descriptions of its effects, and its slot.
pub type ThresholdView = (i32, Seq<EffectView>, Option<u8>);

impl View for GemPowerThreshold {
    type V = ThresholdView;

    open spec fn view(&self) -> ThresholdView {
        (self.power, effects_view(self.effects@), self.slot)
    }
}

/// The views of a sequence of thresholds.
pub open spec fn thresholds_view(ts: Seq<GemPowerThreshold>) -> Seq<ThresholdView> {
    ts.map_values(|t: GemPowerThreshold| t@)
}

/// Per-colour thresholds: at each power level you gain the listed static effects.
/// Each colour is listed at most once (`keys_distinct` of the view).
#[derive(Clone)]
pub struct GemPowerTree {
    pub by_color: Vec<(GemColor, Vec<GemPowerThreshold>)>,
}

/// A tree as the sequence of its colours with their thresholds.
pub type TreeView = Seq<(GemColor, Seq<ThresholdView>)>;

impl View for GemPowerTree {
    type V = TreeView;

    open spec fn view(&self) -> TreeView {
        self.by_color@.map_values(
            |e: (GemColor, Vec<GemPowerThreshold>)| (e.0, thresholds_view(e.1@)),
        )
    }
}

impl Default for GemPowerTree {
    fn default() -> (t: GemPowerTree)
        ensures
            t@ == Seq::<(GemColor, Seq<ThresholdView>)>::empty(),
    {
        GemPowerTree { by_color: Vec::new() }
    }
}

/// How gem power turns into static effects: no gems, the built-in Fellowship tree, or a
/// custom tree.
#[derive(Clone, Copy)]
pub enum GemTreeSource<'a> {
    NoGems,
    FellowshipDefault,
    Custom(&'a GemPowerTree),
}

/// A built-in threshold: power, effect name, effect description, slot.
pub type FellowshipThreshold = (i32, &'static str, &'static str, u8);

/// A built-in threshold with its texts as character sequences.
pub type FellowshipEntryView = (i32, Seq<char>, Seq<char>, u8);

/// Built-in thresholds for red gem power (the Fellowship tree).
pub const RED: [FellowshipThreshold; 10] = [
    (120, "Might Of The Minotaur", "+3% primary stat while you are above 80% health.", 0),
    (240, "Champion's Heart", "+140 Stamina and +8 Strength / Intellect / Agility", 1),
    (480, "Unyielding Vitality", "You heal for 0.7% of your Maximum Health every 2 seconds while in combat.", 2),
    (720, "Titan's Blood", "+3% Stamina", 3),
    (960, "Blessing Of The Conqueror", "While in combat with a boss your Damage, Healing, and Absorption is increased by 4%.", 4),
    (1200, "Might Of The Minotaur II", "+9% primary stat while you are above 80% health.", 0),
    (1560, "Champion's Heart II", "+420 Stamina and +24 Strength / Intellect / Agility", 1),
    (1920, "Unyielding Vitality II", "You heal for 2.1% of your Maximum Health every 2 seconds while in combat.", 2),
    (2280, "Titan's Blood II", "+9% Stamina", 3),
    (2640, "Blessing Of The Conqueror II", "While in combat with a boss your Damage, Healing, and Absorption is increased by 12%.", 4),
];

/// Built-in thresholds for yellow gem power (the Fellowship tree).
pub const YELLOW: [FellowshipThreshold; 10] = [
    (120, "Adrenaline Rush", "+3% Haste for 10 seconds each time you deal damage to or heal a character that has 30% or less health.", 0),
    (240, "Thief's Alacrity", "+100 Stamina and +100 Haste", 1),
    (480, "Rogue's Resurgence", "When you are below 50% health you are instantly healed for 8% of your maximum health. This effect can only occur once every 20 seconds.", 2),
    (720, "Feline's Grace", "+3% Haste", 3),
    (960, "Blessing Of The Virtuoso", "You retain +3% Haste from 'Spirit of Heroism' while it is not active.", 4),
    (1200, "Adrenaline Rush II", "+9% Haste for 10 seconds each time you deal damage to or heal a character that has 30% or less health.", 0),
    (1560, "Thief's Alacrity II", "+300 Stamina and +300 Haste", 1),
    (1920, "Rogue's Resurgence II", "When you are below 50% health you are instantly healed for 24% of your maximum health. This effect can only occur once every 20 seconds.", 2),
    (2280, "Feline Grace II", "+9% Haste", 3),
    (2640, "Blessing Of The Virtuoso II", "You retain +9% Haste from 'Spirit of Heroism' while it is not active.", 4),
];

/// Built-in thresholds for blue gem power (the Fellowship tree).
pub const BLUE: [FellowshipThreshold; 10] = [
    (120, "Ancestral Surge", "While Spirit of Heroism is active, your Strength / Agility / Intellect is increased by 8%.", 0),
    (240, "Mystic's Intuition", "+100 Stamina and +100 Spirit", 1),
    (480, "Resonating Soul", "For every 10% Health you are missing, all damage you take is reduced by 1%.", 2),
    (720, "Oracle's Foresight", "+3% Spirit", 3),
    (960, "Blessing Of The Prophet", "The duration of your Spirit of Heroism is increased by 6 seconds.", 4),
    (1200, "Ancestral Surge II", "While Spirit of Heroism is active, your Strength / Agility / Intellect is increased by 24%.", 0),
    (1560, "Mystic's Intuition II", "+300 Stamina and +300 Spirit", 1),
    (1920, "Resonating Soul II", "For every 10% Health you are missing, all damage you take is reduced by 3%.", 2),
    (2280, "Oracle's Foresight II", "+9% Spirit", 3),
    (2640, "Blessing Of The Prophet II", "The duration of your Spirit of Heroism is increased by 18 seconds.", 4),
];

/// Built-in thresholds for green gem power (the Fellowship tree).
pub const GREEN: [FellowshipThreshold; 10] = [
    (120, "First Strike", "+5% Expertise for 15 seconds when dealing damage to any enemy for the first time.", 0),
    (240, "Vanguard's Resolve", "+100 Stamina and +100 Expertise", 1),
    (480, "Sentinel's Bastion", "Every 60 seconds, you gain a shield that absorbs damage equal to 10% of your maximum health. The shield lasts for 60 seconds.", 2),
    (720, "Tactician's Acumen", "+3% Expertise", 3),
    (960, "Blessing Of The Commander", "Your ability Cooldowns are reduced by 4%.", 4),
    (1200, "First Strike II", "+15% Expertise for 15 seconds when dealing damage to any enemy for the first time.", 0),
    (1560, "Vanguard's Resolve II", "+300 Stamina and +300 Expertise", 1),
    (1920, "Sentinel's Bastion II", "Every 60 seconds you gain a shield that absorbs damage equal to 30% of your maximum health. The shield lasts for 60 seconds.", 2),
    (2280, "Tactician's Acumen II", "+9% Expertise", 3),
    (2640, "Blessing Of The Commander II", "+12% Ability Cooldown Reduction", 4),
];

/// Built-in thresholds for diamond gem power (the Fellowship tree).
pub const DIAMOND: [FellowshipThreshold; 10] = [
    (120, "Harmonious Soul", "+0.5% Critical Strike, +0.5% Haste, +0.5% Expertise and +0.5% Spirit", 0),
    (240, "Stoic's Teachings", "+60 Stamina and +15 Strength / Intellect / Agility", 1),
    (480, "Tranquil Resolve", "When you take Magic Damage you gain 'Tranquil Resolve', reducing all Magic Damage you take by 8% for 6 seconds. This effect cannot occur more than once every 20 seconds.", 2),
    (720, "Ancient's Wisdom", "+2% Strength / Intellect / Agility", 3),
    (960, "Blessing Of The Artisan", "Your Relic cooldowns are reduced by 8%.", 4),
    (1200, "Harmonious Soul II", "+1.5% Critical Strike, +1.5% Haste, +1.5% Expertise and +1.5% Spirit", 0),
    (1560, "Stoic's Teachings II", "+180 Stamina and +45 Strength / Intellect / Agility", 1),
    (1920, "Tranquil Resolve II", "When you take Magic Damage you gain 'Tranquil Resolve', reducing all Magic Damage you take by 24% for 6 seconds. This effect cannot occur more than once every 20 seconds.", 2),
    (2280, "Ancient's Wisdom II", "+6% Strength / Intellect / Agility", 3),
    (2640, "Blessing Of The Artisan II", "Your Relic cooldowns are reduced by 24%.", 4),
];

/// Built-in thresholds for purple gem power (the Fellowship tree).
pub const PURPLE: [FellowshipThreshold; 10] = [
    (120, "Sealed Fate", "Your Damage and Healing effects on characters with more than 80% health have +10% critical strike chance.", 0),
    (240, "Berserker's Zeal", "+100 Stamina and +100 Critical Strike", 1),
    (480, "Reaper's Reprieve", "Each time an enemy that you dealt damage to dies, you gain Reaper's Reprieve, healing you for 12% of your Maximum Health over 12 seconds.", 2),
    (720, "Killer Instinct", "+3% Critical Strike chance", 3),
    (960, "Blessing Of The Deathdealer", "Your critical strikes do 4% more damage and healing.", 4),
    (1200, "Sealed Fate II", "Your Damage and Healing effects on characters with more than 80% health have +30% critical strike chance.", 0),
    (1560, "Berserker's Zeal II", "+300 Stamina and +300 Critical Strike", 1),
    (1920, "Reaper's Reprieve II", "Each time an enemy that you dealt damage to dies, you gain Reaper's Reprieve, healing you for 36% of your Maximum Health over 18 seconds.", 2),
    (2280, "Killer Instinct II", "+9% Critical Strike chance", 3),
    (2640, "Blessing Of The Deathdealer II", "Your critical strikes do 12% more damage and healing.", 4),
];

/// The views of built-in thresholds.
pub open spec fn fellowship_entries_view(ts: Seq<FellowshipThreshold>) -> Seq<FellowshipEntryView> {
    ts.map_values(|t: FellowshipThreshold| (t.0, t.1@, t.2@, t.3))
}

/// The built-in thresholds of a colour.
pub open spec fn fellowship_table(c: GemColor) -> Seq<FellowshipEntryView> {
    match c {
        GemColor::Red => fellowship_entries_view(RED@),
        GemColor::Yellow => fellowship_entries_view(YELLOW@),
        GemColor::Blue => fellowship_entries_view(BLUE@),
        GemColor::Green => fellowship_entries_view(GREEN@),
        GemColor::Diamond => fellowship_entries_view(DIAMOND@),
        GemColor::Purple => fellowship_entries_view(PURPLE@),
    }
}

// ---------------------------------------------------------------------------
// Custom trees
// ---------------------------------------------------------------------------

/// Threshold `i` is met by a colour total of `total`.
pub open spec fn threshold_met(ts: Seq<ThresholdView>, total: int, i: int) -> bool {
    total >= ts[i].0
}

/// Threshold `i` is the one kept for its slot: it is met, has a slot, and every other met
/// threshold of that slot has less power, or the same power and comes later.
pub open spec fn is_slot_winner(ts: Seq<ThresholdView>, total: int, i: int) -> bool {
    &&& threshold_met(ts, total, i)
    &&& ts[i].2 is Some
    &&& forall|j: int|
        #![trigger ts[j]]
        0 <= j < ts.len() && threshold_met(ts, total, j) && ts[j].2 == ts[i].2 ==> ts[j].0
            <= ts[i].0 && (j < i ==> ts[j].0 < ts[i].0)
}

/// Threshold `i` grants its effects: it is met, and either has no slot or is the one kept
/// for its slot.
pub open spec fn is_granted(ts: Seq<ThresholdView>, total: int, i: int) -> bool {
    &&& threshold_met(ts, total, i)
    &&& (ts[i].2 is None || is_slot_winner(ts, total, i))
}

/// The effects of the granted thresholds among the first `k`, in threshold order.
pub open spec fn chosen_effects(ts: Seq<ThresholdView>, total: int, k: int) -> Seq<EffectView>
    decreases k,
{
    if k <= 0 {
        Seq::empty()
    } else {
        let prev = chosen_effects(ts, total, k - 1);
        if is_granted(ts, total, k - 1) {
            prev + ts[k - 1].1
        } else {
            prev
        }
    }
}

/// The effects a colour total earns from its thresholds: every met threshold without a
/// slot, and for each slot only its highest met threshold (an upgrade replaces its base).
/// Effects come in threshold order.
pub open spec fn color_effects(ts: Seq<ThresholdView>, total: int) -> Seq<EffectView> {
    chosen_effects(ts, total, ts.len() as int)
}

/// Matches a tree entry of colour `c`.
pub open spec fn color_is(c: GemColor) -> spec_fn((GemColor, Seq<ThresholdView>)) -> bool {
    |e: (GemColor, Seq<ThresholdView>)| e.0 == c
}

/// The thresholds of colour `c` in a tree: those of its first entry for `c`.
pub open spec fn tree_lookup(tree: TreeView, c: GemColor) -> Option<Seq<ThresholdView>> {
    let i = first_match(tree, color_is(c));
    if i >= 0 {
        Some(tree[i].1)
    } else {
        None
    }
}

/// The effects a tree grants for per-colour totals: for each colour total in order, the
/// effects of that colour's thresholds (none when the tree lacks the colour).
pub open spec fn tree_effects(p: Seq<(GemColor, i32)>, tree: TreeView) -> Seq<EffectView>
    decreases p.len(),
{
    if p.len() == 0 {
        Seq::empty()
    } else {
        tree_effects(p.drop_last(), tree) + match tree_lookup(tree, p.last().0) {
            Some(ts) => color_effects(ts, p.last().1 as int),
            None => Seq::empty(),
        }
    }
}

// ---------------------------------------------------------------------------
// The built-in tree
// ---------------------------------------------------------------------------

/// Built-in threshold `i` is the one kept for its slot: it is met, and every other met
/// threshold of its slot has less power, or the same power and comes later.
pub open spec fn is_fellowship_winner(tab: Seq<FellowshipEntryView>, total: int, i: int) -> bool {
    &&& total >= tab[i].0
    &&& forall|j: int|
        #![trigger tab[j]]
        0 <= j < tab.len() && total >= tab[j].0 && tab[j].3 == tab[i].3 ==> tab[j].0 <= tab[i].0
            && (j < i ==> tab[j].0 < tab[i].0)
}

/// The effects of the slot winners among the first `k` built-in thresholds.
pub open spec fn fellowship_chosen(tab: Seq<FellowshipEntryView>, total: int, k: int) -> Seq<
    EffectView,
>
    decreases k,
{
    if k <= 0 {
        Seq::empty()
    } else {
        let prev = fellowship_chosen(tab, total, k - 1);
        if is_fellowship_winner(tab, total, k - 1) {
            prev.push((tab[k - 1].1, tab[k - 1].2))
        } else {
            prev
        }
    }
}

/// The effects a colour total earns from built-in thresholds: the highest met threshold of
/// each slot, in table order.
pub open spec fn fellowship_color_effects(tab: Seq<FellowshipEntryView>, total: int) -> Seq<
    EffectView,
> {
    fellowship_chosen(tab, total, tab.len() as int)
}

/// The effects the built-in tree grants for per-colour totals, colour by colour in order.
pub open spec fn fellowship_effects(p: Seq<(GemColor, i32)>) -> Seq<EffectView>
    decreases p.len(),
{
    if p.len() == 0 {
        Seq::empty()
    } else {
        fellowship_effects(p.drop_last()) + fellowship_color_effects(
            fellowship_table(p.last().0),
            p.last().1 as int,
        )
    }
}

/// Built-in thresholds read as tree thresholds: one effect each, always slotted.
pub open spec fn fellowship_as_thresholds(tab: Seq<FellowshipEntryView>) -> Seq<ThresholdView> {
    tab.map_values(|e: FellowshipEntryView| (e.0, seq![(e.1, e.2)], Some(e.3)))
}

/// The built-in data as a tree covering every colour.
pub open spec fn fellowship_tree() -> TreeView {
    seq![
        (GemColor::Red, fellowship_as_thresholds(fellowship_table(GemColor::Red))),
        (GemColor::Purple, fellowship_as_thresholds(fellowship_table(GemColor::Purple))),
        (GemColor::Yellow, fellowship_as_thresholds(fellowship_table(GemColor::Yellow))),
        (GemColor::Green, fellowship_as_thresholds(fellowship_table(GemColor::Green))),
        (GemColor::Blue, fellowship_as_thresholds(fellowship_table(GemColor::Blue))),
        (GemColor::Diamond, fellowship_as_thresholds(fellowship_table(GemColor::Diamond))),
    ]
}

proof fn lemma_fellowship_chosen_matches(tab: Seq<FellowshipEntryView>, total: int, k: int)
    requires
        0 <= k <= tab.len(),
    ensures
        chosen_effects(fellowship_as_thresholds(tab), total, k) == fellowship_chosen(tab, total, k),
    decreases k,
{
    let ts = fellowship_as_thresholds(tab);
    if k > 0 {
        lemma_fellowship_chosen_matches(tab, total, k - 1);
        let i = k - 1;
        if is_slot_winner(ts, total, i) {
            assert forall|j: int|
                #![trigger tab[j]]
                0 <= j < tab.len() && total >= tab[j].0 && tab[j].3 == tab[i].3 implies tab[j].0
                <= tab[i].0 && (j < i ==> tab[j].0 < tab[i].0) by {
                assert(ts[j].2 == ts[i].2);
            }
            assert(is_fellowship_winner(tab, total, i));
        }
        if is_fellowship_winner(tab, total, i) {
            assert forall|j: int|
                #![trigger ts[j]]
                0 <= j < ts.len() && threshold_met(ts, total, j) && ts[j].2 == ts[i].2 implies ts[j].0
                <= ts[i].0 && (j < i ==> ts[j].0 < ts[i].0) by {
                assert(tab[j].3 == tab[i].3);
            }
            assert(is_slot_winner(ts, total, i));
        }
        assert(ts[i].2 is Some);
        assert(seq![(tab[i].1, tab[i].2)] == ts[i].1);
        assert(fellowship_chosen(tab, total, k - 1).push((tab[i].1, tab[i].2))
            =~= fellowship_chosen(tab, total, k - 1) + seq![(tab[i].1, tab[i].2)]);
    }
}

/// The built-in thresholds of a colour earn the same effects as the same thresholds read
/// as a slotted tree.
pub proof fn lemma_fellowship_color_matches_tree(tab: Seq<FellowshipEntryView>, total: int)
    ensures
        color_effects(fellowship_as_thresholds(tab), total) == fellowship_color_effects(tab, total),
{
    lemma_fellowship_chosen_matches(tab, total, tab.len() as int);
}

/// The built-in gem power tree grants, for any per-colour totals, exactly what the same
/// data grants when handed over as a custom tree.
pub proof fn lemma_fellowship_matches_tree(p: Seq<(GemColor, i32)>)
    ensures
        fellowship_effects(p) == tree_effects(p, fellowship_tree()),
    decreases p.len(),
{
    if p.len() > 0 {
        lemma_fellowship_matches_tree(p.drop_last());
        let c = p.last().0;
        let tree = fellowship_tree();
        let i: int = match c {
            GemColor::Red => 0,
            GemColor::Purple => 1,
            GemColor::Yellow => 2,
            GemColor::Green => 3,
            GemColor::Blue => 4,
            GemColor::Diamond => 5,
        };
        assert(is_first_match(tree, color_is(c), i));
        lemma_first_match_unique(tree, color_is(c), i);
        lemma_fellowship_color_matches_tree(fellowship_table(c), p.last().1 as int);
    }
}

// ---------------------------------------------------------------------------
// Executable lookups
// ---------------------------------------------------------------------------

/// Whether built-in threshold `i` is the one kept for its slot.
fn is_fellowship_slot_winner(total_power: i32, thresholds: &[FellowshipThreshold], i: usize) -> (r:
    bool)
    requires
        i < thresholds@.len(),
    ensures
        r == is_fellowship_winner(fellowship_entries_view(thresholds@), total_power as int, i as int),
{
    let ghost tab = fellowship_entries_view(thresholds@);
    let (power, _, _, slot) = thresholds[i];
    if total_power < power {
        return false;
    }
    let n = thresholds.len();
    for j in 0..n
        invariant
            n == thresholds@.len(),
            tab == fellowship_entries_view(thresholds@),
            i < n,
            power == tab[i as int].0,
            slot == tab[i as int].3,
            total_power >= power,
            forall|k: int|
                #![trigger tab[k]]
                0 <= k < j && total_power >= tab[k].0 && tab[k].3 == slot ==> tab[k].0 <= power && (k
                    < i ==> tab[k].0 < power),
    {
        let (p, _, _, s) = thresholds[j];
        if total_power >= p && s == slot {
            if p > power || (j < i && p == power) {
                assert(tab[j as int].0 == p);
                return false;
            }
        }
    }
    true
}

/// The effects a colour total earns from built-in thresholds: for each slot, only the
/// highest met threshold counts (an upgraded power replaces its base).
pub fn fellowship_effects_for_color(total_power: i32, thresholds: &[FellowshipThreshold]) -> (r: Vec<
    StaticEffect,
>)
    ensures
        effects_view(r@) == fellowship_color_effects(
            fellowship_entries_view(thresholds@),
            total_power as int,
        ),
{
    let ghost tab = fellowship_entries_view(thresholds@);
    let mut out: Vec<StaticEffect> = Vec::new();
    let n = thresholds.len();
    for i in 0..n
        invariant
            n == thresholds@.len(),
            tab == fellowship_entries_view(thresholds@),
            effects_view(out@) == fellowship_chosen(tab, total_power as int, i as int),
    {
        if is_fellowship_slot_winner(total_power, thresholds, i) {
            let (_, name, desc, _) = thresholds[i];
            let e = StaticEffect::new(name, desc);
            let ghost before = out@;
            out.push(e);
            assert(effects_view(out@) =~= effects_view(before).push(e@));
        }
    }
    out
}

/// The built-in thresholds of a colour.
fn fellowship_thresholds(color: GemColor) -> (r: &'static [FellowshipThreshold])
    ensures
        fellowship_entries_view(r@) == fellowship_table(color),
{
    match color {
        GemColor::Red => &RED,
        GemColor::Yellow => &YELLOW,
        GemColor::Blue => &BLUE,
        GemColor::Green => &GREEN,
        GemColor::Diamond => &DIAMOND,
        GemColor::Purple => &PURPLE,
    }
}

/// The built-in gem power tree: for each colour total in order, the effects of the
/// highest met threshold of each slot of that colour.
pub fn fellowship_effects_from_tree(power_by_color: &Vec<(GemColor, i32)>) -> (r: Vec<StaticEffect>)
    requires
        keys_distinct(power_by_color@),
    ensures
        effects_view(r@) == fellowship_effects(power_by_color@),
{
    let mut out: Vec<StaticEffect> = Vec::new();
    let n = power_by_color.len();
    for i in 0..n
        invariant
            n == power_by_color@.len(),
            effects_view(out@) == fellowship_effects(power_by_color@.take(i as int)),
    {
        let (color, total_power) = power_by_color[i];
        let thresholds = fellowship_thresholds(color);
        let more = fellowship_effects_for_color(total_power, thresholds);
        let ghost before = out@;
        extend_effects(&mut out, &more);
        assert(power_by_color@.take(i + 1).drop_last() =~= power_by_color@.take(i as int));
        assert(effects_view(out@) =~= effects_view(before) + effects_view(more@));
    }
    assert(power_by_color@.take(n as int) =~= power_by_color@);
    out
}

/// Whether threshold `i` is the one kept for its slot.
fn is_tree_slot_winner(thresholds: &Vec<GemPowerThreshold>, total_power: i32, i: usize) -> (r: bool)
    requires
        i < thresholds@.len(),
    ensures
        r == is_slot_winner(thresholds_view(thresholds@), total_power as int, i as int),
{
    let ghost ts = thresholds_view(thresholds@);
    let power = thresholds[i].power;
    let slot = thresholds[i].slot;
    if total_power < power || slot.is_none() {
        return false;
    }
    let n = thresholds.len();
    for j in 0..n
        invariant
            n == thresholds@.len(),
            ts == thresholds_view(thresholds@),
            i < n,
            power == ts[i as int].0,
            slot == ts[i as int].2,
            total_power >= power,
            slot is Some,
            forall|k: int|
                #![trigger ts[k]]
                0 <= k < j && threshold_met(ts, total_power as int, k) && ts[k].2 == slot ==> ts[k].0
                    <= power && (k < i ==> ts[k].0 < power),
    {
        let p = thresholds[j].power;
        let s = thresholds[j].slot;
        assert(ts[j as int].0 == p && ts[j as int].2 == s);
        if total_power >= p && s == slot {
            if p > power || (j < i && p == power) {
                return false;
            }
        }
    }
    true
}

/// Appends to `out` the effects that a colour total earns from its thresholds.
fn extend_color_effects(
    out: &mut Vec<StaticEffect>,
    thresholds: &Vec<GemPowerThreshold>,
    total_power: i32,
)
    ensures
        effects_view(final(out)@) == effects_view(old(out)@) + color_effects(
            thresholds_view(thresholds@),
            total_power as int,
        ),
{
    let ghost ts = thresholds_view(thresholds@);
    let ghost start = effects_view(out@);
    let n = thresholds.len();
    for i in 0..n
        invariant
            n == thresholds@.len(),
            ts == thresholds_view(thresholds@),
            effects_view(out@) == start + chosen_effects(ts, total_power as int, i as int),
    {
        assert(ts[i as int].0 == thresholds@[i as int].power);
        assert(ts[i as int].2 == thresholds@[i as int].slot);
        let picked = if total_power < thresholds[i].power {
            false
        } else if thresholds[i].slot.is_none() {
            true
        } else {
            is_tree_slot_winner(thresholds, total_power, i)
        };
        if picked {
            let ghost before = out@;
            extend_effects(out, &thresholds[i].effects);
            assert(effects_view(out@) =~= effects_view(before) + effects_view(
                thresholds@[i as int].effects@,
            ));
        }
    }
}

/// The position of the first entry of colour `color` in the tree, if any.
fn tree_position(tree: &GemPowerTree, color: GemColor) -> (r: Option<usize>)
    ensures
        match r {
            Some(k) => k < tree.by_color@.len() && first_match(tree@, color_is(color)) == k,
            None => first_match(tree@, color_is(color)) == -1,
        },
{
    let ghost tv = tree@;
    let n = tree.by_color.len();
    for k in 0..n
        invariant
            n == tree.by_color@.len(),
            tv == tree@,
            forall|j: int| 0 <= j < k ==> !color_is(color)(#[trigger] tv[j]),
    {
        if tree.by_color[k].0 == color {
            assert(is_first_match(tv, color_is(color), k as int));
            proof {
                lemma_first_match_unique(tv, color_is(color), k as int);
            }
            return Some(k);
        }
    }
    proof {
        lemma_first_match_none(tv, color_is(color));
    }
    None
}

/// All static effects that a gem power tree grants for the given per-colour totals (each
/// colour at most once, as in the tree): for each colour total in order, the effects of
/// every met threshold of that colour without a slot and, for each slot, of its highest
/// met threshold only (upgraded powers replace base), in threshold order.
pub fn effects_from_tree(power_by_color: &Vec<(GemColor, i32)>, tree: &GemPowerTree) -> (r: Vec<
    StaticEffect,
>)
    requires
        keys_distinct(power_by_color@),
        keys_distinct(tree@),
    ensures
        effects_view(r@) == tree_effects(power_by_color@, tree@),
{
    let mut out: Vec<StaticEffect> = Vec::new();
    let n = power_by_color.len();
    for i in 0..n
        invariant
            n == power_by_color@.len(),
            effects_view(out@) == tree_effects(power_by_color@.take(i as int), tree@),
    {
        let (color, total_power) = power_by_color[i];
        assert(power_by_color@.take(i + 1).drop_last() =~= power_by_color@.take(i as int));
        match tree_position(tree, color) {
            Some(k) => {
                extend_color_effects(&mut out, &tree.by_color[k].1, total_power);
            },
            None => {},
        }
    }
    assert(power_by_color@.take(n as int) =~= power_by_color@);
    out
}


// ---------------------------------------------------------------------------
// Laws of custom trees
// ---------------------------------------------------------------------------

/// The effects a tree grants for one colour total.
pub open spec fn tree_color_effects(tree: TreeView, e: (GemColor, i32)) -> Seq<EffectView> {
    match tree_lookup(tree, e.0) {
        Some(ts) => color_effects(ts, e.1 as int),
        None => Seq::empty(),
    }
}

/// No per-colour totals grant nothing.
pub proof fn lemma_tree_effects_empty(tree: TreeView)
    ensures
        tree_effects(Seq::empty(), tree) == Seq::<EffectView>::empty(),
{
}

/// Totals listed one after the other grant what each list grants, one after the other.
pub proof fn lemma_tree_effects_concat(p1: Seq<(GemColor, i32)>, p2: Seq<(GemColor, i32)>, tree: TreeView)
    ensures
        tree_effects(p1 + p2, tree) == tree_effects(p1, tree) + tree_effects(p2, tree),
    decreases p2.len(),
{
    if p2.len() == 0 {
        assert(p1 + p2 =~= p1);
        assert(tree_effects(p1, tree) + tree_effects(p2, tree) =~= tree_effects(p1, tree));
    } else {
        lemma_tree_effects_concat(p1, p2.drop_last(), tree);
        assert((p1 + p2).drop_last() =~= p1 + p2.drop_last());
        assert((p1 + p2).last() == p2.last());
        assert(tree_effects(p1 + p2, tree) == tree_effects(p1 + p2.drop_last(), tree)
            + tree_color_effects(tree, p2.last()));
        assert(tree_effects(p2, tree) == tree_effects(p2.drop_last(), tree) + tree_color_effects(
            tree,
            p2.last(),
        ));
        assert(tree_effects(p1 + p2, tree) =~= tree_effects(p1, tree) + tree_effects(p2, tree));
    }
}

/// Totals whose colours the tree does not list grant nothing.
pub proof fn lemma_tree_effects_absent_colours(p: Seq<(GemColor, i32)>, tree: TreeView)
    requires
        forall|i: int, j: int|
            0 <= i < p.len() && 0 <= j < tree.len() ==> #[trigger] p[i].0 != #[trigger] tree[j].0,
    ensures
        tree_effects(p, tree) == Seq::<EffectView>::empty(),
    decreases p.len(),
{
    if p.len() > 0 {
        let c = p.last().0;
        assert forall|j: int| 0 <= j < tree.len() implies !color_is(c)(#[trigger] tree[j]) by {
            assert(p[p.len() - 1].0 != tree[j].0);
        }
        lemma_first_match_none(tree, color_is(c));
        lemma_tree_effects_absent_colours(p.drop_last(), tree);
        assert(tree_effects(p, tree) =~= Seq::<EffectView>::empty());
    }
}

/// None of the thresholds has a slot.
pub open spec fn all_unslotted(ts: Seq<ThresholdView>) -> bool {
    forall|i: int| 0 <= i < ts.len() ==> (#[trigger] ts[i]).2 is None
}

proof fn lemma_chosen_monotone_unslotted(ts: Seq<ThresholdView>, t1: int, t2: int, k: int)
    requires
        all_unslotted(ts),
        t1 <= t2,
        0 <= k <= ts.len(),
    ensures
        chosen_effects(ts, t1, k).to_multiset().subset_of(chosen_effects(ts, t2, k).to_multiset()),
    decreases k,
{
    broadcast use vstd::seq_lib::lemma_multiset_commutative;
    broadcast use vstd::multiset::group_multiset_axioms;

    if k > 0 {
        lemma_chosen_monotone_unslotted(ts, t1, t2, k - 1);
        assert(ts[k - 1].2 is None);
    }
}

/// With no slots, more power in a colour never loses an effect: the effects at `t1` are
/// among those at any `t2 >= t1`, counted with multiplicity.
pub proof fn lemma_color_effects_monotone_unslotted(ts: Seq<ThresholdView>, t1: int, t2: int)
    requires
        all_unslotted(ts),
        t1 <= t2,
    ensures
        color_effects(ts, t1).to_multiset().subset_of(color_effects(ts, t2).to_multiset()),
{
    lemma_chosen_monotone_unslotted(ts, t1, t2, ts.len() as int);
}

proof fn lemma_tree_effects_remove(p: Seq<(GemColor, i32)>, tree: TreeView, j: int)
    requires
        0 <= j < p.len(),
    ensures
        tree_effects(p, tree).to_multiset() == tree_effects(p.remove(j), tree).to_multiset().add(
            tree_color_effects(tree, p[j]).to_multiset(),
        ),
{
    broadcast use vstd::seq_lib::lemma_multiset_commutative;
    broadcast use vstd::multiset::group_multiset_axioms;

    let a = p.take(j);
    let b = p.skip(j + 1);
    let x = seq![p[j]];
    assert(p =~= a + x + b);
    assert(p.remove(j) =~= a + b);
    lemma_tree_effects_concat(a + x, b, tree);
    lemma_tree_effects_concat(a, x, tree);
    lemma_tree_effects_concat(a, b, tree);
    assert(x.drop_last() =~= Seq::<(GemColor, i32)>::empty());
    assert(tree_effects(x.drop_last(), tree) == Seq::<EffectView>::empty());
    assert(tree_effects(x, tree) =~= tree_color_effects(tree, p[j]));
    let ga = tree_effects(a, tree);
    let gx = tree_effects(x, tree);
    let gb = tree_effects(b, tree);
    assert(tree_effects(p, tree) == ga + gx + gb);
    assert(tree_effects(p.remove(j), tree) == ga + gb);
    assert((ga + gx + gb).to_multiset() =~= (ga + gb).to_multiset().add(gx.to_multiset()));
}

/// Some total of `p` is for the colour of `e` and at least as large as its total.
pub open spec fn has_at_least(p: Seq<(GemColor, i32)>, e: (GemColor, i32)) -> bool {
    exists|j: int| 0 <= j < p.len() && p[j].0 == e.0 && e.1 <= p[j].1
}

/// With a tree whose thresholds have no slots, more gem power never loses an effect: when
/// every colour of the totals `p1` also has a total in `p2`, at least as large (each
/// colour listed once in each), the effects of `p1` are among those of `p2`, counted with
/// multiplicity.
pub proof fn lemma_tree_effects_monotone_unslotted(
    p1: Seq<(GemColor, i32)>,
    p2: Seq<(GemColor, i32)>,
    tree: TreeView,
)
    requires
        forall|j: int| 0 <= j < tree.len() ==> all_unslotted(#[trigger] tree[j].1),
        keys_distinct(p1),
        keys_distinct(p2),
        forall|i: int| 0 <= i < p1.len() ==> has_at_least(p2, #[trigger] p1[i]),
    ensures
        tree_effects(p1, tree).to_multiset().subset_of(tree_effects(p2, tree).to_multiset()),
    decreases p1.len(),
{
    broadcast use vstd::seq_lib::lemma_multiset_commutative;
    broadcast use vstd::multiset::group_multiset_axioms;

    if p1.len() > 0 {
        let n = p1.len() - 1;
        let x = p1[n];
        assert(has_at_least(p2, p1[n]));
        let j = choose|j: int| 0 <= j < p2.len() && p2[j].0 == x.0 && x.1 <= p2[j].1;
        let r1 = p1.drop_last();
        let r2 = p2.remove(j);
        assert forall|a: int, b: int|
            0 <= a < r2.len() && 0 <= b < r2.len() && a != b implies #[trigger] r2[a].0
            != #[trigger] r2[b].0 by {
            let a2 = if a < j {
                a
            } else {
                a + 1
            };
            let b2 = if b < j {
                b
            } else {
                b + 1
            };
            assert(r2[a] == p2[a2] && r2[b] == p2[b2]);
        }
        assert forall|a: int, b: int|
            0 <= a < r1.len() && 0 <= b < r1.len() && a != b implies #[trigger] r1[a].0
            != #[trigger] r1[b].0 by {
            assert(r1[a] == p1[a] && r1[b] == p1[b]);
        }
        assert forall|i: int| 0 <= i < r1.len() implies has_at_least(r2, #[trigger] r1[i]) by {
            assert(r1[i] == p1[i]);
            assert(has_at_least(p2, p1[i]));
            let k = choose|k: int| 0 <= k < p2.len() && p2[k].0 == p1[i].0 && p1[i].1 <= p2[k].1;
            assert(p1[i].0 != p1[n].0);
            assert(k != j);
            let k2 = if k < j {
                k
            } else {
                k - 1
            };
            assert(r2[k2] == p2[k]);
        }
        lemma_tree_effects_monotone_unslotted(r1, r2, tree);
        lemma_tree_effects_remove(p2, tree, j);
        let c = x.0;
        let idx = first_match(tree, color_is(c));
        lemma_first_match_in_range(tree, color_is(c));
        if idx >= 0 {
            assert(all_unslotted(tree[idx].1));
            lemma_color_effects_monotone_unslotted(tree[idx].1, x.1 as int, p2[j].1 as int);
        }
        let b1 = tree_color_effects(tree, x);
        let b2 = tree_color_effects(tree, p2[j]);
        assert(b1.to_multiset().subset_of(b2.to_multiset()));
        assert(tree_effects(p1, tree) == tree_effects(r1, tree) + b1);
        let m1 = tree_effects(r1, tree).to_multiset();
        let m2 = tree_effects(r2, tree).to_multiset();
        assert(tree_effects(p1, tree).to_multiset() =~= m1.add(b1.to_multiset()));
        assert(tree_effects(p2, tree).to_multiset() =~= m2.add(b2.to_multiset()));
        assert forall|v: EffectView|
            m1.add(b1.to_multiset()).count(v) <= m2.add(b2.to_multiset()).count(v) by {
            assert(m1.count(v) <= m2.count(v));
            assert(b1.to_multiset().count(v) <= b2.to_multiset().count(v));
        }
    } else {
        broadcast use vstd::seq_lib::group_to_multiset_ensures;

        let e = tree_effects(p1, tree);
        assert(e =~= Seq::<EffectView>::empty());
        assert forall|v: EffectView| e.to_multiset().count(v) <= tree_effects(
            p2,
            tree,
        ).to_multiset().count(v) by {
            assert(!e.contains(v));
        }
    }
}

/// Within each slot, no two thresholds have the same power.
pub open spec fn slot_powers_distinct(ts: Seq<ThresholdView>) -> bool {
    forall|i: int, j: int|
        #![trigger ts[i], ts[j]]
        0 <= i < ts.len() && 0 <= j < ts.len() && i != j && ts[i].2 is Some && ts[i].2 == ts[j].2
            ==> ts[i].0 != ts[j].0
}

/// Threshold `x` grants its effects at `total` among the thresholds `ts`, judged from which
/// thresholds there are and not from their order: it is met, and it has no slot or the
/// highest power among the met thresholds of its slot.
pub open spec fn grants(ts: Seq<ThresholdView>, total: int, x: ThresholdView) -> bool {
    &&& total >= x.0
    &&& (x.2 is None || forall|y: ThresholdView|
        #[trigger] ts.contains(y) && total >= y.0 && y.2 == x.2 ==> y.0 <= x.0)
}

/// The effects of the thresholds of `s` that grant among `ts` at `total`, in the order of `s`.
pub open spec fn granted_effects(s: Seq<ThresholdView>, ts: Seq<ThresholdView>, total: int) -> Seq<
    EffectView,
>
    decreases s.len(),
{
    if s.len() == 0 {
        Seq::empty()
    } else {
        granted_effects(s.drop_last(), ts, total) + if grants(ts, total, s.last()) {
            s.last().1
        } else {
            Seq::empty()
        }
    }
}

proof fn lemma_granted_effects_concat(
    a: Seq<ThresholdView>,
    b: Seq<ThresholdView>,
    ts: Seq<ThresholdView>,
    total: int,
)
    ensures
        granted_effects(a + b, ts, total) == granted_effects(a, ts, total) + granted_effects(
            b,
            ts,
            total,
        ),
    decreases b.len(),
{
    if b.len() == 0 {
        assert(a + b =~= a);
        assert(granted_effects(a, ts, total) + granted_effects(b, ts, total) =~= granted_effects(
            a,
            ts,
            total,
        ));
    } else {
        lemma_granted_effects_concat(a, b.drop_last(), ts, total);
        assert((a + b).drop_last() =~= a + b.drop_last());
        assert((a + b).last() == b.last());
        assert(granted_effects(a + b, ts, total) =~= granted_effects(a, ts, total)
            + granted_effects(b, ts, total));
    }
}

proof fn lemma_granted_effects_remove(s: Seq<ThresholdView>, ts: Seq<ThresholdView>, total: int, j: int)
    requires
        0 <= j < s.len(),
    ensures
        granted_effects(s, ts, total).to_multiset() == granted_effects(s.remove(j), ts, total).to_multiset().add(
            granted_effects(seq![s[j]], ts, total).to_multiset(),
        ),
{
    broadcast use vstd::seq_lib::lemma_multiset_commutative;
    broadcast use vstd::multiset::group_multiset_axioms;

    let a = s.take(j);
    let b = s.skip(j + 1);
    let x = seq![s[j]];
    assert(s =~= a + x + b);
    assert(s.remove(j) =~= a + b);
    lemma_granted_effects_concat(a + x, b, ts, total);
    lemma_granted_effects_concat(a, x, ts, total);
    lemma_granted_effects_concat(a, b, ts, total);
    let ga = granted_effects(a, ts, total);
    let gx = granted_effects(x, ts, total);
    let gb = granted_effects(b, ts, total);
    assert(granted_effects(s, ts, total) == ga + gx + gb);
    assert(granted_effects(s.remove(j), ts, total) == ga + gb);
    assert((ga + gx + gb).to_multiset() =~= (ga + gb).to_multiset().add(gx.to_multiset()));
}

/// Granted effects of two orderings of the same thresholds are the same, counted with
/// multiplicity.
proof fn lemma_granted_effects_permutation(
    s1: Seq<ThresholdView>,
    s2: Seq<ThresholdView>,
    ts: Seq<ThresholdView>,
    total: int,
)
    requires
        s1.to_multiset() == s2.to_multiset(),
    ensures
        granted_effects(s1, ts, total).to_multiset() == granted_effects(s2, ts, total).to_multiset(),
    decreases s1.len(),
{
    broadcast use vstd::seq_lib::lemma_multiset_commutative;
    broadcast use vstd::multiset::group_multiset_axioms;
    broadcast use vstd::seq_lib::group_to_multiset_ensures;

    if s1.len() == 0 {
        vstd::seq_lib::to_multiset_len(s1);
        vstd::seq_lib::to_multiset_len(s2);
        assert(s2.len() == 0);
        assert(s1 =~= s2);
    } else {
        let x = s1.last();
        let r1 = s1.drop_last();
        assert(s1 =~= r1.push(x));
        assert(s1.to_multiset().count(x) > 0);
        assert(s2.contains(x));
        let j = choose|j: int| 0 <= j < s2.len() && s2[j] == x;
        assert(s2.remove(j).to_multiset() =~= s2.to_multiset().remove(x));
        assert(r1.to_multiset() =~= s1.to_multiset().remove(x));
        lemma_granted_effects_permutation(r1, s2.remove(j), ts, total);
        lemma_granted_effects_remove(s2, ts, total, j);
        let c = if grants(ts, total, x) {
            x.1
        } else {
            Seq::<EffectView>::empty()
        };
        assert(granted_effects(seq![x], ts, total) =~= c) by {
            let one = seq![x];
            assert(one.drop_last() =~= Seq::<ThresholdView>::empty());
            assert(granted_effects(one.drop_last(), ts, total) == Seq::<EffectView>::empty());
            assert(one.last() == x);
            assert(granted_effects(one, ts, total) == granted_effects(one.drop_last(), ts, total)
                + c);
            assert(Seq::<EffectView>::empty() + c =~= c);
        }
        assert(granted_effects(s1, ts, total) == granted_effects(r1, ts, total) + c);
    }
}

/// Granting judged among two lists that hold the same thresholds is the same.
proof fn lemma_granted_effects_same_pool(
    s: Seq<ThresholdView>,
    ts1: Seq<ThresholdView>,
    ts2: Seq<ThresholdView>,
    total: int,
)
    requires
        ts1.to_multiset() == ts2.to_multiset(),
    ensures
        granted_effects(s, ts1, total) == granted_effects(s, ts2, total),
    decreases s.len(),
{
    broadcast use vstd::seq_lib::group_to_multiset_ensures;

    if s.len() > 0 {
        lemma_granted_effects_same_pool(s.drop_last(), ts1, ts2, total);
        assert forall|y: ThresholdView| ts1.contains(y) == ts2.contains(y) by {
            assert(ts1.contains(y) <==> ts1.to_multiset().count(y) > 0);
            assert(ts2.contains(y) <==> ts2.to_multiset().count(y) > 0);
        }
        assert(grants(ts1, total, s.last()) == grants(ts2, total, s.last()));
    }
}

/// With distinct powers within each slot, a threshold is granted exactly when it grants
/// judged from the thresholds alone.
proof fn lemma_chosen_is_granted_effects(ts: Seq<ThresholdView>, total: int, k: int)
    requires
        slot_powers_distinct(ts),
        0 <= k <= ts.len(),
    ensures
        chosen_effects(ts, total, k) == granted_effects(ts.take(k), ts, total),
    decreases k,
{
    if k > 0 {
        lemma_chosen_is_granted_effects(ts, total, k - 1);
        let i = k - 1;
        assert(ts.take(k).drop_last() =~= ts.take(k - 1));
        assert(ts.take(k).last() == ts[i]);
        if is_granted(ts, total, i) {
            if ts[i].2 is Some {
                assert forall|y: ThresholdView|
                    #[trigger] ts.contains(y) && total >= y.0 && y.2 == ts[i].2 implies y.0
                    <= ts[i].0 by {
                    let j = choose|j: int| 0 <= j < ts.len() && ts[j] == y;
                    assert(ts[j] == y);
                }
            }
            assert(grants(ts, total, ts[i]));
        } else if grants(ts, total, ts[i]) {
            assert(ts[i].2 is Some);
            assert forall|j: int|
                #![trigger ts[j]]
                0 <= j < ts.len() && threshold_met(ts, total, j) && ts[j].2 == ts[i].2 implies ts[j].0
                <= ts[i].0 && (j < i ==> ts[j].0 < ts[i].0) by {
                assert(ts.contains(ts[j]));
                if j != i {
                    assert(ts[i].0 != ts[j].0);
                }
            }
            assert(is_slot_winner(ts, total, i));
        }
    }
}

/// The effects a colour earns do not depend on the order its thresholds are listed in,
/// when no two thresholds of a slot have the same power: two orderings of the same
/// thresholds grant the same effects, counted with multiplicity.
pub proof fn lemma_color_effects_order_free(ts1: Seq<ThresholdView>, ts2: Seq<ThresholdView>, total: int)
    requires
        ts1.to_multiset() == ts2.to_multiset(),
        slot_powers_distinct(ts1),
        slot_powers_distinct(ts2),
    ensures
        color_effects(ts1, total).to_multiset() == color_effects(ts2, total).to_multiset(),
{
    lemma_chosen_is_granted_effects(ts1, total, ts1.len() as int);
    lemma_chosen_is_granted_effects(ts2, total, ts2.len() as int);
    assert(ts1.take(ts1.len() as int) =~= ts1);
    assert(ts2.take(ts2.len() as int) =~= ts2);
    lemma_granted_effects_same_pool(ts2, ts2, ts1, total);
    lemma_granted_effects_permutation(ts1, ts2, ts1, total);
}


/// Two trees that list the same colours in the same order find a colour at the same place.
proof fn lemma_same_colours_same_lookup(t1: TreeView, t2: TreeView, c: GemColor)
    requires
        t1.len() == t2.len(),
        forall|j: int| 0 <= j < t1.len() ==> (#[trigger] t1[j]).0 == t2[j].0,
    ensures
        first_match(t1, color_is(c)) == first_match(t2, color_is(c)),
{
    lemma_first_match_in_range(t1, color_is(c));
    let i = first_match(t1, color_is(c));
    if i >= 0 {
        assert(t2[i].0 == t1[i].0);
        assert forall|j: int| 0 <= j < i implies !color_is(c)(#[trigger] t2[j]) by {
            assert(t1[j].0 == t2[j].0);
            assert(!color_is(c)(t1[j]));
        }
        assert(is_first_match(t2, color_is(c), i));
        lemma_first_match_unique(t2, color_is(c), i);
    } else {
        assert forall|j: int| 0 <= j < t2.len() implies !color_is(c)(#[trigger] t2[j]) by {
            assert(t1[j].0 == t2[j].0);
            if color_is(c)(t1[j]) {
                lemma_first_match_found(t1, color_is(c), j);
            }
        }
        lemma_first_match_none(t2, color_is(c));
    }
}

/// The effects a tree grants do not depend on the order each colour's thresholds are
/// listed in, when no two thresholds of a slot have the same power: two trees listing the
/// same colours in the same order, each with the same thresholds in any order, grant the
/// same effects, counted with multiplicity.
pub proof fn lemma_tree_effects_order_free(p: Seq<(GemColor, i32)>, t1: TreeView, t2: TreeView)
    requires
        t1.len() == t2.len(),
        forall|j: int|
            0 <= j < t1.len() ==> (#[trigger] t1[j]).0 == t2[j].0 && t1[j].1.to_multiset()
                == t2[j].1.to_multiset() && slot_powers_distinct(t1[j].1) && slot_powers_distinct(
                t2[j].1,
            ),
    ensures
        tree_effects(p, t1).to_multiset() == tree_effects(p, t2).to_multiset(),
    decreases p.len(),
{
    broadcast use vstd::seq_lib::lemma_multiset_commutative;
    broadcast use vstd::multiset::group_multiset_axioms;

    if p.len() > 0 {
        lemma_tree_effects_order_free(p.drop_last(), t1, t2);
        let c = p.last().0;
        lemma_same_colours_same_lookup(t1, t2, c);
        lemma_first_match_in_range(t1, color_is(c));
        let i = first_match(t1, color_is(c));
        if i >= 0 {
            lemma_color_effects_order_free(t1[i].1, t2[i].1, p.last().1 as int);
        }
        let b1 = tree_color_effects(t1, p.last());
        let b2 = tree_color_effects(t2, p.last());
        assert(b1.to_multiset() == b2.to_multiset());
        assert(tree_effects(p, t1) == tree_effects(p.drop_last(), t1) + b1);
        assert(tree_effects(p, t2) == tree_effects(p.drop_last(), t2) + b2);
    }
}


/// With distinct powers within each slot, a colour grants the effects of exactly those
/// thresholds that are met and either have no slot or have the highest power among the
/// met thresholds of their slot, in the order the thresholds are listed.
pub proof fn lemma_color_effects_are_granted(ts: Seq<ThresholdView>, total: int)
    requires
        slot_powers_distinct(ts),
    ensures
        color_effects(ts, total) == granted_effects(ts, ts, total),
{
    lemma_chosen_is_granted_effects(ts, total, ts.len() as int);
    assert(ts.take(ts.len() as int) =~= ts);
}

} // verus!
