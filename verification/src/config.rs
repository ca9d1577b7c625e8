//! Simulation configuration: equipped gear, talents, set bonuses and the encounter,
//! with the totals derived from gear (haste rating, gem power per colour) and the
//! collection of all static effects the player has.
use vstd::prelude::*;

use crate::common::{
    effects_view, extend_effects, first_match, is_first_match, keys_distinct,
    lemma_first_match_none, lemma_first_match_unique, lemma_take_last, EffectView, SetId, Stat,
    StaticEffect, Talent,
};
use crate::gem::{
    effects_from_tree, fellowship_effects, fellowship_effects_from_tree, tree_effects, Gem,
    GemColor, GemTreeSource,
};

verus! {

/// A set bonus: when at least `threshold` pieces of the set are equipped, the player gains
/// `effect`.
#[derive(Clone, Debug)]
pub struct SetBonus {
    pub set_id: SetId,
    pub threshold: u32,
    pub effect: StaticEffect,
}

/// An equipped item.
#[derive(Debug)]
pub struct EquippedItem {
    pub name: String,
    /// Stat ratings of the item, at most one entry per stat (`ratings_distinct`).
    pub stat_ratings: Vec<(Stat, i32)>,
    /// Gem power multiplier of the item in hundredths: 100 is the default 1.0, some items
    /// have 135, legendaries 200.
    pub gem_power_increase_pct: u32,
    pub slotted_gem: Option<Gem>,
    /// Static effects of this item alone.
    pub static_effects: Vec<StaticEffect>,
    /// If present, this item counts toward the given set (see `SetBonus`).
    pub set: Option<SetId>,
}

/// The player's character: talents, gear, weapon traits and set-bonus rules.
#[derive(Debug)]
pub struct PlayerConfig {
    pub talents: Vec<Talent>,
    pub equipped_items: Vec<EquippedItem>,
    pub weapon_traits: Vec<StaticEffect>,
    /// Set bonus rules: when N+ items from a set are equipped, the corresponding static
    /// effect applies.
    pub set_bonuses: Vec<SetBonus>,
}

/// Haste rating required for 1% haste at level 70.
pub const HASTE_RATING_PER_PERCENT: i64 = 170;

/// Haste rating that makes the haste multiplier 2.0 (100% haste).
pub const HASTE_RATING_FOR_DOUBLE: i64 = 17000;

/// A haste multiplier as the exact fraction `numerator / denominator`
/// (1.0 is no haste, 1.22 is 22% haste).
#[derive(Clone, Copy, Debug, PartialEq, Eq, Structural)]
pub struct HasteMultiplier {
    pub numerator: i64,
    pub denominator: i64,
}

// ---------------------------------------------------------------------------
// Haste rating
// ---------------------------------------------------------------------------

/// Matches a rating entry of stat `s`.
pub open spec fn stat_is(s: Stat) -> spec_fn((Stat, i32)) -> bool {
    |e: (Stat, i32)| e.0 == s
}

/// The rating an item has in stat `s`: that of its first entry for `s`, if any.
pub open spec fn rating_of(ratings: Seq<(Stat, i32)>, s: Stat) -> Option<i32> {
    let i = first_match(ratings, stat_is(s));
    if i >= 0 {
        Some(ratings[i].1)
    } else {
        None
    }
}

/// The sum of the haste ratings of the items (an item without haste adds nothing).
pub open spec fn haste_total(items: Seq<EquippedItem>) -> int
    decreases items.len(),
{
    if items.len() == 0 {
        0
    } else {
        haste_total(items.drop_last()) + match rating_of(items.last().stat_ratings@, Stat::Haste) {
            Some(r) => r as int,
            None => 0,
        }
    }
}

/// Every running total of haste rating, item by item, fits in an `i32`.
pub open spec fn haste_totals_fit(items: Seq<EquippedItem>) -> bool {
    forall|k: int|
        0 <= k <= items.len() ==> i32::MIN <= #[trigger] haste_total(items.take(k)) <= i32::MAX
}

/// Each item lists each stat at most once.
pub open spec fn ratings_distinct(items: Seq<EquippedItem>) -> bool {
    forall|i: int| 0 <= i < items.len() ==> keys_distinct(#[trigger] items[i].stat_ratings@)
}

/// The gear is well formed for the haste total: each item lists each stat at most once,
/// and every running total of haste rating fits in an `i32`.
pub open spec fn gear_valid(items: Seq<EquippedItem>) -> bool {
    ratings_distinct(items) && haste_totals_fit(items)
}

// ---------------------------------------------------------------------------
// Gem power
// ---------------------------------------------------------------------------

/// `power * pct / 100` truncated toward zero and saturated to the `i32` range.
pub open spec fn effective_gem_power(power: i32, pct: u32) -> int {
    let x = power * pct;
    let q = if x >= 0 {
        x / 100
    } else {
        -((-x) / 100)
    };
    if q > i32::MAX {
        i32::MAX as int
    } else if q < i32::MIN {
        i32::MIN as int
    } else {
        q
    }
}

/// The gem power an item contributes to colour `c`.
pub open spec fn item_gem_power(item: EquippedItem, c: GemColor) -> int {
    match item.slotted_gem {
        Some(g) => if g.color == c {
            effective_gem_power(g.power, item.gem_power_increase_pct)
        } else {
            0
        },
        None => 0,
    }
}

/// The total effective gem power of colour `c` over the items.
pub open spec fn gem_power(items: Seq<EquippedItem>, c: GemColor) -> int
    decreases items.len(),
{
    if items.len() == 0 {
        0
    } else {
        gem_power(items.drop_last(), c) + item_gem_power(items.last(), c)
    }
}

/// The colours of the slotted gems, each once, in order of first appearance.
pub open spec fn gem_colors(items: Seq<EquippedItem>) -> Seq<GemColor>
    decreases items.len(),
{
    if items.len() == 0 {
        Seq::empty()
    } else {
        let prev = gem_colors(items.drop_last());
        match items.last().slotted_gem {
            Some(g) => if prev.contains(g.color) {
                prev
            } else {
                prev.push(g.color)
            },
            None => prev,
        }
    }
}

/// Every running total of gem power per colour, item by item, fits in an `i32`.
pub open spec fn gem_powers_fit(items: Seq<EquippedItem>) -> bool {
    forall|k: int, c: GemColor|
        0 <= k <= items.len() ==> i32::MIN <= #[trigger] gem_power(items.take(k), c) <= i32::MAX
}

/// The total effective gem power of each colour that has a slotted gem, colours in order
/// of first appearance.
pub open spec fn gem_power_by_color(items: Seq<EquippedItem>) -> Seq<(GemColor, i32)> {
    gem_colors(items).map_values(|c: GemColor| (c, gem_power(items, c) as i32))
}

/// The effects that gem power earns from the chosen source.
pub open spec fn gem_source_effects(source: GemTreeSource, p: Seq<(GemColor, i32)>) -> Seq<
    EffectView,
> {
    match source {
        GemTreeSource::NoGems => Seq::empty(),
        GemTreeSource::FellowshipDefault => fellowship_effects(p),
        GemTreeSource::Custom(tree) => tree_effects(p, tree@),
    }
}

/// The static effects of the items themselves, item by item.
pub open spec fn item_effects(items: Seq<EquippedItem>) -> Seq<EffectView>
    decreases items.len(),
{
    if items.len() == 0 {
        Seq::empty()
    } else {
        item_effects(items.drop_last()) + effects_view(items.last().static_effects@)
    }
}

/// The item counts toward the set named `id`.
pub open spec fn in_set(item: EquippedItem, id: Seq<char>) -> bool {
    match item.set {
        Some(s) => s@ == id,
        None => false,
    }
}

/// How many of the items count toward the set named `id`.
pub open spec fn set_piece_count(items: Seq<EquippedItem>, id: Seq<char>) -> nat
    decreases items.len(),
{
    if items.len() == 0 {
        0
    } else {
        set_piece_count(items.drop_last(), id) + if in_set(items.last(), id) {
            1nat
        } else {
            0nat
        }
    }
}

/// The set bonus is met: at least `threshold` equipped items count toward its set.
pub open spec fn set_bonus_met(bonus: SetBonus, items: Seq<EquippedItem>) -> bool {
    set_piece_count(items, bonus.set_id@) >= bonus.threshold
}

/// The effects of the met set bonuses, in the order the bonuses are listed.
pub open spec fn set_bonus_effects(bonuses: Seq<SetBonus>, items: Seq<EquippedItem>) -> Seq<
    EffectView,
>
    decreases bonuses.len(),
{
    if bonuses.len() == 0 {
        Seq::empty()
    } else {
        set_bonus_effects(bonuses.drop_last(), items) + if set_bonus_met(bonuses.last(), items) {
            seq![bonuses.last().effect@]
        } else {
            Seq::empty()
        }
    }
}

proof fn lemma_gem_colors_distinct(items: Seq<EquippedItem>)
    ensures
        gem_colors(items).no_duplicates(),
    decreases items.len(),
{
    if items.len() > 0 {
        lemma_gem_colors_distinct(items.drop_last());
    }
}

/// Each colour appears at most once among the per-colour gem power totals.
pub proof fn lemma_gem_power_by_color_keys_distinct(items: Seq<EquippedItem>)
    ensures
        keys_distinct(gem_power_by_color(items)),
{
    lemma_gem_colors_distinct(items);
    let cs = gem_colors(items);
    let r = gem_power_by_color(items);
    assert forall|i: int, j: int|
        0 <= i < r.len() && 0 <= j < r.len() && i != j implies #[trigger] r[i].0 != #[trigger] r[j].0 by {
        assert(r[i].0 == cs[i] && r[j].0 == cs[j]);
    }
}

proof fn lemma_gem_power_absent(items: Seq<EquippedItem>, c: GemColor)
    requires
        !gem_colors(items).contains(c),
    ensures
        gem_power(items, c) == 0,
    decreases items.len(),
{
    if items.len() > 0 {
        let prev = gem_colors(items.drop_last());
        match items.last().slotted_gem {
            Some(g) => {
                if !prev.contains(g.color) {
                    assert(prev.push(g.color)[prev.len() as int] == g.color);
                    if prev.contains(c) {
                        let j = choose|j: int| 0 <= j < prev.len() && prev[j] == c;
                        assert(prev.push(g.color)[j] == c);
                    }
                }
            },
            None => {},
        }
        lemma_gem_power_absent(items.drop_last(), c);
    }
}

proof fn lemma_gem_power_present(items: Seq<EquippedItem>, c: GemColor)
    requires
        gem_power(items, c) != 0,
    ensures
        gem_colors(items).contains(c),
{
    if !gem_colors(items).contains(c) {
        lemma_gem_power_absent(items, c);
    }
}

/// The effective gem power of a gem slotted into an item with the given multiplier.
fn effective_power(power: i32, pct: u32) -> (r: i32)
    ensures
        r == effective_gem_power(power, pct),
{
    assert(-0x8000_0000_0000_0000 <= power * pct <= 0x8000_0000_0000_0000) by (nonlinear_arith)
        requires
            -0x8000_0000 <= power <= 0x8000_0000,
            0 <= pct <= 0x1_0000_0000,
    ;
    let x: i128 = power as i128 * pct as i128;
    let q: i128 = if x >= 0 {
        x / 100
    } else {
        -((-x) / 100)
    };
    if q > i32::MAX as i128 {
        i32::MAX
    } else if q < i32::MIN as i128 {
        i32::MIN
    } else {
        q as i32
    }
}

/// The rating of stat `stat` in an item's ratings, if the item has one.
fn find_rating(ratings: &Vec<(Stat, i32)>, stat: Stat) -> (r: Option<i32>)
    ensures
        r == rating_of(ratings@, stat),
{
    let n = ratings.len();
    for k in 0..n
        invariant
            n == ratings@.len(),
            forall|j: int| 0 <= j < k ==> !stat_is(stat)(#[trigger] ratings@[j]),
    {
        if ratings[k].0 == stat {
            assert(is_first_match(ratings@, stat_is(stat), k as int));
            proof {
                lemma_first_match_unique(ratings@, stat_is(stat), k as int);
            }
            return Some(ratings[k].1);
        }
    }
    proof {
        lemma_first_match_none(ratings@, stat_is(stat));
    }
    None
}

/// The position of colour `color` among per-colour totals, if it is there.
/// The number of items that count toward the set named `id`.
fn count_set_pieces(items: &Vec<EquippedItem>, id: &String) -> (r: usize)
    ensures
        r == set_piece_count(items@, id@),
{
    let n = items.len();
    let mut count: usize = 0;
    for i in 0..n
        invariant
            n == items@.len(),
            count == set_piece_count(items@.take(i as int), id@),
            count <= i,
    {
        proof {
            lemma_take_last(items@, i as int);
        }
        let counts = match &items[i].set {
            Some(s) => *s == *id,
            None => false,
        };
        if counts {
            count = count + 1;
        }
    }
    assert(items@.take(n as int) =~= items@);
    count
}

fn color_position(by_color: &Vec<(GemColor, i32)>, color: GemColor) -> (r: Option<usize>)
    ensures
        match r {
            Some(k) => k < by_color@.len() && by_color@[k as int].0 == color,
            None => forall|j: int| 0 <= j < by_color@.len() ==> (#[trigger] by_color@[j]).0 != color,
        },
{
    let n = by_color.len();
    for k in 0..n
        invariant
            n == by_color@.len(),
            forall|j: int| 0 <= j < k ==> (#[trigger] by_color@[j]).0 != color,
    {
        if by_color[k].0 == color {
            return Some(k);
        }
    }
    None
}

impl PlayerConfig {
    /// Total haste rating from all equipped items.
    pub fn total_haste_rating(&self) -> (r: i32)
        requires
            gear_valid(self.equipped_items@),
        ensures
            r == haste_total(self.equipped_items@),
    {
        let ghost items = self.equipped_items@;
        let mut total: i32 = 0;
        let n = self.equipped_items.len();
        assert(items.take(0) =~= Seq::<EquippedItem>::empty());
        for i in 0..n
            invariant
                n == items.len(),
                items == self.equipped_items@,
                haste_totals_fit(items),
                total == haste_total(items.take(i as int)),
        {
            proof {
                lemma_take_last(items, i as int);
            }
            assert(i32::MIN <= haste_total(items.take(i + 1)) <= i32::MAX);
            match find_rating(&self.equipped_items[i].stat_ratings, Stat::Haste) {
                Some(r) => {
                    total = total + r;
                },
                None => {},
            }
        }
        assert(items.take(n as int) =~= items);
        total
    }

    /// Haste as an exact multiplier: 1 + rating / `HASTE_RATING_PER_PERCENT` / 100.
    pub fn haste_multiplier(&self) -> (r: HasteMultiplier)
        requires
            gear_valid(self.equipped_items@),
        ensures
            r.numerator == HASTE_RATING_FOR_DOUBLE + haste_total(self.equipped_items@),
            r.denominator == HASTE_RATING_FOR_DOUBLE,
    {
        let rating = self.total_haste_rating();
        HasteMultiplier {
            numerator: HASTE_RATING_FOR_DOUBLE + rating as i64,
            denominator: HASTE_RATING_PER_PERCENT * 100,
        }
    }

    /// Total effective gem power per colour (gem power times the item's gem power
    /// multiplier, summed over all slotted gems), colours in order of first appearance.
    pub fn total_gem_power_by_color(&self) -> (r: Vec<(GemColor, i32)>)
        requires
            gem_powers_fit(self.equipped_items@),
        ensures
            r@ == gem_power_by_color(self.equipped_items@),
            keys_distinct(r@),
    {
        let ghost items = self.equipped_items@;
        proof {
            lemma_gem_power_by_color_keys_distinct(items);
        }
        let mut by_color: Vec<(GemColor, i32)> = Vec::new();
        let n = self.equipped_items.len();
        assert(by_color@ =~= gem_power_by_color(items.take(0)));
        for i in 0..n
            invariant
                n == items.len(),
                items == self.equipped_items@,
                gem_powers_fit(items),
                by_color@ == gem_power_by_color(items.take(i as int)),
        {
            let ghost pre = items.take(i as int);
            let ghost post = items.take(i + 1);
            proof {
                lemma_take_last(items, i as int);
                lemma_gem_colors_distinct(pre);
            }
            let item = &self.equipped_items[i];
            if let Some(gem) = item.slotted_gem {
                let effective = effective_power(gem.power, item.gem_power_increase_pct);
                let color = gem.color;
                let m = by_color.len();
                let found = color_position(&by_color, color);
                let ghost colors = gem_colors(pre);
                if let Some(pos) = found {
                    assert(colors[pos as int] == color);
                    assert(colors.contains(color));
                    assert(gem_colors(post) == colors);
                    assert(i32::MIN <= gem_power(post, color) <= i32::MAX);
                    let old_total = by_color[pos].1;
                    by_color.set(pos, (color, old_total + effective));
                    assert forall|j: int| 0 <= j < colors.len() implies #[trigger] by_color@[j] == (
                    colors[j], gem_power(post, colors[j]) as i32) by {
                        if j != pos {
                            assert(colors[j] != colors[pos as int]);
                        }
                    }
                    assert(by_color@ =~= gem_power_by_color(post));
                } else {
                    assert forall|j: int| 0 <= j < colors.len() implies colors[j] != color by {
                        assert(by_color@[j].0 == colors[j]);
                        assert(by_color@[j].0 != color);
                    }
                    assert(!colors.contains(color));
                    proof {
                        lemma_gem_power_absent(pre, color);
                    }
                    assert(gem_colors(post) == colors.push(color));
                    assert(i32::MIN <= gem_power(post, color) <= i32::MAX);
                    by_color.push((color, effective));
                    assert forall|j: int| 0 <= j < colors.len() implies #[trigger] by_color@[j] == (
                    colors[j], gem_power(post, colors[j]) as i32) by {
                        assert(colors[j] != color);
                    }
                    assert(by_color@ =~= gem_power_by_color(post));
                }
            } else {
                assert forall|c: GemColor| gem_power(post, c) == gem_power(pre, c) by {}
                assert(by_color@ =~= gem_power_by_color(post));
            }
        }
        assert(items.take(n as int) =~= items);
        by_color
    }

    /// All static effects of the player: those that gem power earns from `gem_tree`, then
    /// the weapon traits, then each item's own effects, then the effect of each set bonus
    /// whose set has at least its threshold of equipped pieces. Talents carry no static
    /// effect data, so they add none.
    pub fn all_static_effects(&self, gem_tree: GemTreeSource<'_>) -> (r: Vec<StaticEffect>)
        requires
            gem_tree is NoGems || gem_powers_fit(self.equipped_items@),
            gem_tree matches GemTreeSource::Custom(t) ==> keys_distinct(t@),
        ensures
            effects_view(r@) == gem_source_effects(
                gem_tree,
                gem_power_by_color(self.equipped_items@),
            ) + effects_view(self.weapon_traits@) + item_effects(self.equipped_items@)
                + set_bonus_effects(self.set_bonuses@, self.equipped_items@),
    {
        let ghost items = self.equipped_items@;
        proof {
            lemma_gem_power_by_color_keys_distinct(items);
        }
        let mut effects: Vec<StaticEffect> = match gem_tree {
            GemTreeSource::NoGems => Vec::new(),
            GemTreeSource::FellowshipDefault => {
                fellowship_effects_from_tree(&self.total_gem_power_by_color())
            },
            GemTreeSource::Custom(tree) => effects_from_tree(&self.total_gem_power_by_color(), tree),
        };
        let ghost gem_part = effects_view(effects@);
        extend_effects(&mut effects, &self.weapon_traits);
        assert(effects_view(effects@) =~= gem_part + effects_view(self.weapon_traits@));
        let ghost start = effects_view(effects@);
        let n = self.equipped_items.len();
        assert(item_effects(items.take(0)) =~= Seq::<EffectView>::empty());
        for i in 0..n
            invariant
                n == items.len(),
                items == self.equipped_items@,
                effects_view(effects@) == start + item_effects(items.take(i as int)),
        {
            proof {
                lemma_take_last(items, i as int);
            }
            let ghost before = effects@;
            extend_effects(&mut effects, &self.equipped_items[i].static_effects);
            assert(effects_view(effects@) =~= effects_view(before) + effects_view(
                items[i as int].static_effects@,
            ));
        }
        assert(items.take(n as int) =~= items);
        let ghost before_sets = effects_view(effects@);
        let bonuses = &self.set_bonuses;
        let m = bonuses.len();
        assert(set_bonus_effects(bonuses@.take(0), items) =~= Seq::<EffectView>::empty());
        for j in 0..m
            invariant
                m == bonuses@.len(),
                items == self.equipped_items@,
                bonuses == &self.set_bonuses,
                effects_view(effects@) == before_sets + set_bonus_effects(
                    bonuses@.take(j as int),
                    items,
                ),
        {
            proof {
                lemma_take_last(bonuses@, j as int);
            }
            let ghost prev = effects@;
            let bonus = &bonuses[j];
            let pieces = count_set_pieces(&self.equipped_items, &bonus.set_id);
            if pieces as u64 >= bonus.threshold as u64 {
                effects.push(bonus.effect.duplicate());
                assert(effects_view(effects@) =~= effects_view(prev).push(bonus.effect@));
            }
            assert(effects_view(effects@) =~= before_sets + set_bonus_effects(
                bonuses@.take(j + 1),
                items,
            ));
        }
        assert(bonuses@.take(m as int) =~= bonuses@);
        effects
    }
}

/// An enemy of the encounter.
#[derive(Debug)]
pub struct EnemyConfig {
    pub name: String,
    pub base_health: i32,
}

/// The enemies the player fights.
#[derive(Debug)]
pub struct EncounterConfig {
    pub enemies: Vec<EnemyConfig>,
}

/// Everything a simulation run starts from.
#[derive(Debug)]
pub struct SimConfig {
    pub player_config: PlayerConfig,
    pub encounter_config: EncounterConfig,
}


/// Whether each stat appears at most once among the ratings.
fn stats_listed_once(ratings: &Vec<(Stat, i32)>) -> (r: bool)
    ensures
        r == keys_distinct(ratings@),
{
    let n = ratings.len();
    for i in 0..n
        invariant
            n == ratings@.len(),
            forall|a: int, b: int|
                #![trigger ratings@[a], ratings@[b]]
                0 <= a < i && 0 <= b < n && a != b ==> ratings@[a].0 != ratings@[b].0,
    {
        for j in 0..n
            invariant
                n == ratings@.len(),
                i < n,
                forall|a: int, b: int|
                    #![trigger ratings@[a], ratings@[b]]
                    0 <= a < i && 0 <= b < n && a != b ==> ratings@[a].0 != ratings@[b].0,
                forall|b: int| 0 <= b < j && b != i ==> ratings@[i as int].0 != #[trigger] ratings@[b].0,
        {
            if j != i && ratings[i].0 == ratings[j].0 {
                assert(ratings@[i as int].0 == ratings@[j as int].0);
                return false;
            }
        }
    }
    proof {
        assert forall|a: int, b: int|
            0 <= a < n && 0 <= b < n && a != b implies #[trigger] ratings@[a].0
            != #[trigger] ratings@[b].0 by {
            if b < a {
                assert(ratings@[b].0 != ratings@[a].0);
            }
        }
    }
    true
}

/// Whether every item lists each stat at most once.
fn items_list_stats_once(items: &Vec<EquippedItem>) -> (r: bool)
    ensures
        r == ratings_distinct(items@),
{
    let n = items.len();
    for i in 0..n
        invariant
            n == items@.len(),
            forall|k: int| 0 <= k < i ==> keys_distinct(#[trigger] items@[k].stat_ratings@),
    {
        if !stats_listed_once(&items[i].stat_ratings) {
            return false;
        }
    }
    true
}

/// Whether every running total of haste rating fits in an `i32`.
fn haste_prefixes_fit(items: &Vec<EquippedItem>) -> (r: bool)
    ensures
        r == haste_totals_fit(items@),
{
    let ghost its = items@;
    let mut total: i64 = 0;
    let n = items.len();
    assert(its.take(0) =~= Seq::<EquippedItem>::empty());
    for i in 0..n
        invariant
            n == its.len(),
            its == items@,
            total == haste_total(its.take(i as int)),
            i32::MIN <= total <= i32::MAX,
            forall|k: int|
                0 <= k <= i ==> i32::MIN <= #[trigger] haste_total(its.take(k)) <= i32::MAX,
    {
        proof {
            lemma_take_last(its, i as int);
        }
        match find_rating(&items[i].stat_ratings, Stat::Haste) {
            Some(r) => {
                total = total + r as i64;
            },
            None => {},
        }
        assert(total == haste_total(its.take(i + 1)));
        if total < i32::MIN as i64 || total > i32::MAX as i64 {
            assert(!(i32::MIN <= haste_total(its.take(i + 1)) <= i32::MAX));
            return false;
        }
    }
    true
}

/// Whether every running total of gem power of colour `c` fits in an `i32`.
fn gem_prefixes_fit(items: &Vec<EquippedItem>, c: GemColor) -> (r: bool)
    ensures
        r == forall|k: int|
            0 <= k <= items@.len() ==> i32::MIN <= #[trigger] gem_power(items@.take(k), c)
                <= i32::MAX,
{
    let ghost its = items@;
    let mut total: i64 = 0;
    let n = items.len();
    assert(its.take(0) =~= Seq::<EquippedItem>::empty());
    for i in 0..n
        invariant
            n == its.len(),
            its == items@,
            total == gem_power(its.take(i as int), c),
            i32::MIN <= total <= i32::MAX,
            forall|k: int|
                0 <= k <= i ==> i32::MIN <= #[trigger] gem_power(its.take(k), c) <= i32::MAX,
    {
        proof {
            lemma_take_last(its, i as int);
        }
        let item = &items[i];
        if let Some(gem) = item.slotted_gem {
            if gem.color == c {
                total = total + effective_power(gem.power, item.gem_power_increase_pct) as i64;
            }
        }
        assert(total == gem_power(its.take(i + 1), c));
        if total < i32::MIN as i64 || total > i32::MAX as i64 {
            assert(!(i32::MIN <= gem_power(its.take(i + 1), c) <= i32::MAX));
            return false;
        }
    }
    true
}

impl PlayerConfig {
    /// Whether the gear is fit for its totals: each item lists each stat at most once, and
    /// the running totals of haste rating and of gem power per colour all fit in an `i32`.
    pub fn totals_fit(&self) -> (r: bool)
        ensures
            r == (gear_valid(self.equipped_items@) && gem_powers_fit(self.equipped_items@)),
    {
        let ghost items = self.equipped_items@;
        if !items_list_stats_once(&self.equipped_items) {
            return false;
        }
        if !haste_prefixes_fit(&self.equipped_items) {
            return false;
        }
        let colors = [
            GemColor::Red,
            GemColor::Purple,
            GemColor::Yellow,
            GemColor::Green,
            GemColor::Blue,
            GemColor::Diamond,
        ];
        for j in 0..6
            invariant
                items == self.equipped_items@,
                colors@ == seq![
                    GemColor::Red,
                    GemColor::Purple,
                    GemColor::Yellow,
                    GemColor::Green,
                    GemColor::Blue,
                    GemColor::Diamond,
                ],
                forall|m: int, k: int|
                    0 <= m < j && 0 <= k <= items.len() ==> i32::MIN <= #[trigger] gem_power(
                        items.take(k),
                        colors@[m],
                    ) <= i32::MAX,
        {
            if !gem_prefixes_fit(&self.equipped_items, colors[j]) {
                return false;
            }
        }
        assert forall|k: int, c: GemColor| 0 <= k <= items.len() implies i32::MIN
            <= #[trigger] gem_power(items.take(k), c) <= i32::MAX by {
            let m: int = match c {
                GemColor::Red => 0,
                GemColor::Purple => 1,
                GemColor::Yellow => 2,
                GemColor::Green => 3,
                GemColor::Blue => 4,
                GemColor::Diamond => 5,
            };
            assert(colors@[m] == c);
        }
        true
    }
}

impl SimConfig {
    /// A sample configuration for development and testing: a hunter with five talents, a
    /// longbow and pauldrons with slotted gems, one weapon trait, and a training dummy.
    pub fn sample() -> (c: SimConfig)
        ensures
            c.player_config.talents@ == seq![
                Talent::FocusedExpanse,
                Talent::PiercingSeekers,
                Talent::LethalShots,
                Talent::LunarlightAffinity,
                Talent::FerventSupremacy,
            ],
            c.player_config.equipped_items@.len() == 2,
            c.player_config.equipped_items@[0].name@ == "Starforged Longbow"@,
            c.player_config.equipped_items@[0].stat_ratings@ == seq![
                (Stat::Agility, 450i32),
                (Stat::Crit, 210i32),
                (Stat::Haste, 140i32),
            ],
            c.player_config.equipped_items@[0].gem_power_increase_pct == 200,
            c.player_config.equipped_items@[0].slotted_gem == Some(
                Gem { color: GemColor::Diamond, power: 480 },
            ),
            c.player_config.equipped_items@[0].static_effects@.len() == 0,
            c.player_config.equipped_items@[0].set is None,
            c.player_config.equipped_items@[1].name@ == "Windrunner's Pauldrons"@,
            c.player_config.equipped_items@[1].stat_ratings@ == seq![
                (Stat::Agility, 300i32),
                (Stat::Expertise, 120i32),
            ],
            c.player_config.equipped_items@[1].gem_power_increase_pct == 100,
            c.player_config.equipped_items@[1].slotted_gem == Some(
                Gem { color: GemColor::Purple, power: 360 },
            ),
            c.player_config.equipped_items@[1].static_effects@.len() == 0,
            c.player_config.equipped_items@[1].set is None,
            c.player_config.set_bonuses@.len() == 0,
            effects_view(c.player_config.weapon_traits@) == seq![
                ("Celestial Precision"@, Seq::<char>::empty()),
            ],
            c.encounter_config.enemies@.len() == 1,
            c.encounter_config.enemies@[0].name@ == "Training Dummy"@,
            c.encounter_config.enemies@[0].base_health == 1_000_000,
    {
        let longbow = EquippedItem {
            name: "Starforged Longbow".to_owned(),
            stat_ratings: vec![(Stat::Agility, 450), (Stat::Crit, 210), (Stat::Haste, 140)],
            gem_power_increase_pct: 200,
            slotted_gem: Some(Gem { color: GemColor::Diamond, power: 480 }),
            static_effects: Vec::new(),
            set: None,
        };
        let pauldrons = EquippedItem {
            name: "Windrunner's Pauldrons".to_owned(),
            stat_ratings: vec![(Stat::Agility, 300), (Stat::Expertise, 120)],
            gem_power_increase_pct: 100,
            slotted_gem: Some(Gem { color: GemColor::Purple, power: 360 }),
            static_effects: Vec::new(),
            set: None,
        };
        let trait_effect = StaticEffect {
            name: "Celestial Precision".to_owned(),
            description: String::new(),
        };
        let weapon_traits = vec![trait_effect];
        assert(effects_view(weapon_traits@) =~= seq![
            ("Celestial Precision"@, Seq::<char>::empty()),
        ]);
        SimConfig {
            player_config: PlayerConfig {
                talents: vec![
                    Talent::FocusedExpanse,
                    Talent::PiercingSeekers,
                    Talent::LethalShots,
                    Talent::LunarlightAffinity,
                    Talent::FerventSupremacy,
                ],
                equipped_items: vec![longbow, pauldrons],
                set_bonuses: Vec::new(),
                weapon_traits,
            },
            encounter_config: EncounterConfig {
                enemies: vec![
                    EnemyConfig { name: "Training Dummy".to_owned(), base_health: 1_000_000 },
                ],
            },
        }
    }
}


/// An item has a gem of colour `c` slotted.
pub open spec fn has_gem_of(item: EquippedItem, c: GemColor) -> bool {
    item.slotted_gem matches Some(g) && g.color == c
}

/// The colours of the per-colour gem power totals are exactly the colours of the slotted
/// gems, each once.
pub proof fn lemma_gem_colors_are_slotted_colors(items: Seq<EquippedItem>)
    ensures
        gem_colors(items).no_duplicates(),
        forall|c: GemColor|
            #![trigger gem_colors(items).contains(c)]
            gem_colors(items).contains(c) <==> exists|i: int|
                0 <= i < items.len() && #[trigger] has_gem_of(items[i], c),
    decreases items.len(),
{
    lemma_gem_colors_distinct(items);
    if items.len() > 0 {
        let prev = items.drop_last();
        let last = items.len() - 1;
        lemma_gem_colors_are_slotted_colors(prev);
        let pc = gem_colors(prev);
        let gc = gem_colors(items);
        assert forall|c: GemColor| #![trigger gem_colors(items).contains(c)]
            gem_colors(items).contains(c) <==> exists|i: int|
                0 <= i < items.len() && #[trigger] has_gem_of(items[i], c) by {
            assert(items[last] == items.last());
            if pc.contains(c) {
                let k = choose|k: int| 0 <= k < pc.len() && pc[k] == c;
                assert(gc[k] == c);
                let i = choose|i: int| 0 <= i < prev.len() && #[trigger] has_gem_of(prev[i], c);
                assert(items[i] == prev[i]);
                assert(has_gem_of(items[i], c));
            } else {
                assert forall|i: int| 0 <= i < last implies !#[trigger] has_gem_of(items[i], c) by {
                    assert(items[i] == prev[i]);
                }
                if has_gem_of(items[last], c) {
                    assert(gc == pc.push(c));
                    assert(gc[pc.len() as int] == c);
                } else {
                    match items.last().slotted_gem {
                        Some(g) => {
                            if !pc.contains(g.color) {
                                assert(gc == pc.push(g.color));
                                assert(g.color != c);
                                if gc.contains(c) {
                                    let k = choose|k: int| 0 <= k < gc.len() && gc[k] == c;
                                    if k < pc.len() {
                                        assert(pc[k] == gc[k]);
                                    }
                                }
                            }
                        },
                        None => {},
                    }
                }
            }
        }
    }
}

} // verus!
