//! What the gear totals and the collected effects are, item by item: each total over a
//! list of items is the sum of the totals of its parts, one item contributes what it
//! carries, and the effects of items and set bonuses come one list after the other.
use vstd::prelude::*;

use crate::common::{effects_view, first_match, is_first_match, keys_distinct, lemma_first_match_unique, Stat};
use crate::config::{
    effective_gem_power, gem_power, haste_total, item_effects, rating_of, set_bonus_effects,
    set_piece_count, stat_is, EquippedItem, SetBonus,
};
use crate::gem::GemColor;

verus! {

/// The items' own effects over two lists of items are the effects of the first list
/// followed by those of the second.
pub proof fn lemma_item_effects_concat(a: Seq<EquippedItem>, b: Seq<EquippedItem>)
    ensures
        item_effects(a + b) == item_effects(a) + item_effects(b),
    decreases b.len(),
{
    if b.len() == 0 {
        assert(a + b =~= a);
        assert(item_effects(a) + item_effects(b) =~= item_effects(a));
    } else {
        lemma_item_effects_concat(a, b.drop_last());
        assert((a + b).drop_last() =~= a + b.drop_last());
        assert((a + b).last() == b.last());
        assert(item_effects(a + b) =~= item_effects(a) + item_effects(b));
    }
}

/// One item contributes exactly its own static effects, in order.
pub proof fn lemma_item_effects_single(x: EquippedItem)
    ensures
        item_effects(seq![x]) == effects_view(x.static_effects@),
{
    let s = seq![x];
    assert(s.drop_last() =~= Seq::<EquippedItem>::empty());
    assert(item_effects(s.drop_last()) == Seq::<(Seq<char>, Seq<char>)>::empty());
    assert(Seq::<(Seq<char>, Seq<char>)>::empty() + effects_view(x.static_effects@) =~= effects_view(
        x.static_effects@,
    ));
}

/// Every effect of every item is among the items' effects: effect `e` of item `i` comes
/// right after the effects of the items before `i` and the effects before `e`.
pub proof fn lemma_item_effects_position(items: Seq<EquippedItem>, i: int, e: int)
    requires
        0 <= i < items.len(),
        0 <= e < items[i].static_effects@.len(),
    ensures
        item_effects(items.take(i)).len() + e < item_effects(items).len(),
        item_effects(items)[item_effects(items.take(i)).len() + e] == items[i].static_effects@[e]@,
{
    let a = items.take(i);
    let b = items.skip(i);
    assert(items =~= a + b);
    lemma_item_effects_concat(a, b);
    let x = seq![items[i]];
    let c = items.skip(i + 1);
    assert(b =~= x + c);
    lemma_item_effects_concat(x, c);
    lemma_item_effects_single(items[i]);
    let front = item_effects(a);
    let mine = effects_view(items[i].static_effects@);
    assert(item_effects(items) == front + (mine + item_effects(c)));
    assert(mine[e] == items[i].static_effects@[e]@);
}

/// The pieces of a set over two lists of items add up.
pub proof fn lemma_set_piece_count_concat(a: Seq<EquippedItem>, b: Seq<EquippedItem>, id: Seq<char>)
    ensures
        set_piece_count(a + b, id) == set_piece_count(a, id) + set_piece_count(b, id),
    decreases b.len(),
{
    if b.len() == 0 {
        assert(a + b =~= a);
    } else {
        lemma_set_piece_count_concat(a, b.drop_last(), id);
        assert((a + b).drop_last() =~= a + b.drop_last());
        assert((a + b).last() == b.last());
    }
}

/// One item is one piece of set `id` exactly when it belongs to a set named `id`.
pub proof fn lemma_set_piece_count_single(x: EquippedItem, id: Seq<char>)
    ensures
        set_piece_count(seq![x], id) == if x.set matches Some(s) && s@ == id {
            1int
        } else {
            0int
        },
{
    let one = seq![x];
    assert(one.drop_last() =~= Seq::<EquippedItem>::empty());
    assert(set_piece_count(one.drop_last(), id) == 0);
    assert(one.last() == x);
}

/// The effects of two lists of set bonuses are those of the first followed by those of
/// the second.
pub proof fn lemma_set_bonus_effects_concat(a: Seq<SetBonus>, b: Seq<SetBonus>, items: Seq<EquippedItem>)
    ensures
        set_bonus_effects(a + b, items) == set_bonus_effects(a, items) + set_bonus_effects(b, items),
    decreases b.len(),
{
    if b.len() == 0 {
        assert(a + b =~= a);
        assert(set_bonus_effects(a, items) + set_bonus_effects(b, items) =~= set_bonus_effects(
            a,
            items,
        ));
    } else {
        lemma_set_bonus_effects_concat(a, b.drop_last(), items);
        assert((a + b).drop_last() =~= a + b.drop_last());
        assert((a + b).last() == b.last());
        assert(set_bonus_effects(a + b, items) =~= set_bonus_effects(a, items) + set_bonus_effects(
            b,
            items,
        ));
    }
}

/// One set bonus grants its effect exactly when at least `threshold` of the items belong to
/// its set, and nothing otherwise.
pub proof fn lemma_set_bonus_effects_single(bonus: SetBonus, items: Seq<EquippedItem>)
    ensures
        set_bonus_effects(seq![bonus], items) == if set_piece_count(items, bonus.set_id@)
            >= bonus.threshold {
            seq![bonus.effect@]
        } else {
            Seq::empty()
        },
{
    let s = seq![bonus];
    assert(s.drop_last() =~= Seq::<SetBonus>::empty());
    assert(s.last() == bonus);
    assert(set_bonus_effects(s.drop_last(), items) == Seq::<(Seq<char>, Seq<char>)>::empty());
    assert(Seq::<(Seq<char>, Seq<char>)>::empty() + seq![bonus.effect@] =~= seq![bonus.effect@]);
    assert(Seq::<(Seq<char>, Seq<char>)>::empty() + Seq::<(Seq<char>, Seq<char>)>::empty()
        =~= Seq::<(Seq<char>, Seq<char>)>::empty());
}

/// The haste rating over two lists of items adds up.
pub proof fn lemma_haste_total_concat(a: Seq<EquippedItem>, b: Seq<EquippedItem>)
    ensures
        haste_total(a + b) == haste_total(a) + haste_total(b),
    decreases b.len(),
{
    if b.len() == 0 {
        assert(a + b =~= a);
    } else {
        lemma_haste_total_concat(a, b.drop_last());
        assert((a + b).drop_last() =~= a + b.drop_last());
        assert((a + b).last() == b.last());
    }
}

/// One item contributes the haste rating it lists (each stat listed once), or none when
/// it lists no haste.
pub proof fn lemma_haste_total_single(x: EquippedItem)
    requires
        keys_distinct(x.stat_ratings@),
    ensures
        forall|k: int|
            0 <= k < x.stat_ratings@.len() && (#[trigger] x.stat_ratings@[k]).0 == Stat::Haste
                ==> haste_total(seq![x]) == x.stat_ratings@[k].1,
        (forall|k: int| 0 <= k < x.stat_ratings@.len() ==> (#[trigger] x.stat_ratings@[k]).0 != Stat::Haste)
            ==> haste_total(seq![x]) == 0,
{
    let rs = x.stat_ratings@;
    let one = seq![x];
    assert(one.drop_last() =~= Seq::<EquippedItem>::empty());
    assert(haste_total(one.drop_last()) == 0);
    assert(one.last() == x);
    assert forall|k: int| 0 <= k < rs.len() && (#[trigger] rs[k]).0 == Stat::Haste implies haste_total(
        seq![x],
    ) == rs[k].1 by {
        assert forall|j: int| 0 <= j < k implies !stat_is(Stat::Haste)(#[trigger] rs[j]) by {
            assert(rs[j].0 != rs[k].0);
        }
        assert(is_first_match(rs, stat_is(Stat::Haste), k));
        lemma_first_match_unique(rs, stat_is(Stat::Haste), k);
        assert(rating_of(rs, Stat::Haste) == Some(rs[k].1));
    }
    if forall|k: int| 0 <= k < rs.len() ==> (#[trigger] rs[k]).0 != Stat::Haste {
        crate::common::lemma_first_match_none(rs, stat_is(Stat::Haste));
    }
}

/// The gem power of a colour over two lists of items adds up.
pub proof fn lemma_gem_power_concat(a: Seq<EquippedItem>, b: Seq<EquippedItem>, c: GemColor)
    ensures
        gem_power(a + b, c) == gem_power(a, c) + gem_power(b, c),
    decreases b.len(),
{
    if b.len() == 0 {
        assert(a + b =~= a);
    } else {
        lemma_gem_power_concat(a, b.drop_last(), c);
        assert((a + b).drop_last() =~= a + b.drop_last());
        assert((a + b).last() == b.last());
    }
}

/// One item contributes to colour `c` the effective power of its gem when the gem has
/// that colour, and nothing otherwise.
pub proof fn lemma_gem_power_single(x: EquippedItem, c: GemColor)
    ensures
        gem_power(seq![x], c) == match x.slotted_gem {
            Some(g) => if g.color == c {
                effective_gem_power(g.power, x.gem_power_increase_pct)
            } else {
                0
            },
            None => 0,
        },
{
    let one = seq![x];
    assert(one.drop_last() =~= Seq::<EquippedItem>::empty());
    assert(gem_power(one.drop_last(), c) == 0);
    assert(one.last() == x);
}

/// The effective power of a gem is its power times the item's multiplier in hundredths,
/// truncated toward zero: for a result inside the `i32` range, `result * 100` is within
/// 100 of `power * pct`, on the side toward zero.
pub proof fn lemma_effective_gem_power_truncates(power: i32, pct: u32)
    requires
        i32::MIN * 100 <= power * pct <= i32::MAX * 100,
    ensures
        power * pct >= 0 ==> effective_gem_power(power, pct) * 100 <= power * pct
            < effective_gem_power(power, pct) * 100 + 100,
        power * pct < 0 ==> effective_gem_power(power, pct) * 100 - 100 < power * pct
            <= effective_gem_power(power, pct) * 100,
{
    let x = power * pct;
    if x >= 0 {
        assert((x / 100) * 100 <= x < (x / 100) * 100 + 100) by (nonlinear_arith)
            requires
                x >= 0,
        ;
        assert(x / 100 <= i32::MAX) by (nonlinear_arith)
            requires
                0 <= x <= i32::MAX * 100,
        ;
    } else {
        let y = -x;
        assert((y / 100) * 100 <= y < (y / 100) * 100 + 100) by (nonlinear_arith)
            requires
                y > 0,
        ;
        assert(y / 100 <= -(i32::MIN as int)) by (nonlinear_arith)
            requires
                0 < y <= -(i32::MIN * 100),
        ;
    }
}

} // verus!
