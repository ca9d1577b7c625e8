//! Domain types shared across the simulation: stats, talents, abilities and
//! static effects, plus small sequence helpers used by the contracts.
use vstd::prelude::*;

verus! {

/// A character statistic that gear can carry a rating for.
#[derive(Clone, Copy, Debug, Hash, PartialEq, Eq, Structural)]
pub enum Stat {
    Stamina,
    Armor,
    Agility,
    Crit,
    Haste,
    Expertise,
    Spirit,
}

/// A talent the player can pick.
#[derive(Clone, Copy, Debug, PartialEq, Eq, Structural)]
pub enum Talent {
    FocusedExpanse,
    PiercingSeekers,
    FinalCrescendo,
    SkylitGrace,
    Fusillade,
    SkywardMunitions,
    RepeatingStars,
    LunarFury,
    LethalShots,
    LunarlightAffinity,
    FerventSupremacy,
    ImpendingHeartseeker,
    ResurgentWinds,
    LastLights,
}

/// An ability of the player: the first five are cooldowns, the rest rotational.
#[derive(Clone, Copy, Debug, Hash, PartialEq, Eq, Structural)]
pub enum Ability {
    EventHorizon,
    SkystridersGrace,
    LunarlightMark,
    StarfallVolley,
    SkystridersSupremacy,
    HeartseekerBarrage,
    HighwindArrow,
    Multishot,
    CelestialShot,
    FocusedShot,
}

/// A passive effect such as a weapon trait, a gem passive or a tier-set bonus.
#[derive(Clone, Debug)]
pub struct StaticEffect {
    pub name: String,
    pub description: String,
}

/// Identifies a gear set (e.g. a tier set). Items in the same set can grant set bonuses.
pub type SetId = String;

/// What a static effect says: its name and its description.
pub type EffectView = (Seq<char>, Seq<char>);

impl View for StaticEffect {
    type V = EffectView;

    open spec fn view(&self) -> EffectView {
        (self.name@, self.description@)
    }
}

/// The names and descriptions of a sequence of static effects.
pub open spec fn effects_view(s: Seq<StaticEffect>) -> Seq<EffectView> {
    s.map_values(|e: StaticEffect| e@)
}

/// The index of the first element of `s` that satisfies `p`, or -1 when none does.
pub open spec fn first_match<A>(s: Seq<A>, p: spec_fn(A) -> bool) -> int {
    if exists|i: int| is_first_match(s, p, i) {
        choose|i: int| is_first_match(s, p, i)
    } else {
        -1
    }
}

/// `i` is the index of the first element of `s` that satisfies `p`.
pub open spec fn is_first_match<A>(s: Seq<A>, p: spec_fn(A) -> bool, i: int) -> bool {
    &&& 0 <= i < s.len()
    &&& p(s[i])
    &&& forall|j: int| 0 <= j < i ==> !p(#[trigger] s[j])
}

/// There is only one first match.
pub proof fn lemma_first_match_unique<A>(s: Seq<A>, p: spec_fn(A) -> bool, i: int)
    requires
        is_first_match(s, p, i),
    ensures
        first_match(s, p) == i,
{
    let k = first_match(s, p);
    assert(is_first_match(s, p, k));
    if k < i {
        assert(!p(s[k]));
    } else if i < k {
        assert(!p(s[i]));
    }
}

/// When nothing in `s` satisfies `p` there is no first match.
pub proof fn lemma_first_match_none<A>(s: Seq<A>, p: spec_fn(A) -> bool)
    requires
        forall|j: int| 0 <= j < s.len() ==> !p(#[trigger] s[j]),
    ensures
        first_match(s, p) == -1,
{
    assert(!exists|i: int| is_first_match(s, p, i));
}

/// The first match, if any, is a first match.
pub proof fn lemma_first_match_in_range<A>(s: Seq<A>, p: spec_fn(A) -> bool)
    ensures
        first_match(s, p) == -1 || is_first_match(s, p, first_match(s, p)),
{
}

/// When element `i` satisfies `p`, there is a first match at or before `i`.
pub proof fn lemma_first_match_found<A>(s: Seq<A>, p: spec_fn(A) -> bool, i: int)
    requires
        0 <= i < s.len(),
        p(s[i]),
    ensures
        0 <= first_match(s, p) <= i,
    decreases i,
{
    if exists|j: int| 0 <= j < i && p(#[trigger] s[j]) {
        let j = choose|j: int| 0 <= j < i && p(#[trigger] s[j]);
        lemma_first_match_found(s, p, j);
    } else {
        assert(is_first_match(s, p, i));
        lemma_first_match_in_range(s, p);
    }
}

/// No two entries of a keyed sequence share a key.
pub open spec fn keys_distinct<K, V>(s: Seq<(K, V)>) -> bool {
    forall|i: int, j: int|
        #![trigger s[i], s[j]]
        0 <= i < s.len() && 0 <= j < s.len() && i != j ==> s[i].0 != s[j].0
}

/// Setting key `k` to `v` in a keyed sequence with distinct keys, by replacing the first
/// entry `p` matches or else appending one, where `p` matches exactly the entries of key
/// `k`, keeps the keys distinct.
pub proof fn lemma_keyed_set_distinct<K, V>(s: Seq<(K, V)>, p: spec_fn((K, V)) -> bool, k: K, v: V)
    requires
        keys_distinct(s),
        forall|e: (K, V)| #[trigger] p(e) <==> e.0 == k,
    ensures
        keys_distinct(
            if first_match(s, p) >= 0 {
                s.update(first_match(s, p), (k, v))
            } else {
                s.push((k, v))
            },
        ),
{
    lemma_first_match_in_range(s, p);
    let i = first_match(s, p);
    if i >= 0 {
        let r = s.update(i, (k, v));
        assert forall|a: int, b: int|
            0 <= a < r.len() && 0 <= b < r.len() && a != b implies #[trigger] r[a].0 != #[trigger] r[b].0 by {
            assert(r[a].0 == s[a].0);
            assert(r[b].0 == s[b].0);
        }
    } else {
        assert forall|j: int| 0 <= j < s.len() implies #[trigger] s[j].0 != k by {
            if s[j].0 == k {
                assert(p(s[j]));
                lemma_first_match_found(s, p, j);
            }
        }
        let r = s.push((k, v));
        assert forall|a: int, b: int|
            0 <= a < r.len() && 0 <= b < r.len() && a != b implies #[trigger] r[a].0 != #[trigger] r[b].0 by {
            if a < s.len() && b < s.len() {
                assert(r[a] == s[a] && r[b] == s[b]);
            } else if a < s.len() {
                assert(r[a] == s[a]);
            } else {
                assert(r[b] == s[b]);
            }
        }
    }
}

/// The first `i + 1` elements are the first `i` followed by element `i`.
pub proof fn lemma_take_last<A>(s: Seq<A>, i: int)
    requires
        0 <= i < s.len(),
    ensures
        s.take(i + 1).drop_last() == s.take(i),
        s.take(i + 1).last() == s[i],
{
    assert(s.take(i + 1).drop_last() =~= s.take(i));
}

impl StaticEffect {
    /// Builds an effect from its name and description.
    pub fn new(name: &str, description: &str) -> (e: StaticEffect)
        ensures
            e@ == (name@, description@),
    {
        StaticEffect { name: name.to_owned(), description: description.to_owned() }
    }

    /// A copy of this effect.
    pub fn duplicate(&self) -> (e: StaticEffect)
        ensures
            e == *self,
    {
        StaticEffect { name: self.name.clone(), description: self.description.clone() }
    }
}

/// Appends copies of all effects of `src` to `out`, in order.
pub fn extend_effects(out: &mut Vec<StaticEffect>, src: &Vec<StaticEffect>)
    ensures
        final(out)@ == old(out)@ + src@,
{
    let ghost start = out@;
    let n = src.len();
    for i in 0..n
        invariant
            n == src@.len(),
            out@ == start + src@.take(i as int),
    {
        out.push(src[i].duplicate());
        assert(src@.take(i + 1) == src@.take(i as int).push(src@[i as int]));
    }
    assert(src@.take(n as int) == src@);
}

} // verus!
