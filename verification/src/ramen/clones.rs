//! Clones of support cards: the extra appearances that a regional bowl and
//! the super ramen place on the trainings.
//!
//! A training holds at most five people and never the same person twice; a
//! clone is only placed where its card is not standing already, and on a
//! full training it can only push out an NPC. The placements are drawn at
//! random: the `_with` functions take the draws and place exactly what they
//! say, and the drawing functions place what the `_with` functions would for
//! some admissible draws. Whatever the draws, every training keeps those
//! properties, keeps everyone but NPCs, and gains nobody but the eligible
//! cards.

use vstd::prelude::*;

use rand::rngs::StdRng;
use rand::seq::IndexedRandom;

use super::action::RamenAction;
use super::apply::{add_clone_spec, first_npc, is_non_npc, CloneError};
use super::persons::{lists_view, Person, PersonType};

verus! {

/// Most people on one training.
pub const TRAINING_CAPACITY: usize = 5;

/// Draws one of `items` at random, `None` for no items
/// (`rand::seq::IndexedRandom::choose` on a slice).
#[verifier::external_body]
fn choose_one(rng: &mut StdRng, items: &[i32]) -> (r: Option<i32>)
    ensures
        r is None <==> items@.len() == 0,
        r is Some ==> items@.contains(r->0),
{
    items.choose(rng).copied()
}

/// No person appears twice on a training (empty places `< 0` aside).
pub open spec fn no_repeats(slot: Seq<i32>) -> bool {
    forall|i: int, j: int| 0 <= i < j < slot.len() && slot[i] >= 0 ==> #[trigger] slot[i] != #[trigger] slot[j]
}

/// A training within capacity and without a repeated person.
pub open spec fn slot_sound(slot: Seq<i32>) -> bool {
    slot.len() <= TRAINING_CAPACITY && no_repeats(slot)
}

/// Every training is sound.
pub open spec fn distribution_sound(d: Seq<Seq<i32>>) -> bool {
    forall|t: int| 0 <= t < d.len() ==> #[trigger] slot_sound(d[t])
}

/// Everyone of `before` who is not an NPC is still in `after`.
pub open spec fn keeps_non_npcs(before: Seq<i32>, after: Seq<i32>, is_npc: Seq<bool>) -> bool {
    forall|k: int| 0 <= k < before.len() && #[trigger] is_non_npc(is_npc)(before[k]) ==> after.contains(before[k])
}

/// Everyone of `after` was in `before` or is one of `allowed`.
pub open spec fn adds_only(before: Seq<i32>, after: Seq<i32>, allowed: Seq<i32>) -> bool {
    forall|k: int| 0 <= k < after.len() ==> before.contains(#[trigger] after[k]) || allowed.contains(after[k])
}

/// What any clone placement keeps: the number of trainings, everyone but
/// NPCs, sound trainings sound, and nobody added but the `allowed`.
pub open spec fn placement_keeps(
    before: Seq<Seq<i32>>,
    after: Seq<Seq<i32>>,
    is_npc: Seq<bool>,
    allowed: Seq<i32>,
) -> bool {
    &&& after.len() == before.len()
    &&& forall|t: int|
        0 <= t < before.len() ==> keeps_non_npcs(before[t], #[trigger] after[t], is_npc) && adds_only(
            before[t],
            after[t],
            allowed,
        )
    &&& distribution_sound(before) ==> distribution_sound(after)
}

/// Whether every entry of the distribution names a person of `is_npc`.
pub open spec fn entries_known(d: Seq<Seq<i32>>, n: int) -> bool {
    forall|t: int, k: int| 0 <= t < d.len() && 0 <= k < d[t].len() ==> #[trigger] d[t][k] < n
}

/// Whether the entry at `k` is an NPC.
pub open spec fn npc_at(slot: Seq<i32>, is_npc: Seq<bool>, k: int) -> bool {
    slot[k] >= 0 && is_npc[slot[k] as int]
}

/// Where an NPC stands on a training, a first one does.
proof fn lemma_min_npc(slot: Seq<i32>, is_npc: Seq<bool>, w: int)
    requires
        0 <= w < slot.len(),
        slot[w] >= 0 && is_npc[slot[w] as int],
    ensures
        exists|m: int|
            0 <= m < slot.len() && slot[m] >= 0 && is_npc[slot[m] as int] && forall|j: int|
                0 <= j < m ==> !(slot[j] >= 0 && is_npc[slot[j] as int]),
    decreases w,
{
    if exists|j: int| 0 <= j < w && slot[j] >= 0 && is_npc[slot[j] as int] {
        let j = choose|j: int| 0 <= j < w && slot[j] >= 0 && is_npc[slot[j] as int];
        lemma_min_npc(slot, is_npc, j);
    }
}

/// The position that [`first_npc`] gives holds the first NPC.
proof fn lemma_first_npc_some(slot: Seq<i32>, is_npc: Seq<bool>)
    requires
        first_npc(slot, is_npc) is Some,
    ensures
        ({
            let k = first_npc(slot, is_npc)->Some_0;
            &&& 0 <= k < slot.len()
            &&& slot[k] >= 0 && is_npc[slot[k] as int]
        }),
{
    let w = choose|k: int| 0 <= k < slot.len() && slot[k] >= 0 && is_npc[slot[k] as int];
    lemma_min_npc(slot, is_npc, w);
}

/// Placing one clone keeps a training sound, keeps everyone but NPCs and adds
/// nobody but the clone.
proof fn lemma_add_clone_keeps(slot: Seq<i32>, is_npc: Seq<bool>, p: i32)
    requires
        add_clone_spec(slot, is_npc, p) is Ok,
    ensures
        ({
            let s2 = add_clone_spec(slot, is_npc, p)->Ok_0;
            &&& slot_sound(slot) ==> slot_sound(s2)
            &&& keeps_non_npcs(slot, s2, is_npc)
            &&& adds_only(slot, s2, seq![p])
        }),
{
    let s2 = add_clone_spec(slot, is_npc, p)->Ok_0;
    assert(!slot.contains(p));
    if slot.filter(is_non_npc(is_npc)).len() < 5 && slot.len() >= 5 {
        lemma_first_npc_some(slot, is_npc);
        let k = first_npc(slot, is_npc)->Some_0;
        let r = slot.remove(k);
        assert(s2 == r.push(p));
        assert(slot[k] >= 0 && is_npc[slot[k] as int]);
        assert forall|j: int| 0 <= j < slot.len() && #[trigger] is_non_npc(is_npc)(slot[j]) implies s2.contains(
            slot[j],
        ) by {
            if j < k {
                assert(s2[j] == slot[j]);
            } else if j > k {
                assert(s2[j - 1] == slot[j]);
            }
        }
        assert forall|j: int| 0 <= j < s2.len() implies slot.contains(#[trigger] s2[j]) || seq![p].contains(s2[j]) by {
            if j < k {
                assert(slot[j] == s2[j]);
            } else if j < s2.len() - 1 {
                assert(slot[j + 1] == s2[j]);
            } else {
                assert(seq![p][0] == s2[j]);
            }
        }
        if slot_sound(slot) {
            assert forall|i: int, j: int| 0 <= i < j < s2.len() && s2[i] >= 0 implies #[trigger] s2[i]
                != #[trigger] s2[j] by {
                let oi = if i < k { i } else { i + 1 };
                if j == s2.len() - 1 {
                    assert(slot[oi] == s2[i]);
                } else {
                    let oj = if j < k { j } else { j + 1 };
                    assert(slot[oi] == s2[i] && slot[oj] == s2[j] && oi < oj);
                }
            }
        }
    } else if slot.filter(is_non_npc(is_npc)).len() < 5 {
        assert(s2 == slot.push(p));
        assert forall|j: int| 0 <= j < slot.len() && #[trigger] is_non_npc(is_npc)(slot[j]) implies s2.contains(
            slot[j],
        ) by {
            assert(s2[j] == slot[j]);
        }
        assert forall|j: int| 0 <= j < s2.len() implies slot.contains(#[trigger] s2[j]) || seq![p].contains(s2[j]) by {
            if j < slot.len() {
                assert(slot[j] == s2[j]);
            } else {
                assert(seq![p][0] == s2[j]);
            }
        }
        if slot_sound(slot) {
            assert forall|i: int, j: int| 0 <= i < j < s2.len() && s2[i] >= 0 implies #[trigger] s2[i]
                != #[trigger] s2[j] by {
                if j == slot.len() {
                    assert(slot[i] == s2[i]);
                }
            }
        }
    }
}

/// `placement_keeps` composes.
proof fn lemma_placement_trans(
    a: Seq<Seq<i32>>,
    b: Seq<Seq<i32>>,
    c: Seq<Seq<i32>>,
    is_npc: Seq<bool>,
    allowed: Seq<i32>,
)
    requires
        placement_keeps(a, b, is_npc, allowed),
        placement_keeps(b, c, is_npc, allowed),
    ensures
        placement_keeps(a, c, is_npc, allowed),
{
    assert forall|t: int| 0 <= t < a.len() implies keeps_non_npcs(a[t], #[trigger] c[t], is_npc) && adds_only(
        a[t],
        c[t],
        allowed,
    ) by {
        assert(keeps_non_npcs(a[t], b[t], is_npc) && adds_only(a[t], b[t], allowed));
        assert(keeps_non_npcs(b[t], c[t], is_npc) && adds_only(b[t], c[t], allowed));
        assert forall|k: int| 0 <= k < a[t].len() && #[trigger] is_non_npc(is_npc)(a[t][k]) implies c[t].contains(
            a[t][k],
        ) by {
            let w = choose|w: int| 0 <= w < b[t].len() && b[t][w] == a[t][k];
            assert(is_non_npc(is_npc)(b[t][w]));
        }
        assert forall|k: int| 0 <= k < c[t].len() implies a[t].contains(#[trigger] c[t][k]) || allowed.contains(
            c[t][k],
        ) by {
            if b[t].contains(c[t][k]) {
                let w = choose|w: int| 0 <= w < b[t].len() && b[t][w] == c[t][k];
                assert(a[t].contains(b[t][w]) || allowed.contains(b[t][w]));
            }
        }
    }
}

/// Nothing placed keeps everything.
pub proof fn lemma_placement_refl(a: Seq<Seq<i32>>, is_npc: Seq<bool>, allowed: Seq<i32>)
    ensures
        placement_keeps(a, a, is_npc, allowed),
{
    assert forall|t: int| 0 <= t < a.len() implies keeps_non_npcs(a[t], #[trigger] a[t], is_npc) && adds_only(
        a[t],
        a[t],
        allowed,
    ) by {
        assert forall|k: int| 0 <= k < a[t].len() && #[trigger] is_non_npc(is_npc)(a[t][k]) implies a[t].contains(
            a[t][k],
        ) by {}
        assert forall|k: int| 0 <= k < a[t].len() implies a[t].contains(#[trigger] a[t][k]) || allowed.contains(
            a[t][k],
        ) by {}
    }
}

/// Places a clone with [`RamenAction::try_add_clone`], keeping track of what
/// every placement keeps; a refused placement changes nothing.
fn place_clone(
    distribution: &mut Vec<Vec<i32>>,
    is_npc: &[bool],
    person_idx: i32,
    train: usize,
    Ghost(allowed): Ghost<Seq<i32>>,
) -> (r: Result<(), CloneError>)
    requires
        old(distribution)@.len() == 5,
        entries_known(lists_view(old(distribution)@), is_npc@.len() as int),
        allowed.contains(person_idx),
        0 <= person_idx < is_npc@.len(),
    ensures
        final(distribution)@.len() == 5,
        entries_known(lists_view(final(distribution)@), is_npc@.len() as int),
        placement_keeps(lists_view(old(distribution)@), lists_view(final(distribution)@), is_npc@, allowed),
        r is Err ==> *final(distribution) == *old(distribution),
        train >= 5 ==> r is Err,
        train < 5 ==> match add_clone_spec(lists_view(old(distribution)@)[train as int], is_npc@, person_idx) {
            Ok(slot) => r is Ok && lists_view(final(distribution)@) == lists_view(old(distribution)@).update(
                train as int,
                slot,
            ),
            Err(_) => r is Err,
        },
{
    let ghost before = lists_view(distribution@);
    proof {
        assert forall|t: int, k: int|
            0 <= t < 5 && 0 <= k < distribution@[t]@.len() implies #[trigger] distribution@[t]@[k] < is_npc@.len() by {
            assert(before[t] == distribution@[t]@);
            assert(before[t][k] < is_npc@.len());
        }
    }
    let r = RamenAction::try_add_clone(distribution, is_npc, person_idx, train);
    let ghost after = lists_view(distribution@);
    proof {
        if r is Ok {
            let slot = before[train as int];
            lemma_add_clone_keeps(slot, is_npc@, person_idx);
            assert(after[train as int] == add_clone_spec(slot, is_npc@, person_idx)->Ok_0);
            assert forall|t: int| 0 <= t < 5 && t != train implies after[t] == before[t] by {
                assert(distribution@[t] == old(distribution)@[t]);
            }
            assert(after =~= before.update(train as int, add_clone_spec(slot, is_npc@, person_idx)->Ok_0));
            assert forall|t: int| 0 <= t < before.len() implies keeps_non_npcs(
                before[t],
                #[trigger] after[t],
                is_npc@,
            ) && adds_only(before[t], after[t], allowed) by {
                if t == train {
                    assert forall|k: int| 0 <= k < after[t].len() implies before[t].contains(#[trigger] after[t][k])
                        || allowed.contains(after[t][k]) by {
                        if !before[t].contains(after[t][k]) {
                            assert(seq![person_idx].contains(after[t][k]));
                            let w = choose|w: int| 0 <= w < 1 && seq![person_idx][w] == after[t][k];
                        }
                    }
                } else {
                    assert(after[t] == before[t]);
                    lemma_placement_refl(before, is_npc@, allowed);
                }
            }
            if distribution_sound(before) {
                assert forall|t: int| 0 <= t < after.len() implies #[trigger] slot_sound(after[t]) by {
                    if t != train {
                        assert(after[t] == before[t]);
                    }
                }
            }
            assert forall|t: int, k: int| 0 <= t < after.len() && 0 <= k < after[t].len() implies #[trigger] after[t][k]
                < is_npc@.len() by {
                if t == train {
                    if !before[t].contains(after[t][k]) {
                        assert(seq![person_idx].contains(after[t][k]));
                        let w = choose|w: int| 0 <= w < 1 && seq![person_idx][w] == after[t][k];
                    } else {
                        let w = choose|w: int| 0 <= w < before[t].len() && before[t][w] == after[t][k];
                    }
                } else {
                    assert(after[t] == before[t]);
                }
            }
        } else {
            assert(after == before);
            lemma_placement_refl(before, is_npc@, allowed);
        }
    }
    r
}

/// Whether each person is an NPC.
pub open spec fn npc_flags_spec(ps: Seq<Person>) -> Seq<bool> {
    ps.map_values(|p: Person| p.person_type == PersonType::Npc)
}

/// Whether each person is an NPC (see [`npc_flags_spec`]).
fn npc_flags(persons: &[Person]) -> (r: Vec<bool>)
    ensures
        r@ == npc_flags_spec(persons@),
{
    let mut out: Vec<bool> = Vec::new();
    let mut i: usize = 0;
    while i < persons.len()
        invariant
            i <= persons@.len(),
            out@ == persons@.take(i as int).map_values(|p: Person| p.person_type == PersonType::Npc),
        decreases persons@.len() - i,
    {
        out.push(persons[i].person_type == PersonType::Npc);
        proof {
            assert(persons@.take(i + 1).map_values(|p: Person| p.person_type == PersonType::Npc) =~= persons@.take(
                i as int,
            ).map_values(|p: Person| p.person_type == PersonType::Npc).push(
                persons@[i as int].person_type == PersonType::Npc,
            ));
        }
        i = i + 1;
    }
    proof {
        assert(persons@.take(persons@.len() as int) =~= persons@);
    }
    out
}

/// The first `n` deck persons (of indices 0-5) that can be cloned, in order:
/// support cards, and the friend where `with_friend`.
pub open spec fn deck_persons(ps: Seq<Person>, with_friend: bool, n: int) -> Seq<i32>
    decreases n,
{
    if n <= 0 {
        Seq::empty()
    } else {
        let t = ps[n - 1].person_type;
        deck_persons(ps, with_friend, n - 1) + if t == PersonType::Card || (with_friend && t
            == PersonType::ScenarioCard) {
            seq![(n - 1) as i32]
        } else {
            Seq::empty()
        }
    }
}

/// Deck persons that can be cloned: support cards, and the friend where
/// `with_friend` (see [`deck_persons`]).
fn list_deck_persons(persons: &[Person], with_friend: bool) -> (r: Vec<i32>)
    requires
        persons@.len() >= 6,
    ensures
        r@ == deck_persons(persons@, with_friend, 6),
        forall|k: int| 0 <= k < r@.len() ==> 0 <= #[trigger] r@[k] < 6,
{
    let mut out: Vec<i32> = Vec::new();
    let mut i: usize = 0;
    while i < 6
        invariant
            i <= 6,
            persons@.len() >= 6,
            out@ == deck_persons(persons@, with_friend, i as int),
            forall|k: int| 0 <= k < out@.len() ==> 0 <= #[trigger] out@[k] < i,
        decreases 6 - i,
    {
        let t = persons[i].person_type;
        let keep = t == PersonType::Card || (with_friend && t == PersonType::ScenarioCard);
        if keep {
            out.push(i as i32);
        }
        proof {
            if keep {
                assert(out@ =~= deck_persons(persons@, with_friend, i as int) + seq![i as i32]);
            } else {
                assert(out@ =~= deck_persons(persons@, with_friend, i as int) + Seq::<i32>::empty());
            }
        }
        i = i + 1;
    }
    out
}

/// Whether a card is not on the training.
pub open spec fn absent_from(slot: Seq<i32>) -> spec_fn(i32) -> bool {
    |c: i32| !slot.contains(c)
}

/// The cards of `cards` that are not on the training.
pub open spec fn absent_cards(slot: Seq<i32>, cards: Seq<i32>) -> Seq<i32> {
    cards.filter(absent_from(slot))
}

/// The cards of `cards` that are not on the training (see [`absent_cards`]).
fn list_absent_cards(slot: &[i32], cards: &[i32]) -> (r: Vec<i32>)
    ensures
        r@ == absent_cards(slot@, cards@),
{
    let mut out: Vec<i32> = Vec::new();
    let mut i: usize = 0;
    while i < cards.len()
        invariant
            i <= cards@.len(),
            out@ == absent_cards(slot@, cards@.take(i as int)),
        decreases cards@.len() - i,
    {
        let c = cards[i];
        let mut present = false;
        let mut k: usize = 0;
        while k < slot.len()
            invariant
                k <= slot@.len(),
                present == exists|j: int| 0 <= j < k && slot@[j] == c,
            decreases slot@.len() - k,
        {
            if slot[k] == c {
                present = true;
            }
            k = k + 1;
        }
        proof {
            if present {
                let j = choose|j: int| 0 <= j < k && slot@[j] == c;
                assert(slot@.contains(c));
            }
            cards@.take(i as int).lemma_filter_push(c, absent_from(slot@));
            assert(cards@.take(i + 1) =~= cards@.take(i as int).push(c));
        }
        if !present {
            out.push(c);
        }
        i = i + 1;
    }
    proof {
        assert(cards@.take(cards@.len() as int) =~= cards@);
    }
    out
}

/// One listed training of a regional bowl: a training among the five with a
/// deck support card not on it gets the clone `pick` (if `pick` is such a
/// card), placed as [`add_clone_spec`] says (a refused placement changes
/// nothing); any other listed index changes nothing.
pub open spec fn region_step(d: Seq<Seq<i32>>, is_npc: Seq<bool>, cards: Seq<i32>, t: i32, pick: i32) -> Seq<
    Seq<i32>,
> {
    if 0 <= t < 5 && absent_cards(d[t as int], cards).contains(pick) {
        match add_clone_spec(d[t as int], is_npc, pick) {
            Ok(slot) => d.update(t as int, slot),
            Err(_) => d,
        }
    } else {
        d
    }
}

/// The listed trainings taken in order, `picks[k]` being the clone for
/// `trains[k]`.
pub open spec fn region_fold(d: Seq<Seq<i32>>, is_npc: Seq<bool>, cards: Seq<i32>, trains: Seq<i32>, picks: Seq<i32>) -> Seq<
    Seq<i32>,
>
    decreases trains.len(),
{
    if trains.len() == 0 {
        d
    } else {
        region_step(
            region_fold(d, is_npc, cards, trains.drop_last(), picks.drop_last()),
            is_npc,
            cards,
            trains.last(),
            picks.last(),
        )
    }
}

/// The trainings after a regional bowl's clones: unchanged for a region
/// below index 5 or a deck that cannot split, else [`region_fold`] over the
/// region's trainings with the deck's support cards.
pub open spec fn region_clones_spec(
    d: Seq<Seq<i32>>,
    ps: Seq<Person>,
    region_id: usize,
    deck_can_split: bool,
    trains: Seq<i32>,
    picks: Seq<i32>,
) -> Seq<Seq<i32>> {
    if region_id < 5 || !deck_can_split {
        d
    } else {
        region_fold(d, npc_flags_spec(ps), deck_persons(ps, false, 6), trains, picks)
    }
}

/// Whether `picks` are draws of the regional clones: at each listed training
/// among the five with a support card absent, one of the absent cards;
/// elsewhere no draw (`-1`).
pub open spec fn region_picks_drawn(
    d: Seq<Seq<i32>>,
    is_npc: Seq<bool>,
    cards: Seq<i32>,
    trains: Seq<i32>,
    picks: Seq<i32>,
) -> bool
    decreases trains.len(),
{
    if trains.len() == 0 {
        picks.len() == 0
    } else {
        &&& picks.len() == trains.len()
        &&& region_picks_drawn(d, is_npc, cards, trains.drop_last(), picks.drop_last())
        &&& ({
            let prev = region_fold(d, is_npc, cards, trains.drop_last(), picks.drop_last());
            let t = trains.last();
            if 0 <= t < 5 && absent_cards(prev[t as int], cards).len() > 0 {
                absent_cards(prev[t as int], cards).contains(picks.last())
            } else {
                picks.last() == -1
            }
        })
    }
}

/// A training that the region does not list keeps its people.
pub proof fn lemma_region_unlisted_unchanged(
    d: Seq<Seq<i32>>,
    is_npc: Seq<bool>,
    cards: Seq<i32>,
    trains: Seq<i32>,
    picks: Seq<i32>,
    u: i32,
)
    requires
        d.len() == 5,
        0 <= u < 5,
        !trains.contains(u),
    ensures
        region_fold(d, is_npc, cards, trains, picks).len() == 5,
        region_fold(d, is_npc, cards, trains, picks)[u as int] == d[u as int],
    decreases trains.len(),
{
    if trains.len() > 0 {
        assert(!trains.drop_last().contains(u)) by {
            if trains.drop_last().contains(u) {
                let w = choose|w: int| 0 <= w < trains.drop_last().len() && trains.drop_last()[w] == u;
                assert(trains[w] == u);
            }
        }
        lemma_region_unlisted_unchanged(d, is_npc, cards, trains.drop_last(), picks.drop_last(), u);
        assert(trains[trains.len() - 1] == trains.last());
        assert(trains.last() != u);
    }
}

/// With each training listed at most once, a listed training either keeps
/// its people or gains exactly one clone: a deck card it lacked, placed as
/// [`add_clone_spec`] says (appended, pushing out the first NPC of a full
/// training).
pub proof fn lemma_region_listed_gains_at_most_one(
    d: Seq<Seq<i32>>,
    is_npc: Seq<bool>,
    cards: Seq<i32>,
    trains: Seq<i32>,
    picks: Seq<i32>,
    t: i32,
)
    requires
        d.len() == 5,
        0 <= t < 5,
        forall|i: int, j: int| 0 <= i < j < trains.len() ==> trains[i] != trains[j],
    ensures
        region_fold(d, is_npc, cards, trains, picks).len() == 5,
        ({
            let after = region_fold(d, is_npc, cards, trains, picks)[t as int];
            ||| after == d[t as int]
            ||| exists|c: i32|
                cards.contains(c) && !d[t as int].contains(c) && #[trigger] add_clone_spec(d[t as int], is_npc, c)
                    == Ok::<Seq<i32>, CloneError>(after)
        }),
    decreases trains.len(),
{
    if trains.len() > 0 {
        let rest = trains.drop_last();
        assert forall|i: int, j: int| 0 <= i < j < rest.len() implies rest[i] != rest[j] by {
            assert(rest[i] == trains[i] && rest[j] == trains[j]);
        }
        lemma_region_listed_gains_at_most_one(d, is_npc, cards, rest, picks.drop_last(), t);
        let prev = region_fold(d, is_npc, cards, rest, picks.drop_last());
        let last = trains.last();
        if last == t {
            assert(!rest.contains(t)) by {
                if rest.contains(t) {
                    let w = choose|w: int| 0 <= w < rest.len() && rest[w] == t;
                    assert(trains[w] == trains[trains.len() - 1]);
                }
            }
            lemma_region_unlisted_unchanged(d, is_npc, cards, rest, picks.drop_last(), t);
            let p = picks.last();
            if absent_cards(prev[t as int], cards).contains(p) {
                cards.lemma_filter_contains_rev(absent_from(prev[t as int]), p);
                let k = choose|k: int| 0 <= k < absent_cards(prev[t as int], cards).len()
                    && absent_cards(prev[t as int], cards)[k] == p;
                cards.filter_lemma(absent_from(prev[t as int]));
                assert(absent_from(prev[t as int])(p));
                match add_clone_spec(prev[t as int], is_npc, p) {
                    Ok(slot) => {
                        assert(add_clone_spec(d[t as int], is_npc, p) == Ok::<Seq<i32>, CloneError>(slot));
                    },
                    Err(_) => {},
                }
            }
        }
    }
}

/// Whether `x` is in `v`.
fn holds_i32(v: &Vec<i32>, x: i32) -> (b: bool)
    ensures
        b == v@.contains(x),
{
    let mut k: usize = 0;
    while k < v.len()
        invariant
            k <= v@.len(),
            forall|j: int| 0 <= j < k ==> v@[j] != x,
        decreases v@.len() - k,
    {
        if v[k] == x {
            return true;
        }
        k = k + 1;
    }
    false
}

/// One listed training of a regional bowl (see [`region_step`]).
fn region_step_exec(
    distribution: &mut Vec<Vec<i32>>,
    is_npc: &Vec<bool>,
    cards: &Vec<i32>,
    t: i32,
    pick: i32,
)
    requires
        old(distribution)@.len() == 5,
        entries_known(lists_view(old(distribution)@), is_npc@.len() as int),
        forall|k: int| 0 <= k < cards@.len() ==> 0 <= #[trigger] cards@[k] < is_npc@.len(),
    ensures
        final(distribution)@.len() == 5,
        entries_known(lists_view(final(distribution)@), is_npc@.len() as int),
        lists_view(final(distribution)@) == region_step(lists_view(old(distribution)@), is_npc@, cards@, t, pick),
        placement_keeps(lists_view(old(distribution)@), lists_view(final(distribution)@), is_npc@, cards@),
{
    proof {
        lemma_placement_refl(lists_view(distribution@), is_npc@, cards@);
    }
    if 0 <= t && t < 5 {
        let tu = t as usize;
        let available = list_absent_cards(&distribution[tu], cards);
        proof {
            assert(lists_view(distribution@)[t as int] == distribution@[tu as int]@);
        }
        if holds_i32(&available, pick) {
            proof {
                cards@.lemma_filter_contains_rev(absent_from(distribution@[tu as int]@), pick);
                let v = choose|v: int| 0 <= v < cards@.len() && cards@[v] == pick;
            }
            let _ = place_clone(distribution, is_npc, pick, tu, Ghost(cards@));
        }
    }
}

/// Clones of a regional bowl with the draws given (see
/// [`region_clones_spec`]): `picks[k]` is the clone drawn for the k-th listed
/// training. Every training keeps what [`placement_keeps`] says.
pub fn distribute_region_clones_with(
    distribution: &mut Vec<Vec<i32>>,
    persons: &[Person],
    region_id: usize,
    deck_can_split: bool,
    at_trains: &[i32],
    picks: &[i32],
)
    requires
        old(distribution)@.len() == 5,
        persons@.len() >= 6,
        entries_known(lists_view(old(distribution)@), persons@.len() as int),
        picks@.len() == at_trains@.len(),
    ensures
        final(distribution)@.len() == 5,
        lists_view(final(distribution)@) == region_clones_spec(
            lists_view(old(distribution)@),
            persons@,
            region_id,
            deck_can_split,
            at_trains@,
            picks@,
        ),
        placement_keeps(
            lists_view(old(distribution)@),
            lists_view(final(distribution)@),
            npc_flags_spec(persons@),
            deck_persons(persons@, false, 6),
        ),
{
    let is_npc = npc_flags(persons);
    let ghost cards_spec = deck_persons(persons@, false, 6);
    proof {
        lemma_placement_refl(lists_view(distribution@), is_npc@, cards_spec);
    }
    if region_id < 5 || !deck_can_split {
        return;
    }
    let cards = list_deck_persons(persons, false);
    let ghost d0 = lists_view(distribution@);
    let mut i: usize = 0;
    while i < at_trains.len()
        invariant
            i <= at_trains@.len(),
            picks@.len() == at_trains@.len(),
            distribution@.len() == 5,
            is_npc@ == npc_flags_spec(persons@),
            is_npc@.len() == persons@.len(),
            persons@.len() >= 6,
            cards@ == cards_spec,
            forall|k: int| 0 <= k < cards@.len() ==> 0 <= #[trigger] cards@[k] < 6,
            entries_known(lists_view(distribution@), is_npc@.len() as int),
            placement_keeps(d0, lists_view(distribution@), is_npc@, cards_spec),
            lists_view(distribution@) == region_fold(d0, is_npc@, cards@, at_trains@.take(i as int), picks@.take(i as int)),
        decreases at_trains@.len() - i,
    {
        let ghost before = lists_view(distribution@);
        region_step_exec(distribution, &is_npc, &cards, at_trains[i], picks[i]);
        proof {
            lemma_placement_trans(d0, before, lists_view(distribution@), is_npc@, cards_spec);
            assert(at_trains@.take(i + 1).drop_last() =~= at_trains@.take(i as int));
            assert(picks@.take(i + 1).drop_last() =~= picks@.take(i as int));
        }
        i = i + 1;
    }
    proof {
        assert(at_trains@.take(at_trains@.len() as int) =~= at_trains@);
        assert(picks@.take(picks@.len() as int) =~= picks@);
    }
}

/// Clones of a regional bowl: for a region from index 5 on, with a deck that
/// can split, each training listed for the region (in range) that lacks some
/// support card of the deck gets a clone of one of those cards, drawn at
/// random, placed as [`add_clone_spec`] says (a refused placement is
/// skipped). The outcome is [`region_clones_spec`] for some draws that
/// [`region_picks_drawn`] admits; every training keeps what
/// [`placement_keeps`] says.
pub fn distribute_region_clones(
    distribution: &mut Vec<Vec<i32>>,
    persons: &[Person],
    region_id: usize,
    deck_can_split: bool,
    at_trains: &[i32],
    rng: &mut StdRng,
)
    requires
        old(distribution)@.len() == 5,
        persons@.len() >= 6,
        entries_known(lists_view(old(distribution)@), persons@.len() as int),
    ensures
        final(distribution)@.len() == 5,
        exists|picks: Seq<i32>|
            #![trigger region_clones_spec(lists_view(old(distribution)@), persons@, region_id, deck_can_split, at_trains@, picks)]
            {
                &&& picks.len() == at_trains@.len()
                &&& (region_id >= 5 && deck_can_split ==> region_picks_drawn(
                    lists_view(old(distribution)@),
                    npc_flags_spec(persons@),
                    deck_persons(persons@, false, 6),
                    at_trains@,
                    picks,
                ))
                &&& lists_view(final(distribution)@) == region_clones_spec(
                    lists_view(old(distribution)@),
                    persons@,
                    region_id,
                    deck_can_split,
                    at_trains@,
                    picks,
                )
            },
        placement_keeps(
            lists_view(old(distribution)@),
            lists_view(final(distribution)@),
            npc_flags_spec(persons@),
            deck_persons(persons@, false, 6),
        ),
{
    let is_npc = npc_flags(persons);
    let ghost cards_spec = deck_persons(persons@, false, 6);
    let ghost d0 = lists_view(distribution@);
    proof {
        lemma_placement_refl(d0, is_npc@, cards_spec);
    }
    if region_id < 5 || !deck_can_split {
        proof {
            let picks = Seq::new(at_trains@.len(), |k: int| -1i32);
            assert(lists_view(distribution@) == region_clones_spec(d0, persons@, region_id, deck_can_split, at_trains@, picks));
        }
        return;
    }
    let cards = list_deck_persons(persons, false);
    let ghost mut picks: Seq<i32> = Seq::empty();
    let mut i: usize = 0;
    while i < at_trains.len()
        invariant
            i <= at_trains@.len(),
            distribution@.len() == 5,
            is_npc@ == npc_flags_spec(persons@),
            is_npc@.len() == persons@.len(),
            persons@.len() >= 6,
            cards@ == cards_spec,
            forall|k: int| 0 <= k < cards@.len() ==> 0 <= #[trigger] cards@[k] < 6,
            entries_known(lists_view(distribution@), is_npc@.len() as int),
            placement_keeps(d0, lists_view(distribution@), is_npc@, cards_spec),
            picks.len() == i,
            region_picks_drawn(d0, is_npc@, cards@, at_trains@.take(i as int), picks),
            lists_view(distribution@) == region_fold(d0, is_npc@, cards@, at_trains@.take(i as int), picks),
        decreases at_trains@.len() - i,
    {
        let t = at_trains[i];
        let ghost before = lists_view(distribution@);
        let mut pick: i32 = -1;
        if 0 <= t && t < 5 {
            let available = list_absent_cards(&distribution[t as usize], &cards);
            proof {
                assert(before[t as int] == distribution@[t as int]@);
            }
            match choose_one(rng, &available) {
                Some(p) => {
                    pick = p;
                },
                None => {},
            }
            proof {
                if available@.len() == 0 {
                    assert(pick == -1);
                }
            }
        }
        region_step_exec(distribution, &is_npc, &cards, t, pick);
        proof {
            lemma_placement_trans(d0, before, lists_view(distribution@), is_npc@, cards_spec);
            let tk = at_trains@.take(i + 1);
            assert(tk.drop_last() =~= at_trains@.take(i as int));
            assert(tk.last() == t);
            let np = picks.push(pick);
            assert(np.drop_last() =~= picks);
            assert(np.last() == pick);
            if !(0 <= t < 5 && absent_cards(before[t as int], cards@).len() > 0) {
                if 0 <= t < 5 {
                    assert(!absent_cards(before[t as int], cards@).contains(pick));
                }
            }
            picks = np;
        }
        i = i + 1;
    }
    proof {
        assert(at_trains@.take(at_trains@.len() as int) =~= at_trains@);
        assert(lists_view(distribution@) == region_clones_spec(d0, persons@, region_id, deck_can_split, at_trains@, picks));
    }
}

/// Placing a clone of `p` on listed training `t`, where it can be placed.
pub open spec fn place_spec(d: Seq<Seq<i32>>, is_npc: Seq<bool>, p: i32, t: i32) -> Option<Seq<Seq<i32>>> {
    if 0 <= t < 5 {
        match add_clone_spec(d[t as int], is_npc, p) {
            Ok(slot) => Some(d.update(t as int, slot)),
            Err(_) => None,
        }
    } else {
        None
    }
}

/// The trainings `ts` tried in order for a clone of `p`: it lands on the
/// first where it can be placed, nowhere if on none.
pub open spec fn try_trains(d: Seq<Seq<i32>>, is_npc: Seq<bool>, p: i32, ts: Seq<i32>) -> Seq<Seq<i32>>
    decreases ts.len(),
{
    if ts.len() == 0 {
        d
    } else {
        match place_spec(d, is_npc, p, ts[0]) {
            Some(d2) => d2,
            None => try_trains(d, is_npc, p, ts.drop_first()),
        }
    }
}

/// The persons `who` in order, `draws[k]` being the trainings drawn for
/// `who[k]`.
pub open spec fn super_fold(d: Seq<Seq<i32>>, is_npc: Seq<bool>, who: Seq<i32>, draws: Seq<Seq<i32>>) -> Seq<
    Seq<i32>,
>
    decreases who.len(),
{
    if who.len() == 0 {
        d
    } else {
        try_trains(super_fold(d, is_npc, who.drop_last(), draws.drop_last()), is_npc, who.last(), draws.last())
    }
}

/// The trainings after the super ramen's clones: unchanged outside a super
/// ramen turn, for a deck that cannot split, or without a chosen option that
/// exists; else [`super_fold`] over the deck's support cards and friend.
pub open spec fn super_clones_spec(
    d: Seq<Seq<i32>>,
    ps: Seq<Person>,
    is_super_ramen_turn: bool,
    deck_can_split: bool,
    super_ramen: Option<usize>,
    n_options: int,
    draws: Seq<Seq<i32>>,
) -> Seq<Seq<i32>> {
    if !is_super_ramen_turn || !deck_can_split || super_ramen is None || super_ramen->0 >= n_options {
        d
    } else {
        super_fold(d, npc_flags_spec(ps), deck_persons(ps, true, 6), draws)
    }
}

/// Tries the trainings `ts` in order for a clone of `p` (see [`try_trains`]).
fn try_trains_exec(distribution: &mut Vec<Vec<i32>>, is_npc: &Vec<bool>, p: i32, ts: &[i32], Ghost(allowed): Ghost<Seq<i32>>)
    requires
        old(distribution)@.len() == 5,
        entries_known(lists_view(old(distribution)@), is_npc@.len() as int),
        allowed.contains(p),
        0 <= p < is_npc@.len(),
    ensures
        final(distribution)@.len() == 5,
        entries_known(lists_view(final(distribution)@), is_npc@.len() as int),
        lists_view(final(distribution)@) == try_trains(lists_view(old(distribution)@), is_npc@, p, ts@),
        placement_keeps(lists_view(old(distribution)@), lists_view(final(distribution)@), is_npc@, allowed),
{
    let ghost d0 = lists_view(distribution@);
    proof {
        lemma_placement_refl(d0, is_npc@, allowed);
        assert(ts@.skip(0) =~= ts@);
    }
    let mut j: usize = 0;
    while j < ts.len()
        invariant
            j <= ts@.len(),
            allowed.contains(p),
            0 <= p < is_npc@.len(),
            *distribution == *old(distribution),
            d0 == lists_view(distribution@),
            distribution@.len() == 5,
            entries_known(d0, is_npc@.len() as int),
            try_trains(d0, is_npc@, p, ts@) == try_trains(d0, is_npc@, p, ts@.skip(j as int)),
        decreases ts@.len() - j,
    {
        let t = ts[j];
        proof {
            let rest = ts@.skip(j as int);
            assert(rest[0] == t);
            assert(rest.drop_first() =~= ts@.skip(j + 1));
        }
        if 0 <= t && t < 5 {
            let r = place_clone(distribution, is_npc, p, t as usize, Ghost(allowed));
            if r.is_ok() {
                return;
            }
        }
        j = j + 1;
    }
}

/// Clones of the super ramen with the draws given (see
/// [`super_clones_spec`]): `draws[k]` are the trainings tried, in order, for
/// the k-th deck support card or friend. Every training keeps what
/// [`placement_keeps`] says.
pub fn distribute_super_ramen_clones_with(
    distribution: &mut Vec<Vec<i32>>,
    persons: &[Person],
    is_super_ramen_turn: bool,
    deck_can_split: bool,
    super_ramen: Option<usize>,
    n_options: usize,
    draws: &[Vec<i32>],
)
    requires
        old(distribution)@.len() == 5,
        persons@.len() >= 6,
        entries_known(lists_view(old(distribution)@), persons@.len() as int),
        draws@.len() == deck_persons(persons@, true, 6).len(),
    ensures
        final(distribution)@.len() == 5,
        lists_view(final(distribution)@) == super_clones_spec(
            lists_view(old(distribution)@),
            persons@,
            is_super_ramen_turn,
            deck_can_split,
            super_ramen,
            n_options as int,
            lists_view(draws@),
        ),
        placement_keeps(
            lists_view(old(distribution)@),
            lists_view(final(distribution)@),
            npc_flags_spec(persons@),
            deck_persons(persons@, true, 6),
        ),
{
    let is_npc = npc_flags(persons);
    let ghost clones_spec = deck_persons(persons@, true, 6);
    let ghost d0 = lists_view(distribution@);
    proof {
        lemma_placement_refl(d0, is_npc@, clones_spec);
    }
    if !is_super_ramen_turn || !deck_can_split {
        return;
    }
    match super_ramen {
        Some(sel) => if sel >= n_options {
            return;
        },
        None => return,
    }
    let who = list_deck_persons(persons, true);
    let ghost dv = lists_view(draws@);
    let mut i: usize = 0;
    while i < who.len()
        invariant
            i <= who@.len(),
            draws@.len() == who@.len(),
            dv == lists_view(draws@),
            distribution@.len() == 5,
            is_npc@ == npc_flags_spec(persons@),
            is_npc@.len() == persons@.len(),
            persons@.len() >= 6,
            who@ == clones_spec,
            forall|k: int| 0 <= k < who@.len() ==> 0 <= #[trigger] who@[k] < 6,
            entries_known(lists_view(distribution@), is_npc@.len() as int),
            placement_keeps(d0, lists_view(distribution@), is_npc@, clones_spec),
            lists_view(distribution@) == super_fold(d0, is_npc@, who@.take(i as int), dv.take(i as int)),
        decreases who@.len() - i,
    {
        let ghost before = lists_view(distribution@);
        proof {
            assert(who@.contains(who@[i as int]));
        }
        try_trains_exec(distribution, &is_npc, who[i], draws[i].as_slice(), Ghost(clones_spec));
        proof {
            lemma_placement_trans(d0, before, lists_view(distribution@), is_npc@, clones_spec);
            assert(who@.take(i + 1).drop_last() =~= who@.take(i as int));
            assert(dv.take(i + 1).drop_last() =~= dv.take(i as int));
            assert(dv[i as int] == draws@[i as int]@);
        }
        i = i + 1;
    }
    proof {
        assert(who@.take(who@.len() as int) =~= who@);
        assert(dv.take(dv.len() as int) =~= dv);
    }
}

/// Whether `draws` are the super ramen's draws for the persons `who`: for
/// each person, in order, trainings of the option drawn until the clone is
/// placed, at most `max` of them; every draw but the last was refused, and
/// the last placed the clone unless all `max` draws were made.
pub open spec fn super_drawn(
    d: Seq<Seq<i32>>,
    is_npc: Seq<bool>,
    who: Seq<i32>,
    draws: Seq<Seq<i32>>,
    option: Seq<i32>,
    max: int,
) -> bool
    decreases who.len(),
{
    if who.len() == 0 {
        draws.len() == 0
    } else {
        &&& draws.len() == who.len()
        &&& super_drawn(d, is_npc, who.drop_last(), draws.drop_last(), option, max)
        &&& ({
            let prev = super_fold(d, is_npc, who.drop_last(), draws.drop_last());
            let ts = draws.last();
            &&& ts.len() <= max
            &&& forall|j: int| 0 <= j < ts.len() ==> option.contains(#[trigger] ts[j])
            &&& forall|j: int| 0 <= j < ts.len() - 1 ==> #[trigger] place_spec(prev, is_npc, who.last(), ts[j]) is None
            &&& ts.len() < max ==> ts.len() > 0 && place_spec(prev, is_npc, who.last(), ts.last()) is Some
        })
    }
}

/// Clones of the super ramen: on a super ramen turn, with a deck that can
/// split and a chosen option that exists, each support card and the friend
/// among the deck persons gets a clone on one of the option's trainings,
/// drawn at random and drawn again after a refused placement, at most twice
/// the option's size times. The outcome is [`super_clones_spec`] for some
/// draws of the option's trainings that [`super_drawn`] admits; every
/// training keeps what [`placement_keeps`] says.
pub fn distribute_super_ramen_clones(
    distribution: &mut Vec<Vec<i32>>,
    persons: &[Person],
    is_super_ramen_turn: bool,
    deck_can_split: bool,
    super_ramen: Option<usize>,
    options: &[Vec<i32>],
    rng: &mut StdRng,
)
    requires
        old(distribution)@.len() == 5,
        persons@.len() >= 6,
        entries_known(lists_view(old(distribution)@), persons@.len() as int),
        forall|o: int| 0 <= o < options@.len() ==> #[trigger] options@[o]@.len() <= usize::MAX / 2,
    ensures
        final(distribution)@.len() == 5,
        exists|draws: Seq<Seq<i32>>|
            #![trigger super_clones_spec(lists_view(old(distribution)@), persons@, is_super_ramen_turn, deck_can_split, super_ramen, options@.len() as int, draws)]
            {
                &&& (is_super_ramen_turn && deck_can_split && super_ramen is Some && super_ramen->0 < options@.len()
                    ==> super_drawn(
                    lists_view(old(distribution)@),
                    npc_flags_spec(persons@),
                    deck_persons(persons@, true, 6),
                    draws,
                    options@[super_ramen->0 as int]@,
                    2 * (options@[super_ramen->0 as int]@.len() as int),
                ))
                &&& lists_view(final(distribution)@) == super_clones_spec(
                    lists_view(old(distribution)@),
                    persons@,
                    is_super_ramen_turn,
                    deck_can_split,
                    super_ramen,
                    options@.len() as int,
                    draws,
                )
            },
        placement_keeps(
            lists_view(old(distribution)@),
            lists_view(final(distribution)@),
            npc_flags_spec(persons@),
            deck_persons(persons@, true, 6),
        ),
{
    let is_npc = npc_flags(persons);
    let ghost clones_spec = deck_persons(persons@, true, 6);
    let ghost d0 = lists_view(distribution@);
    proof {
        lemma_placement_refl(d0, is_npc@, clones_spec);
    }
    let who = list_deck_persons(persons, true);
    let ghost nothing = Seq::new(who@.len(), |k: int| Seq::<i32>::empty());
    if !is_super_ramen_turn || !deck_can_split {
        proof {
            assert(lists_view(distribution@) == super_clones_spec(d0, persons@, is_super_ramen_turn, deck_can_split, super_ramen, options@.len() as int, nothing));
        }
        return;
    }
    let sel = match super_ramen {
        Some(s) => s,
        None => {
            proof {
                assert(lists_view(distribution@) == super_clones_spec(d0, persons@, is_super_ramen_turn, deck_can_split, super_ramen, options@.len() as int, nothing));
            }
            return;
        },
    };
    if sel >= options.len() {
        proof {
            assert(lists_view(distribution@) == super_clones_spec(d0, persons@, is_super_ramen_turn, deck_can_split, super_ramen, options@.len() as int, nothing));
        }
        return;
    }
    let option_trains = &options[sel];
    let max_retries: usize = option_trains.len() * 2;
    let ghost mut draws: Seq<Seq<i32>> = Seq::empty();
    let mut i: usize = 0;
    while i < who.len()
        invariant
            i <= who@.len(),
            distribution@.len() == 5,
            is_npc@ == npc_flags_spec(persons@),
            is_npc@.len() == persons@.len(),
            persons@.len() >= 6,
            who@ == clones_spec,
            forall|k: int| 0 <= k < who@.len() ==> 0 <= #[trigger] who@[k] < 6,
            entries_known(lists_view(distribution@), is_npc@.len() as int),
            placement_keeps(d0, lists_view(distribution@), is_npc@, clones_spec),
            max_retries == 2 * option_trains@.len(),
            option_trains@ == options@[sel as int]@,
            draws.len() == i,
            super_drawn(d0, is_npc@, who@.take(i as int), draws, option_trains@, max_retries as int),
            lists_view(distribution@) == super_fold(d0, is_npc@, who@.take(i as int), draws),
        decreases who@.len() - i,
    {
        let person_idx = who[i];
        proof {
            assert(who@.contains(person_idx));
        }
        let ghost start = lists_view(distribution@);
        let ghost mut tried: Seq<i32> = Seq::empty();
        let mut attempt: usize = 0;
        let mut done = false;
        while attempt < max_retries && !done
            invariant
                attempt <= max_retries,
                max_retries == 2 * option_trains@.len(),
                distribution@.len() == 5,
                is_npc@.len() == persons@.len(),
                clones_spec.contains(person_idx),
                0 <= person_idx < 6,
                persons@.len() >= 6,
                entries_known(lists_view(distribution@), is_npc@.len() as int),
                placement_keeps(d0, lists_view(distribution@), is_npc@, clones_spec),
                tried.len() == attempt,
                forall|j: int| 0 <= j < tried.len() ==> option_trains@.contains(#[trigger] tried[j]),
                lists_view(distribution@) == try_trains(start, is_npc@, person_idx, tried),
                !done ==> lists_view(distribution@) == start,
                !done ==> forall|ts: Seq<i32>| #[trigger] try_trains(start, is_npc@, person_idx, tried + ts) == try_trains(start, is_npc@, person_idx, ts),
                !done ==> forall|j: int| 0 <= j < tried.len() ==> #[trigger] place_spec(start, is_npc@, person_idx, tried[j]) is None,
                done ==> tried.len() > 0 && place_spec(start, is_npc@, person_idx, tried.last()) is Some,
                done ==> forall|j: int| 0 <= j < tried.len() - 1 ==> #[trigger] place_spec(start, is_npc@, person_idx, tried[j]) is None,
            decreases max_retries - attempt,
        {
            let train = match choose_one(rng, option_trains) {
                Some(t) => t,
                None => {
                    proof {
                        assert(false);
                    }
                    -1
                },
            };
            let ghost before = lists_view(distribution@);
            let placed = if 0 <= train && train < 5 {
                place_clone(distribution, &is_npc, person_idx, train as usize, Ghost(clones_spec))
            } else {
                proof {
                    lemma_placement_refl(before, is_npc@, clones_spec);
                }
                Err(CloneError::TrainOutOfRange)
            };
            proof {
                lemma_placement_trans(d0, before, lists_view(distribution@), is_npc@, clones_spec);
                assert(before == start);
                assert(placed is Ok <==> place_spec(start, is_npc@, person_idx, train) is Some);
                let nt = tried.push(train);
                assert(nt.last() == train);
                assert forall|j: int| 0 <= j < tried.len() implies nt[j] == tried[j] by {}
                assert forall|ts: Seq<i32>| #[trigger] try_trains(start, is_npc@, person_idx, nt + ts) == (if placed is Ok {
                    lists_view(distribution@)
                } else {
                    try_trains(start, is_npc@, person_idx, ts)
                }) by {
                    let s2 = seq![train] + ts;
                    assert(nt + ts =~= tried + s2);
                    assert(try_trains(start, is_npc@, person_idx, tried + s2) == try_trains(start, is_npc@, person_idx, s2));
                    assert(s2[0] == train);
                    assert(s2.drop_first() =~= ts);
                }
                assert(lists_view(distribution@) == try_trains(start, is_npc@, person_idx, nt)) by {
                    assert(nt =~= nt + Seq::<i32>::empty());
                    assert(try_trains(start, is_npc@, person_idx, Seq::<i32>::empty()) == start);
                }
                tried = nt;
            }
            if placed.is_ok() {
                done = true;
            }
            attempt = attempt + 1;
        }
        proof {
            assert(who@.take(i + 1).drop_last() =~= who@.take(i as int));
            assert(who@.take(i + 1).last() == person_idx);
            let nd = draws.push(tried);
            assert(nd.drop_last() =~= draws);
            assert(nd.last() == tried);
            assert(tried.len() < max_retries ==> done);
            draws = nd;
        }
        i = i + 1;
    }
    proof {
        assert(who@.take(who@.len() as int) =~= who@);
        assert(lists_view(distribution@) == super_clones_spec(d0, persons@, is_super_ramen_turn, deck_can_split, super_ramen, options@.len() as int, draws));
    }
}

} // verus!
