//! Rules around a training session: a failed session, the head counts that
//! fill the feeling gauges, the resting mindset, and the scenario's hint
//! rate bonus.

use vstd::prelude::*;

use super::flow::year_of;
use super::persons::{Person, PersonType};

verus! {

/// Event of a failed training.
#[derive(Debug, Clone, Copy, PartialEq, Eq, Structural)]
pub enum FailureEvent {
    /// An ordinary failure.
    Failure,
    /// A severe failure: the trainee falls ill and gets a bad trainer.
    SevereFailure,
}

/// A failed training: where the second draw fails as well the failure is
/// severe and the trainee becomes ill with a bad trainer; otherwise it is an
/// ordinary failure and nothing else changes.
pub fn handle_train_failure(severe: bool, ill: &mut bool, bad_trainer: &mut bool) -> (e: FailureEvent)
    ensures
        severe ==> e == FailureEvent::SevereFailure && *final(ill) && *final(bad_trainer),
        !severe ==> e == FailureEvent::Failure && *final(ill) == *old(ill) && *final(bad_trainer) == *old(
            bad_trainer,
        ),
{
    if severe {
        *ill = true;
        *bad_trainer = true;
        FailureEvent::SevereFailure
    } else {
        FailureEvent::Failure
    }
}

/// Whether a slot entry is a person of kind `t`.
pub open spec fn entry_of_kind(ps: Seq<Person>, t: PersonType) -> spec_fn(i32) -> bool {
    |p: i32| p >= 0 && ps[p as int].person_type == t
}

/// Number of places of `slot` held by persons of kind `t` (a clone counts as
/// a place of its own).
pub open spec fn heads_of_kind(ps: Seq<Person>, slot: Seq<i32>, t: PersonType) -> nat {
    slot.filter(entry_of_kind(ps, t)).len()
}

/// Support cards and NPCs standing on a training, as the feeling gauge
/// counts them: by the actual places, clones included.
pub fn gauge_head_counts(persons: &[Person], slot: &[i32]) -> (r: (usize, usize))
    requires
        forall|k: int| 0 <= k < slot@.len() ==> #[trigger] slot@[k] < persons@.len(),
    ensures
        r.0 == heads_of_kind(persons@, slot@, PersonType::Card),
        r.1 == heads_of_kind(persons@, slot@, PersonType::Npc),
{
    let mut cards: usize = 0;
    let mut npcs: usize = 0;
    let mut k: usize = 0;
    while k < slot.len()
        invariant
            k <= slot@.len(),
            forall|j: int| 0 <= j < slot@.len() ==> #[trigger] slot@[j] < persons@.len(),
            cards == heads_of_kind(persons@, slot@.take(k as int), PersonType::Card),
            npcs == heads_of_kind(persons@, slot@.take(k as int), PersonType::Npc),
            cards <= k,
            npcs <= k,
        decreases slot@.len() - k,
    {
        let p = slot[k];
        proof {
            assert(slot@.take(k + 1) =~= slot@.take(k as int).push(p));
            slot@.take(k as int).lemma_filter_push(p, entry_of_kind(persons@, PersonType::Card));
            slot@.take(k as int).lemma_filter_push(p, entry_of_kind(persons@, PersonType::Npc));
        }
        if p >= 0 {
            let t = persons[p as usize].person_type;
            if t == PersonType::Card {
                cards = cards + 1;
            } else if t == PersonType::Npc {
                npcs = npcs + 1;
            }
        }
        k = k + 1;
    }
    proof {
        assert(slot@.take(slot@.len() as int) =~= slot@);
    }
    (cards, npcs)
}

/// Vitality the resting mindset gives each turn.
pub const REFRESH_MIND_VITAL: i32 = 5;

/// One turn of the resting mindset: the vitality it gives and which entry of
/// the end odds decides whether it ends.
#[derive(Debug, Clone, Copy, PartialEq, Eq, Structural)]
pub struct RefreshMindStep {
    /// Vitality gained this turn.
    pub vital_gain: i32,
    /// Entry of the end odds used (the turns it has lasted, at most 6).
    pub end_odds_index: usize,
}

/// Entry of the end odds for a mindset that has lasted `t` turns (taken as
/// an unsigned count): `t`, at most 6.
pub open spec fn end_odds_index(t: i32) -> usize {
    let u = t as usize;
    if u < 6 { u } else { 6 }
}

/// A turn of the resting mindset: while it lasts (`refresh_mind` non-zero)
/// it gives 5 vitality and lasts one turn longer, or ends (back to 0) where
/// the end draw says so; otherwise nothing happens.
pub fn update_refresh_mind(refresh_mind: &mut i32, ended: bool) -> (r: Option<RefreshMindStep>)
    requires
        *old(refresh_mind) < i32::MAX,
    ensures
        *old(refresh_mind) == 0 ==> r is None && *final(refresh_mind) == 0,
        *old(refresh_mind) != 0 ==> r == Some(
            RefreshMindStep { vital_gain: REFRESH_MIND_VITAL, end_odds_index: end_odds_index(*old(refresh_mind)) },
        ) && *final(refresh_mind) == if ended { 0 } else { *old(refresh_mind) + 1 },
{
    let v: i32 = *refresh_mind;
    let t = v as usize;
    assert((v != 0) == (t > 0)) by (bit_vector)
        requires
            t == v as usize,
    ;
    if t > 0 {
        let idx: usize = if t < 6 { t } else { 6 };
        *refresh_mind = if ended { 0 } else { *refresh_mind + 1 };
        Some(RefreshMindStep { vital_gain: REFRESH_MIND_VITAL, end_odds_index: idx })
    } else {
        None
    }
}

/// The scenario's hint rate bonus (percent): the bonus of the current
/// scenario-point tier, plus, from the second year on, the bonus of the
/// previous year's settlement (its success or failure entry) once settled.
pub open spec fn hint_bonus_spec(
    pt_hint: i32,
    turn: i32,
    rmj_results: Seq<bool>,
    success_hint: Seq<i32>,
    fail_hint: Seq<i32>,
) -> int {
    let y = year_of(turn) - 1;
    if y >= 1 && y - 1 < rmj_results.len() {
        pt_hint + if rmj_results[y - 1] {
            success_hint[y - 1]
        } else {
            fail_hint[y - 1]
        }
    } else {
        pt_hint as int
    }
}

/// The scenario's hint rate bonus (see [`hint_bonus_spec`]); `pt_hint` is
/// the bonus of the tier that the scenario points reach.
pub fn calc_hint_bonus_pct(
    pt_hint: i32,
    turn: i32,
    rmj_results: &[bool],
    success_hint: &[i32],
    fail_hint: &[i32],
) -> (h: i32)
    requires
        year_of(turn) >= 2 && year_of(turn) - 2 < rmj_results@.len() ==> {
            let p = year_of(turn) - 2;
            &&& p < success_hint@.len()
            &&& p < fail_hint@.len()
            &&& i32::MIN <= pt_hint + (if rmj_results@[p] { success_hint@[p] } else { fail_hint@[p] })
                <= i32::MAX
        },
    ensures
        h == hint_bonus_spec(pt_hint, turn, rmj_results@, success_hint@, fail_hint@),
{
    let year: i32 = if turn < 24 {
        1
    } else if turn < 48 {
        2
    } else {
        3
    };
    let year_idx: usize = (year - 1) as usize;
    let mut hint = pt_hint;
    if year_idx >= 1 {
        let prev = year_idx - 1;
        if prev < rmj_results.len() {
            let extra = if rmj_results[prev] {
                success_hint[prev]
            } else {
                fail_hint[prev]
            };
            hint = hint + extra;
        }
    }
    hint
}

} // verus!
