//! What eating and closing a turn do to the scenario state: the bowl eaten
//! takes effect (scenario points, the year's bowl count, clones and the
//! friendship of the bowl), and the turn's end clears the bowl and, at the
//! end of a year, settles it.
//!
//! The numbers that come from the scenario's rule tables (the points a bowl
//! is worth, the year's outcome, the trainings of a region, the friendship
//! of a year's bowls) are taken as arguments.

use vstd::prelude::*;

use rand::rngs::StdRng;

use super::clones::{
    deck_persons, distribute_region_clones, entries_known, npc_flags_spec, placement_keeps, region_clones_spec,
    region_picks_drawn,
};
use super::events::{rmj_choice_index, select_rmj_choice_by_result, EventChoice};
use super::persons::{
    apply_ramen_friendship, cards_befriended, deck_befriended, friendship_fits, lists_view, ramen_friendship_gain,
    Person,
};
use super::flow::FlowStep;
use super::RamenState;

verus! {

/// The state after the chosen bowl takes effect: the bowl becomes the one
/// eaten this turn, the scenario points grow by `pt_gain` and the year's bowl
/// count by one; without a chosen bowl nothing changes.
pub open spec fn ground_ramen_spec(s: RamenState, pt_gain: int) -> RamenState {
    match s.pending_ramen {
        Some(r) => RamenState {
            current_ramen: Some(r),
            scenario_pt: (s.scenario_pt + pt_gain) as i32,
            eat_count: (s.eat_count + 1) as i32,
            ..s
        },
        None => s,
    }
}

/// Whether grounding the chosen bowl stays within `i32`.
pub open spec fn ground_fits(s: RamenState, pt_gain: int) -> bool {
    s.pending_ramen is Some ==> i32::MIN <= s.scenario_pt + pt_gain <= i32::MAX && s.eat_count < i32::MAX
}

/// Lets the chosen bowl take effect (see [`ground_ramen_spec`]); `pt_gain` is
/// what the bowl is worth this year at the current bowl count. Returns the
/// bowl eaten, if any.
pub fn ground_ramen(state: &mut RamenState, pt_gain: i32) -> (eaten: Option<usize>)
    requires
        ground_fits(*old(state), pt_gain as int),
    ensures
        eaten == old(state).pending_ramen,
        *final(state) == ground_ramen_spec(*old(state), pt_gain as int),
{
    match state.pending_ramen {
        Some(r) => {
            state.current_ramen = Some(r);
            state.scenario_pt = state.scenario_pt + pt_gain;
            state.eat_count = state.eat_count + 1;
            Some(r)
        },
        None => None,
    }
}

/// What eating does before the training is chosen: the chosen bowl takes
/// effect ([`ground_ramen`]), a regional bowl places its clones
/// ([`distribute_region_clones`], with the trainings listed for that region
/// in `region_at_trains`), and the bowl's friendship is given
/// ([`apply_ramen_friendship`], with the years' basic friendship). Returns
/// the bowl eaten, if any.
pub fn ground_ramen_effects(
    state: &mut RamenState,
    pt_gain: i32,
    distribution: &mut Vec<Vec<i32>>,
    persons: &mut Vec<Person>,
    deck_friendship: &mut [i32; 6],
    deck_can_split: bool,
    region_at_trains: &[Vec<i32>],
    turn: i32,
    basic_friendship: &[i32],
    rng: &mut StdRng,
) -> (eaten: Option<usize>)
    requires
        ground_fits(*old(state), pt_gain as int),
        old(state).pending_ramen is Some ==> old(state).pending_ramen->0 < region_at_trains@.len(),
        old(distribution)@.len() == 5,
        old(persons)@.len() >= 6,
        entries_known(lists_view(old(distribution)@), old(persons)@.len() as int),
        friendship_fits(
            old(persons)@,
            ramen_friendship_gain(
                ground_ramen_spec(*old(state), pt_gain as int).current_ramen is Some,
                turn,
                basic_friendship@,
            ),
        ),
    ensures
        eaten == old(state).pending_ramen,
        *final(state) == ground_ramen_spec(*old(state), pt_gain as int),
        final(distribution)@.len() == 5,
        match eaten {
            None => *final(distribution) == *old(distribution),
            Some(r) => exists|picks: Seq<i32>|
                #![trigger region_clones_spec(lists_view(old(distribution)@), old(persons)@, r, deck_can_split, region_at_trains@[r as int]@, picks)]
                {
                    &&& picks.len() == region_at_trains@[r as int]@.len()
                    &&& (r >= 5 && deck_can_split ==> region_picks_drawn(
                        lists_view(old(distribution)@),
                        npc_flags_spec(old(persons)@),
                        deck_persons(old(persons)@, false, 6),
                        region_at_trains@[r as int]@,
                        picks,
                    ))
                    &&& lists_view(final(distribution)@) == region_clones_spec(
                        lists_view(old(distribution)@),
                        old(persons)@,
                        r,
                        deck_can_split,
                        region_at_trains@[r as int]@,
                        picks,
                    )
                },
        },
        placement_keeps(
            lists_view(old(distribution)@),
            lists_view(final(distribution)@),
            npc_flags_spec(old(persons)@),
            deck_persons(old(persons)@, false, 6),
        ),
        ({
            let v = ramen_friendship_gain(final(state).current_ramen is Some, turn, basic_friendship@);
            if v > 0 {
                final(persons)@ == cards_befriended(old(persons)@, v) && final(deck_friendship)@
                    == deck_befriended(old(persons)@, old(deck_friendship)@, v)
            } else {
                final(persons)@ == old(persons)@ && final(deck_friendship)@ == old(deck_friendship)@
            }
        }),
{
    let eaten = ground_ramen(state, pt_gain);
    match eaten {
        Some(r) => {
            distribute_region_clones(distribution, persons.as_slice(), r, deck_can_split, region_at_trains[r].as_slice(), rng);
        },
        None => {
            proof {
                super::clones::lemma_placement_refl(lists_view(distribution@), npc_flags_spec(persons@), deck_persons(persons@, false, 6));
            }
        },
    }
    apply_ramen_friendship(persons, deck_friendship, state, turn, basic_friendship);
    eaten
}

/// The state after a turn closes: no bowl eaten and no pending decision; at
/// the end of a year (`settles`) the outcome `success` is recorded, a success
/// raises the training level bonus by one, and the year's bowl count and the
/// scenario points start again from zero.
pub open spec fn records_outcome(s: RamenState, results: Seq<bool>, settles: bool, success: bool) -> bool {
    if settles {
        &&& results == s.rmj_results@.push(success)
    } else {
        &&& results == s.rmj_results@
    }
}

/// Whether closing the turn stays within `i32`.
pub open spec fn close_fits(s: RamenState, settles: bool) -> bool {
    settles ==> s.train_level_bonus < i32::MAX
}

/// Closes a turn: clears the bowl eaten and the pending decision, and where
/// the turn ends a year (`settle_year`, the year index) records the year's
/// outcome `success`, raises the training level bonus on a success, and
/// resets the year's bowl count and the scenario points. Returns the branch
/// of the year's settlement event (`rmj_choices`, its result branches) that
/// the recorded outcome of that year selects (see
/// [`select_rmj_choice_by_result`]); `None` outside a settlement.
pub fn close_turn(state: &mut RamenState, settle_year: Option<usize>, success: bool, rmj_choices: &[EventChoice]) -> (branch:
    Option<EventChoice>)
    requires
        close_fits(*old(state), settle_year is Some),
    ensures
        records_outcome(*old(state), final(state).rmj_results@, settle_year is Some, success),
        *final(state) == (RamenState {
            current_ramen: None,
            pending_ramen: None,
            pending_special_targets: [0i32, 0, 0],
            combined_decision: false,
            rmj_results: final(state).rmj_results,
            train_level_bonus: if settle_year is Some && success {
                (old(state).train_level_bonus + 1) as i32
            } else {
                old(state).train_level_bonus
            },
            eat_count: if settle_year is Some {
                0
            } else {
                old(state).eat_count
            },
            scenario_pt: if settle_year is Some {
                0
            } else {
                old(state).scenario_pt
            },
            ..*old(state)
        }),
        match settle_year {
            None => branch is None,
            Some(y) => match rmj_choice_index(
                rmj_choices@,
                if y < final(state).rmj_results@.len() {
                    Some(final(state).rmj_results@[y as int])
                } else {
                    None
                },
            ) {
                Some(k) => branch == Some(rmj_choices@[k]),
                None => branch is None,
            },
        },
{
    state.current_ramen = None;
    state.clear_pending();
    match settle_year {
        None => None,
        Some(y) => {
            state.rmj_results.push(success);
            if success {
                state.train_level_bonus = state.train_level_bonus + 1;
            }
            state.eat_count = 0;
            let recorded: Option<bool> = if y < state.rmj_results.len() {
                Some(state.rmj_results[y])
            } else {
                None
            };
            let chosen = select_rmj_choice_by_result(rmj_choices, recorded);
            state.scenario_pt = 0;
            match chosen {
                Some(c) => Some(*c),
                None => None,
            }
        },
    }
}

/// Carries out the state work of a flow step (see
/// [`super::flow::next_flow`]): a closing step closes the turn
/// ([`close_turn`], settling the year the step names with the outcome
/// `success`); a step that ends the combined decision clears its flag; any
/// other step changes nothing. Returns the settlement branch to apply, if any.
pub fn finish_step(state: &mut RamenState, step: &FlowStep, success: bool, rmj_choices: &[EventChoice]) -> (branch:
    Option<EventChoice>)
    requires
        step.close_turn ==> close_fits(*old(state), step.settle_year is Some),
    ensures
        step.close_turn ==> records_outcome(
            *old(state),
            final(state).rmj_results@,
            step.settle_year is Some,
            success,
        ) && *final(state) == (RamenState {
            current_ramen: None,
            pending_ramen: None,
            pending_special_targets: [0i32, 0, 0],
            combined_decision: false,
            rmj_results: final(state).rmj_results,
            train_level_bonus: if step.settle_year is Some && success {
                (old(state).train_level_bonus + 1) as i32
            } else {
                old(state).train_level_bonus
            },
            eat_count: if step.settle_year is Some {
                0
            } else {
                old(state).eat_count
            },
            scenario_pt: if step.settle_year is Some {
                0
            } else {
                old(state).scenario_pt
            },
            ..*old(state)
        }) && match step.settle_year {
            None => branch is None,
            Some(y) => match rmj_choice_index(
                rmj_choices@,
                if y < final(state).rmj_results@.len() {
                    Some(final(state).rmj_results@[y as int])
                } else {
                    None
                },
            ) {
                Some(k) => branch == Some(rmj_choices@[k]),
                None => branch is None,
            },
        },
        !step.close_turn ==> branch is None && *final(state) == (RamenState {
            combined_decision: if step.clear_combined {
                false
            } else {
                old(state).combined_decision
            },
            ..*old(state)
        }),
{
    if step.close_turn {
        close_turn(state, step.settle_year, success, rmj_choices)
    } else {
        if step.clear_combined {
            state.combined_decision = false;
        }
        None
    }
}

} // verus!
