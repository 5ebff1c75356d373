//! Stage flow of a Ramen Cup run: how the game moves from one stage to the next
//! and across turn boundaries, and the combined-decision entry point.

use vstd::prelude::*;

use super::{RamenStage, RamenState, stage_successor};
use super::rules::{list_special_targets_for, valid_target, RulesError};

verus! {

/// Last turn of the scenario.
pub const MAX_TURN: i32 = 77;

/// Whether `turn` is a super ramen turn (72-77).
pub open spec fn is_super_ramen_turn(turn: i32) -> bool {
    72 <= turn <= 77
}

/// Whether `turn` ends a year with a settlement (23, 47, 71).
pub open spec fn is_rmj_turn(turn: i32) -> bool {
    turn == 23 || turn == 47 || turn == 71
}

/// Year (1-3) of a turn.
pub open spec fn year_of(turn: i32) -> i32 {
    if turn < 24 {
        1
    } else if turn < 48 {
        2
    } else {
        3
    }
}

/// What the flow reads of a game: stage, turn and the pending decision flags.
#[derive(Debug, Clone, Copy, PartialEq, Eq, Structural)]
pub struct FlowState {
    /// Current stage.
    pub stage: RamenStage,
    /// Current turn (0-77).
    pub turn: i32,
    /// Whether a bowl was chosen in this turn's `RamenSelect`.
    pub pending_ramen: bool,
    /// Whether the combined decision path was taken in `RamenSelect`.
    pub combined_decision: bool,
    /// Whether the game's free-race check passes once the turn has moved on
    /// (read only by a step into the next turn).
    pub free_race_ok: bool,
}

impl FlowState {
    /// Year (1-3) of the current turn.
    pub fn current_year(&self) -> (y: i32)
        ensures
            y == year_of(self.turn),
    {
        if self.turn < 24 {
            1
        } else if self.turn < 48 {
            2
        } else {
            3
        }
    }

    /// Whether the current turn is a super ramen turn (72-77).
    pub fn is_super_ramen_turn(&self) -> (b: bool)
        ensures
            b == is_super_ramen_turn(self.turn),
    {
        self.turn >= 72 && self.turn <= 77
    }

    /// Whether the current turn ends a year with a settlement (23, 47, 71).
    pub fn is_rmj_turn(&self) -> (b: bool)
        ensures
            b == is_rmj_turn(self.turn),
    {
        self.turn == 23 || self.turn == 47 || self.turn == 71
    }
}

/// One step of the flow: the next stage and turn, and the work that goes with
/// the step.
#[derive(Debug, Clone, Copy, PartialEq, Eq, Structural)]
pub struct FlowStep {
    /// Whether the game goes on (`false`: the last turn is over).
    pub advanced: bool,
    /// Stage after the step.
    pub stage: RamenStage,
    /// Turn after the step.
    pub turn: i32,
    /// Whether the eating decision takes effect on this step (entering `Train`
    /// after the decision stages).
    pub ground_ramen: bool,
    /// Whether this step closes the turn (the eaten bowl and the pending
    /// decision are cleared).
    pub close_turn: bool,
    /// Settlement year index (0-2) when the closing turn ends a year.
    pub settle_year: Option<usize>,
    /// Whether the combined-decision flag is cleared on this step.
    pub clear_combined: bool,
}

/// A plain stage move within a turn.
pub open spec fn move_to(s: FlowState, to: RamenStage, ground: bool) -> FlowStep {
    FlowStep {
        advanced: true,
        stage: to,
        turn: s.turn,
        ground_ramen: ground,
        close_turn: false,
        settle_year: None,
        clear_combined: false,
    }
}

/// Moving on to the start of the next turn, which goes on only where the
/// free-race check passes (or ending the game after the last).
pub open spec fn advance_turn_spec(s: FlowState, close: bool, settle: Option<usize>) -> FlowStep {
    if s.turn < MAX_TURN {
        FlowStep {
            advanced: s.free_race_ok,
            stage: RamenStage::Begin,
            turn: (s.turn + 1) as i32,
            ground_ramen: false,
            close_turn: close,
            settle_year: settle,
            clear_combined: false,
        }
    } else {
        FlowStep {
            advanced: false,
            stage: s.stage,
            turn: s.turn,
            ground_ramen: false,
            close_turn: close,
            settle_year: settle,
            clear_combined: false,
        }
    }
}

/// The flow of the Ramen Cup.
///
/// - `RamenSelect` goes to `Train` directly on the combined path (grounding the
///   decision), otherwise to `SpecialSelect` when a bowl was chosen and to
///   `Train` when not;
/// - `SpecialSelect` goes to `Train`, grounding the eating decision;
/// - other in-turn stages follow [`stage_successor`], except that
///   `Distribute` skips straight to `Train` on turns 0-1 and on super ramen turns;
/// - `NextTurn` closes the turn (settling the year on turns 23, 47, 71), then
///   goes to `RegionSelect` after turns 23 and 47, to `SuperRamenSelect` after
///   turn 71, and otherwise to the next turn's `Begin`;
/// - the special stages go to the next turn's `Begin`;
/// - after the last turn the game does not advance.
pub open spec fn next_flow_spec(s: FlowState) -> FlowStep {
    match s.stage {
        RamenStage::RamenSelect => if s.combined_decision {
            FlowStep { clear_combined: true, ..move_to(s, RamenStage::Train, true) }
        } else if s.pending_ramen {
            move_to(s, RamenStage::SpecialSelect, false)
        } else {
            move_to(s, RamenStage::Train, false)
        },
        RamenStage::SpecialSelect => move_to(s, RamenStage::Train, true),
        RamenStage::Distribute => if s.turn < 2 || is_super_ramen_turn(s.turn) {
            move_to(s, RamenStage::Train, false)
        } else {
            move_to(s, RamenStage::RamenSelect, false)
        },
        RamenStage::Begin | RamenStage::Train | RamenStage::AfterTrain => move_to(
            s,
            stage_successor(s.stage)->0,
            false,
        ),
        RamenStage::NextTurn => {
            let settle = if is_rmj_turn(s.turn) {
                Some((year_of(s.turn) - 1) as usize)
            } else {
                None
            };
            if s.turn == 23 || s.turn == 47 {
                FlowStep {
                    advanced: true,
                    stage: RamenStage::RegionSelect,
                    turn: s.turn,
                    ground_ramen: false,
                    close_turn: true,
                    settle_year: settle,
                    clear_combined: false,
                }
            } else if s.turn == 71 {
                FlowStep {
                    advanced: true,
                    stage: RamenStage::SuperRamenSelect,
                    turn: s.turn,
                    ground_ramen: false,
                    close_turn: true,
                    settle_year: settle,
                    clear_combined: false,
                }
            } else {
                advance_turn_spec(s, true, settle)
            }
        },
        RamenStage::RegionSelect | RamenStage::SuperRamenSelect | RamenStage::Settlement => advance_turn_spec(
            s,
            false,
            None,
        ),
    }
}

/// Advances the flow by one step (see [`next_flow_spec`]).
pub fn next_flow(s: &FlowState) -> (r: FlowStep)
    requires
        0 <= s.turn <= MAX_TURN,
    ensures
        r == next_flow_spec(*s),
{
    let plain = |to: RamenStage, ground: bool| -> (st: FlowStep)
        ensures
            st == move_to(*s, to, ground),
        {
            FlowStep {
                advanced: true,
                stage: to,
                turn: s.turn,
                ground_ramen: ground,
                close_turn: false,
                settle_year: None,
                clear_combined: false,
            }
        };
    match s.stage {
        RamenStage::RamenSelect => {
            if s.combined_decision {
                FlowStep {
                    advanced: true,
                    stage: RamenStage::Train,
                    turn: s.turn,
                    ground_ramen: true,
                    close_turn: false,
                    settle_year: None,
                    clear_combined: true,
                }
            } else if s.pending_ramen {
                plain(RamenStage::SpecialSelect, false)
            } else {
                plain(RamenStage::Train, false)
            }
        },
        RamenStage::SpecialSelect => plain(RamenStage::Train, true),
        RamenStage::Distribute => {
            if s.turn < 2 || (s.turn >= 72 && s.turn <= 77) {
                plain(RamenStage::Train, false)
            } else {
                plain(RamenStage::RamenSelect, false)
            }
        },
        RamenStage::Begin => plain(RamenStage::Distribute, false),
        RamenStage::Train => plain(RamenStage::AfterTrain, false),
        RamenStage::AfterTrain => plain(RamenStage::NextTurn, false),
        RamenStage::NextTurn => {
            let settle: Option<usize> = if s.turn == 23 {
                Some(0)
            } else if s.turn == 47 {
                Some(1)
            } else if s.turn == 71 {
                Some(2)
            } else {
                None
            };
            if s.turn == 23 || s.turn == 47 {
                FlowStep {
                    advanced: true,
                    stage: RamenStage::RegionSelect,
                    turn: s.turn,
                    ground_ramen: false,
                    close_turn: true,
                    settle_year: settle,
                    clear_combined: false,
                }
            } else if s.turn == 71 {
                FlowStep {
                    advanced: true,
                    stage: RamenStage::SuperRamenSelect,
                    turn: s.turn,
                    ground_ramen: false,
                    close_turn: true,
                    settle_year: settle,
                    clear_combined: false,
                }
            } else {
                advance_turn(s, true, settle)
            }
        },
        RamenStage::RegionSelect | RamenStage::SuperRamenSelect | RamenStage::Settlement => advance_turn(
            s,
            false,
            None,
        ),
    }
}

fn advance_turn(s: &FlowState, close: bool, settle: Option<usize>) -> (r: FlowStep)
    requires
        0 <= s.turn <= MAX_TURN,
    ensures
        r == advance_turn_spec(*s, close, settle),
{
    if s.turn < MAX_TURN {
        FlowStep {
            advanced: s.free_race_ok,
            stage: RamenStage::Begin,
            turn: s.turn + 1,
            ground_ramen: false,
            close_turn: close,
            settle_year: settle,
            clear_combined: false,
        }
    } else {
        FlowStep {
            advanced: false,
            stage: s.stage,
            turn: s.turn,
            ground_ramen: false,
            close_turn: close,
            settle_year: settle,
            clear_combined: false,
        }
    }
}

/// The flow state after a step (the pending flags carry over, the combined
/// flag is cleared when the step says so).
pub open spec fn after_step(s: FlowState) -> FlowState {
    let st = next_flow_spec(s);
    FlowState {
        stage: st.stage,
        turn: st.turn,
        pending_ramen: s.pending_ramen,
        combined_decision: if st.clear_combined { false } else { s.combined_decision },
        free_race_ok: s.free_race_ok,
    }
}

/// The flow state after `n` steps.
pub open spec fn after_steps(s: FlowState, n: nat) -> FlowState
    decreases n,
{
    if n == 0 {
        s
    } else {
        after_steps(after_step(s), (n - 1) as nat)
    }
}

/// A turn that starts at `Begin` reaches its `NextTurn` stage: in 4 steps on
/// turns where the ramen stages are skipped (0-1 and super ramen turns), in 5
/// steps when no bowl is chosen or the combined path is taken, and in 6 steps
/// through `SpecialSelect` when a bowl is chosen on the three-stage path.
pub proof fn lemma_turn_reaches_next_turn(turn: i32, pending: bool, combined: bool, free_race: bool)
    requires
        0 <= turn <= MAX_TURN,
    ensures
        ({
            let s = FlowState { stage: RamenStage::Begin, turn, pending_ramen: pending, combined_decision: combined, free_race_ok: free_race };
            let n: nat = if turn < 2 || is_super_ramen_turn(turn) {
                4
            } else if pending && !combined {
                6
            } else {
                5
            };
            &&& after_steps(s, n).stage == RamenStage::NextTurn
            &&& after_steps(s, n).turn == turn
        }),
{
    let s = FlowState { stage: RamenStage::Begin, turn, pending_ramen: pending, combined_decision: combined, free_race_ok: free_race };
    reveal_with_fuel(after_steps, 7);
}

/// Every turn before the last ends in the next turn's `Begin`: directly from
/// `NextTurn`, or through the region / super ramen selection stage after
/// turns 23, 47 and 71.
pub proof fn lemma_turn_end_advances(turn: i32, pending: bool, combined: bool, free_race: bool)
    requires
        0 <= turn < MAX_TURN,
    ensures
        ({
            let s = FlowState { stage: RamenStage::NextTurn, turn, pending_ramen: pending, combined_decision: combined, free_race_ok: free_race };
            let n: nat = if turn == 23 || turn == 47 || turn == 71 { 2 } else { 1 };
            &&& after_steps(s, n).stage == RamenStage::Begin
            &&& after_steps(s, n).turn == turn + 1
            &&& next_flow_spec(s).close_turn
            &&& (next_flow_spec(s).settle_year is Some <==> is_rmj_turn(turn))
        }),
{
    reveal_with_fuel(after_steps, 3);
}

/// A step into the next turn goes on exactly when the free-race check
/// passes; every other step that stays in the game goes on.
pub proof fn lemma_new_turn_needs_free_race(s: FlowState)
    requires
        0 <= s.turn < MAX_TURN,
    ensures
        next_flow_spec(s).turn == s.turn + 1 ==> next_flow_spec(s).stage == RamenStage::Begin
            && next_flow_spec(s).advanced == s.free_race_ok,
        next_flow_spec(s).turn == s.turn ==> next_flow_spec(s).advanced,
{
}

/// The eating decision takes effect on exactly two steps, both into
/// `Train` within the turn: the step out of `SpecialSelect` (the
/// three-stage path), and the combined-decision step out of `RamenSelect`.
/// No other step grounds it, and neither of these closes the turn.
pub proof fn lemma_eating_grounded_entering_train(s: FlowState)
    ensures
        next_flow_spec(s).ground_ramen <==> (s.stage == RamenStage::SpecialSelect || (s.stage
            == RamenStage::RamenSelect && s.combined_decision)),
        s.stage == RamenStage::SpecialSelect ==> ({
            let st = next_flow_spec(s);
            &&& st.ground_ramen
            &&& st.advanced
            &&& st.stage == RamenStage::Train
            &&& st.turn == s.turn
            &&& !st.close_turn
            &&& st.settle_year is None
        }),
        s.stage == RamenStage::RamenSelect && s.combined_decision ==> ({
            let st = next_flow_spec(s);
            &&& st.ground_ramen
            &&& st.stage == RamenStage::Train
            &&& st.turn == s.turn
            &&& st.clear_combined
        }),
        s.stage == RamenStage::RamenSelect && !s.combined_decision && s.pending_ramen ==> next_flow_spec(s).stage
            == RamenStage::SpecialSelect,
{
}

/// The last turn's end does not advance the game.
pub proof fn lemma_game_ends_after_last_turn(pending: bool, combined: bool, free_race: bool)
    ensures
        !next_flow_spec(
            FlowState { stage: RamenStage::NextTurn, turn: MAX_TURN, pending_ramen: pending, combined_decision: combined, free_race_ok: free_race },
        ).advanced,
{
}

/// Errors of the combined decision.
#[derive(Debug, Clone, Copy, PartialEq, Eq, Structural)]
pub enum DecisionError {
    /// Called outside the `RamenSelect` stage.
    WrongStage(RamenStage),
    /// The scenario rules rejected the region.
    Rules(RulesError),
    /// The targets are not a legal hidden-flavour use of the bowl.
    IllegalTargets,
}

/// Records a combined decision (bowl and hidden-flavour targets at once) in
/// the `RamenSelect` stage; without a bowl the targets become `[0, 0, 0]`.
/// The targets of a bowl must be one of its legal uses.
pub fn apply_combined_ramen_decision(
    state: &mut RamenState,
    stage: RamenStage,
    ramen: Option<usize>,
    targets: [i32; 3],
    recipes: &[[i32; 3]],
) -> (r: Result<(), DecisionError>)
    ensures
        stage != RamenStage::RamenSelect ==> r == Err::<(), DecisionError>(DecisionError::WrongStage(stage)),
        stage == RamenStage::RamenSelect && ramen is Some && ramen->0 >= recipes@.len() ==> r == Err::<
            (),
            DecisionError,
        >(DecisionError::Rules(RulesError::UnknownRegion(ramen->0))),
        stage == RamenStage::RamenSelect && ramen is Some && ramen->0 < recipes@.len() && !valid_target(
            recipes@[ramen->0 as int],
            old(state).feeling_stock,
            old(state).special_feeling,
            targets,
        ) ==> r == Err::<(), DecisionError>(DecisionError::IllegalTargets),
        r is Err ==> *final(state) == *old(state),
        r is Ok <==> (stage == RamenStage::RamenSelect && (ramen is None || (ramen->0 < recipes@.len()
            && valid_target(recipes@[ramen->0 as int], old(state).feeling_stock, old(state).special_feeling, targets)))),
        r is Ok ==> *final(state) == (RamenState {
            pending_ramen: ramen,
            pending_special_targets: if ramen is None { [0i32, 0, 0] } else { targets },
            combined_decision: true,
            ..*old(state)
        }),
{
    if stage != RamenStage::RamenSelect {
        return Err(DecisionError::WrongStage(stage));
    }
    let targets = match ramen {
        None => [0, 0, 0],
        Some(idx) => {
            let legal = match list_special_targets_for(state, idx, recipes) {
                Ok(l) => l,
                Err(e) => return Err(DecisionError::Rules(e)),
            };
            let mut found = false;
            let mut i: usize = 0;
            while i < legal.len()
                invariant
                    i <= legal@.len(),
                    found <==> exists|k: int| 0 <= k < i && legal@[k] == targets,
                decreases legal@.len() - i,
            {
                let t = legal[i];
                let same = t[0] == targets[0] && t[1] == targets[1] && t[2] == targets[2];
                proof {
                    if same {
                        assert(t =~= targets);
                    }
                }
                if same {
                    found = true;
                }
                i = i + 1;
            }
            proof {
                assert(found <==> legal@.contains(targets));
            }
            if !found {
                return Err(DecisionError::IllegalTargets);
            }
            targets
        },
    };
    state.pending_ramen = ramen;
    state.pending_special_targets = targets;
    state.combined_decision = true;
    Ok(())
}

} // verus!
