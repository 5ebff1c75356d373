//! Carrying out a Ramen Cup action: what each stage's action changes in the
//! scenario state and which steps of the underlying game it runs; placing
//! super ramen clones on a training; the friend outing; the readable text of
//! an action.

use vstd::prelude::*;

use super::action::{base_action_of, BaseAction, RamenAction};
use super::{Operation, RamenStage, RamenState, TrainingType};
use crate::text::{chars_of, dec_digits, push_dec, string_from_chars};

verus! {

/// A step of the underlying game that an action runs.
#[derive(Debug, Clone, Copy, PartialEq, Eq, Structural)]
pub enum ApplyStep {
    /// Run the base action.
    Base(BaseAction),
    /// Run the training of this index (success or failure, the follow-up
    /// events and the feeling gauges after training).
    Train(usize),
    /// The scenario's friend outing (its event and the hidden flavour).
    FriendOuting,
    /// A rest during the summer camp also cures illness and a bad trainer.
    CureAtCamp,
    /// Fill the feeling gauges after an action that is not a training.
    FillGaugeNonTrain,
}

/// Why an action cannot be applied.
#[derive(Debug, Clone, Copy, PartialEq, Eq, Structural)]
pub enum ApplyError {
    /// A `SpecialSelect` action must carry the hidden flavour targets.
    MissingTargets,
}

/// The base step of an operation, where it has one.
pub open spec fn base_steps(op: Operation) -> Seq<ApplyStep> {
    match base_action_of(op) {
        Some(b) => seq![ApplyStep::Base(b)],
        None => Seq::empty(),
    }
}

/// The gauge filling step where `yes`.
pub open spec fn gauge_step(yes: bool) -> Seq<ApplyStep> {
    if yes {
        seq![ApplyStep::FillGaugeNonTrain]
    } else {
        Seq::empty()
    }
}

/// The camp cure where `yes`.
pub open spec fn cure_step(yes: bool) -> Seq<ApplyStep> {
    if yes {
        seq![ApplyStep::CureAtCamp]
    } else {
        Seq::empty()
    }
}

/// Steps of an operation in the `Train` stage.
pub open spec fn train_stage_steps(op: Operation, is_xiahesu: bool) -> Seq<ApplyStep> {
    match op {
        Operation::Train(t) => seq![ApplyStep::Train(t.spec_index() as usize)],
        Operation::FriendOuting => seq![ApplyStep::FriendOuting, ApplyStep::FillGaugeNonTrain],
        Operation::RegionSelect(_) => Seq::empty(),
        Operation::StageOnly => Seq::empty(),
        Operation::Rest => base_steps(op) + cure_step(is_xiahesu) + gauge_step(true),
        Operation::NormalOuting => base_steps(op) + gauge_step(true),
        Operation::Race => base_steps(op) + gauge_step(true),
        Operation::Clinic => base_steps(op),
    }
}

/// Steps of an operation in a stage other than the three decision stages.
pub open spec fn other_stage_steps(op: Operation, is_xiahesu: bool) -> Seq<ApplyStep> {
    match op {
        Operation::RegionSelect(_) => Seq::empty(),
        Operation::StageOnly => Seq::empty(),
        Operation::Rest => base_steps(op) + cure_step(is_xiahesu) + gauge_step(true),
        Operation::Clinic => base_steps(op),
        Operation::Train(_) => base_steps(op),
        _ => base_steps(op) + gauge_step(true),
    }
}

/// What applying an action does: the scenario state after it, the new stage
/// where it moves the stage, and the steps of the underlying game, in order;
/// or why it is refused.
pub open spec fn apply_spec(a: RamenAction, stage: RamenStage, s: RamenState, is_xiahesu: bool) -> Result<
    (RamenState, Option<RamenStage>, Seq<ApplyStep>),
    ApplyError,
> {
    match stage {
        RamenStage::RamenSelect => if a.operation != Operation::StageOnly {
            Ok((s, Some(RamenStage::AfterTrain), base_steps(a.operation)))
        } else {
            Ok((RamenState { pending_ramen: a.ramen, pending_special_targets: [0, 0, 0], ..s }, None, Seq::empty()))
        },
        RamenStage::SpecialSelect => match a.special_targets {
            Some(t) => Ok((RamenState { pending_special_targets: t, ..s }, None, Seq::empty())),
            None => Err(ApplyError::MissingTargets),
        },
        RamenStage::Train => match a.operation {
            Operation::RegionSelect(r) => Ok((RamenState { selected_regions: r, ..s }, None, Seq::empty())),
            op => Ok((s, None, train_stage_steps(op, is_xiahesu))),
        },
        _ => match a.operation {
            Operation::RegionSelect(r) => Ok((RamenState { selected_regions: r, ..s }, None, Seq::empty())),
            op => Ok((s, None, other_stage_steps(op, is_xiahesu))),
        },
    }
}

fn push_base(steps: &mut Vec<ApplyStep>, op: Operation)
    ensures
        final(steps)@ == old(steps)@ + base_steps(op),
{
    match op.to_base_action() {
        Some(b) => steps.push(ApplyStep::Base(b)),
        None => {},
    }
    assert(steps@ =~= old(steps)@ + base_steps(op));
}

/// In the `Train` stage an operation runs: a training as its single
/// training step; a race, a rest and a normal outing as their base action
/// first and the gauge filling last (a rest during summer camp also cures,
/// in between); a friend outing as the scenario's outing and then the gauge
/// filling; the clinic as its base action alone, with no gauge filling. The
/// scenario state is kept and the stage is not moved.
pub proof fn lemma_train_stage_steps(a: RamenAction, s: RamenState, is_xiahesu: bool)
    ensures
        apply_spec(a, RamenStage::Train, s, is_xiahesu) is Ok,
        a.operation !is RegionSelect ==> apply_spec(a, RamenStage::Train, s, is_xiahesu)->Ok_0.0 == s
            && apply_spec(a, RamenStage::Train, s, is_xiahesu)->Ok_0.1 is None,
        ({
            let steps = apply_spec(a, RamenStage::Train, s, is_xiahesu)->Ok_0.2;
            &&& a.operation == Operation::Race ==> steps == seq![
                ApplyStep::Base(BaseAction::Race),
                ApplyStep::FillGaugeNonTrain,
            ]
            &&& a.operation == Operation::NormalOuting ==> steps == seq![
                ApplyStep::Base(BaseAction::NormalOuting),
                ApplyStep::FillGaugeNonTrain,
            ]
            &&& a.operation == Operation::Rest && !is_xiahesu ==> steps == seq![
                ApplyStep::Base(BaseAction::Sleep),
                ApplyStep::FillGaugeNonTrain,
            ]
            &&& a.operation == Operation::Rest && is_xiahesu ==> steps == seq![
                ApplyStep::Base(BaseAction::Sleep),
                ApplyStep::CureAtCamp,
                ApplyStep::FillGaugeNonTrain,
            ]
            &&& a.operation == Operation::FriendOuting ==> steps == seq![
                ApplyStep::FriendOuting,
                ApplyStep::FillGaugeNonTrain,
            ]
            &&& a.operation == Operation::Clinic ==> steps == seq![ApplyStep::Base(BaseAction::Clinic)]
            &&& (a.operation matches Operation::Train(t) ==> steps.len() == 1 && steps[0] is Train)
        }),
{
    let steps = apply_spec(a, RamenStage::Train, s, is_xiahesu)->Ok_0.2;
    match a.operation {
        Operation::Race => {
            assert(steps =~= seq![ApplyStep::Base(BaseAction::Race), ApplyStep::FillGaugeNonTrain]);
        },
        Operation::NormalOuting => {
            assert(steps =~= seq![ApplyStep::Base(BaseAction::NormalOuting), ApplyStep::FillGaugeNonTrain]);
        },
        Operation::Rest => {
            if is_xiahesu {
                assert(steps =~= seq![
                    ApplyStep::Base(BaseAction::Sleep),
                    ApplyStep::CureAtCamp,
                    ApplyStep::FillGaugeNonTrain,
                ]);
            } else {
                assert(steps =~= seq![ApplyStep::Base(BaseAction::Sleep), ApplyStep::FillGaugeNonTrain]);
            }
        },
        Operation::Clinic => {
            assert(steps =~= seq![ApplyStep::Base(BaseAction::Clinic)]);
        },
        _ => {},
    }
}

/// In the `Train` stage every operation other than a training, the clinic,
/// a region selection and the stage placeholder ends by filling the feeling
/// gauges; the clinic and a training never fill them.
pub proof fn lemma_train_stage_gauge(a: RamenAction, s: RamenState, is_xiahesu: bool)
    ensures
        ({
            let steps = apply_spec(a, RamenStage::Train, s, is_xiahesu)->Ok_0.2;
            &&& (a.operation == Operation::Race || a.operation == Operation::Rest || a.operation
                == Operation::NormalOuting || a.operation == Operation::FriendOuting) ==> steps.len() > 0
                && steps.last() == ApplyStep::FillGaugeNonTrain
            &&& (a.operation == Operation::Clinic || a.operation is Train) ==> !steps.contains(
                ApplyStep::FillGaugeNonTrain,
            )
        }),
{
    lemma_train_stage_steps(a, s, is_xiahesu);
    let steps = apply_spec(a, RamenStage::Train, s, is_xiahesu)->Ok_0.2;
    if a.operation == Operation::Clinic || a.operation is Train {
        if steps.contains(ApplyStep::FillGaugeNonTrain) {
            let k = choose|k: int| 0 <= k < steps.len() && steps[k] == ApplyStep::FillGaugeNonTrain;
            assert(steps[0] != ApplyStep::FillGaugeNonTrain);
        }
    }
}

/// The decision stages only record the decision: in `RamenSelect` the
/// chosen bowl becomes pending with no targets (steps none, stage kept),
/// except that a race-turn operation runs its base action alone, without
/// gauge filling, and moves to `AfterTrain`; in `SpecialSelect` the targets
/// become pending, and an action without targets is refused. In any other
/// stage a race, a rest, a normal outing and a friend outing end by filling
/// the feeling gauges, and the clinic and a training never fill them.
pub proof fn lemma_stage_apply(a: RamenAction, stage: RamenStage, s: RamenState, is_xiahesu: bool)
    ensures
        stage == RamenStage::RamenSelect && a.operation == Operation::StageOnly ==> apply_spec(
            a,
            stage,
            s,
            is_xiahesu,
        ) == Ok::<(RamenState, Option<RamenStage>, Seq<ApplyStep>), ApplyError>(
            (RamenState { pending_ramen: a.ramen, pending_special_targets: [0, 0, 0], ..s }, None, Seq::empty()),
        ),
        stage == RamenStage::RamenSelect && a.operation != Operation::StageOnly ==> ({
            let r = apply_spec(a, stage, s, is_xiahesu);
            &&& r is Ok
            &&& r->Ok_0.0 == s
            &&& r->Ok_0.1 == Some(RamenStage::AfterTrain)
            &&& r->Ok_0.2.len() <= 1
            &&& !r->Ok_0.2.contains(ApplyStep::FillGaugeNonTrain)
        }),
        stage == RamenStage::SpecialSelect ==> (apply_spec(a, stage, s, is_xiahesu) is Ok <==> a.special_targets is Some),
        stage == RamenStage::SpecialSelect && a.special_targets is Some ==> apply_spec(a, stage, s, is_xiahesu)
            == Ok::<(RamenState, Option<RamenStage>, Seq<ApplyStep>), ApplyError>(
            (RamenState { pending_special_targets: a.special_targets->0, ..s }, None, Seq::empty()),
        ),
        stage != RamenStage::RamenSelect && stage != RamenStage::SpecialSelect ==> ({
            let steps = apply_spec(a, stage, s, is_xiahesu)->Ok_0.2;
            &&& apply_spec(a, stage, s, is_xiahesu) is Ok
            &&& (a.operation == Operation::Race || a.operation == Operation::Rest || a.operation
                == Operation::NormalOuting || a.operation == Operation::FriendOuting) ==> steps.len() > 0
                && steps.last() == ApplyStep::FillGaugeNonTrain
            &&& (a.operation == Operation::Clinic || a.operation is Train) ==> !steps.contains(
                ApplyStep::FillGaugeNonTrain,
            )
        }),
{
    if stage == RamenStage::Train {
        lemma_train_stage_gauge(a, s, is_xiahesu);
    } else if stage != RamenStage::RamenSelect && stage != RamenStage::SpecialSelect {
        let steps = apply_spec(a, stage, s, is_xiahesu)->Ok_0.2;
        if steps.contains(ApplyStep::FillGaugeNonTrain) && (a.operation == Operation::Clinic || a.operation is Train) {
            let k = choose|k: int| 0 <= k < steps.len() && steps[k] == ApplyStep::FillGaugeNonTrain;
            assert(steps.len() == 1);
        }
    } else if stage == RamenStage::RamenSelect && a.operation != Operation::StageOnly {
        let steps = apply_spec(a, stage, s, is_xiahesu)->Ok_0.2;
        if steps.contains(ApplyStep::FillGaugeNonTrain) {
            let k = choose|k: int| 0 <= k < steps.len() && steps[k] == ApplyStep::FillGaugeNonTrain;
            assert(steps.len() == 1);
        }
    }
}

impl RamenAction {
    /// Applies the action in `stage` (see [`apply_spec`]): in `RamenSelect`
    /// a race-turn operation runs at once and moves to `AfterTrain`, otherwise
    /// the chosen bowl becomes pending with no targets; in `SpecialSelect` the
    /// targets become pending; in `Train` (and other stages) the operation's
    /// steps run, and a region selection is stored.
    pub fn apply(&self, stage: RamenStage, state: &mut RamenState, is_xiahesu: bool) -> (r: Result<
        (Option<RamenStage>, Vec<ApplyStep>),
        ApplyError,
    >)
        ensures
            match apply_spec(*self, stage, *old(state), is_xiahesu) {
                Ok((s, next, steps)) => r matches Ok((n, v)) && n == next && v@ == steps && *final(state) == s,
                Err(e) => r == Err::<(Option<RamenStage>, Vec<ApplyStep>), ApplyError>(e) && *final(state)
                    == *old(state),
            },
    {
        let mut steps: Vec<ApplyStep> = Vec::new();
        match stage {
            RamenStage::RamenSelect => {
                if self.operation != Operation::StageOnly {
                    push_base(&mut steps, self.operation);
                    return Ok((Some(RamenStage::AfterTrain), steps));
                }
                state.pending_ramen = self.ramen;
                state.pending_special_targets = [0, 0, 0];
                Ok((None, steps))
            },
            RamenStage::SpecialSelect => {
                match self.special_targets {
                    Some(t) => {
                        state.pending_special_targets = t;
                        Ok((None, steps))
                    },
                    None => Err(ApplyError::MissingTargets),
                }
            },
            RamenStage::Train => {
                match self.operation {
                    Operation::Train(t) => {
                        steps.push(ApplyStep::Train(t.index() as usize));
                    },
                    Operation::FriendOuting => {
                        steps.push(ApplyStep::FriendOuting);
                        steps.push(ApplyStep::FillGaugeNonTrain);
                    },
                    Operation::RegionSelect(regions) => {
                        state.selected_regions = regions;
                    },
                    Operation::StageOnly => {},
                    Operation::Rest => {
                        push_base(&mut steps, self.operation);
                        if is_xiahesu {
                            steps.push(ApplyStep::CureAtCamp);
                        }
                        steps.push(ApplyStep::FillGaugeNonTrain);
                    },
                    Operation::NormalOuting => {
                        push_base(&mut steps, self.operation);
                        steps.push(ApplyStep::FillGaugeNonTrain);
                    },
                    Operation::Race => {
                        push_base(&mut steps, self.operation);
                        steps.push(ApplyStep::FillGaugeNonTrain);
                    },
                    Operation::Clinic => {
                        push_base(&mut steps, self.operation);
                    },
                }
                assert(steps@ =~= match self.operation {
                    Operation::RegionSelect(_) => Seq::<ApplyStep>::empty(),
                    op => train_stage_steps(op, is_xiahesu),
                });
                Ok((None, steps))
            },
            _ => {
                match self.operation {
                    Operation::RegionSelect(regions) => {
                        state.selected_regions = regions;
                    },
                    Operation::StageOnly => {},
                    Operation::Rest => {
                        push_base(&mut steps, self.operation);
                        if is_xiahesu {
                            steps.push(ApplyStep::CureAtCamp);
                        }
                        steps.push(ApplyStep::FillGaugeNonTrain);
                    },
                    Operation::Clinic => {
                        push_base(&mut steps, self.operation);
                    },
                    Operation::Train(_) => {
                        push_base(&mut steps, self.operation);
                    },
                    op => {
                        push_base(&mut steps, op);
                        steps.push(ApplyStep::FillGaugeNonTrain);
                    },
                }
                assert(steps@ =~= match self.operation {
                    Operation::RegionSelect(_) => Seq::<ApplyStep>::empty(),
                    op => other_stage_steps(op, is_xiahesu),
                });
                Ok((None, steps))
            },
        }
    }
}

/// Why a clone cannot be placed on a training.
#[derive(Debug, Clone, Copy, PartialEq, Eq, Structural)]
pub enum CloneError {
    /// No such training.
    TrainOutOfRange,
    /// The person is on that training already.
    AlreadyThere,
    /// Five people other than NPCs are on that training.
    FullOfNonNpc,
    /// Five people are on that training and none is an NPC to make room.
    NoNpcToReplace,
}

/// A person id that is someone (not an empty slot) and not an NPC.
pub open spec fn is_non_npc(is_npc: Seq<bool>) -> spec_fn(i32) -> bool {
    |id: i32| id >= 0 && !is_npc[id as int]
}

/// Position of the first NPC on a training.
pub open spec fn first_npc(slot: Seq<i32>, is_npc: Seq<bool>) -> Option<int> {
    if exists|k: int| 0 <= k < slot.len() && slot[k] >= 0 && is_npc[slot[k] as int] {
        Some(
            choose|k: int|
                0 <= k < slot.len() && slot[k] >= 0 && is_npc[slot[k] as int] && forall|j: int|
                    0 <= j < k ==> !(slot[j] >= 0 && is_npc[slot[j] as int]),
        )
    } else {
        None
    }
}

/// The training's people after placing a clone of `person`, or why it cannot be placed.
pub open spec fn add_clone_spec(slot: Seq<i32>, is_npc: Seq<bool>, person: i32) -> Result<Seq<i32>, CloneError> {
    if slot.contains(person) {
        Err(CloneError::AlreadyThere)
    } else if slot.filter(is_non_npc(is_npc)).len() >= 5 {
        Err(CloneError::FullOfNonNpc)
    } else if slot.len() >= 5 {
        match first_npc(slot, is_npc) {
            Some(k) => Ok(slot.remove(k).push(person)),
            None => Err(CloneError::NoNpcToReplace),
        }
    } else {
        Ok(slot.push(person))
    }
}

proof fn lemma_first_npc(slot: Seq<i32>, is_npc: Seq<bool>, k: int)
    requires
        0 <= k < slot.len(),
        slot[k] >= 0 && is_npc[slot[k] as int],
        forall|j: int| 0 <= j < k ==> !(slot[j] >= 0 && is_npc[slot[j] as int]),
    ensures
        first_npc(slot, is_npc) == Some(k),
{
    let c = choose|c: int|
        0 <= c < slot.len() && slot[c] >= 0 && is_npc[slot[c] as int] && forall|j: int|
            0 <= j < c ==> !(slot[j] >= 0 && is_npc[slot[j] as int]);
    assert(0 <= c < slot.len() && slot[c] >= 0 && is_npc[slot[c] as int] && forall|j: int|
        0 <= j < c ==> !(slot[j] >= 0 && is_npc[slot[j] as int]));
    if c < k {
        assert(!(slot[c] >= 0 && is_npc[slot[c] as int]));
    }
    if k < c {
        assert(!(slot[k] >= 0 && is_npc[slot[k] as int]));
    }
}

impl RamenAction {
    /// Places a super ramen clone of `person_idx` on training `train`: refused
    /// for a training out of range, a person already there, or five non-NPC
    /// people there; a full training makes room by removing its first NPC,
    /// and refuses where it has none (see [`add_clone_spec`]).
    pub fn try_add_clone(distribution: &mut Vec<Vec<i32>>, is_npc: &[bool], person_idx: i32, train: usize) -> (r:
        Result<(), CloneError>)
        requires
            old(distribution)@.len() == 5,
            forall|t: int, k: int|
                0 <= t < 5 && 0 <= k < old(distribution)@[t]@.len() ==> #[trigger] old(distribution)@[t]@[k]
                    < is_npc@.len(),
        ensures
            train >= 5 ==> r == Err::<(), CloneError>(CloneError::TrainOutOfRange) && *final(distribution)
                == *old(distribution),
            train < 5 ==> match add_clone_spec(old(distribution)@[train as int]@, is_npc@, person_idx) {
                Ok(slot) => r is Ok && final(distribution)@.len() == 5 && final(distribution)@[train as int]@
                    == slot && forall|t: int|
                    0 <= t < 5 && t != train ==> #[trigger] final(distribution)@[t] == old(distribution)@[t],
                Err(e) => r == Err::<(), CloneError>(e) && *final(distribution) == *old(distribution),
            },
    {
        if train >= 5 {
            return Err(CloneError::TrainOutOfRange);
        }
        let ghost slot = distribution@[train as int]@;
        let n = distribution[train].len();
        let mut contains = false;
        let mut non_npc: usize = 0;
        let mut npc_pos: Option<usize> = None;
        let mut k: usize = 0;
        while k < n
            invariant
                k <= n,
                n == slot.len(),
                slot == distribution@[train as int]@,
                train < 5,
                distribution@.len() == 5,
                forall|t: int, j: int|
                    0 <= t < 5 && 0 <= j < distribution@[t]@.len() ==> #[trigger] distribution@[t]@[j] < is_npc@.len(),
                contains == slot.take(k as int).contains(person_idx),
                non_npc == slot.take(k as int).filter(is_non_npc(is_npc@)).len(),
                non_npc <= k,
                match npc_pos {
                    Some(p) => p < k && first_npc(slot, is_npc@) == Some(p as int),
                    None => forall|j: int| 0 <= j < k ==> !(slot[j] >= 0 && is_npc@[slot[j] as int]),
                },
            decreases n - k,
        {
            let id = distribution[train][k];
            assert(id == slot[k as int]);
            proof {
                assert(slot.take(k + 1) =~= slot.take(k as int).push(id));
                slot.take(k as int).lemma_filter_push(id, is_non_npc(is_npc@));
                let pre = slot.take(k as int);
                let nxt = slot.take(k + 1);
                assert(nxt.contains(person_idx) == (pre.contains(person_idx) || id == person_idx)) by {
                    if pre.contains(person_idx) {
                        let w = choose|w: int| 0 <= w < pre.len() && pre[w] == person_idx;
                        assert(nxt[w] == person_idx);
                    }
                    if id == person_idx {
                        assert(nxt[k as int] == person_idx);
                    }
                    if nxt.contains(person_idx) {
                        let w = choose|w: int| 0 <= w < nxt.len() && nxt[w] == person_idx;
                        if w < k {
                            assert(pre[w] == person_idx);
                        }
                    }
                }
            }
            if id == person_idx {
                contains = true;
            }
            if id >= 0 {
                if !is_npc[id as usize] {
                    non_npc = non_npc + 1;
                } else if npc_pos.is_none() {
                    proof {
                        lemma_first_npc(slot, is_npc@, k as int);
                    }
                    npc_pos = Some(k);
                }
            }
            k = k + 1;
        }
        assert(slot.take(n as int) =~= slot);
        if contains {
            return Err(CloneError::AlreadyThere);
        }
        if non_npc >= 5 {
            return Err(CloneError::FullOfNonNpc);
        }
        if n >= 5 {
            match npc_pos {
                Some(p) => {
                    let mut moved: Vec<i32> = Vec::new();
                    std::mem::swap(&mut moved, &mut distribution[train]);
                    assert(moved@ == slot);
                    moved.remove(p);
                    moved.push(person_idx);
                    std::mem::swap(&mut moved, &mut distribution[train]);
                    Ok(())
                },
                None => {
                    proof {
                        assert(!(exists|j: int| 0 <= j < slot.len() && slot[j] >= 0 && is_npc@[slot[j] as int]));
                    }
                    Err(CloneError::NoNpcToReplace)
                },
            }
        } else {
            let mut moved: Vec<i32> = Vec::new();
            std::mem::swap(&mut moved, &mut distribution[train]);
            moved.push(person_idx);
            std::mem::swap(&mut moved, &mut distribution[train]);
            Ok(())
        }
    }
}

/// Why the friend outing cannot happen.
#[derive(Debug, Clone, Copy, PartialEq, Eq, Structural)]
pub enum OutingError {
    /// All five outings have been used.
    AllUsed,
}

/// The first unused friend outing.
pub open spec fn first_unused(out_used: Seq<bool>) -> Option<int> {
    if exists|i: int| 0 <= i < 5 && !out_used[i] {
        Some(choose|i: int| 0 <= i < 5 && !out_used[i] && forall|j: int| 0 <= j < i ==> out_used[j])
    } else {
        None
    }
}

impl RamenAction {
    /// The friend outing: takes the first unused of the five outings (the
    /// caller runs its event `outing{which + 1}`) and gains two hidden
    /// flavour, up to 4. Refused once all five are used.
    pub fn do_friend_outing(&self, out_used: &mut [bool; 5], special_feeling: &mut i32) -> (r: Result<
        usize,
        OutingError,
    >)
        ensures
            match first_unused(old(out_used)@) {
                Some(w) => r == Ok::<usize, OutingError>(w as usize) && final(out_used)@ == old(out_used)@.update(
                    w,
                    true,
                ) && *final(special_feeling) == if *old(special_feeling) + 2 < 4 {
                    *old(special_feeling) + 2
                } else {
                    4
                },
                None => r == Err::<usize, OutingError>(OutingError::AllUsed) && *final(out_used) == *old(out_used)
                    && *final(special_feeling) == *old(special_feeling),
            },
    {
        let mut which: usize = 0;
        while which < 5 && out_used[which]
            invariant
                which <= 5,
                forall|j: int| 0 <= j < which ==> out_used@[j],
            decreases 5 - which,
        {
            which = which + 1;
        }
        if which < 5 {
            proof {
                let c = choose|i: int| 0 <= i < 5 && !out_used@[i] && forall|j: int| 0 <= j < i ==> out_used@[j];
                assert(0 <= c < 5 && !out_used@[c] && forall|j: int| 0 <= j < c ==> out_used@[j]);
                if c < which {
                    assert(out_used@[c]);
                }
                if which < c {
                    assert(out_used@[which as int]);
                }
            }
            out_used[which] = true;
            *special_feeling = if *special_feeling > 2 { 4 } else { *special_feeling + 2 };
            Ok(which)
        } else {
            Err(OutingError::AllUsed)
        }
    }
}

/// `A`, `B` or `C`: the feeling of a replacement target.
pub open spec fn feeling_letter(i: int) -> char {
    if i == 0 {
        'A'
    } else if i == 1 {
        'B'
    } else {
        'C'
    }
}

/// The replacement parts `{letter}x{count}` of the first `n` targets that are positive.
pub open spec fn target_parts(t: [i32; 3], n: int) -> Seq<Seq<char>>
    decreases n,
{
    if n <= 0 {
        Seq::empty()
    } else {
        target_parts(t, n - 1) + if t[n - 1] > 0 {
            seq![seq![feeling_letter(n - 1), 'x'] + dec_digits(t[n - 1] as nat)]
        } else {
            Seq::empty()
        }
    }
}

/// `(替换Ax1+Bx2)` for targets with a positive count, empty otherwise.
pub open spec fn targets_text_spec(t: Option<[i32; 3]>) -> Seq<char> {
    match t {
        Some(t) => if t[0] > 0 || t[1] > 0 || t[2] > 0 {
            "(替换"@ + crate::text::join_sep(target_parts(t, 3), '+') + ")"@
        } else {
            Seq::empty()
        },
        None => Seq::empty(),
    }
}

/// The name of a region, or `???` where it is not known.
pub open spec fn region_name(names: Seq<Seq<char>>, idx: int) -> Seq<char> {
    if 0 <= idx < names.len() {
        names[idx]
    } else {
        "???"@
    }
}

/// Text of the eating decision: `不吃面`, or `吃面/{region}` followed by the
/// replacement text.
pub open spec fn ramen_decision_text_spec(a: RamenAction, region_names: Seq<Seq<char>>) -> Seq<char> {
    match a.ramen {
        Some(idx) => "吃面/"@ + region_name(region_names, idx as int) + targets_text_spec(a.special_targets),
        None => "不吃面"@,
    }
}

/// Names of the known regions among the selected ones.
pub open spec fn known_region_names(regions: [usize; 3], names: Seq<Seq<char>>, n: int) -> Seq<Seq<char>>
    decreases n,
{
    if n <= 0 {
        Seq::empty()
    } else {
        known_region_names(regions, names, n - 1) + if regions[n - 1] < names.len() {
            seq![names[regions[n - 1] as int]]
        } else {
            Seq::empty()
        }
    }
}

/// Text of the base operation (empty for a stage placeholder).
pub open spec fn operation_text_spec(op: Operation, train_names: Seq<Seq<char>>, region_names: Seq<Seq<char>>) -> Seq<
    char,
> {
    match op {
        Operation::Train(t) => train_names[t.spec_index()] + "训练"@,
        Operation::Race => "比赛"@,
        Operation::Rest => "休息"@,
        Operation::NormalOuting => "普通出行"@,
        Operation::FriendOuting => "友人出行"@,
        Operation::Clinic => "治病"@,
        Operation::RegionSelect(r) => "地区["@ + crate::text::join_sep(known_region_names(r, region_names, 3), ',')
            + "]"@,
        Operation::StageOnly => Seq::empty(),
    }
}

/// Readable text of an action: the eating decision alone for a selection
/// stage action, eating and operation joined by ` + ` where a bowl comes
/// with an operation, else the operation.
pub open spec fn action_text_spec(a: RamenAction, train_names: Seq<Seq<char>>, region_names: Seq<Seq<char>>) -> Seq<
    char,
> {
    let op = operation_text_spec(a.operation, train_names, region_names);
    if op.len() == 0 {
        ramen_decision_text_spec(a, region_names)
    } else if a.ramen is Some {
        ramen_decision_text_spec(a, region_names) + " + "@ + op
    } else {
        op
    }
}

/// Views of a list of strings.
pub open spec fn names_view(v: Seq<String>) -> Seq<Seq<char>> {
    v.map_values(|s: String| s@)
}

fn append(out: &mut Vec<char>, s: &str)
    ensures
        final(out)@ == old(out)@ + s@,
{
    let cs = chars_of(s);
    let mut k: usize = 0;
    while k < cs.len()
        invariant
            k <= cs@.len(),
            out@ == old(out)@ + cs@.take(k as int),
        decreases cs@.len() - k,
    {
        out.push(cs[k]);
        assert(cs@.take(k + 1) =~= cs@.take(k as int).push(cs@[k as int]));
        k = k + 1;
    }
    assert(cs@.take(cs@.len() as int) =~= cs@);
}

fn targets_text(t: Option<[i32; 3]>, out: &mut Vec<char>)
    ensures
        final(out)@ == old(out)@ + targets_text_spec(t),
{
    proof {
        reveal_strlit("(替换");
        reveal_strlit(")");
    }
    match t {
        Some(t) => {
            if t[0] > 0 || t[1] > 0 || t[2] > 0 {
                let mut joined: Vec<char> = Vec::new();
                let mut np: usize = 0;
                let mut i: usize = 0;
                while i < 3
                    invariant
                        i <= 3,
                        np == target_parts(t, i as int).len(),
                        np <= i,
                        joined@ == crate::text::join_sep(target_parts(t, i as int), '+'),
                    decreases 3 - i,
                {
                    if t[i] > 0 {
                        let mut part: Vec<char> = Vec::new();
                        part.push(if i == 0 { 'A' } else if i == 1 { 'B' } else { 'C' });
                        part.push('x');
                        push_dec(&mut part, t[i] as u64);
                        assert(part@ =~= seq![feeling_letter(i as int), 'x'] + dec_digits(t[i as int] as nat));
                        let first = np == 0;
                        crate::text::push_part(&mut joined, first, &part, '+', Ghost(target_parts(t, i as int)));
                        assert(target_parts(t, i + 1) =~= target_parts(t, i as int).push(part@));
                        np = np + 1;
                    } else {
                        assert(target_parts(t, i + 1) =~= target_parts(t, i as int));
                    }
                    i = i + 1;
                }
                append(out, "(替换");
                let mut k: usize = 0;
                let ghost base = out@;
                while k < joined.len()
                    invariant
                        k <= joined@.len(),
                        out@ == base + joined@.take(k as int),
                    decreases joined@.len() - k,
                {
                    out.push(joined[k]);
                    assert(joined@.take(k + 1) =~= joined@.take(k as int).push(joined@[k as int]));
                    k = k + 1;
                }
                assert(joined@.take(joined@.len() as int) =~= joined@);
                append(out, ")");
                assert(out@ =~= old(out)@ + targets_text_spec(Some(t)));
            } else {
                assert(out@ =~= old(out)@ + targets_text_spec(Some(t)));
            }
        },
        None => {
            assert(out@ =~= old(out)@ + targets_text_spec(t));
        },
    }
}

fn push_string(out: &mut Vec<char>, s: &String)
    ensures
        final(out)@ == old(out)@ + s@,
{
    append(out, s.as_str());
}

impl RamenAction {
    /// Text of the eating decision (see [`ramen_decision_text_spec`]).
    pub fn ramen_decision_text(&self, region_names: &[String]) -> (s: String)
        ensures
            s@ == ramen_decision_text_spec(*self, names_view(region_names@)),
    {
        let mut out: Vec<char> = Vec::new();
        match self.ramen {
            Some(idx) => {
                append(&mut out, "吃面/");
                if idx < region_names.len() {
                    push_string(&mut out, &region_names[idx]);
                } else {
                    append(&mut out, "???");
                }
                targets_text(self.special_targets, &mut out);
            },
            None => {
                append(&mut out, "不吃面");
            },
        }
        assert(out@ =~= ramen_decision_text_spec(*self, names_view(region_names@)));
        string_from_chars(out.as_slice())
    }

    /// Text of the base operation (see [`operation_text_spec`]).
    pub fn operation_text(&self, train_names: &[String], region_names: &[String]) -> (s: String)
        requires
            train_names@.len() >= 5,
        ensures
            s@ == operation_text_spec(self.operation, names_view(train_names@), names_view(region_names@)),
    {
        let mut out: Vec<char> = Vec::new();
        match self.operation {
            Operation::Train(t) => {
                let i = t.index() as usize;
                push_string(&mut out, &train_names[i]);
                append(&mut out, "训练");
            },
            Operation::Race => append(&mut out, "比赛"),
            Operation::Rest => append(&mut out, "休息"),
            Operation::NormalOuting => append(&mut out, "普通出行"),
            Operation::FriendOuting => append(&mut out, "友人出行"),
            Operation::Clinic => append(&mut out, "治病"),
            Operation::RegionSelect(regions) => {
                let ghost names = names_view(region_names@);
                let mut joined: Vec<char> = Vec::new();
                let mut np: usize = 0;
                let mut i: usize = 0;
                while i < 3
                    invariant
                        i <= 3,
                        np == known_region_names(regions, names, i as int).len(),
                        np <= i,
                        names == names_view(region_names@),
                        joined@ == crate::text::join_sep(known_region_names(regions, names, i as int), ','),
                    decreases 3 - i,
                {
                    let idx = regions[i];
                    if idx < region_names.len() {
                        let first = np == 0;
                        let part = chars_of(region_names[idx].as_str());
                        assert(part@ == names[idx as int]);
                        crate::text::push_part(&mut joined, first, &part, ',', Ghost(known_region_names(regions, names, i as int)));
                        assert(known_region_names(regions, names, i + 1) =~= known_region_names(regions, names, i as int).push(part@));
                        np = np + 1;
                    } else {
                        assert(known_region_names(regions, names, i + 1) =~= known_region_names(regions, names, i as int));
                    }
                    i = i + 1;
                }
                append(&mut out, "地区[");
                let mut k: usize = 0;
                let ghost base = out@;
                while k < joined.len()
                    invariant
                        k <= joined@.len(),
                        out@ == base + joined@.take(k as int),
                    decreases joined@.len() - k,
                {
                    out.push(joined[k]);
                    assert(joined@.take(k + 1) =~= joined@.take(k as int).push(joined@[k as int]));
                    k = k + 1;
                }
                assert(joined@.take(joined@.len() as int) =~= joined@);
                append(&mut out, "]");
            },
            Operation::StageOnly => {},
        }
        assert(out@ =~= operation_text_spec(self.operation, names_view(train_names@), names_view(region_names@)));
        string_from_chars(out.as_slice())
    }
}

impl RamenAction {
    /// Readable text of the action (see [`action_text_spec`]).
    pub fn text(&self, train_names: &[String], region_names: &[String]) -> (s: String)
        requires
            train_names@.len() >= 5,
        ensures
            s@ == action_text_spec(*self, names_view(train_names@), names_view(region_names@)),
    {
        let ramen_text = self.ramen_decision_text(region_names);
        let op_text = self.operation_text(train_names, region_names);
        let op_chars = chars_of(op_text.as_str());
        if op_chars.len() == 0 {
            return ramen_text;
        }
        if self.ramen.is_none() {
            return op_text;
        }
        let mut out: Vec<char> = Vec::new();
        push_string(&mut out, &ramen_text);
        append(&mut out, " + ");
        push_string(&mut out, &op_text);
        string_from_chars(out.as_slice())
    }
}

} // verus!
