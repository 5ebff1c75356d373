//! Ramen Cup scenario: stages, feeling types, training types and base operations.

use vstd::prelude::*;

pub mod action;
pub mod apply;
pub mod clones;
pub mod events;
pub mod flow;
pub mod grounding;
pub mod info;
pub mod persons;
pub mod rules;
pub mod setup;
pub mod stage;
pub mod training;
pub mod state;

pub use state::RamenState;

verus! {

/// Stage of a Ramen Cup turn.
///
/// The operable part of a turn is split into three stages: `RamenSelect`
/// (which bowl to eat, or none), `SpecialSelect` (how to spend hidden flavour,
/// only entered after choosing a bowl) and `Train` (the base operation).
#[derive(Debug, Clone, Copy, PartialEq, Eq, Structural)]
pub enum RamenStage {
    /// Turn start, random events.
    Begin,
    /// Before the head-count distribution, random events.
    Distribute,
    /// Choose which bowl to eat (or none).
    RamenSelect,
    /// Choose how to use hidden flavour (only after choosing a bowl).
    SpecialSelect,
    /// Choose a training or race (eating is grounded before this).
    Train,
    /// Events after the action.
    AfterTrain,
    /// Advance to the next turn.
    NextTurn,
    /// Yearly region selection.
    RegionSelect,
    /// Super ramen selection.
    SuperRamenSelect,
    /// Scenario settlement.
    Settlement,
}

/// The in-turn successor of a stage; `None` at the end of a turn and for the
/// special stages.
pub open spec fn stage_successor(s: RamenStage) -> Option<RamenStage> {
    match s {
        RamenStage::Begin => Some(RamenStage::Distribute),
        RamenStage::Distribute => Some(RamenStage::RamenSelect),
        RamenStage::RamenSelect => Some(RamenStage::SpecialSelect),
        RamenStage::SpecialSelect => Some(RamenStage::Train),
        RamenStage::Train => Some(RamenStage::AfterTrain),
        RamenStage::AfterTrain => Some(RamenStage::NextTurn),
        _ => None,
    }
}

impl Default for RamenStage {
    fn default() -> (s: Self)
        ensures
            s == RamenStage::Begin,
    {
        RamenStage::Begin
    }
}

impl RamenStage {
    /// The next stage inside the turn, or `None` once the turn's end is reached.
    pub fn next(&self) -> (r: Option<Self>)
        ensures
            r == stage_successor(*self),
    {
        match self {
            RamenStage::Begin => Some(RamenStage::Distribute),
            RamenStage::Distribute => Some(RamenStage::RamenSelect),
            RamenStage::RamenSelect => Some(RamenStage::SpecialSelect),
            RamenStage::SpecialSelect => Some(RamenStage::Train),
            RamenStage::Train => Some(RamenStage::AfterTrain),
            RamenStage::AfterTrain => Some(RamenStage::NextTurn),
            RamenStage::NextTurn => None,
            RamenStage::RegionSelect | RamenStage::SuperRamenSelect | RamenStage::Settlement => None,
        }
    }
}

/// Feeling (knack) type: the three kinds consumed by recipes.
#[derive(Debug, Clone, Copy, PartialEq, Eq, Structural)]
pub enum FeelingType {
    A,
    B,
    C,
}

impl FeelingType {
    /// Slot index of the feeling type (A = 0, B = 1, C = 2).
    pub open spec fn spec_index(self) -> int {
        match self {
            FeelingType::A => 0,
            FeelingType::B => 1,
            FeelingType::C => 2,
        }
    }

    /// Slot index of the feeling type.
    pub fn index(&self) -> (i: usize)
        ensures
            i == self.spec_index(),
    {
        match self {
            FeelingType::A => 0,
            FeelingType::B => 1,
            FeelingType::C => 2,
        }
    }
}

/// Training type, in the order speed, stamina, power, guts, wisdom.
#[derive(Debug, Clone, Copy, PartialEq, Eq, Structural)]
pub enum TrainingType {
    Speed,
    Stamina,
    Power,
    Guts,
    Wisdom,
}

impl TrainingType {
    /// Training index (speed = 0 .. wisdom = 4).
    pub open spec fn spec_index(self) -> int {
        match self {
            TrainingType::Speed => 0,
            TrainingType::Stamina => 1,
            TrainingType::Power => 2,
            TrainingType::Guts => 3,
            TrainingType::Wisdom => 4,
        }
    }

    /// Training index (speed = 0 .. wisdom = 4).
    pub fn index(&self) -> (i: i32)
        ensures
            i == self.spec_index(),
    {
        match self {
            TrainingType::Speed => 0,
            TrainingType::Stamina => 1,
            TrainingType::Power => 2,
            TrainingType::Guts => 3,
            TrainingType::Wisdom => 4,
        }
    }
}

/// A base operation of a turn (not including the eating decision).
#[derive(Debug, Clone, Copy, Eq)]
pub enum Operation {
    /// Training of the given type.
    Train(TrainingType),
    /// Race.
    Race,
    /// Rest.
    Rest,
    /// Normal outing.
    NormalOuting,
    /// Friend outing.
    FriendOuting,
    /// Clinic.
    Clinic,
    /// Region selection (three regions).
    RegionSelect([usize; 3]),
    /// Placeholder of the intermediate selection stages: carries no operation.
    StageOnly,
}

impl PartialEq for Operation {
    fn eq(&self, other: &Self) -> (r: bool) {
        match (self, other) {
            (Operation::Train(a), Operation::Train(b)) => *a == *b,
            (Operation::Race, Operation::Race) => true,
            (Operation::Rest, Operation::Rest) => true,
            (Operation::NormalOuting, Operation::NormalOuting) => true,
            (Operation::FriendOuting, Operation::FriendOuting) => true,
            (Operation::Clinic, Operation::Clinic) => true,
            (Operation::RegionSelect(a), Operation::RegionSelect(b)) => {
                let same = a[0] == b[0] && a[1] == b[1] && a[2] == b[2];
                proof {
                    if same {
                        assert(*a =~= *b);
                    }
                }
                same
            },
            (Operation::StageOnly, Operation::StageOnly) => true,
            _ => false,
        }
    }
}

impl vstd::std_specs::cmp::PartialEqSpecImpl for Operation {
    open spec fn obeys_eq_spec() -> bool {
        true
    }

    open spec fn eq_spec(&self, other: &Self) -> bool {
        *self == *other
    }
}

} // verus!
