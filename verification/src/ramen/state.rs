//! Ramen Cup scenario state.

use vstd::prelude::*;

use super::FeelingType;

verus! {

/// Scenario-specific state of a Ramen Cup run: feelings, hidden flavour,
/// regions, scenario points and the pending three-stage decision.
#[derive(Debug, Clone, PartialEq)]
pub struct RamenState {
    /// Stock of the three feelings (A/B/C).
    pub feeling_stock: [i32; 3],
    /// Current gauge of the three feelings.
    pub feeling_slot: [i32; 3],
    /// Order in which feelings were gained (overflow discards from the front).
    pub feeling_queue: Vec<FeelingType>,
    /// Hidden flavour stock.
    pub special_feeling: i32,
    /// The three regions selected for the current year.
    pub selected_regions: [usize; 3],
    /// Bowl eaten this turn (`None`: no ramen).
    pub current_ramen: Option<usize>,
    /// Scenario points.
    pub scenario_pt: i32,
    /// Results of the yearly settlements.
    pub rmj_results: Vec<bool>,
    /// Training level bonus from successful settlements.
    pub train_level_bonus: i32,
    /// Chosen super ramen option.
    pub super_ramen: Option<usize>,
    /// Bowls eaten this year.
    pub eat_count: i32,
    /// Feeling badge of each training (turns 2-71).
    pub train_feeling_type: Option<[FeelingType; 5]>,
    /// Bowl chosen in the `RamenSelect` stage of this turn.
    pub pending_ramen: Option<usize>,
    /// Hidden flavour use chosen in the `SpecialSelect` stage of this turn.
    pub pending_special_targets: [i32; 3],
    /// Whether the combined decision path (bowl and targets at once) is in use.
    pub combined_decision: bool,
}

impl Default for RamenState {
    fn default() -> (s: Self)
        ensures
            s.feeling_stock == [0i32, 0, 0],
            s.feeling_slot == [0i32, 0, 0],
            s.feeling_queue@ == Seq::<FeelingType>::empty(),
            s.special_feeling == 0,
            s.selected_regions == [0usize, 0, 0],
            s.current_ramen is None,
            s.scenario_pt == 0,
            s.rmj_results@ == Seq::<bool>::empty(),
            s.train_level_bonus == 0,
            s.super_ramen is None,
            s.eat_count == 0,
            s.train_feeling_type is None,
            s.pending_ramen is None,
            s.pending_special_targets == [0i32, 0, 0],
            !s.combined_decision,
    {
        RamenState {
            feeling_stock: [0, 0, 0],
            feeling_slot: [0, 0, 0],
            feeling_queue: Vec::new(),
            special_feeling: 0,
            selected_regions: [0, 0, 0],
            current_ramen: None,
            scenario_pt: 0,
            rmj_results: Vec::new(),
            train_level_bonus: 0,
            super_ramen: None,
            eat_count: 0,
            train_feeling_type: None,
            pending_ramen: None,
            pending_special_targets: [0, 0, 0],
            combined_decision: false,
        }
    }
}

impl RamenState {
    /// Clears the pending three-stage decision (bowl, hidden flavour targets
    /// and the combined-decision flag); every other field is kept.
    pub fn clear_pending(&mut self)
        ensures
            *final(self) == (RamenState {
                pending_ramen: None,
                pending_special_targets: [0i32, 0, 0],
                combined_decision: false,
                ..*old(self)
            }),
    {
        self.pending_ramen = None;
        self.pending_special_targets = [0, 0, 0];
        self.combined_decision = false;
    }
}

} // verus!
