//! What each stage of a turn offers and decides: the candidate actions of a
//! stage, the yearly region selection, the super ramen choice, the feelings
//! handed out at turn start, the turn-start plan and the events of a turn.

use vstd::prelude::*;

use super::action::{
    all_actions_spec, available_spec, get_available_ramens, list_all_actions, list_ramen_select_actions,
    list_special_select_actions, list_train_actions, operations_spec, ramen_choices_spec, ramen_select_action,
    special_select_action, train_action, RamenAction,
};
use super::flow::{is_super_ramen_turn, next_flow_spec, FlowState};
use super::rules::{special_targets, RulesError};
use super::events::{triggered_events, triggered_indices, TriggerType};
use super::persons::{
    appended, friend_and_npcs, has_kind, manage_persons_on_turn_start, with_person, FriendOutState, Person,
    PersonType,
};
use super::{FeelingType, Operation, RamenStage, RamenState};
use crate::config::RamenRegionStrategy;

verus! {

/// What the candidate list of a stage reads of the game.
#[derive(Debug, Clone, Copy, PartialEq, Eq, Structural)]
pub struct TurnView {
    /// Current stage.
    pub stage: RamenStage,
    /// Current turn.
    pub turn: i32,
    /// Whether the turn is a fixed race turn.
    pub is_race_turn: bool,
    /// Whether a friend outing may be chosen.
    pub can_friend_outing: bool,
    /// Whether the trainee is ill.
    pub is_ill: bool,
    /// Whether the turn is in the summer camp.
    pub is_xiahesu: bool,
    /// Whether a race may be chosen.
    pub can_race: bool,
}

/// Why a stage has no candidate list.
#[derive(Debug, Clone, Copy, PartialEq, Eq, Structural)]
pub enum StageError {
    /// `SpecialSelect` was entered without a chosen bowl.
    NoPendingRamen,
    /// The scenario rules refused (the bowl's region has no recipe).
    Rules(RulesError),
}

/// Whether bowls are on offer this turn: from turn 2, outside the super
/// ramen turns.
pub open spec fn ramen_turn(turn: i32) -> bool {
    turn >= 2 && !is_super_ramen_turn(turn)
}

/// Candidate actions of the current stage: only the race on a race turn's
/// `Train` stage; the eating choices in `RamenSelect` (just "no ramen"
/// outside the ramen turns); the hidden flavour uses of the chosen bowl in
/// `SpecialSelect`; the base operations in `Train`; every eating choice with
/// every operation in the other stages.
pub open spec fn list_actions_spec(v: TurnView, state: RamenState, recipes: Seq<[i32; 3]>) -> Result<
    Seq<RamenAction>,
    StageError,
> {
    if v.is_race_turn && v.stage == RamenStage::Train {
        Ok(seq![train_action(Operation::Race)])
    } else {
        match v.stage {
            RamenStage::RamenSelect => if ramen_turn(v.turn) {
                Ok(
                    seq![ramen_select_action(None)] + available_spec(
                        state,
                        recipes,
                        state.selected_regions@,
                    ).map_values(|id: usize| ramen_select_action(Some(id))),
                )
            } else {
                Ok(seq![ramen_select_action(None)])
            },
            RamenStage::SpecialSelect => match state.pending_ramen {
                None => Err(StageError::NoPendingRamen),
                Some(r) => if r >= recipes.len() {
                    Err(StageError::Rules(RulesError::UnknownRegion(r)))
                } else {
                    Ok(
                        special_targets(recipes[r as int], state.feeling_stock, state.special_feeling).map_values(
                            |t: [i32; 3]| special_select_action(r, t),
                        ),
                    )
                },
            },
            RamenStage::Train => Ok(
                operations_spec(v.can_friend_outing, v.is_ill, v.is_xiahesu, v.can_race).map_values(
                    |op: Operation| train_action(op),
                ),
            ),
            _ => Ok(
                all_actions_spec(
                    ramen_choices_spec(
                        if ramen_turn(v.turn) {
                            available_spec(state, recipes, state.selected_regions@)
                        } else {
                            Seq::empty()
                        },
                    ),
                    operations_spec(v.can_friend_outing, v.is_ill, v.is_xiahesu, v.can_race),
                ),
            ),
        }
    }
}

/// Views of a list of actions.
pub open spec fn actions_view(r: Result<Vec<RamenAction>, StageError>) -> Result<Seq<RamenAction>, StageError> {
    match r {
        Ok(v) => Ok(v@),
        Err(e) => Err(e),
    }
}

/// Candidate actions of the current stage (see [`list_actions_spec`]);
/// `recipes[r]` is the recipe of region `r`.
pub fn list_actions(v: &TurnView, state: &RamenState, recipes: &[[i32; 3]]) -> (r: Result<
    Vec<RamenAction>,
    StageError,
>)
    ensures
        actions_view(r) == list_actions_spec(*v, *state, recipes@),
{
    if v.is_race_turn && v.stage == RamenStage::Train {
        let mut out: Vec<RamenAction> = Vec::new();
        out.push(RamenAction::no_ramen(Operation::Race));
        proof {
            assert(out@ =~= seq![train_action(Operation::Race)]);
        }
        return Ok(out);
    }
    let ramen_on = v.turn >= 2 && !(v.turn >= 72 && v.turn <= 77);
    match v.stage {
        RamenStage::RamenSelect => {
            if ramen_on {
                Ok(list_ramen_select_actions(state, &state.selected_regions, recipes))
            } else {
                let mut out: Vec<RamenAction> = Vec::new();
                out.push(RamenAction::ramen_select(None));
                proof {
                    assert(out@ =~= seq![ramen_select_action(None)]);
                }
                Ok(out)
            }
        },
        RamenStage::SpecialSelect => {
            match state.pending_ramen {
                None => Err(StageError::NoPendingRamen),
                Some(ramen_idx) => match list_special_select_actions(state, ramen_idx, recipes) {
                    Ok(actions) => Ok(actions),
                    Err(e) => Err(StageError::Rules(e)),
                },
            }
        },
        RamenStage::Train => Ok(list_train_actions(v.can_friend_outing, v.is_ill, v.is_xiahesu, v.can_race)),
        _ => {
            let available = if ramen_on {
                get_available_ramens(state, &state.selected_regions, recipes)
            } else {
                Vec::new()
            };
            proof {
                if !ramen_on {
                    assert(available@ =~= Seq::<usize>::empty());
                }
            }
            Ok(list_all_actions(&available, v.can_friend_outing, v.is_ill, v.is_xiahesu, v.can_race))
        },
    }
}

/// How the regions of a year are chosen.
#[derive(Debug, Clone, PartialEq, Eq)]
pub enum RegionChoice {
    /// The configured combination, applied without asking the trainer.
    Fixed(RamenAction),
    /// The trainer picks among these (one per combination, in order).
    Candidates(Vec<RamenAction>),
}

/// Why the region selection cannot go ahead.
#[derive(Debug, Clone, Copy, PartialEq, Eq, Structural)]
pub enum RegionSelectError {
    /// The fixed strategy is configured without a fixed combination.
    NoFixedRegions,
    /// The configured list of fixed combinations is empty.
    EmptyFixedRegions,
}

/// The region selection action of a combination.
pub open spec fn region_action(c: [usize; 3]) -> RamenAction {
    train_action(Operation::RegionSelect(c))
}

/// The region selection of year `year_idx` (0-2): in the third year under
/// the fixed strategy the first configured combination is applied (refused
/// where none is configured); otherwise every combination of the year is a
/// candidate. `combos` are the year's legal combinations.
pub fn region_select_choice(
    year_idx: usize,
    strategy: RamenRegionStrategy,
    region_fixed: Option<&[[usize; 3]]>,
    combos: &[[usize; 3]],
) -> (r: Result<RegionChoice, RegionSelectError>)
    ensures
        year_idx == 2 && strategy == RamenRegionStrategy::Fixed ==> match region_fixed {
            None => r == Err::<RegionChoice, RegionSelectError>(RegionSelectError::NoFixedRegions),
            Some(f) => if f@.len() == 0 {
                r == Err::<RegionChoice, RegionSelectError>(RegionSelectError::EmptyFixedRegions)
            } else {
                r == Ok::<RegionChoice, RegionSelectError>(RegionChoice::Fixed(region_action(f@[0])))
            },
        },
        !(year_idx == 2 && strategy == RamenRegionStrategy::Fixed) ==> (r matches Ok(RegionChoice::Candidates(v))
            && v@ == combos@.map_values(|c: [usize; 3]| region_action(c))),
{
    if year_idx == 2 && strategy == RamenRegionStrategy::Fixed {
        return match region_fixed {
            None => Err(RegionSelectError::NoFixedRegions),
            Some(fixed) => if fixed.len() == 0 {
                Err(RegionSelectError::EmptyFixedRegions)
            } else {
                Ok(RegionChoice::Fixed(RamenAction::no_ramen(Operation::RegionSelect(fixed[0]))))
            },
        };
    }
    let mut actions: Vec<RamenAction> = Vec::new();
    let mut i: usize = 0;
    while i < combos.len()
        invariant
            i <= combos@.len(),
            actions@ == combos@.take(i as int).map_values(|c: [usize; 3]| region_action(c)),
        decreases combos@.len() - i,
    {
        actions.push(RamenAction::no_ramen(Operation::RegionSelect(combos[i])));
        proof {
            assert(combos@.take(i + 1).map_values(|c: [usize; 3]| region_action(c)) =~= combos@.take(
                i as int,
            ).map_values(|c: [usize; 3]| region_action(c)).push(region_action(combos@[i as int])));
        }
        i = i + 1;
    }
    proof {
        assert(combos@.take(combos@.len() as int) =~= combos@);
    }
    Ok(RegionChoice::Candidates(actions))
}

/// Largest gap to a stat's limit that counts for the super ramen choice.
pub const SUPER_RAMEN_GAP_CAP: i32 = 600;

/// Weight of each deck card of a training's type in the super ramen choice.
pub const SUPER_RAMEN_CARD_WEIGHT: i32 = 120;

/// Whether a deck card is of type `t`.
pub open spec fn of_type(t: i32) -> spec_fn(i32) -> bool {
    |x: i32| x == t
}

/// Number of deck cards of type `t`.
pub open spec fn count_type(types: Seq<i32>, t: i32) -> nat {
    types.filter(of_type(t)).len()
}

/// What a training adds to a super ramen option's value: the gap of its stat
/// to the limit (none below zero, at most 600) plus 120 per deck card of its
/// type; nothing for an index outside the five trainings.
pub open spec fn train_gain(t: i32, status: [i32; 5], limit: [i32; 5], types: Seq<i32>) -> int {
    if 0 <= t < 5 {
        let gap = limit[t as int] - status[t as int];
        let g = if gap > 0 { gap } else { 0 };
        (if g < SUPER_RAMEN_GAP_CAP { g } else { SUPER_RAMEN_GAP_CAP as int }) + SUPER_RAMEN_CARD_WEIGHT * count_type(types, t)
    } else {
        0
    }
}

/// Value of a super ramen option: the gains of its trainings.
pub open spec fn option_value(trains: Seq<i32>, status: [i32; 5], limit: [i32; 5], types: Seq<i32>) -> int
    decreases trains.len(),
{
    if trains.len() == 0 {
        0
    } else {
        option_value(trains.drop_last(), status, limit, types) + train_gain(trains.last(), status, limit, types)
    }
}

/// Index and value of the first best among the first `n` values.
pub open spec fn best_upto(vals: Seq<int>, n: int) -> Option<(int, int)>
    decreases n,
{
    if n <= 0 {
        None
    } else {
        let prev = best_upto(vals, n - 1);
        match prev {
            None => Some((n - 1, vals[n - 1])),
            Some(b) => if vals[n - 1] > b.1 {
                Some((n - 1, vals[n - 1]))
            } else {
                prev
            },
        }
    }
}

/// Index of the first option of highest value (0 where there is none).
pub open spec fn best_index(vals: Seq<int>) -> int {
    match best_upto(vals, vals.len() as int) {
        None => 0,
        Some(b) => b.0,
    }
}

/// Values of the super ramen options.
pub open spec fn option_values(options: Seq<Vec<i32>>, status: [i32; 5], limit: [i32; 5], types: Seq<i32>) -> Seq<
    int,
> {
    options.map_values(|o: Vec<i32>| option_value(o@, status, limit, types))
}

/// The first best is a best, and every earlier option is worse.
pub proof fn lemma_best_is_first_max(vals: Seq<int>)
    requires
        vals.len() > 0,
    ensures
        best_index(vals) < vals.len(),
        forall|j: int| 0 <= j < vals.len() ==> #[trigger] vals[j] <= vals[best_index(vals)],
        forall|j: int| 0 <= j < best_index(vals) ==> #[trigger] vals[j] < vals[best_index(vals)],
{
    lemma_best_upto(vals, vals.len() as int);
    let b = best_upto(vals, vals.len() as int)->Some_0;
    assert(best_index(vals) == b.0);
}

proof fn lemma_best_upto(vals: Seq<int>, n: int)
    requires
        0 < n <= vals.len(),
    ensures
        best_upto(vals, n) matches Some(b) && 0 <= b.0 < n && b.1 == vals[b.0] && (forall|j: int|
            0 <= j < n ==> #[trigger] vals[j] <= b.1) && (forall|j: int| 0 <= j < b.0 ==> #[trigger] vals[j] < b.1),
    decreases n,
{
    if n > 1 {
        lemma_best_upto(vals, n - 1);
        let b = best_upto(vals, n - 1)->Some_0;
        if vals[n - 1] > b.1 {
            assert(best_upto(vals, n) == Some((n - 1, vals[n - 1])));
        } else {
            assert(best_upto(vals, n) == Some(b));
        }
    } else {
        assert(best_upto(vals, 0) is None);
        assert(best_upto(vals, 1) == Some((0int, vals[0])));
    }
}

/// A prefix of an option is worth no more than the whole option.
proof fn lemma_option_value_prefix(trains: Seq<i32>, status: [i32; 5], limit: [i32; 5], types: Seq<i32>, k: int)
    requires
        0 <= k <= trains.len(),
    ensures
        0 <= option_value(trains.take(k), status, limit, types) <= option_value(trains, status, limit, types),
    decreases trains.len(),
{
    if k < trains.len() {
        assert(trains.drop_last().take(k) =~= trains.take(k));
        lemma_option_value_prefix(trains.drop_last(), status, limit, types, k);
    } else {
        assert(trains.take(k) =~= trains);
        lemma_option_value_nonneg(trains, status, limit, types);
    }
}

proof fn lemma_option_value_nonneg(trains: Seq<i32>, status: [i32; 5], limit: [i32; 5], types: Seq<i32>)
    ensures
        option_value(trains, status, limit, types) >= 0,
    decreases trains.len(),
{
    if trains.len() > 0 {
        lemma_option_value_nonneg(trains.drop_last(), status, limit, types);
    }
}

/// Number of deck cards of type `t` (see [`count_type`]).
fn count_of_type(types: &[i32], t: i32) -> (n: usize)
    ensures
        n == count_type(types@, t),
{
    let mut n: usize = 0;
    let mut i: usize = 0;
    while i < types.len()
        invariant
            i <= types@.len(),
            n == count_type(types@.take(i as int), t),
            n <= i,
        decreases types@.len() - i,
    {
        proof {
            types@.take(i as int).lemma_filter_push(types@[i as int], of_type(t));
            assert(types@.take(i + 1) =~= types@.take(i as int).push(types@[i as int]));
        }
        if types[i] == t {
            n = n + 1;
        }
        i = i + 1;
    }
    proof {
        assert(types@.take(types@.len() as int) =~= types@);
    }
    n
}

/// Value of one super ramen option (see [`option_value`]).
fn super_option_value(trains: &[i32], status: &[i32; 5], limit: &[i32; 5], types: &[i32]) -> (v: i64)
    requires
        forall|t: int| 0 <= t < 5 ==> i32::MIN <= #[trigger] limit[t] - status[t] <= i32::MAX,
        option_value(trains@, *status, *limit, types@) <= 0x100_0000,
    ensures
        v == option_value(trains@, *status, *limit, types@),
{
    let mut acc: i64 = 0;
    let mut k: usize = 0;
    while k < trains.len()
        invariant
            k <= trains@.len(),
            forall|t: int| 0 <= t < 5 ==> i32::MIN <= #[trigger] limit[t] - status[t] <= i32::MAX,
            option_value(trains@, *status, *limit, types@) <= 0x100_0000,
            acc == option_value(trains@.take(k as int), *status, *limit, types@),
        decreases trains@.len() - k,
    {
        let t = trains[k];
        proof {
            assert(trains@.take(k + 1).drop_last() =~= trains@.take(k as int));
            lemma_option_value_prefix(trains@, *status, *limit, types@, k + 1);
            lemma_option_value_nonneg(trains@.take(k as int), *status, *limit, types@);
        }
        if 0 <= t && t < 5 {
            let ti = t as usize;
            let gap: i32 = limit[ti] - status[ti];
            let g: i32 = if gap > 0 { gap } else { 0 };
            let capped: i32 = if g < SUPER_RAMEN_GAP_CAP { g } else { SUPER_RAMEN_GAP_CAP };
            let cards = count_of_type(types, t);
            let cards64 = cards as i64;
            acc = acc + capped as i64 + SUPER_RAMEN_CARD_WEIGHT as i64 * cards64;
        }
        k = k + 1;
    }
    proof {
        assert(trains@.take(trains@.len() as int) =~= trains@);
    }
    acc
}

/// The super ramen choice: the first option of highest value (see
/// [`option_value`]; option 0 where there is none) is stored in the state,
/// which is otherwise unchanged. The values are whole numbers, which stay
/// exact while they do not exceed `2^24`.
pub fn run_super_ramen_select(
    state: &mut RamenState,
    options: &[Vec<i32>],
    five_status: &[i32; 5],
    five_status_limit: &[i32; 5],
    deck_card_types: &[i32],
)
    requires
        forall|t: int| 0 <= t < 5 ==> i32::MIN <= #[trigger] five_status_limit[t] - five_status[t] <= i32::MAX,
        forall|i: int|
            0 <= i < options@.len() ==> option_value(
                #[trigger] options@[i]@,
                *five_status,
                *five_status_limit,
                deck_card_types@,
            ) <= 0x100_0000,
    ensures
        *final(state) == (RamenState {
            super_ramen: Some(
                best_index(option_values(options@, *five_status, *five_status_limit, deck_card_types@)) as usize,
            ),
            ..*old(state)
        }),
{
    let ghost vals = option_values(options@, *five_status, *five_status_limit, deck_card_types@);
    let mut best: usize = 0;
    let mut best_value: i64 = -1;
    let mut i: usize = 0;
    while i < options.len()
        invariant
            i <= options@.len(),
            vals == option_values(options@, *five_status, *five_status_limit, deck_card_types@),
            forall|t: int| 0 <= t < 5 ==> i32::MIN <= #[trigger] five_status_limit[t] - five_status[t] <= i32::MAX,
            forall|j: int|
                0 <= j < options@.len() ==> option_value(
                    #[trigger] options@[j]@,
                    *five_status,
                    *five_status_limit,
                    deck_card_types@,
                ) <= 0x100_0000,
            match best_upto(vals, i as int) {
                None => best == 0 && best_value == -1,
                Some(b) => best == b.0 && best_value == b.1 && b.1 >= 0,
            },
        decreases options@.len() - i,
    {
        let value = super_option_value(&options[i], five_status, five_status_limit, deck_card_types);
        proof {
            lemma_option_value_nonneg(options@[i as int]@, *five_status, *five_status_limit, deck_card_types@);
            assert(vals[i as int] == value);
        }
        if value > best_value {
            best_value = value;
            best = i;
        }
        i = i + 1;
    }
    state.super_ramen = Some(best);
}

/// Card id of the new scenario friend.
pub const NEW_FRIEND_CARD_ID: u32 = 30305;

/// Character ids of the old scenario friends.
pub const OLD_FRIEND_CHARA_IDS: [u32; 2] = [9001, 9008];

/// Most hidden flavour that can be stocked.
pub const MAX_SPECIAL_FEELING: i32 = 4;

/// What the turn start reads of a deck card.
#[derive(Debug, Clone, Copy, PartialEq, Eq, Structural)]
pub struct DeckCard {
    /// Card type (5 and above: friend cards).
    pub card_type: i32,
    /// Card id.
    pub card_id: u32,
    /// Character id.
    pub chara_id: u32,
}

/// The first friend card (type 5 or above) from position `i` on.
pub open spec fn friend_from(deck: Seq<DeckCard>, i: int) -> Option<DeckCard>
    decreases deck.len() - i,
{
    if i < 0 || i >= deck.len() {
        None
    } else if deck[i].card_type >= 5 {
        Some(deck[i])
    } else {
        friend_from(deck, i + 1)
    }
}

/// Feelings of each kind handed out at a feeling reset: 2 with the new
/// friend, 1 with an old friend, 0 without a friend card.
pub open spec fn friend_feelings(deck: Seq<DeckCard>) -> i32 {
    match friend_from(deck, 0) {
        Some(c) => if c.card_id == NEW_FRIEND_CARD_ID {
            2
        } else if c.chara_id == OLD_FRIEND_CHARA_IDS[0] || c.chara_id == OLD_FRIEND_CHARA_IDS[1] {
            1
        } else {
            0
        },
        None => 0,
    }
}

/// Hidden flavour gained at a feeling reset: as many as the feelings of
/// each kind, and one without a friend card.
pub open spec fn friend_special_gain(deck: Seq<DeckCard>) -> i32 {
    if friend_feelings(deck) > 0 {
        friend_feelings(deck)
    } else {
        1
    }
}

/// `n` rounds of the three feelings, in the order A, B, C.
pub open spec fn abc_rounds(n: int) -> Seq<FeelingType> {
    Seq::new(
        if n > 0 { (3 * n) as nat } else { 0 },
        |k: int|
            if k % 3 == 0 {
                FeelingType::A
            } else if k % 3 == 1 {
                FeelingType::B
            } else {
                FeelingType::C
            },
    )
}

/// Hidden flavour after gaining `g`, at most the stock limit.
pub open spec fn special_after(s: i32, g: i32) -> i32 {
    if s + g < MAX_SPECIAL_FEELING {
        (s + g) as i32
    } else {
        MAX_SPECIAL_FEELING
    }
}

/// The state after a feeling reset: each kind's stock becomes
/// [`friend_feelings`], the hidden flavour gains [`friend_special_gain`] (up
/// to 4) and the gained feelings are queued round by round.
pub open spec fn feelings_reset(s: RamenState, deck: Seq<DeckCard>) -> RamenState {
    let v = friend_feelings(deck);
    RamenState {
        feeling_stock: [v, v, v],
        special_feeling: special_after(s.special_feeling, friend_special_gain(deck)),
        feeling_queue: s.feeling_queue,
        ..s
    }
}

/// The feeling reset of turns 2, 24 and 48 (see [`feelings_reset`]).
pub fn init_feeling_stocks(state: &mut RamenState, deck: &[DeckCard])
    requires
        old(state).special_feeling + friend_special_gain(deck@) <= i32::MAX,
    ensures
        *final(state) == (RamenState { feeling_queue: final(state).feeling_queue, ..feelings_reset(*old(state), deck@) }),
        final(state).feeling_queue@ == abc_rounds(friend_feelings(deck@) as int),
{
    let mut i: usize = 0;
    while i < deck.len() && deck[i].card_type < 5
        invariant
            i <= deck@.len(),
            friend_from(deck@, 0) == friend_from(deck@, i as int),
        decreases deck@.len() - i,
    {
        i = i + 1;
    }
    let init_val: i32 = if i < deck.len() {
        let card = deck[i];
        if card.card_id == NEW_FRIEND_CARD_ID {
            2
        } else if card.chara_id == OLD_FRIEND_CHARA_IDS[0] || card.chara_id == OLD_FRIEND_CHARA_IDS[1] {
            1
        } else {
            0
        }
    } else {
        0
    };
    assert(init_val == friend_feelings(deck@));
    state.feeling_stock = [init_val, init_val, init_val];
    let gain: i32 = if init_val > 0 { init_val } else { 1 };
    let sum: i32 = state.special_feeling + gain;
    state.special_feeling = if sum < MAX_SPECIAL_FEELING { sum } else { MAX_SPECIAL_FEELING };
    state.feeling_queue.clear();
    let ghost mid = *state;
    let mut r: i32 = 0;
    while r < init_val
        invariant
            0 <= r <= init_val <= 2,
            *state == (RamenState { feeling_queue: state.feeling_queue, ..mid }),
            state.feeling_queue@ == abc_rounds(r as int),
        decreases init_val - r,
    {
        state.feeling_queue.push(FeelingType::A);
        state.feeling_queue.push(FeelingType::B);
        state.feeling_queue.push(FeelingType::C);
        proof {
            assert(state.feeling_queue@ =~= abc_rounds(r + 1));
        }
        r = r + 1;
    }
}

/// An event that the scenario raises on a fixed turn.
#[derive(Debug, Clone, Copy, PartialEq, Eq, Structural)]
pub enum MandatoryEvent {
    /// The friend's new year event.
    FriendNewYear,
    /// The friend's farewell at the end of the run.
    FriendEnd,
    /// The new year lottery ticket.
    Ticket,
    /// The end of the run.
    Ending,
    /// The scenario's own closing event (where the scenario data has it).
    ScenarioEnding,
}

/// Fixed-turn events: those run with the turn's events, and those left for
/// after the action.
#[derive(Debug, Clone, PartialEq, Eq)]
pub struct MandatoryEvents {
    /// Run at turn start with the other events.
    pub now: Vec<MandatoryEvent>,
    /// Run after the action.
    pub after_action: Vec<MandatoryEvent>,
}

/// Fixed-turn events run at turn start: the friend's new year event on turn
/// 24 once outings are unlocked.
pub open spec fn mandatory_now(turn: i32, out_state: FriendOutState) -> Seq<MandatoryEvent> {
    if out_state == FriendOutState::AfterUnlock && turn == 24 {
        seq![MandatoryEvent::FriendNewYear]
    } else {
        Seq::empty()
    }
}

/// Fixed-turn events run after the action: the friend's farewell on turn 77
/// once unlocked, the ticket on turn 48, and the ending events on turn 77.
pub open spec fn mandatory_after(turn: i32, out_state: FriendOutState) -> Seq<MandatoryEvent> {
    (if out_state == FriendOutState::AfterUnlock && turn == 77 {
        seq![MandatoryEvent::FriendEnd]
    } else {
        Seq::empty()
    }) + (if turn == 48 {
        seq![MandatoryEvent::Ticket]
    } else {
        Seq::empty()
    }) + (if turn == 77 {
        seq![MandatoryEvent::Ending, MandatoryEvent::ScenarioEnding]
    } else {
        Seq::empty()
    })
}

/// The fixed-turn events of `turn` (see [`mandatory_now`] and [`mandatory_after`]).
pub fn add_mandatory_events(turn: i32, out_state: FriendOutState) -> (r: MandatoryEvents)
    ensures
        r.now@ == mandatory_now(turn, out_state),
        r.after_action@ == mandatory_after(turn, out_state),
{
    let mut now: Vec<MandatoryEvent> = Vec::new();
    let mut after: Vec<MandatoryEvent> = Vec::new();
    if out_state == FriendOutState::AfterUnlock {
        if turn == 24 {
            now.push(MandatoryEvent::FriendNewYear);
        } else if turn == 77 {
            after.push(MandatoryEvent::FriendEnd);
        }
    }
    if turn == 48 {
        after.push(MandatoryEvent::Ticket);
    }
    if turn == 77 {
        after.push(MandatoryEvent::Ending);
        after.push(MandatoryEvent::ScenarioEnding);
    }
    proof {
        assert(now@ =~= mandatory_now(turn, out_state));
        assert(after@ =~= mandatory_after(turn, out_state));
    }
    MandatoryEvents { now, after_action: after }
}

/// Whether `turn` resets the feelings (turns 2, 24 and 48).
pub open spec fn feeling_reset_turn(turn: i32) -> bool {
    turn == 2 || turn == 24 || turn == 48
}

/// What the turn start leaves to the caller.
#[derive(Debug, Clone, Copy, PartialEq, Eq, Structural)]
pub struct BeginPlan {
    /// Whether the feelings were reset this turn.
    pub feelings_reset: bool,
    /// Year whose regions are selected now (the first year, on turn 2).
    pub region_select_year: Option<usize>,
    /// The friend's new person index, where the friend joined this turn.
    pub friend_index: Option<usize>,
    /// Whether the super ramen recovery (vitality and motivation) applies.
    pub super_ramen_recovery: bool,
    /// Whether the one-time race bonus of the super ramen is granted (turn 72).
    pub super_ramen_race_bonus: bool,
}

/// The state after the turn start: the pending decision cleared, then the
/// feelings reset on a reset turn, or else the turn's hidden flavour (if any)
/// added, up to 4.
pub open spec fn begin_state(s: RamenState, turn: i32, deck: Seq<DeckCard>, turn_special_feeling: i32) -> RamenState {
    let c = RamenState { pending_ramen: None, pending_special_targets: [0i32, 0, 0], combined_decision: false, ..s };
    if feeling_reset_turn(turn) {
        feelings_reset(c, deck)
    } else if turn_special_feeling > 0 {
        RamenState { special_feeling: special_after(c.special_feeling, turn_special_feeling), ..c }
    } else {
        c
    }
}

/// The turn start: clears the pending decision, brings in the persons of the
/// turn (see [`manage_persons_on_turn_start`]), resets the feelings on turns
/// 2, 24 and 48 or else adds the turn's hidden flavour
/// `turn_special_feeling`, and plans the region selection (turn 2) and the
/// super ramen effects (turns 72-77, the race bonus on 72 only).
pub fn begin_turn(
    state: &mut RamenState,
    persons: &mut Vec<Person>,
    turn: i32,
    deck: &[DeckCard],
    turn_special_feeling: i32,
    friend_persons: &[Person],
    npc_chara_ids: &[u32],
    reporter: Person,
) -> (plan: BeginPlan)
    requires
        feeling_reset_turn(turn) ==> old(state).special_feeling + friend_special_gain(deck@) <= i32::MAX,
        !feeling_reset_turn(turn) && turn_special_feeling > 0 ==> old(state).special_feeling
            + turn_special_feeling <= i32::MAX,
    ensures
        *final(state) == (RamenState {
            feeling_queue: final(state).feeling_queue,
            ..begin_state(*old(state), turn, deck@, turn_special_feeling)
        }),
        final(state).feeling_queue@ == if feeling_reset_turn(turn) {
            abc_rounds(friend_feelings(deck@) as int)
        } else {
            old(state).feeling_queue@
        },
        if turn == 2 && !has_kind(old(persons)@, PersonType::ScenarioCard) {
            &&& final(persons)@ == appended(old(persons)@, friend_and_npcs(friend_persons@, npc_chara_ids@))
            &&& plan.friend_index == if friend_persons@.len() > 0 {
                Some((old(persons)@.len() + friend_persons@.len() - 1) as usize)
            } else {
                None::<usize>
            }
        } else if turn == 12 && !has_kind(old(persons)@, PersonType::Reporter) {
            final(persons)@ == with_person(old(persons)@, reporter) && plan.friend_index is None
        } else {
            final(persons)@ == old(persons)@ && plan.friend_index is None
        },
        plan.feelings_reset == feeling_reset_turn(turn),
        plan.region_select_year == if turn == 2 { Some(0usize) } else { None::<usize> },
        plan.super_ramen_recovery == is_super_ramen_turn(turn),
        plan.super_ramen_race_bonus == (turn == 72),
{
    state.clear_pending();
    let friend_index = manage_persons_on_turn_start(persons, turn, friend_persons, npc_chara_ids, reporter);
    let reset = turn == 2 || turn == 24 || turn == 48;
    if reset {
        init_feeling_stocks(state, deck);
    } else if turn_special_feeling > 0 {
        let sum: i32 = state.special_feeling + turn_special_feeling;
        state.special_feeling = if sum < MAX_SPECIAL_FEELING { sum } else { MAX_SPECIAL_FEELING };
    }
    BeginPlan {
        feelings_reset: reset,
        region_select_year: if turn == 2 { Some(0) } else { None },
        friend_index,
        super_ramen_recovery: turn >= 72 && turn <= 77,
        super_ramen_race_bonus: turn == 72,
    }
}

/// An event of the general draw of a turn.
#[derive(Debug, Clone, Copy, PartialEq, Eq, Structural)]
pub enum GeneralEvent {
    /// An event of this support card person.
    Card(i32),
    /// An event of the trainee.
    Uma,
    /// The motivation drop.
    DropMotivation,
}

/// The events of a turn start.
#[derive(Debug, Clone, PartialEq, Eq)]
pub enum TurnEvents {
    /// These events of the scenario data (indices), which fire this turn.
    Scenario(Vec<usize>),
    /// These shared story events (indices), which fire this turn.
    Story(Vec<usize>),
    /// The general draw's event, if any.
    General(Option<GeneralEvent>),
}

/// Indices, in order, of the support card persons among the first `n`.
pub open spec fn card_persons(ps: Seq<Person>, n: int) -> Seq<i32>
    decreases n,
{
    if n <= 0 {
        Seq::empty()
    } else {
        card_persons(ps, n - 1) + if ps[n - 1].person_type == PersonType::Card {
            seq![(n - 1) as i32]
        } else {
            Seq::empty()
        }
    }
}

/// The general draw: `draw` is the drawn kind (0: a support card's event,
/// the card being `card_pick` among the card persons; 1: the trainee's
/// event; 2: the motivation drop, from turn 12), nothing on the event-free
/// turns.
pub open spec fn general_event_spec(
    turn: i32,
    no_event_turns: Seq<i32>,
    ps: Seq<Person>,
    draw: usize,
    card_pick: int,
) -> Option<GeneralEvent> {
    if no_event_turns.contains(turn) {
        None
    } else if draw == 0 {
        let cards = card_persons(ps, ps.len() as int);
        if cards.len() > 0 {
            Some(GeneralEvent::Card(cards[card_pick]))
        } else {
            None
        }
    } else if draw == 1 {
        Some(GeneralEvent::Uma)
    } else if draw == 2 && turn >= 12 {
        Some(GeneralEvent::DropMotivation)
    } else {
        None
    }
}

/// Indices of the support card persons (see [`card_persons`]).
fn list_card_persons(persons: &[Person]) -> (r: Vec<i32>)
    ensures
        r@ == card_persons(persons@, persons@.len() as int),
{
    let mut out: Vec<i32> = Vec::new();
    let mut i: usize = 0;
    while i < persons.len()
        invariant
            i <= persons@.len(),
            out@ == card_persons(persons@, i as int),
        decreases persons@.len() - i,
    {
        if persons[i].person_type == PersonType::Card {
            out.push(i as i32);
        }
        proof {
            if persons@[i as int].person_type == PersonType::Card {
                assert(out@ =~= card_persons(persons@, i as int) + seq![i as i32]);
            } else {
                assert(out@ =~= card_persons(persons@, i as int) + Seq::<i32>::empty());
            }
        }
        i = i + 1;
    }
    out
}

/// The events of a turn start: the scenario's events that fire this turn if
/// there are any; else the shared story events that fire; else the general
/// draw (see [`general_event_spec`]). `draw` and `card_pick` are the
/// outcomes of the draw.
pub fn generate_events(
    scenario: &[TriggerType],
    story: &[TriggerType],
    turn: i32,
    no_event_turns: &[i32],
    persons: &[Person],
    draw: usize,
    card_pick: usize,
) -> (r: TurnEvents)
    requires
        draw == 0 && card_persons(persons@, persons@.len() as int).len() > 0 ==> card_pick < card_persons(
            persons@,
            persons@.len() as int,
        ).len(),
    ensures
        ({
            let sc = triggered_indices(scenario@, turn, scenario@.len() as int);
            let st = triggered_indices(story@, turn, story@.len() as int);
            if sc.len() > 0 {
                r matches TurnEvents::Scenario(v) && v@ == sc
            } else if st.len() > 0 {
                r matches TurnEvents::Story(v) && v@ == st
            } else {
                r == TurnEvents::General(general_event_spec(turn, no_event_turns@, persons@, draw, card_pick as int))
            }
        }),
{
    let sc = triggered_events(scenario, turn);
    if sc.len() > 0 {
        return TurnEvents::Scenario(sc);
    }
    let st = triggered_events(story, turn);
    if st.len() > 0 {
        return TurnEvents::Story(st);
    }
    let mut quiet = false;
    let mut k: usize = 0;
    while k < no_event_turns.len()
        invariant
            k <= no_event_turns@.len(),
            quiet == exists|j: int| 0 <= j < k && no_event_turns@[j] == turn,
        decreases no_event_turns@.len() - k,
    {
        if no_event_turns[k] == turn {
            quiet = true;
        }
        k = k + 1;
    }
    proof {
        if quiet {
            let j = choose|j: int| 0 <= j < k && no_event_turns@[j] == turn;
            assert(no_event_turns@.contains(turn));
        } else {
            assert(!no_event_turns@.contains(turn));
        }
    }
    if quiet {
        return TurnEvents::General(None);
    }
    let ev = if draw == 0 {
        let cards = list_card_persons(persons);
        if cards.len() > 0 {
            Some(GeneralEvent::Card(cards[card_pick]))
        } else {
            None
        }
    } else if draw == 1 {
        Some(GeneralEvent::Uma)
    } else if draw == 2 && turn >= 12 {
        Some(GeneralEvent::DropMotivation)
    } else {
        None
    };
    TurnEvents::General(ev)
}

/// The flow enters `RamenSelect` exactly on the turns where bowls are on
/// offer, so that stage never lists bowls outside them.
pub proof fn lemma_ramen_select_only_on_ramen_turns(turn: i32, pending: bool, combined: bool, free_race: bool)
    ensures
        next_flow_spec(
            FlowState {
                stage: RamenStage::Distribute,
                turn,
                pending_ramen: pending,
                combined_decision: combined,
                free_race_ok: free_race,
            },
        ).stage == RamenStage::RamenSelect <==> ramen_turn(turn),
{
}

/// The shape of each stage's candidates: `RamenSelect` and `SpecialSelect`
/// candidates carry no operation (`SpecialSelect` ones always carry the
/// hidden flavour use), and `Train` candidates carry an operation but no
/// bowl and no hidden flavour use.
pub proof fn lemma_stage_candidates_shape(v: TurnView, state: RamenState, recipes: Seq<[i32; 3]>)
    ensures
        list_actions_spec(v, state, recipes) matches Ok(acts) ==> forall|i: int|
            0 <= i < acts.len() ==> {
                let a = #[trigger] acts[i];
                &&& (v.stage == RamenStage::RamenSelect ==> a.operation == Operation::StageOnly)
                &&& (v.stage == RamenStage::SpecialSelect ==> a.operation == Operation::StageOnly
                    && a.special_targets is Some)
                &&& (v.stage == RamenStage::Train ==> a.ramen is None && a.special_targets is None
                    && a.operation != Operation::StageOnly)
            },
{
    if v.stage == RamenStage::Train && !v.is_race_turn {
        let ops = operations_spec(v.can_friend_outing, v.is_ill, v.is_xiahesu, v.can_race);
        assert forall|i: int| 0 <= i < ops.len() implies #[trigger] ops[i] != Operation::StageOnly by {
            lemma_operations_are_operations(v.can_friend_outing, v.is_ill, v.is_xiahesu, v.can_race, i);
        }
    }
}

/// Every base operation of the menu is a real operation (never the stage
/// placeholder).
proof fn lemma_operations_are_operations(can_friend_outing: bool, is_ill: bool, is_xiahesu: bool, can_race: bool, i: int)
    requires
        0 <= i < operations_spec(can_friend_outing, is_ill, is_xiahesu, can_race).len(),
    ensures
        operations_spec(can_friend_outing, is_ill, is_xiahesu, can_race)[i] != Operation::StageOnly,
{
    let a = seq![
        Operation::Train(super::TrainingType::Speed),
        Operation::Train(super::TrainingType::Stamina),
        Operation::Train(super::TrainingType::Power),
        Operation::Train(super::TrainingType::Guts),
        Operation::Train(super::TrainingType::Wisdom),
    ];
    let b = if can_race { seq![Operation::Race] } else { Seq::empty() };
    let c = seq![Operation::Rest];
    let d = if !is_xiahesu { seq![Operation::NormalOuting] } else { Seq::empty() };
    let e = if can_friend_outing && !is_xiahesu { seq![Operation::FriendOuting] } else { Seq::empty() };
    let f = if is_ill && !is_xiahesu { seq![Operation::Clinic] } else { Seq::empty() };
    let all = a + b + c + d + e + f;
    assert(all == operations_spec(can_friend_outing, is_ill, is_xiahesu, can_race));
    assert forall|k: int| 0 <= k < all.len() implies #[trigger] all[k] != Operation::StageOnly by {
        if k < a.len() {
            assert(all[k] == a[k]);
        } else if k < a.len() + b.len() {
            assert(all[k] == b[k - a.len()]);
        } else if k < a.len() + b.len() + c.len() {
            assert(all[k] == c[k - a.len() - b.len()]);
        } else if k < a.len() + b.len() + c.len() + d.len() {
            assert(all[k] == d[k - a.len() - b.len() - c.len()]);
        } else if k < a.len() + b.len() + c.len() + d.len() + e.len() {
            assert(all[k] == e[k - a.len() - b.len() - c.len() - d.len()]);
        } else {
            assert(all[k] == f[k - a.len() - b.len() - c.len() - d.len() - e.len()]);
        }
    }
}

} // verus!
