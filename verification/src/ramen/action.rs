//! Ramen Cup actions and the candidate lists of each decision stage.
//!
//! A `RamenAction` carries the decision of one stage: the bowl in
//! `RamenSelect`, bowl and hidden-flavour targets in `SpecialSelect` (or in the
//! combined decision path), and the base operation in `Train`.

use vstd::prelude::*;

use super::{Operation, RamenState, TrainingType};
use super::rules::{
    is_target_listing, list_special_targets_for, region_makeable, region_targets, special_targets, valid_target,
    RulesError,
};

verus! {

/// One action of the Ramen Cup.
#[derive(Debug, Clone, Copy, Eq)]
pub struct RamenAction {
    /// Bowl to eat (`None`: no ramen).
    pub ramen: Option<usize>,
    /// Hidden flavour replacement targets (`None`: no replacement / not decided).
    pub special_targets: Option<[i32; 3]>,
    /// Base operation.
    pub operation: Operation,
}

impl PartialEq for RamenAction {
    fn eq(&self, other: &Self) -> (r: bool) {
        let same_ramen = match (self.ramen, other.ramen) {
            (None, None) => true,
            (Some(a), Some(b)) => a == b,
            _ => false,
        };
        let same_targets = match (self.special_targets, other.special_targets) {
            (None, None) => true,
            (Some(a), Some(b)) => {
                let same = a[0] == b[0] && a[1] == b[1] && a[2] == b[2];
                proof {
                    if same {
                        assert(a =~= b);
                    }
                }
                same
            },
            _ => false,
        };
        let same_op = self.operation == other.operation;
        same_ramen && same_targets && same_op
    }
}

impl vstd::std_specs::cmp::PartialEqSpecImpl for RamenAction {
    open spec fn obeys_eq_spec() -> bool {
        true
    }

    open spec fn eq_spec(&self, other: &Self) -> bool {
        *self == *other
    }
}

/// The base action of the underlying game that an operation maps to.
#[derive(Debug, Clone, Copy, PartialEq, Eq, Structural)]
pub enum BaseAction {
    /// Training of the given index (speed = 0 .. wisdom = 4).
    Train(i32),
    /// Race.
    Race,
    /// Rest.
    Sleep,
    /// Normal outing.
    NormalOuting,
    /// Friend outing.
    FriendOuting,
    /// Clinic.
    Clinic,
}

/// The base action of an operation (`None` for region selection and stage placeholders).
pub open spec fn base_action_of(op: Operation) -> Option<BaseAction> {
    match op {
        Operation::Train(t) => Some(BaseAction::Train(t.spec_index() as i32)),
        Operation::Race => Some(BaseAction::Race),
        Operation::Rest => Some(BaseAction::Sleep),
        Operation::NormalOuting => Some(BaseAction::NormalOuting),
        Operation::FriendOuting => Some(BaseAction::FriendOuting),
        Operation::Clinic => Some(BaseAction::Clinic),
        Operation::RegionSelect(_) => None,
        Operation::StageOnly => None,
    }
}

impl Operation {
    /// Converts to the base action of the underlying game.
    pub fn to_base_action(&self) -> (r: Option<BaseAction>)
        ensures
            r == base_action_of(*self),
    {
        match self {
            Operation::Train(t) => Some(BaseAction::Train(t.index())),
            Operation::Race => Some(BaseAction::Race),
            Operation::Rest => Some(BaseAction::Sleep),
            Operation::NormalOuting => Some(BaseAction::NormalOuting),
            Operation::FriendOuting => Some(BaseAction::FriendOuting),
            Operation::Clinic => Some(BaseAction::Clinic),
            Operation::RegionSelect(_) => None,
            Operation::StageOnly => None,
        }
    }
}

/// Train-stage action (no ramen, no targets).
pub open spec fn train_action(op: Operation) -> RamenAction {
    RamenAction { ramen: None, special_targets: None, operation: op }
}

/// `RamenSelect` stage action.
pub open spec fn ramen_select_action(ramen: Option<usize>) -> RamenAction {
    RamenAction { ramen: ramen, special_targets: None, operation: Operation::StageOnly }
}

/// `SpecialSelect` stage action.
pub open spec fn special_select_action(ramen: usize, targets: [i32; 3]) -> RamenAction {
    RamenAction { ramen: Some(ramen), special_targets: Some(targets), operation: Operation::StageOnly }
}

/// Combined-decision action: no ramen forces the targets to zero.
pub open spec fn combined_select_action(ramen: Option<usize>, targets: [i32; 3]) -> RamenAction {
    RamenAction {
        ramen: ramen,
        special_targets: Some(if ramen is None { [0i32, 0, 0] } else { targets }),
        operation: Operation::StageOnly,
    }
}

impl RamenAction {
    /// Train-stage action carrying only a base operation.
    pub fn new(operation: Operation) -> (r: Self)
        ensures
            r == train_action(operation),
    {
        RamenAction { ramen: None, special_targets: None, operation }
    }

    /// No ramen plus a base operation (same as [`RamenAction::new`]).
    pub fn no_ramen(operation: Operation) -> (r: Self)
        ensures
            r == train_action(operation),
    {
        Self::new(operation)
    }

    /// Eating bowl `ramen_idx` plus a base operation.
    pub fn with_ramen(ramen_idx: usize, operation: Operation) -> (r: Self)
        ensures
            r == (RamenAction { ramen: Some(ramen_idx), special_targets: None, operation }),
    {
        RamenAction { ramen: Some(ramen_idx), special_targets: None, operation }
    }

    /// `RamenSelect` stage action (`None`: no ramen).
    pub fn ramen_select(ramen_idx: Option<usize>) -> (r: Self)
        ensures
            r == ramen_select_action(ramen_idx),
    {
        RamenAction { ramen: ramen_idx, special_targets: None, operation: Operation::StageOnly }
    }

    /// `SpecialSelect` stage action carrying the hidden flavour use.
    pub fn special_select(ramen_idx: usize, targets: [i32; 3]) -> (r: Self)
        ensures
            r == special_select_action(ramen_idx, targets),
    {
        RamenAction {
            ramen: Some(ramen_idx),
            special_targets: Some(targets),
            operation: Operation::StageOnly,
        }
    }

    /// Combined-decision action (bowl and targets at once); without a bowl the
    /// targets are forced to `[0, 0, 0]`.
    pub fn combined_select(ramen_idx: Option<usize>, targets: [i32; 3]) -> (r: Self)
        ensures
            r == combined_select_action(ramen_idx, targets),
    {
        let targets = if ramen_idx.is_none() { [0, 0, 0] } else { targets };
        RamenAction { ramen: ramen_idx, special_targets: Some(targets), operation: Operation::StageOnly }
    }

    /// Whether the action eats a bowl.
    pub fn is_eating_ramen(&self) -> (r: bool)
        ensures
            r == self.ramen is Some,
    {
        self.ramen.is_some()
    }

    /// The base operation.
    pub fn base_operation(&self) -> (r: Operation)
        ensures
            r == self.operation,
    {
        self.operation
    }
}

/// Eating choices: no ramen first, then each available bowl in order.
pub open spec fn ramen_choices_spec(available: Seq<usize>) -> Seq<Option<usize>> {
    seq![None::<usize>] + available.map_values(|i: usize| Some(i))
}

/// Base operations offered in a turn, in menu order.
///
/// During summer camp normal outing, friend outing and clinic are unavailable
/// (resting also cures); racing is only offered when `can_race`.
pub open spec fn operations_spec(
    can_friend_outing: bool,
    is_ill: bool,
    is_xiahesu: bool,
    can_race: bool,
) -> Seq<Operation> {
    seq![
        Operation::Train(TrainingType::Speed),
        Operation::Train(TrainingType::Stamina),
        Operation::Train(TrainingType::Power),
        Operation::Train(TrainingType::Guts),
        Operation::Train(TrainingType::Wisdom),
    ] + (if can_race { seq![Operation::Race] } else { Seq::empty() }) + seq![Operation::Rest] + (
    if !is_xiahesu { seq![Operation::NormalOuting] } else { Seq::empty() }) + (if can_friend_outing
        && !is_xiahesu { seq![Operation::FriendOuting] } else { Seq::empty() }) + (if is_ill
        && !is_xiahesu { seq![Operation::Clinic] } else { Seq::empty() })
}

/// The combined action of an eating choice and an operation.
pub open spec fn combo_action(ramen: Option<usize>, op: Operation) -> RamenAction {
    RamenAction { ramen: ramen, special_targets: None, operation: op }
}

/// All operations paired with one eating choice, in operation order.
pub open spec fn combos_for(ops: Seq<Operation>) -> spec_fn(Option<usize>) -> Seq<RamenAction> {
    |c: Option<usize>| ops.map_values(|op: Operation| combo_action(c, op))
}

/// Every (eating choice, operation) pair, choice-major.
pub open spec fn all_actions_spec(choices: Seq<Option<usize>>, ops: Seq<Operation>) -> Seq<RamenAction> {
    choices.flat_map(combos_for(ops))
}

/// A flat map whose every image has length `m` has length `n * m`.
pub proof fn lemma_flat_map_uniform_len<A, B>(s: Seq<A>, f: spec_fn(A) -> Seq<B>, m: nat)
    requires
        forall|a: A| #[trigger] f(a).len() == m,
    ensures
        s.flat_map(f).len() == s.len() * m,
    decreases s.len(),
{
    if s.len() == 0 {
        assert(s.flat_map(f) =~= Seq::<B>::empty());
    } else {
        let init = s.drop_last();
        lemma_flat_map_uniform_len(init, f, m);
        assert(init.push(s.last()) =~= s);
        init.lemma_flat_map_push(f, s.last());
        assert(s.len() * m == init.len() * m + m) by (nonlinear_arith)
            requires
                s.len() == init.len() + 1,
        ;
    }
}

/// Eating choices of the first stage: no ramen, then each available bowl.
pub fn list_ramen_choices(available_ramens: &[usize]) -> (r: Vec<Option<usize>>)
    ensures
        r@ == ramen_choices_spec(available_ramens@),
{
    let mut choices: Vec<Option<usize>> = Vec::new();
    choices.push(None);
    let mut i: usize = 0;
    while i < available_ramens.len()
        invariant
            i <= available_ramens@.len(),
            choices@ == ramen_choices_spec(available_ramens@.take(i as int)),
        decreases available_ramens@.len() - i,
    {
        choices.push(Some(available_ramens[i]));
        proof {
            assert(available_ramens@.take(i + 1) =~= available_ramens@.take(i as int).push(available_ramens@[i as int]));
            assert(ramen_choices_spec(available_ramens@.take(i + 1)) =~= ramen_choices_spec(
                available_ramens@.take(i as int),
            ).push(Some(available_ramens@[i as int])));
        }
        i = i + 1;
    }
    assert(available_ramens@.take(available_ramens@.len() as int) =~= available_ramens@);
    choices
}

/// What the menu offers: the five trainings and rest always; a race exactly
/// when racing is allowed; a normal outing exactly outside summer camp; a
/// friend outing exactly when it is possible and outside summer camp; the
/// clinic exactly when the trainee is ill and outside summer camp (whether a
/// friend outing is possible plays no part); nothing twice, and nothing
/// else.
pub proof fn lemma_menu_offers(can_friend_outing: bool, is_ill: bool, is_xiahesu: bool, can_race: bool)
    ensures
        ({
            let ops = operations_spec(can_friend_outing, is_ill, is_xiahesu, can_race);
            &&& ops.contains(Operation::Clinic) <==> (is_ill && !is_xiahesu)
            &&& ops.contains(Operation::FriendOuting) <==> (can_friend_outing && !is_xiahesu)
            &&& ops.contains(Operation::NormalOuting) <==> !is_xiahesu
            &&& ops.contains(Operation::Race) <==> can_race
            &&& ops.contains(Operation::Rest)
            &&& forall|t: TrainingType| #[trigger] ops.contains(Operation::Train(t))
            &&& forall|i: int, j: int| 0 <= i < j < ops.len() ==> ops[i] != ops[j]
            &&& forall|i: int|
                0 <= i < ops.len() ==> (#[trigger] ops[i] is Train || ops[i] == Operation::Race || ops[i]
                    == Operation::Rest || ops[i] == Operation::NormalOuting || ops[i] == Operation::FriendOuting
                    || ops[i] == Operation::Clinic)
            &&& ops.len() == 6 + (if can_race { 1int } else { 0 }) + (if !is_xiahesu { 1int } else { 0 }) + (
            if can_friend_outing && !is_xiahesu { 1int } else { 0 }) + (if is_ill && !is_xiahesu { 1int } else { 0 })
        }),
{
    let ops = operations_spec(can_friend_outing, is_ill, is_xiahesu, can_race);
    let trains = seq![
        Operation::Train(TrainingType::Speed),
        Operation::Train(TrainingType::Stamina),
        Operation::Train(TrainingType::Power),
        Operation::Train(TrainingType::Guts),
        Operation::Train(TrainingType::Wisdom),
    ];
    let b = if can_race { seq![Operation::Race] } else { Seq::empty() };
    let c = seq![Operation::Rest];
    let d = if !is_xiahesu { seq![Operation::NormalOuting] } else { Seq::empty() };
    let e = if can_friend_outing && !is_xiahesu { seq![Operation::FriendOuting] } else { Seq::empty() };
    let f = if is_ill && !is_xiahesu { seq![Operation::Clinic] } else { Seq::empty() };
    let ab = trains + b;
    let abc = ab + c;
    let abcd = abc + d;
    let abcde = abcd + e;
    assert(ops == abcde + f);
    // position of each kind in the menu
    let nb = b.len() as int;
    let nd = d.len() as int;
    let ne = e.len() as int;
    let nf = f.len() as int;
    assert forall|i: int| 0 <= i < ops.len() implies ops[i] == (if i < 5 {
        trains[i]
    } else if i < 5 + nb {
        Operation::Race
    } else if i < 6 + nb {
        Operation::Rest
    } else if i < 6 + nb + nd {
        Operation::NormalOuting
    } else if i < 6 + nb + nd + ne {
        Operation::FriendOuting
    } else {
        Operation::Clinic
    }) by {
        if i < 5 {
            assert(ops[i] == trains[i]);
        } else if i < 5 + nb {
            assert(ops[i] == b[i - 5]);
        } else if i < 6 + nb {
            assert(ops[i] == c[i - 5 - nb]);
        } else if i < 6 + nb + nd {
            assert(ops[i] == d[i - 6 - nb]);
        } else if i < 6 + nb + nd + ne {
            assert(ops[i] == e[i - 6 - nb - nd]);
        } else {
            assert(ops[i] == f[i - 6 - nb - nd - ne]);
        }
    }
    assert(ops.len() == 6 + nb + nd + ne + nf);
    assert forall|t: TrainingType| #[trigger] ops.contains(Operation::Train(t)) by {
        let k: int = match t {
            TrainingType::Speed => 0,
            TrainingType::Stamina => 1,
            TrainingType::Power => 2,
            TrainingType::Guts => 3,
            TrainingType::Wisdom => 4,
        };
        assert(ops[k] == Operation::Train(t));
    }
    assert(ops[5 + nb] == Operation::Rest);
    if can_race {
        assert(ops[5] == Operation::Race);
    }
    if !is_xiahesu {
        assert(ops[6 + nb] == Operation::NormalOuting);
    }
    if can_friend_outing && !is_xiahesu {
        assert(ops[6 + nb + nd] == Operation::FriendOuting);
    }
    if is_ill && !is_xiahesu {
        assert(ops[6 + nb + nd + ne] == Operation::Clinic);
    }
}

/// Base operations of a turn (see [`operations_spec`] for the menu rules).
pub fn list_operations(can_friend_outing: bool, is_ill: bool, is_xiahesu: bool, can_race: bool) -> (r: Vec<
    Operation,
>)
    ensures
        r@ == operations_spec(can_friend_outing, is_ill, is_xiahesu, can_race),
{
    let mut ops: Vec<Operation> = Vec::new();
    ops.push(Operation::Train(TrainingType::Speed));
    ops.push(Operation::Train(TrainingType::Stamina));
    ops.push(Operation::Train(TrainingType::Power));
    ops.push(Operation::Train(TrainingType::Guts));
    ops.push(Operation::Train(TrainingType::Wisdom));
    let ghost s1 = ops@;
    if can_race {
        ops.push(Operation::Race);
    }
    let ghost s2 = ops@;
    ops.push(Operation::Rest);
    let ghost s3 = ops@;
    if !is_xiahesu {
        ops.push(Operation::NormalOuting);
    }
    let ghost s4 = ops@;
    if can_friend_outing && !is_xiahesu {
        ops.push(Operation::FriendOuting);
    }
    let ghost s5 = ops@;
    if is_ill && !is_xiahesu {
        ops.push(Operation::Clinic);
    }
    assert(ops@ =~= operations_spec(can_friend_outing, is_ill, is_xiahesu, can_race));
    ops
}

/// Every combination of an eating choice and a base operation, choice-major;
/// there are `(available_ramens.len() + 1) * operations` of them.
pub fn list_all_actions(
    available_ramens: &[usize],
    can_friend_outing: bool,
    is_ill: bool,
    is_xiahesu: bool,
    can_race: bool,
) -> (r: Vec<RamenAction>)
    ensures
        r@ == all_actions_spec(
            ramen_choices_spec(available_ramens@),
            operations_spec(can_friend_outing, is_ill, is_xiahesu, can_race),
        ),
        r@.len() == (available_ramens@.len() + 1) * operations_spec(
            can_friend_outing,
            is_ill,
            is_xiahesu,
            can_race,
        ).len(),
{
    let ramen_choices = list_ramen_choices(available_ramens);
    let operations = list_operations(can_friend_outing, is_ill, is_xiahesu, can_race);
    let ghost ops = operations@;
    let mut actions: Vec<RamenAction> = Vec::new();
    let mut i: usize = 0;
    while i < ramen_choices.len()
        invariant
            i <= ramen_choices@.len(),
            ops == operations@,
            actions@ == all_actions_spec(ramen_choices@.take(i as int), ops),
        decreases ramen_choices@.len() - i,
    {
        let ramen = ramen_choices[i];
        let ghost before = actions@;
        let mut j: usize = 0;
        while j < operations.len()
            invariant
                j <= ops.len(),
                ops == operations@,
                actions@ == before + ops.take(j as int).map_values(|op: Operation| combo_action(ramen, op)),
            decreases ops.len() - j,
        {
            let op = operations[j];
            match ramen {
                None => actions.push(RamenAction::no_ramen(op)),
                Some(idx) => actions.push(RamenAction::with_ramen(idx, op)),
            }
            proof {
                assert(ops.take(j + 1).map_values(|op: Operation| combo_action(ramen, op)) =~= ops.take(
                    j as int,
                ).map_values(|op: Operation| combo_action(ramen, op)).push(combo_action(ramen, ops[j as int])));
            }
            j = j + 1;
        }
        proof {
            assert(ops.take(ops.len() as int) =~= ops);
            let pre = ramen_choices@.take(i as int);
            assert(ramen_choices@.take(i + 1) =~= pre.push(ramen));
            pre.lemma_flat_map_push(combos_for(ops), ramen);
            assert(combos_for(ops)(ramen) =~= ops.map_values(|op: Operation| combo_action(ramen, op)));
        }
        i = i + 1;
    }
    proof {
        assert(ramen_choices@.take(ramen_choices@.len() as int) =~= ramen_choices@);
        assert forall|c: Option<usize>| #[trigger] combos_for(ops)(c).len() == ops.len() by {}
        lemma_flat_map_uniform_len(ramen_choices@, combos_for(ops), ops.len());
        assert(ramen_choices@.len() == available_ramens@.len() + 1);
    }
    actions
}

/// Candidates of the `Train` stage: one action per base operation.
pub fn list_train_actions(can_friend_outing: bool, is_ill: bool, is_xiahesu: bool, can_race: bool) -> (r: Vec<
    RamenAction,
>)
    ensures
        r@ == operations_spec(can_friend_outing, is_ill, is_xiahesu, can_race).map_values(
            |op: Operation| train_action(op),
        ),
{
    let operations = list_operations(can_friend_outing, is_ill, is_xiahesu, can_race);
    let mut actions: Vec<RamenAction> = Vec::new();
    let mut j: usize = 0;
    while j < operations.len()
        invariant
            j <= operations@.len(),
            actions@ == operations@.take(j as int).map_values(|op: Operation| train_action(op)),
        decreases operations@.len() - j,
    {
        actions.push(RamenAction::new(operations[j]));
        proof {
            assert(operations@.take(j + 1).map_values(|op: Operation| train_action(op)) =~= operations@.take(
                j as int,
            ).map_values(|op: Operation| train_action(op)).push(train_action(operations@[j as int])));
        }
        j = j + 1;
    }
    assert(operations@.take(operations@.len() as int) =~= operations@);
    actions
}

/// Regions of the year whose bowl can be made now, in selection order.
pub open spec fn available_spec(state: RamenState, recipes: Seq<[i32; 3]>, selected: Seq<usize>) -> Seq<usize> {
    selected.filter(|r: usize| region_makeable(state, recipes, r))
}

/// Whether a region has at least one legal hidden-flavour use.
fn region_has_targets(state: &RamenState, region_id: usize, recipes: &[[i32; 3]]) -> (b: bool)
    ensures
        b == region_makeable(*state, recipes@, region_id),
{
    match list_special_targets_for(state, region_id, recipes) {
        Ok(targets) => {
            let b = targets.len() > 0;
            proof {
                let recipe = recipes@[region_id as int];
                if b {
                    assert(targets@.contains(targets@[0]));
                } else {
                    assert forall|t: [i32; 3]|
                        !valid_target(recipe, state.feeling_stock, state.special_feeling, t) by {
                        if valid_target(recipe, state.feeling_stock, state.special_feeling, t) {
                            assert(targets@.contains(t));
                        }
                    }
                }
            }
            b
        },
        Err(_) => false,
    }
}

/// Bowls of the selected regions that can be made now (a legal hidden-flavour
/// use exists, so a bowl short of regular feelings still counts when hidden
/// flavour covers the gap). `recipes[r]` is the recipe of region `r`.
pub fn get_available_ramens(state: &RamenState, selected_regions: &[usize; 3], recipes: &[[i32; 3]]) -> (r: Vec<
    usize,
>)
    ensures
        r@ == available_spec(*state, recipes@, selected_regions@),
{
    let mut available: Vec<usize> = Vec::new();
    let mut i: usize = 0;
    while i < 3
        invariant
            i <= 3,
            selected_regions@.len() == 3,
            available@ == available_spec(*state, recipes@, selected_regions@.take(i as int)),
        decreases 3 - i,
    {
        let region_id = selected_regions[i];
        let ok = region_has_targets(state, region_id, recipes);
        if ok {
            available.push(region_id);
        }
        proof {
            let pred = |r: usize| region_makeable(*state, recipes@, r);
            assert(selected_regions@.take(i + 1) =~= selected_regions@.take(i as int).push(region_id));
            selected_regions@.take(i as int).lemma_filter_push(region_id, pred);
        }
        i = i + 1;
    }
    assert(selected_regions@.take(3) =~= selected_regions@);
    available
}

/// A selected region is offered exactly when its hidden-flavour uses, as
/// [`list_special_targets_for`] lists them, are not empty; a region without a
/// recipe (for which the listing is an error) is never offered.
pub proof fn lemma_region_offered_iff_listed(
    state: RamenState,
    recipes: Seq<[i32; 3]>,
    selected: Seq<usize>,
    region: usize,
    listing: Seq<[i32; 3]>,
)
    requires
        region < recipes.len() ==> is_target_listing(
            recipes[region as int],
            state.feeling_stock,
            state.special_feeling,
            listing,
        ),
    ensures
        region >= recipes.len() ==> !available_spec(state, recipes, selected).contains(region),
        region < recipes.len() ==> (available_spec(state, recipes, selected).contains(region) <==> (
        selected.contains(region) && listing.len() > 0)),
{
    let pred = |r: usize| region_makeable(state, recipes, r);
    if available_spec(state, recipes, selected).contains(region) {
        selected.lemma_filter_contains_rev(pred, region);
        let k = choose|k: int| 0 <= k < selected.filter(pred).len() && selected.filter(pred)[k] == region;
        selected.filter_lemma(pred);
        assert(pred(region));
        if region < recipes.len() {
            let t = choose|t: [i32; 3]|
                valid_target(recipes[region as int], state.feeling_stock, state.special_feeling, t);
            assert(listing.contains(t));
        }
    }
    if region < recipes.len() && selected.contains(region) && listing.len() > 0 {
        assert(listing.contains(listing[0]));
        assert(pred(region));
        let k = choose|k: int| 0 <= k < selected.len() && selected[k] == region;
        selected.lemma_filter_contains(pred, k);
    }
}

/// Candidates of the `RamenSelect` stage: no ramen, then each makeable bowl.
pub fn list_ramen_select_actions(state: &RamenState, selected_regions: &[usize; 3], recipes: &[[i32; 3]]) -> (r:
    Vec<RamenAction>)
    ensures
        r@ == seq![ramen_select_action(None)] + available_spec(*state, recipes@, selected_regions@).map_values(
            |id: usize| ramen_select_action(Some(id)),
        ),
{
    let available = get_available_ramens(state, selected_regions, recipes);
    let mut actions: Vec<RamenAction> = Vec::new();
    actions.push(RamenAction::ramen_select(None));
    let mut i: usize = 0;
    while i < available.len()
        invariant
            i <= available@.len(),
            actions@ == seq![ramen_select_action(None)] + available@.take(i as int).map_values(
                |id: usize| ramen_select_action(Some(id)),
            ),
        decreases available@.len() - i,
    {
        actions.push(RamenAction::ramen_select(Some(available[i])));
        proof {
            assert(available@.take(i + 1).map_values(|id: usize| ramen_select_action(Some(id)))
                =~= available@.take(i as int).map_values(|id: usize| ramen_select_action(Some(id))).push(
                ramen_select_action(Some(available@[i as int])),
            ));
        }
        i = i + 1;
    }
    assert(available@.take(available@.len() as int) =~= available@);
    actions
}

/// Candidates of the `SpecialSelect` stage: one per legal target of the bowl,
/// in candidate order; fails when the bowl's region has no recipe.
pub fn list_special_select_actions(state: &RamenState, ramen_idx: usize, recipes: &[[i32; 3]]) -> (r: Result<
    Vec<RamenAction>,
    RulesError,
>)
    ensures
        ramen_idx >= recipes@.len() ==> r == Err::<Vec<RamenAction>, RulesError>(
            RulesError::UnknownRegion(ramen_idx),
        ),
        ramen_idx < recipes@.len() ==> r is Ok && r->Ok_0@ == special_targets(
            recipes@[ramen_idx as int],
            state.feeling_stock,
            state.special_feeling,
        ).map_values(|t: [i32; 3]| special_select_action(ramen_idx, t)),
{
    let targets = match list_special_targets_for(state, ramen_idx, recipes) {
        Ok(t) => t,
        Err(e) => return Err(e),
    };
    let mut actions: Vec<RamenAction> = Vec::new();
    let mut i: usize = 0;
    while i < targets.len()
        invariant
            i <= targets@.len(),
            actions@ == targets@.take(i as int).map_values(|t: [i32; 3]| special_select_action(ramen_idx, t)),
        decreases targets@.len() - i,
    {
        actions.push(RamenAction::special_select(ramen_idx, targets[i]));
        proof {
            assert(targets@.take(i + 1).map_values(|t: [i32; 3]| special_select_action(ramen_idx, t))
                =~= targets@.take(i as int).map_values(|t: [i32; 3]| special_select_action(ramen_idx, t)).push(
                special_select_action(ramen_idx, targets@[i as int]),
            ));
        }
        i = i + 1;
    }
    assert(targets@.take(targets@.len() as int) =~= targets@);
    Ok(actions)
}

/// Combined-decision candidates of one region: every legal target of its bowl.
pub open spec fn combined_for(state: RamenState, recipes: Seq<[i32; 3]>) -> spec_fn(usize) -> Seq<RamenAction> {
    |id: usize|
        region_targets(state, recipes, id).map_values(
            |t: [i32; 3]| combined_select_action(Some(id), t),
        )
}

/// Candidates of the combined decision: no ramen, then for each selected region
/// every legal target of its bowl (regions without recipe contribute nothing).
pub fn list_combined_ramen_select_actions(
    state: &RamenState,
    selected_regions: &[usize; 3],
    recipes: &[[i32; 3]],
) -> (r: Vec<RamenAction>)
    ensures
        r@ == seq![combined_select_action(None, [0i32, 0, 0])] + selected_regions@.flat_map(
            combined_for(*state, recipes@),
        ),
{
    let mut actions: Vec<RamenAction> = Vec::new();
    actions.push(RamenAction::combined_select(None, [0, 0, 0]));
    let ghost f = combined_for(*state, recipes@);
    let mut i: usize = 0;
    while i < 3
        invariant
            i <= 3,
            selected_regions@.len() == 3,
            f == combined_for(*state, recipes@),
            actions@ == seq![combined_select_action(None, [0i32, 0, 0])] + selected_regions@.take(
                i as int,
            ).flat_map(f),
        decreases 3 - i,
    {
        let region_id = selected_regions[i];
        let targets_vec: Vec<[i32; 3]> = match list_special_targets_for(state, region_id, recipes) {
            Ok(t) => t,
            Err(_) => Vec::new(),
        };
        assert(targets_vec@ == region_targets(*state, recipes@, region_id));
        let ghost before = actions@;
        let mut j: usize = 0;
        while j < targets_vec.len()
            invariant
                j <= targets_vec@.len(),
                actions@ == before + targets_vec@.take(j as int).map_values(
                    |t: [i32; 3]| combined_select_action(Some(region_id), t),
                ),
            decreases targets_vec@.len() - j,
        {
            actions.push(RamenAction::combined_select(Some(region_id), targets_vec[j]));
            proof {
                assert(targets_vec@.take(j + 1).map_values(|t: [i32; 3]| combined_select_action(Some(region_id), t))
                    =~= targets_vec@.take(j as int).map_values(
                    |t: [i32; 3]| combined_select_action(Some(region_id), t),
                ).push(combined_select_action(Some(region_id), targets_vec@[j as int])));
            }
            j = j + 1;
        }
        proof {
            assert(targets_vec@.take(targets_vec@.len() as int) =~= targets_vec@);
            let pre = selected_regions@.take(i as int);
            assert(selected_regions@.take(i + 1) =~= pre.push(region_id));
            pre.lemma_flat_map_push(f, region_id);
            assert(f(region_id) =~= targets_vec@.map_values(|t: [i32; 3]| combined_select_action(Some(region_id), t)));
            assert(actions@ =~= seq![combined_select_action(None, [0i32, 0, 0])] + selected_regions@.take(
                i + 1,
            ).flat_map(f));
        }
        i = i + 1;
    }
    assert(selected_regions@.take(3) =~= selected_regions@);
    actions
}

} // verus!
