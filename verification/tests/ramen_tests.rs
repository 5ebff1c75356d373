use umasim::ramen::action::{
    get_available_ramens, list_all_actions, list_combined_ramen_select_actions, list_operations, list_ramen_choices,
    list_ramen_select_actions, list_special_select_actions, list_train_actions, BaseAction, RamenAction,
};
use umasim::ramen::apply::{ApplyError, ApplyStep, CloneError, OutingError};
use umasim::ramen::events::{
    find_rmj_event, find_scenario_event, rmj_event_year, select_rmj_choice_by_result, ActionValue, EventChoice,
    EventData,
};
use umasim::ramen::rules::{list_special_targets_for, RulesError};
use umasim::ramen::{Operation, RamenStage, RamenState, TrainingType};

#[test]
fn test_ramen_action_properties() {
    let a1 = RamenAction::no_ramen(Operation::Rest);
    assert!(!a1.is_eating_ramen());
    assert_eq!(a1.base_operation(), Operation::Rest);

    let a2 = RamenAction::with_ramen(5, Operation::Race);
    assert!(a2.is_eating_ramen());
    assert_eq!(a2.ramen, Some(5));
    assert_eq!(a2.base_operation(), Operation::Race);
}

#[test]
fn test_list_ramen_choices() {
    let choices = list_ramen_choices(&[]);
    println!("no bowl available: {choices:?}");
    assert_eq!(choices, vec![None]);

    let choices = list_ramen_choices(&[0, 1, 2]);
    println!("three bowls available: {choices:?}");
    assert_eq!(choices, vec![None, Some(0), Some(1), Some(2)]);
}

#[test]
fn test_list_operations() {
    let ops = list_operations(false, false, false, true);
    assert_eq!(ops.len(), 8);
    let ops = list_operations(true, true, false, true);
    assert_eq!(ops.len(), 10);
    let ops = list_operations(false, false, true, true);
    assert_eq!(ops.len(), 7);
    let ops = list_operations(true, true, true, true);
    assert_eq!(ops.len(), 7);
    let ops = list_operations(false, false, false, false);
    assert_eq!(ops.len(), 7);
}

#[test]
fn test_list_train_actions_no_ramen_field() {
    let actions = list_train_actions(false, false, false, true);
    println!("train candidates: {actions:#?}");
    assert_eq!(actions.len(), 8);
    for a in &actions {
        assert_eq!(a.ramen, None);
        assert_eq!(a.special_targets, None);
    }
    let actions = list_train_actions(true, true, false, true);
    assert_eq!(actions.len(), 10);
    let actions = list_train_actions(true, true, true, true);
    assert_eq!(actions.len(), 7);
}

#[test]
fn test_combined_select_normalizes_targets_when_no_ramen() {
    let a = RamenAction::combined_select(None, [1, 2, 3]);
    println!("no bowl with any targets: {a:?}");
    assert_eq!(a.ramen, None);
    assert_eq!(a.special_targets, Some([0, 0, 0]));
    assert!(matches!(a.operation, Operation::StageOnly));
}

#[test]
fn test_combined_select_keeps_targets_when_eating() {
    let a = RamenAction::combined_select(Some(5), [1, 0, 1]);
    println!("bowl 5 with targets [1,0,1]: {a:?}");
    assert_eq!(a.ramen, Some(5));
    assert_eq!(a.special_targets, Some([1, 0, 1]));
    assert!(matches!(a.operation, Operation::StageOnly));
}

#[test]
fn list_all_actions_is_choice_major() {
    let all = list_all_actions(&[3], false, false, false, true);
    assert_eq!(all.len(), 2 * 8);
    assert_eq!(all[0], RamenAction::no_ramen(Operation::Train(TrainingType::Speed)));
    assert_eq!(all[8], RamenAction::with_ramen(3, Operation::Train(TrainingType::Speed)));
    assert_eq!(all[15], RamenAction::with_ramen(3, Operation::NormalOuting));
}

fn state_with(stock: [i32; 3], special: i32) -> RamenState {
    let mut s = RamenState::default();
    s.feeling_stock = stock;
    s.special_feeling = special;
    s
}

#[test]
fn special_targets_listing() {
    // recipe A2 B1 with stock A1 B1: at least one A must be replaced
    let s = state_with([1, 1, 0], 2);
    let recipes = [[2, 1, 0]];
    let t = list_special_targets_for(&s, 0, &recipes).unwrap();
    assert_eq!(t, vec![[1, 0, 0], [1, 1, 0], [2, 0, 0]]);
    assert_eq!(list_special_targets_for(&s, 1, &recipes), Err(RulesError::UnknownRegion(1)));
    // not enough hidden flavour: no target
    let poor = state_with([0, 0, 0], 1);
    assert!(list_special_targets_for(&poor, 0, &recipes).unwrap().is_empty());
}

#[test]
fn available_ramens_and_select_lists() {
    let s = state_with([1, 1, 0], 2);
    let recipes = [[2, 1, 0], [0, 0, 3], [1, 0, 0]];
    let avail = get_available_ramens(&s, &[0, 1, 2], &recipes);
    assert_eq!(avail, vec![0, 2]);
    let sel = list_ramen_select_actions(&s, &[0, 1, 2], &recipes);
    assert_eq!(sel, vec![RamenAction::ramen_select(None), RamenAction::ramen_select(Some(0)), RamenAction::ramen_select(Some(2))]);
    let sp = list_special_select_actions(&s, 2, &recipes).unwrap();
    assert_eq!(sp[0], RamenAction::special_select(2, [0, 0, 0]));
    assert_eq!(list_special_select_actions(&s, 9, &recipes), Err(RulesError::UnknownRegion(9)));
    let combined = list_combined_ramen_select_actions(&s, &[0, 1, 2], &recipes);
    assert_eq!(combined[0], RamenAction::combined_select(None, [0, 0, 0]));
    assert!(combined.len() >= 3);
}

fn rmj_choices() -> Vec<EventChoice> {
    vec![
        EventChoice {
            result: 2,
            value: ActionValue { status_pt: [10, 10, 10, 10, 10, 100], vital: 33, ..Default::default() },
            ..Default::default()
        },
        EventChoice {
            result: 1,
            value: ActionValue { status_pt: [5, 5, 5, 5, 5, 50], vital: 30, ..Default::default() },
            ..Default::default()
        },
    ]
}

#[test]
fn test_select_rmj_choice_by_result() {
    let choices = rmj_choices();
    let picked = select_rmj_choice_by_result(&choices, Some(true)).unwrap();
    println!("success branch result={}, value={:?}", picked.result, picked.value);
    assert_eq!(picked.result, 2);
    assert_eq!(picked.value.status_pt[5], 100);

    let picked = select_rmj_choice_by_result(&choices, Some(false)).unwrap();
    assert_eq!(picked.result, 1);
    assert_eq!(picked.value.status_pt[5], 50);

    let picked = select_rmj_choice_by_result(&choices, None).unwrap();
    assert_eq!(picked.result, 2);

    let picked = select_rmj_choice_by_result(&[], Some(true));
    assert!(picked.is_none());
}

#[test]
fn test_rmj_event_year() {
    assert_eq!(rmj_event_year(401404), Some(0));
    assert_eq!(rmj_event_year(401405), Some(1));
    assert_eq!(rmj_event_year(401406), Some(2));
    assert_eq!(rmj_event_year(401407), None);
    assert_eq!(rmj_event_year(0), None);
}

#[test]
fn rmj_event_lookup() {
    let events = vec![
        EventData { id: 1, name: "a".into() },
        EventData { id: 401405, name: "rmj2".into() },
        EventData { id: 401405, name: "dup".into() },
    ];
    assert_eq!(find_rmj_event(&events, 1).map(|e| e.name), Some("rmj2".to_string()));
    assert!(find_rmj_event(&events, 0).is_none());
    assert_eq!(find_scenario_event(&events, 1).map(|e| e.name), Some("a".to_string()));
    // a failing settlement without a failure branch falls back to the first branch
    let only_success = vec![rmj_choices()[0]];
    assert_eq!(select_rmj_choice_by_result(&only_success, Some(false)).unwrap().result, 2);
}

#[test]
fn stage_successors() {
    assert_eq!(RamenStage::Begin.next(), Some(RamenStage::Distribute));
    assert_eq!(RamenStage::Train.next(), Some(RamenStage::AfterTrain));
    assert_eq!(RamenStage::NextTurn.next(), None);
    assert_eq!(RamenStage::default(), RamenStage::Begin);
}

#[test]
fn apply_by_stage() {
    let mut s = RamenState::default();
    s.pending_special_targets = [1, 1, 1];
    let a = RamenAction::ramen_select(Some(4));
    assert_eq!(a.apply(RamenStage::RamenSelect, &mut s, false), Ok((None, vec![])));
    assert_eq!(s.pending_ramen, Some(4));
    assert_eq!(s.pending_special_targets, [0, 0, 0]);

    // a race turn runs the race at once and moves to AfterTrain
    let race = RamenAction::no_ramen(Operation::Race);
    assert_eq!(
        race.apply(RamenStage::RamenSelect, &mut s, false),
        Ok((Some(RamenStage::AfterTrain), vec![ApplyStep::Base(BaseAction::Race)]))
    );

    let sp = RamenAction::special_select(4, [1, 0, 2]);
    assert_eq!(sp.apply(RamenStage::SpecialSelect, &mut s, false), Ok((None, vec![])));
    assert_eq!(s.pending_special_targets, [1, 0, 2]);
    assert_eq!(
        RamenAction::ramen_select(Some(4)).apply(RamenStage::SpecialSelect, &mut s, false),
        Err(ApplyError::MissingTargets)
    );

    let rest = RamenAction::no_ramen(Operation::Rest);
    assert_eq!(
        rest.apply(RamenStage::Train, &mut s, true),
        Ok((None, vec![ApplyStep::Base(BaseAction::Sleep), ApplyStep::CureAtCamp, ApplyStep::FillGaugeNonTrain]))
    );
    let train = RamenAction::no_ramen(Operation::Train(TrainingType::Power));
    assert_eq!(train.apply(RamenStage::Train, &mut s, false), Ok((None, vec![ApplyStep::Train(2)])));
    let outing = RamenAction::no_ramen(Operation::FriendOuting);
    assert_eq!(
        outing.apply(RamenStage::Train, &mut s, false),
        Ok((None, vec![ApplyStep::FriendOuting, ApplyStep::FillGaugeNonTrain]))
    );
    // outside the decision stages a friend outing is the base action
    assert_eq!(
        outing.apply(RamenStage::Begin, &mut s, false),
        Ok((None, vec![ApplyStep::Base(BaseAction::FriendOuting), ApplyStep::FillGaugeNonTrain]))
    );
    let region = RamenAction::no_ramen(Operation::RegionSelect([3, 5, 7]));
    assert_eq!(region.apply(RamenStage::RegionSelect, &mut s, false), Ok((None, vec![])));
    assert_eq!(s.selected_regions, [3, 5, 7]);
}

#[test]
fn clone_placement() {
    // persons 0..6 are cards, 6.. are NPCs
    let is_npc: Vec<bool> = (0..10).map(|p| p >= 6).collect();
    let mut dist: Vec<Vec<i32>> = vec![vec![0, 1], vec![0, 1, 2, 3, 4], vec![6, 7, 0, 1, 2], vec![], vec![]];
    assert_eq!(RamenAction::try_add_clone(&mut dist, &is_npc, 5, 0), Ok(()));
    assert_eq!(dist[0], vec![0, 1, 5]);
    assert_eq!(RamenAction::try_add_clone(&mut dist, &is_npc, 5, 0), Err(CloneError::AlreadyThere));
    assert_eq!(RamenAction::try_add_clone(&mut dist, &is_npc, 5, 1), Err(CloneError::FullOfNonNpc));
    assert_eq!(RamenAction::try_add_clone(&mut dist, &is_npc, 5, 2), Ok(()));
    assert_eq!(dist[2], vec![7, 0, 1, 2, 5]);
    assert_eq!(RamenAction::try_add_clone(&mut dist, &is_npc, 4, 5), Err(CloneError::TrainOutOfRange));
    let mut full: Vec<Vec<i32>> = vec![vec![0, 1, 2, 3, -1], vec![], vec![], vec![], vec![]];
    assert_eq!(RamenAction::try_add_clone(&mut full, &is_npc, 5, 0), Err(CloneError::NoNpcToReplace));
    assert_eq!(full[0], vec![0, 1, 2, 3, -1]);
}

#[test]
fn friend_outing_slots() {
    let a = RamenAction::no_ramen(Operation::FriendOuting);
    let mut used = [true, false, false, false, false];
    let mut special = 1;
    assert_eq!(a.do_friend_outing(&mut used, &mut special), Ok(1));
    assert_eq!(used, [true, true, false, false, false]);
    assert_eq!(special, 3);
    assert_eq!(a.do_friend_outing(&mut used, &mut special), Ok(2));
    assert_eq!(special, 4);
    let mut all = [true; 5];
    assert_eq!(a.do_friend_outing(&mut all, &mut special), Err(OutingError::AllUsed));
    assert_eq!(special, 4);
}

#[test]
fn action_texts() {
    let train_names: Vec<String> = ["速", "耐", "力", "根", "智"].iter().map(|s| s.to_string()).collect();
    let regions: Vec<String> = ["中山-全", "札幌", "函馆"].iter().map(|s| s.to_string()).collect();
    assert_eq!(RamenAction::no_ramen(Operation::Train(TrainingType::Speed)).text(&train_names, &regions), "速训练");
    assert_eq!(
        RamenAction::with_ramen(0, Operation::Train(TrainingType::Wisdom)).text(&train_names, &regions),
        "吃面/中山-全 + 智训练"
    );
    assert_eq!(RamenAction::no_ramen(Operation::Race).text(&train_names, &regions), "比赛");
    assert_eq!(RamenAction::with_ramen(5, Operation::Rest).text(&train_names, &regions), "吃面/??? + 休息");
    let mut a5 = RamenAction::with_ramen(0, Operation::Train(TrainingType::Speed));
    a5.special_targets = Some([1, 1, 0]);
    assert_eq!(a5.text(&train_names, &regions), "吃面/中山-全(替换Ax1+Bx1) + 速训练");
    assert_eq!(RamenAction::ramen_select(Some(0)).text(&train_names, &regions), "吃面/中山-全");
    assert_eq!(RamenAction::ramen_select(None).text(&train_names, &regions), "不吃面");
    assert_eq!(RamenAction::special_select(0, [0, 0, 2]).text(&train_names, &regions), "吃面/中山-全(替换Cx2)");
    assert_eq!(
        RamenAction::no_ramen(Operation::RegionSelect([2, 9, 1])).text(&train_names, &regions),
        "地区[函馆,札幌]"
    );
    assert_eq!(RamenAction::combined_select(Some(1), [0, 0, 0]).ramen_decision_text(&regions), "吃面/札幌");
    assert_eq!(RamenAction::no_ramen(Operation::Clinic).operation_text(&train_names, &regions), "治病");
}
