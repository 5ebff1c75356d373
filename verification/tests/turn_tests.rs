use rand::rngs::StdRng;
use rand::SeedableRng;
use umasim::ramen::action::RamenAction;
use umasim::ramen::clones::{
    distribute_region_clones, distribute_region_clones_with, distribute_super_ramen_clones,
    distribute_super_ramen_clones_with,
};
use umasim::ramen::flow::{next_flow, FlowState};
use umasim::ramen::info::{explain_ramen_info, RamenEffectNumbers, RamenInfoView};
use umasim::ramen::grounding::{close_turn, finish_step, ground_ramen, ground_ramen_effects};
use umasim::ramen::events::{triggered_events, ActionValue, EventChoice, TriggerType};
use umasim::ramen::persons::{
    add_friend_and_npcs, add_friendship, add_person, apply_ramen_friendship, distribute_hint, friend_unlock_odds,
    handle_friend_click, hint_event, hint_event_persons, hint_special_active, hint_special_at_trains,
    is_hint_special_active_for_train, is_shining_at, manage_persons_on_turn_start, person_is_available,
    post_train_friendship, train_level, FriendClickEvent, FriendOutState, HintEvent, Person, PersonType,
    UnlockOdds,
};
use umasim::ramen::rules::RulesError;
use umasim::ramen::stage::{
    add_mandatory_events, begin_turn, generate_events, init_feeling_stocks, list_actions, region_select_choice,
    run_super_ramen_select, DeckCard, GeneralEvent, MandatoryEvent, RegionChoice, RegionSelectError, StageError,
    TurnEvents, TurnView,
};
use umasim::config::RamenRegionStrategy;
use umasim::ramen::setup::{check_deck, deck_can_split, has_new_friend, init_persons, scenario_status_limits, SetupError};
use umasim::ramen::training::{
    calc_hint_bonus_pct, gauge_head_counts, handle_train_failure, update_refresh_mind, FailureEvent, RefreshMindStep,
};
use umasim::ramen::{FeelingType, Operation, RamenStage, RamenState, TrainingType};

fn person(t: PersonType, train_type: i32, friendship: i32) -> Person {
    Person { person_index: 0, person_type: t, train_type, chara_id: 1000, friendship, is_hint: false }
}

/// Six deck persons (five cards on trainings 0-4 and the friend), the
/// chairwoman and three NPCs.
fn cast() -> Vec<Person> {
    let mut ps = Vec::new();
    for t in 0..5 {
        add_person(&mut ps, person(PersonType::Card, t, 50));
    }
    add_person(&mut ps, person(PersonType::ScenarioCard, -1, 30));
    add_person(&mut ps, person(PersonType::Yayoi, -1, 0));
    for _ in 0..3 {
        add_person(&mut ps, person(PersonType::Npc, -1, 0));
    }
    ps
}

#[test]
fn persons_get_consecutive_indices() {
    let ps = cast();
    for (i, p) in ps.iter().enumerate() {
        assert_eq!(p.person_index, i as i32);
    }
}

#[test]
fn friendship_caps_and_skips_npcs() {
    let mut ps = cast();
    let mut deck = [50, 50, 50, 50, 50, 30];
    add_friendship(&mut ps, &mut deck, 0, 45);
    assert_eq!(ps[0].friendship, 95);
    assert_eq!(deck[0], 95);
    add_friendship(&mut ps, &mut deck, 0, 45);
    assert_eq!(ps[0].friendship, 100);
    assert_eq!(deck[0], 100);
    // an NPC gains nothing
    add_friendship(&mut ps, &mut deck, 7, 10);
    assert_eq!(ps[7].friendship, 0);
    // a person past the deck has no deck copy
    add_friendship(&mut ps, &mut deck, 6, 10);
    assert_eq!(ps[6].friendship, 10);
    assert_eq!(deck, [100, 50, 50, 50, 50, 30]);
    // an index outside the list changes nothing
    let before = ps.clone();
    add_friendship(&mut ps, &mut deck, 99, 10);
    assert_eq!(ps, before);
}

#[test]
fn shining_rules() {
    let mut ps = cast();
    ps[1].friendship = 80;
    assert!(is_shining_at(&ps, 1, 1, 0));
    assert!(!is_shining_at(&ps, 1, 2, 0));
    ps[1].friendship = 79;
    assert!(!is_shining_at(&ps, 1, 1, 0));
    assert!(is_shining_at(&ps, 5, 3, 2));
    assert!(!is_shining_at(&ps, 5, 3, 0));
    assert!(!is_shining_at(&ps, 7, 0, 5));
    assert!(!is_shining_at(&ps, 42, 0, 5));
}

#[test]
fn presence_by_turn() {
    let mut ps = cast();
    add_person(&mut ps, person(PersonType::Reporter, -1, 0));
    assert!(!person_is_available(&ps, 5, 1));
    assert!(person_is_available(&ps, 5, 2));
    assert!(!person_is_available(&ps, 10, 11));
    assert!(person_is_available(&ps, 10, 12));
    assert!(person_is_available(&ps, 0, 0));
}

#[test]
fn training_levels() {
    let counts = [0, 7, 12, 30, 3];
    assert_eq!(train_level(false, &counts, 0, 0), 1);
    assert_eq!(train_level(false, &counts, 1, 0), 2);
    assert_eq!(train_level(false, &counts, 2, 1), 5);
    assert_eq!(train_level(false, &counts, 3, 0), 5);
    assert_eq!(train_level(false, &counts, 4, 2), 3);
    assert_eq!(train_level(true, &counts, 0, 0), 5);
}

#[test]
fn ramen_friendship_by_year() {
    let basic = [0, 5, 10];
    let mut eating = RamenState::default();
    eating.current_ramen = Some(3);
    // third year, a bowl eaten: cards and the friend gain 10
    let mut ps = cast();
    ps[2].friendship = 95;
    let mut deck = [50, 50, 95, 50, 50, 30];
    apply_ramen_friendship(&mut ps, &mut deck, &eating, 60, &basic);
    assert_eq!(ps[0].friendship, 60);
    assert_eq!(ps[2].friendship, 100);
    assert_eq!(ps[5].friendship, 40);
    assert_eq!(ps[6].friendship, 0);
    assert_eq!(deck, [60, 60, 100, 60, 60, 40]);
    // first year: the entry is zero, nothing changes
    let mut ps1 = cast();
    let mut deck1 = [50, 50, 50, 50, 50, 30];
    apply_ramen_friendship(&mut ps1, &mut deck1, &eating, 3, &basic);
    assert_eq!(ps1, cast());
    // no bowl outside the super ramen: nothing
    let mut ps2 = cast();
    apply_ramen_friendship(&mut ps2, &mut deck1, &RamenState::default(), 60, &basic);
    assert_eq!(ps2, cast());
    // super ramen turn without a bowl: gains
    apply_ramen_friendship(&mut ps2, &mut deck1, &RamenState::default(), 72, &basic);
    assert_eq!(ps2[1].friendship, 60);
}

#[test]
fn training_follow_up() {
    let mut ps = cast();
    ps[0].is_hint = true;
    ps[3].is_hint = true;
    let mut deck = [50, 50, 50, 50, 50, 30];
    // card 0 and its clone, the friend, an empty place, an NPC, card 3
    let slot = [0, 0, 5, -1, 7, 3];
    let r = post_train_friendship(&mut ps, &mut deck, &slot, false);
    assert_eq!(ps[0].friendship, 64);
    assert_eq!(ps[5].friendship, 37);
    assert_eq!(ps[3].friendship, 57);
    assert_eq!(ps[7].friendship, 0);
    assert_eq!(deck, [64, 50, 50, 57, 50, 37]);
    assert_eq!(r.hint_persons, vec![0, 0, 3]);
    assert!(r.friend_clicked);
    let r2 = post_train_friendship(&mut ps, &mut deck, &[1], true);
    assert_eq!(ps[1].friendship, 59);
    assert!(r2.hint_persons.is_empty());
    assert!(!r2.friend_clicked);
}

#[test]
fn head_count_on_turn_start() {
    let friend = person(PersonType::ScenarioCard, -1, 0);
    let reporter = person(PersonType::Reporter, -1, 0);
    let mut ps: Vec<Person> = cast().into_iter().filter(|p| p.person_type != PersonType::Npc && p.person_type != PersonType::ScenarioCard).collect();
    let n = ps.len();
    assert_eq!(manage_persons_on_turn_start(&mut ps, 1, &[friend], &[11, 12], reporter), None);
    assert_eq!(ps.len(), n);
    assert_eq!(manage_persons_on_turn_start(&mut ps, 2, &[friend], &[11, 12], reporter), Some(n));
    assert_eq!(ps.len(), n + 3);
    assert_eq!(ps[n].person_type, PersonType::ScenarioCard);
    assert_eq!(ps[n + 1].person_type, PersonType::Npc);
    assert_eq!(ps[n + 2].chara_id, 12);
    assert_eq!(ps[n + 2].person_index, (n + 2) as i32);
    // the friend is there: a second turn 2 adds nobody
    assert_eq!(manage_persons_on_turn_start(&mut ps, 2, &[friend], &[11, 12], reporter), None);
    assert_eq!(ps.len(), n + 3);
    assert_eq!(manage_persons_on_turn_start(&mut ps, 12, &[friend], &[11], reporter), None);
    assert_eq!(ps.len(), n + 4);
    assert_eq!(ps[n + 3].person_type, PersonType::Reporter);
    assert_eq!(manage_persons_on_turn_start(&mut ps, 12, &[friend], &[11], reporter), None);
    assert_eq!(ps.len(), n + 4);
    // no friend card given: NPCs only
    let mut qs = Vec::new();
    assert_eq!(add_friend_and_npcs(&mut qs, &[], &[7, 8]), None);
    assert_eq!(qs.len(), 2);
}

fn eaten(region: usize) -> RamenState {
    let mut s = RamenState::default();
    s.current_ramen = Some(region);
    s
}

#[test]
fn special_hint_rule() {
    let by_year = [false, false, true];
    let four_kinds = [2, 1, 1, 1, 0];
    let three_kinds = [2, 2, 1, 0, 0];
    let at = vec![vec![0], vec![0, 1, 2, 3, 4]];
    assert!(!hint_special_active(&RamenState::default(), 60, &by_year, &four_kinds));
    assert!(!hint_special_active(&eaten(0), 10, &by_year, &four_kinds));
    assert!(!hint_special_active(&eaten(0), 30, &by_year, &four_kinds));
    assert!(hint_special_active(&eaten(0), 60, &by_year, &four_kinds));
    assert!(!hint_special_active(&eaten(0), 60, &by_year, &three_kinds));
    assert_eq!(hint_special_at_trains(&eaten(1), &at), vec![0, 1, 2, 3, 4]);
    assert!(hint_special_at_trains(&eaten(9), &at).is_empty());
    assert!(hint_special_at_trains(&RamenState::default(), &at).is_empty());
    assert!(is_hint_special_active_for_train(&eaten(0), 60, &by_year, &four_kinds, &at, 0));
    for t in 1..5 {
        assert!(!is_hint_special_active_for_train(&eaten(0), 60, &by_year, &four_kinds, &at, t));
        assert!(is_hint_special_active_for_train(&eaten(1), 60, &by_year, &four_kinds, &at, t));
    }
}

#[test]
fn hint_draw_and_forcing() {
    let by_year = [false, false, true];
    let four_kinds = [1, 1, 1, 1, 1];
    let at = vec![vec![2]];
    let dist = vec![vec![0], vec![1], vec![2, 3, 7], vec![4], vec![5]];
    let draws = [true, false, false, false, false, false, true, true, false, false];
    let mut ps = cast();
    distribute_hint(&mut ps, &draws, &eaten(0), 60, &by_year, &four_kinds, &at, &dist);
    let hints: Vec<bool> = ps.iter().map(|p| p.is_hint).collect();
    // cards take their draw; cards 2 and 3 stand on the listed training;
    // the chairwoman and the NPC keep theirs
    assert_eq!(hints, vec![true, false, true, true, false, false, false, false, false, false]);
    // without the rule only the draws count
    let mut qs = cast();
    distribute_hint(&mut qs, &draws, &RamenState::default(), 60, &by_year, &four_kinds, &at, &dist);
    let hints: Vec<bool> = qs.iter().map(|p| p.is_hint).collect();
    assert_eq!(hints, vec![true, false, false, false, false, false, false, false, false, false]);
}

#[test]
fn hint_event_targets() {
    let ps = cast();
    let bonus = [1, 0, 0, 2, 0, 0];
    // special rule: every card among the hint persons, NPC and chairwoman skipped
    assert_eq!(hint_event_persons(&ps, &[0, 7, 3, 6], &bonus, true, 0), vec![0, 0, 3, 3, 3]);
    // otherwise the drawn one only
    assert_eq!(hint_event_persons(&ps, &[0, 7, 3], &bonus, false, 2), vec![3, 3, 3]);
    assert_eq!(hint_event_persons(&ps, &[0, 7, 3], &bonus, false, 1), vec![7]);
    assert!(hint_event_persons(&ps, &[], &bonus, false, 0).is_empty());
}

#[test]
fn hint_event_levels() {
    let mut total = 0;
    assert_eq!(hint_event(2, &mut total, 10, false), HintEvent::Skill(3));
    assert_eq!(total, 3);
    assert_eq!(hint_event(7, &mut total, 10, false), HintEvent::Skill(5));
    assert_eq!(total, 8);
    assert_eq!(hint_event(7, &mut total, 10, false), HintEvent::Skill(2));
    assert_eq!(total, 10);
    // no allowance left: stat event whatever the draw
    assert_eq!(hint_event(7, &mut total, 10, false), HintEvent::Attr);
    assert_eq!(total, 10);
    let mut t2 = 0;
    assert_eq!(hint_event(2, &mut t2, 10, true), HintEvent::Attr);
    assert_eq!(t2, 0);
}

#[test]
fn friend_state() {
    let mut s = FriendOutState::UnClicked;
    assert_eq!(handle_friend_click(&mut s), FriendClickEvent::First);
    assert_eq!(s, FriendOutState::BeforeUnlock);
    assert_eq!(handle_friend_click(&mut s), FriendClickEvent::Click);
    assert_eq!(s, FriendOutState::BeforeUnlock);
    let mut ps = cast();
    assert_eq!(friend_unlock_odds(10, &[0, 1], FriendOutState::BeforeUnlock, &ps, 5), Some(UnlockOdds::Low));
    ps[5].friendship = 60;
    assert_eq!(friend_unlock_odds(10, &[0, 1], FriendOutState::BeforeUnlock, &ps, 5), Some(UnlockOdds::High));
    assert_eq!(friend_unlock_odds(1, &[0, 1], FriendOutState::BeforeUnlock, &ps, 5), None);
    assert_eq!(friend_unlock_odds(10, &[0, 1], FriendOutState::AfterUnlock, &ps, 5), None);
}

fn view(stage: RamenStage, turn: i32) -> TurnView {
    TurnView { stage, turn, is_race_turn: false, can_friend_outing: false, is_ill: false, is_xiahesu: false, can_race: true }
}

#[test]
fn stage_candidates() {
    let mut s = RamenState::default();
    s.feeling_stock = [1, 1, 0];
    s.special_feeling = 2;
    s.selected_regions = [0, 1, 2];
    let recipes = [[2, 1, 0], [0, 0, 3], [1, 0, 0]];
    let mut race = view(RamenStage::Train, 30);
    race.is_race_turn = true;
    assert_eq!(list_actions(&race, &s, &recipes), Ok(vec![RamenAction::no_ramen(Operation::Race)]));
    assert_eq!(
        list_actions(&view(RamenStage::RamenSelect, 30), &s, &recipes),
        Ok(vec![RamenAction::ramen_select(None), RamenAction::ramen_select(Some(0)), RamenAction::ramen_select(Some(2))])
    );
    assert_eq!(list_actions(&view(RamenStage::RamenSelect, 1), &s, &recipes), Ok(vec![RamenAction::ramen_select(None)]));
    assert_eq!(list_actions(&view(RamenStage::RamenSelect, 73), &s, &recipes), Ok(vec![RamenAction::ramen_select(None)]));
    assert_eq!(list_actions(&view(RamenStage::SpecialSelect, 30), &s, &recipes), Err(StageError::NoPendingRamen));
    s.pending_ramen = Some(9);
    assert_eq!(
        list_actions(&view(RamenStage::SpecialSelect, 30), &s, &recipes),
        Err(StageError::Rules(RulesError::UnknownRegion(9)))
    );
    s.pending_ramen = Some(2);
    let sp = list_actions(&view(RamenStage::SpecialSelect, 30), &s, &recipes).unwrap();
    assert_eq!(sp[0], RamenAction::special_select(2, [0, 0, 0]));
    let train = list_actions(&view(RamenStage::Train, 30), &s, &recipes).unwrap();
    assert_eq!(train.len(), 8);
    assert_eq!(train[0], RamenAction::new(Operation::Train(TrainingType::Speed)));
    // other stages: every eating choice with every operation
    let all = list_actions(&view(RamenStage::Begin, 30), &s, &recipes).unwrap();
    assert_eq!(all.len(), 3 * 8);
    let all_early = list_actions(&view(RamenStage::Begin, 1), &s, &recipes).unwrap();
    assert_eq!(all_early.len(), 8);
}

#[test]
fn region_selection() {
    let combos = [[0, 1, 2], [0, 1, 3]];
    let fixed = [[10, 11, 12]];
    let none: [[usize; 3]; 0] = [];
    assert_eq!(
        region_select_choice(2, RamenRegionStrategy::Fixed, Some(&fixed[..]), &combos),
        Ok(RegionChoice::Fixed(RamenAction::no_ramen(Operation::RegionSelect([10, 11, 12]))))
    );
    assert_eq!(region_select_choice(2, RamenRegionStrategy::Fixed, None, &combos), Err(RegionSelectError::NoFixedRegions));
    assert_eq!(region_select_choice(2, RamenRegionStrategy::Fixed, Some(&none[..]), &combos), Err(RegionSelectError::EmptyFixedRegions));
    // the first two years always enumerate
    assert_eq!(
        region_select_choice(0, RamenRegionStrategy::Fixed, Some(&fixed[..]), &combos),
        Ok(RegionChoice::Candidates(vec![
            RamenAction::no_ramen(Operation::RegionSelect([0, 1, 2])),
            RamenAction::no_ramen(Operation::RegionSelect([0, 1, 3])),
        ]))
    );
}

#[test]
fn super_ramen_choice() {
    let status = [1000, 1200, 1100, 900, 1000];
    let limit = [1500, 1300, 1200, 1700, 1100];
    let types = [0, 0, 1, 3, 4];
    // option values: [0,1] = 500+240 + 100+120 = 960; [3] = 600+120 = 720;
    // [1,4] = 100+120 + 100+120 = 440; [0,1,9] = 960 (ties keep the first)
    let options = vec![vec![3], vec![0, 1], vec![1, 4], vec![0, 1, 9]];
    let mut s = RamenState::default();
    run_super_ramen_select(&mut s, &options, &status, &limit, &types);
    assert_eq!(s.super_ramen, Some(1));
    let mut e = RamenState::default();
    run_super_ramen_select(&mut e, &[], &status, &limit, &types);
    assert_eq!(e.super_ramen, Some(0));
}

fn deck_with(card_id: u32, chara_id: u32) -> Vec<DeckCard> {
    vec![
        DeckCard { card_type: 0, card_id: 30001, chara_id: 1001 },
        DeckCard { card_type: 5, card_id, chara_id },
        DeckCard { card_type: 6, card_id: 30305, chara_id: 9050 },
    ]
}

#[test]
fn feeling_reset() {
    let mut s = RamenState::default();
    s.special_feeling = 1;
    s.feeling_queue = vec![FeelingType::C];
    init_feeling_stocks(&mut s, &deck_with(30305, 9050));
    assert_eq!(s.feeling_stock, [2, 2, 2]);
    assert_eq!(s.special_feeling, 3);
    assert_eq!(
        s.feeling_queue,
        vec![FeelingType::A, FeelingType::B, FeelingType::C, FeelingType::A, FeelingType::B, FeelingType::C]
    );
    init_feeling_stocks(&mut s, &deck_with(10008, 9008));
    assert_eq!(s.feeling_stock, [1, 1, 1]);
    assert_eq!(s.special_feeling, 4);
    assert_eq!(s.feeling_queue, vec![FeelingType::A, FeelingType::B, FeelingType::C]);
    let mut n = RamenState::default();
    init_feeling_stocks(&mut n, &[DeckCard { card_type: 1, card_id: 1, chara_id: 1 }]);
    assert_eq!(n.feeling_stock, [0, 0, 0]);
    assert_eq!(n.special_feeling, 1);
    assert!(n.feeling_queue.is_empty());
}

#[test]
fn fixed_turn_events() {
    let e = add_mandatory_events(24, FriendOutState::AfterUnlock);
    assert_eq!(e.now, vec![MandatoryEvent::FriendNewYear]);
    assert!(e.after_action.is_empty());
    assert!(add_mandatory_events(24, FriendOutState::BeforeUnlock).now.is_empty());
    assert_eq!(add_mandatory_events(48, FriendOutState::UnClicked).after_action, vec![MandatoryEvent::Ticket]);
    assert_eq!(
        add_mandatory_events(77, FriendOutState::AfterUnlock).after_action,
        vec![MandatoryEvent::FriendEnd, MandatoryEvent::Ending, MandatoryEvent::ScenarioEnding]
    );
    assert_eq!(
        add_mandatory_events(77, FriendOutState::BeforeUnlock).after_action,
        vec![MandatoryEvent::Ending, MandatoryEvent::ScenarioEnding]
    );
    let quiet = add_mandatory_events(30, FriendOutState::AfterUnlock);
    assert!(quiet.now.is_empty() && quiet.after_action.is_empty());
}

#[test]
fn turn_start() {
    let reporter = person(PersonType::Reporter, -1, 0);
    let friend = person(PersonType::ScenarioCard, -1, 0);
    let mut s = RamenState::default();
    s.pending_ramen = Some(1);
    s.combined_decision = true;
    s.special_feeling = 3;
    let mut ps = cast();
    // turn 30: hidden flavour of the turn, capped at 4
    let plan = begin_turn(&mut s, &mut ps, 30, &deck_with(30305, 9050), 2, &[friend], &[11], reporter);
    assert_eq!(s.pending_ramen, None);
    assert!(!s.combined_decision);
    assert_eq!(s.special_feeling, 4);
    assert!(!plan.feelings_reset);
    assert_eq!(plan.region_select_year, None);
    assert!(!plan.super_ramen_recovery);
    // turn 2: reset, region selection of year one, friend already there
    let mut s2 = RamenState::default();
    let plan2 = begin_turn(&mut s2, &mut ps, 2, &deck_with(30305, 9050), 5, &[friend], &[11], reporter);
    assert!(plan2.feelings_reset);
    assert_eq!(plan2.region_select_year, Some(0));
    assert_eq!(plan2.friend_index, None);
    assert_eq!(s2.feeling_stock, [2, 2, 2]);
    assert_eq!(s2.special_feeling, 2);
    // super ramen turns: recovery every turn, race bonus on 72 only
    let p72 = begin_turn(&mut s2, &mut ps, 72, &[], 0, &[friend], &[11], reporter);
    assert!(p72.super_ramen_recovery && p72.super_ramen_race_bonus);
    let p75 = begin_turn(&mut s2, &mut ps, 75, &[], 0, &[friend], &[11], reporter);
    assert!(p75.super_ramen_recovery && !p75.super_ramen_race_bonus);
}

#[test]
fn event_triggers_and_draws() {
    let scenario = vec![TriggerType::Code, TriggerType::Fixed(vec![24, 48])];
    let story = vec![TriggerType::Fixed(vec![0]), TriggerType::Fixed(vec![24])];
    assert_eq!(triggered_events(&scenario, 24), vec![1]);
    assert_eq!(triggered_events(&story, 24), vec![1]);
    assert_eq!(triggered_events(&[TriggerType::Random, TriggerType::Code], 5), vec![0]);
    let ps = cast();
    assert_eq!(generate_events(&scenario, &story, 24, &[], &ps, 1, 0), TurnEvents::Scenario(vec![1]));
    assert_eq!(generate_events(&scenario, &story, 0, &[], &ps, 1, 0), TurnEvents::Story(vec![0]));
    assert_eq!(generate_events(&scenario, &story, 5, &[], &ps, 0, 3), TurnEvents::General(Some(GeneralEvent::Card(3))));
    assert_eq!(generate_events(&scenario, &story, 5, &[], &ps, 1, 0), TurnEvents::General(Some(GeneralEvent::Uma)));
    assert_eq!(generate_events(&scenario, &story, 5, &[], &ps, 2, 0), TurnEvents::General(None));
    assert_eq!(generate_events(&scenario, &story, 12, &[], &ps, 2, 0), TurnEvents::General(Some(GeneralEvent::DropMotivation)));
    assert_eq!(generate_events(&scenario, &story, 12, &[], &ps, 3, 0), TurnEvents::General(None));
    assert_eq!(generate_events(&scenario, &story, 5, &[5], &ps, 1, 0), TurnEvents::General(None));
}

fn sound(d: &[Vec<i32>]) -> bool {
    d.iter().all(|slot| {
        slot.len() <= 5 && slot.iter().enumerate().all(|(i, a)| *a < 0 || slot[i + 1..].iter().all(|b| b != a))
    })
}

#[test]
fn region_clones_keep_trainings_sound() {
    let ps = cast();
    let base = vec![vec![0, 7, 8, 9, 6], vec![1], vec![2, 3], vec![3, 5], vec![4, 7]];
    for seed in 0..20 {
        let mut rng = StdRng::seed_from_u64(seed);
        let mut d = base.clone();
        distribute_region_clones(&mut d, &ps, 5, true, &[0, 1, 2, 3, 4, 9, -1], &mut rng);
        assert!(sound(&d));
        for (t, slot) in base.iter().enumerate() {
            for id in slot {
                if ps[*id as usize].person_type != PersonType::Npc {
                    assert!(d[t].contains(id));
                }
            }
            for id in &d[t] {
                assert!(slot.contains(id) || ps[*id as usize].person_type == PersonType::Card);
            }
        }
        // the full training made room by pushing out its first NPC
        assert_eq!(d[0].len(), 5);
        assert!(!d[0].contains(&7));
        assert!(d.iter().map(|s| s.len()).sum::<usize>() > base.iter().map(|s| s.len()).sum::<usize>());
    }
    let mut rng = StdRng::seed_from_u64(1);
    let mut d = base.clone();
    distribute_region_clones(&mut d, &ps, 4, true, &[0, 1], &mut rng);
    assert_eq!(d, base);
    distribute_region_clones(&mut d, &ps, 7, false, &[0, 1], &mut rng);
    assert_eq!(d, base);
}

#[test]
fn super_ramen_clones_keep_trainings_sound() {
    let ps = cast();
    let base = vec![vec![0, 7], vec![1, 8], vec![2], vec![3, 9], vec![4]];
    let options = vec![vec![0, 1], vec![2, 3, 4]];
    for seed in 0..20 {
        let mut rng = StdRng::seed_from_u64(seed);
        let mut d = base.clone();
        distribute_super_ramen_clones(&mut d, &ps, true, true, Some(1), &options, &mut rng);
        assert!(sound(&d));
        for (t, slot) in base.iter().enumerate() {
            for id in slot {
                if ps[*id as usize].person_type != PersonType::Npc {
                    assert!(d[t].contains(id));
                }
            }
            for id in &d[t] {
                assert!(slot.contains(id) || *id < 6);
            }
        }
        // the clones only land on the option's trainings
        assert!(d[0] == base[0] && d[1] == base[1]);
    }
    let mut rng = StdRng::seed_from_u64(3);
    let mut d = base.clone();
    distribute_super_ramen_clones(&mut d, &ps, false, true, Some(1), &options, &mut rng);
    assert_eq!(d, base);
    distribute_super_ramen_clones(&mut d, &ps, true, true, Some(7), &options, &mut rng);
    assert_eq!(d, base);
    distribute_super_ramen_clones(&mut d, &ps, true, true, None, &options, &mut rng);
    assert_eq!(d, base);
}

#[test]
fn deck_needs_the_new_friend() {
    let base = [302424, 302894, 303044, 302924, 303024, 0];
    let with = |last: u32| {
        let mut d = base;
        d[5] = last;
        d
    };
    assert_eq!(check_deck(&with(102601)), Err(SetupError::NoNewFriend));
    assert_eq!(check_deck(&with(303050)), Err(SetupError::NoNewFriend));
    assert_eq!(check_deck(&with(303055)), Err(SetupError::NoNewFriend));
    for rank in 1..=4 {
        assert_eq!(check_deck(&with(303050 + rank)), Ok(()));
        assert!(has_new_friend(&with(303050 + rank)));
    }
}

#[test]
fn run_setup() {
    let mut limits = [1200, 3000, 2800, 2900, 1000];
    scenario_status_limits(&mut limits, None);
    assert_eq!(limits, [1200, 2800, 2800, 2800, 1000]);
    scenario_status_limits(&mut limits, Some([2000, 2000, 3500, 100, 2800]));
    assert_eq!(limits, [2000, 2000, 2800, 100, 2800]);
    assert!(deck_can_split(&[1, 1, 1, 1, 0]));
    assert!(!deck_can_split(&[2, 2, 1, 0, 0]));
    let deck = [
        DeckCard { card_type: 0, card_id: 1, chara_id: 1 },
        DeckCard { card_type: 5, card_id: 30305, chara_id: 9050 },
        DeckCard { card_type: 3, card_id: 2, chara_id: 2 },
    ];
    let cards = [person(PersonType::Card, 0, 0), person(PersonType::ScenarioCard, -1, 0), person(PersonType::Card, 3, 0)];
    let mut ps = Vec::new();
    init_persons(&mut ps, &deck, &cards, person(PersonType::Yayoi, -1, 0));
    assert_eq!(ps.len(), 3);
    assert_eq!(ps[0].train_type, 0);
    assert_eq!(ps[1].train_type, 3);
    assert_eq!(ps[1].person_index, 1);
    assert_eq!(ps[2].person_type, PersonType::Yayoi);
    assert_eq!(ps[2].person_index, 2);
}

#[test]
fn training_side_rules() {
    let (mut ill, mut bad) = (false, false);
    assert_eq!(handle_train_failure(false, &mut ill, &mut bad), FailureEvent::Failure);
    assert!(!ill && !bad);
    assert_eq!(handle_train_failure(true, &mut ill, &mut bad), FailureEvent::SevereFailure);
    assert!(ill && bad);
    // two NPCs, one card and its clone, the friend, an empty place
    let ps = cast();
    assert_eq!(gauge_head_counts(&ps, &[7, 8, 2, 2, 5, -1]), (2, 2));
    assert_eq!(gauge_head_counts(&ps, &[7, 8, 9, 3]), (1, 3));
    let mut rm = 0;
    assert_eq!(update_refresh_mind(&mut rm, false), None);
    assert_eq!(rm, 0);
    rm = 1;
    assert_eq!(update_refresh_mind(&mut rm, false), Some(RefreshMindStep { vital_gain: 5, end_odds_index: 1 }));
    assert_eq!(rm, 2);
    rm = 9;
    assert_eq!(update_refresh_mind(&mut rm, true), Some(RefreshMindStep { vital_gain: 5, end_odds_index: 6 }));
    assert_eq!(rm, 0);
    let success = [3, 5];
    let fail = [-1, -2];
    assert_eq!(calc_hint_bonus_pct(10, 10, &[true], &success, &fail), 10);
    assert_eq!(calc_hint_bonus_pct(10, 30, &[true], &success, &fail), 13);
    assert_eq!(calc_hint_bonus_pct(10, 30, &[false], &success, &fail), 9);
    assert_eq!(calc_hint_bonus_pct(10, 30, &[], &success, &fail), 10);
    assert_eq!(calc_hint_bonus_pct(10, 60, &[true, false], &success, &fail), 8);
}

#[test]
fn region_clones_with_given_picks() {
    let ps = cast();
    let base = vec![vec![0, 7, 8, 9, 6], vec![1], vec![2, 3], vec![3, 5], vec![4, 7]];
    let mut d = base.clone();
    distribute_region_clones_with(&mut d, &ps, 5, true, &[0, 1, 9, 3], &[1, 2, 4, 0]);
    // the full training pushes out its first NPC (7) for the clone
    assert_eq!(d, vec![vec![0, 8, 9, 6, 1], vec![1, 2], vec![2, 3], vec![3, 5, 0], vec![4, 7]]);
    // a pick already on the training, or not a support card, places nothing
    let mut d = base.clone();
    distribute_region_clones_with(&mut d, &ps, 6, true, &[1, 2], &[1, 5]);
    assert_eq!(d, base);
    // regions below 5 and decks that cannot split place nothing
    let mut d = base.clone();
    distribute_region_clones_with(&mut d, &ps, 4, true, &[1], &[2]);
    assert_eq!(d, base);
    distribute_region_clones_with(&mut d, &ps, 5, false, &[1], &[2]);
    assert_eq!(d, base);
}

#[test]
fn region_clones_touch_only_listed_trainings() {
    let ps = cast();
    let base = vec![vec![0, 7, 8, 9, 6], vec![1], vec![2, 3], vec![3, 5], vec![4, 7]];
    for seed in 0..20 {
        let mut rng = StdRng::seed_from_u64(seed);
        let mut d = base.clone();
        distribute_region_clones(&mut d, &ps, 5, true, &[1, 3], &mut rng);
        assert_eq!(d[0], base[0]);
        assert_eq!(d[2], base[2]);
        assert_eq!(d[4], base[4]);
        // each listed training gains exactly one support card it lacked
        assert_eq!(d[1].len(), 2);
        assert!(d[1][1] < 5 && !base[1].contains(&d[1][1]));
        assert_eq!(d[3].len(), 3);
        assert!(d[3][2] < 5 && !base[3].contains(&d[3][2]));
    }
}

#[test]
fn super_ramen_clones_with_given_draws() {
    let ps = cast();
    let base = vec![vec![0, 7], vec![1, 8], vec![2], vec![3, 9], vec![4]];
    let draws = vec![vec![2], vec![1, 3], vec![2], vec![], vec![9, 4], vec![4]];
    let mut d = base.clone();
    distribute_super_ramen_clones_with(&mut d, &ps, true, true, Some(1), 2, &draws);
    assert_eq!(d, vec![vec![0, 7], vec![1, 8], vec![2, 0], vec![3, 9, 1], vec![4, 5]]);
    let mut d = base.clone();
    distribute_super_ramen_clones_with(&mut d, &ps, true, true, Some(2), 2, &draws);
    assert_eq!(d, base);
    distribute_super_ramen_clones_with(&mut d, &ps, false, true, Some(1), 2, &draws);
    assert_eq!(d, base);
}

fn eating_state() -> RamenState {
    let mut s = RamenState::default();
    s.pending_ramen = Some(5);
    s.pending_special_targets = [1, 0, 0];
    s.scenario_pt = 100;
    s.eat_count = 2;
    s
}

#[test]
fn grounding_a_bowl_counts_it() {
    let mut s = eating_state();
    assert_eq!(ground_ramen(&mut s, 250), Some(5));
    assert_eq!(s.current_ramen, Some(5));
    assert_eq!(s.scenario_pt, 350);
    assert_eq!(s.eat_count, 3);
    let mut none = RamenState::default();
    none.scenario_pt = 40;
    assert_eq!(ground_ramen(&mut none, 250), None);
    assert_eq!(none, {
        let mut n = RamenState::default();
        n.scenario_pt = 40;
        n
    });
}

#[test]
fn grounding_effects_place_clones_and_friendship() {
    let mut s = eating_state();
    let mut ps = cast();
    let mut deck = [50, 50, 50, 50, 50, 30];
    let mut d = vec![vec![0, 7], vec![1], vec![2], vec![3], vec![4]];
    let regions: Vec<Vec<i32>> = vec![vec![], vec![], vec![], vec![], vec![], vec![1]];
    let mut rng = StdRng::seed_from_u64(7);
    let eaten = ground_ramen_effects(&mut s, 300, &mut d, &mut ps, &mut deck, true, &regions, 30, &[5, 10, 15], &mut rng);
    assert_eq!(eaten, Some(5));
    assert_eq!(s.scenario_pt, 400);
    assert_eq!(s.eat_count, 3);
    assert_eq!(d[1].len(), 2);
    assert!(d[1][1] != 1 && d[1][1] < 5);
    assert_eq!(d[0], vec![0, 7]);
    assert_eq!(ps[0].friendship, 60);
    assert_eq!(ps[5].friendship, 40);
    assert_eq!(ps[7].friendship, 0);
    assert_eq!(deck, [60, 60, 60, 60, 60, 40]);
}

fn rmj_choices() -> Vec<EventChoice> {
    let fail = ActionValue { status_pt: [5, 0, 0, 0, 0, 50], vital: 0 };
    let win = ActionValue { status_pt: [10, 10, 10, 10, 10, 100], vital: 0 };
    vec![EventChoice { result: 1, value: fail }, EventChoice { result: 2, value: win }]
}

#[test]
fn closing_a_year_settles_it() {
    // a failed first year: the failure branch, points and bowls reset
    let mut s = eating_state();
    s.current_ramen = Some(5);
    s.scenario_pt = 0;
    let branch = close_turn(&mut s, Some(0), false, &rmj_choices()).unwrap();
    assert_eq!(branch.result, 1);
    assert_eq!(branch.value.status_pt[0], 5);
    assert_eq!(branch.value.status_pt[5], 50);
    assert_eq!(s.rmj_results, vec![false]);
    assert_eq!(s.train_level_bonus, 0);
    assert_eq!((s.scenario_pt, s.eat_count), (0, 0));
    assert_eq!((s.current_ramen, s.pending_ramen), (None, None));
    // a successful second year raises the training level bonus
    s.scenario_pt = 2500;
    s.eat_count = 4;
    let branch = close_turn(&mut s, Some(1), true, &rmj_choices()).unwrap();
    assert_eq!(branch.result, 2);
    assert_eq!(s.rmj_results, vec![false, true]);
    assert_eq!(s.train_level_bonus, 1);
    assert_eq!((s.scenario_pt, s.eat_count), (0, 0));
    // no settlement data: the outcome is still recorded
    assert_eq!(close_turn(&mut s, Some(2), true, &[]), None);
    assert_eq!(s.rmj_results, vec![false, true, true]);
}

#[test]
fn closing_an_ordinary_turn_keeps_the_points() {
    let mut s = eating_state();
    s.current_ramen = Some(5);
    s.combined_decision = true;
    assert_eq!(close_turn(&mut s, None, true, &rmj_choices()), None);
    assert_eq!(s.current_ramen, None);
    assert_eq!(s.pending_ramen, None);
    assert_eq!(s.pending_special_targets, [0, 0, 0]);
    assert!(!s.combined_decision);
    assert_eq!((s.scenario_pt, s.eat_count), (100, 2));
    assert!(s.rmj_results.is_empty());
}

#[test]
fn year_end_step_settles_at_once() {
    for pt in [0, 2500] {
        let s = FlowState { stage: RamenStage::NextTurn, turn: 23, pending_ramen: false, combined_decision: false, free_race_ok: true };
        let step = next_flow(&s);
        assert_eq!(step.stage, RamenStage::RegionSelect);
        assert_eq!(step.turn, 23);
        assert_eq!(step.settle_year, Some(0));
        let mut state = RamenState::default();
        state.scenario_pt = pt;
        state.current_ramen = Some(3);
        let success = pt >= 2500;
        let branch = finish_step(&mut state, &step, success, &rmj_choices()).unwrap();
        assert_eq!(state.scenario_pt, 0);
        assert_eq!(state.current_ramen, None);
        assert_eq!(state.rmj_results, vec![success]);
        if !success {
            assert_eq!(branch.result, 1);
            assert_eq!(branch.value.status_pt[5], 50);
            assert_eq!(branch.value.status_pt[0], 5);
        } else {
            assert_eq!(branch.result, 2);
            assert_eq!(state.train_level_bonus, 1);
        }
    }
    // an in-turn step changes nothing but the combined flag
    let s = FlowState { stage: RamenStage::RamenSelect, turn: 10, pending_ramen: true, combined_decision: true, free_race_ok: true };
    let step = next_flow(&s);
    let mut state = eating_state();
    state.combined_decision = true;
    assert_eq!(finish_step(&mut state, &step, false, &rmj_choices()), None);
    assert!(!state.combined_decision);
    assert_eq!(state.pending_ramen, Some(5));
}

fn effect(xunlian: i32, fail_rate_drop: i32, hint: i32) -> RamenEffectNumbers {
    RamenEffectNumbers {
        xunlian,
        youqing: 0,
        deyilv: 0,
        fail_rate_drop,
        friendship: 0,
        status_limit: 0,
        pt_bonus: 0,
        hint,
        clone_count: 0,
    }
}

fn info_view() -> RamenInfoView {
    RamenInfoView {
        turn: 30,
        current_name: Some("札幌".to_string()),
        current_effect: effect(5, 3, 0),
        super_effect: effect(0, 0, 0),
        region_names: vec!["札幌".to_string(), "东京".to_string(), "大阪".to_string()],
        gauge_base: vec![1, 2, 0],
        feeling_stock: [3, 0, 5],
        feeling_slot: [1, 2, 0],
        special_feeling: 2,
        scenario_pt: 120,
        pt_effect: effect(3, 0, 0),
    }
}

#[test]
fn ramen_info_segments() {
    let v = info_view();
    assert_eq!(
        explain_ramen_info(&v),
        vec![
            "拉面: 札幌(训+5,失败率-3) | 地区: 札幌,东京,大阪 槽[1, 2, 0] | 诀窍 ".to_string(),
            "A3/1 B0/2 C5/0".to_string(),
            " | 隐藏诀窍 ".to_string(),
            "2".to_string(),
            " | PT120 [训+3]".to_string(),
        ]
    );
    let mut plain = info_view();
    plain.current_name = None;
    plain.pt_effect = effect(0, 0, 0);
    plain.scenario_pt = -5;
    let segs = explain_ramen_info(&plain);
    assert_eq!(segs[0], "拉面: 无 | 地区: 札幌,东京,大阪 槽[1, 2, 0] | 诀窍 ");
    assert_eq!(segs[4], " | PT-5 [无加成]");
    let mut bare = info_view();
    bare.current_effect = effect(0, 0, 0);
    assert!(explain_ramen_info(&bare)[0].starts_with("拉面: 札幌 | 地区"));
}

#[test]
fn ramen_info_super_and_early_turns() {
    let mut v = info_view();
    v.turn = 1;
    assert!(explain_ramen_info(&v).is_empty());
    v.turn = 73;
    v.super_effect = effect(10, 0, 2);
    assert_eq!(explain_ramen_info(&v), vec!["超级拉面回合 [训+10,hint+2]".to_string()]);
    v.super_effect = effect(0, 0, 0);
    assert_eq!(explain_ramen_info(&v), vec!["超级拉面回合".to_string()]);
}

#[test]
fn failed_free_race_stops_the_game_on_the_new_turn() {
    let s = FlowState { stage: RamenStage::NextTurn, turn: 10, pending_ramen: false, combined_decision: false, free_race_ok: false };
    let step = next_flow(&s);
    assert!(!step.advanced);
    assert_eq!((step.stage, step.turn), (RamenStage::Begin, 11));
    let ok = next_flow(&FlowState { free_race_ok: true, ..s });
    assert!(ok.advanced);
    // in-turn steps do not read the check
    let inner = next_flow(&FlowState { stage: RamenStage::Begin, ..s });
    assert!(inner.advanced);
}
