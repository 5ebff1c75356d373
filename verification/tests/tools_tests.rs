use umasim::bench::{select_representatives, CardRecord, RepresentativeError};
use umasim::config::get_rank_name;
use umasim::deck_arg::{parse_deck_override, DeckArgError};
use umasim::ramen::flow::FlowState;
use umasim::ramen::RamenStage;
use umasim::replay::{replay_step, ReplayCounts, ReplayOutcome, ReplayRow, ReplayRowKind};

#[test]
fn deck_override_forms() {
    assert_eq!(parse_deck_override("1,2,3,4,5", 99), Ok([1, 2, 3, 4, 5, 99]));
    assert_eq!(parse_deck_override(" 1, 2 ,3,,4,5,6 ", 99), Ok([1, 2, 3, 4, 5, 6]));
    assert_eq!(parse_deck_override("1,2,3,4", 99), Err(DeckArgError::WrongCount { count: 4 }));
    assert_eq!(parse_deck_override("1,2,3,4,5,6,7", 99), Err(DeckArgError::WrongCount { count: 7 }));
    assert_eq!(parse_deck_override("", 99), Err(DeckArgError::WrongCount { count: 0 }));
    assert_eq!(parse_deck_override("1,2,x,4,5", 99), Err(DeckArgError::BadNumber));
    assert_eq!(parse_deck_override("1,2,3,4,4294967296", 99), Err(DeckArgError::BadNumber));
    assert_eq!(parse_deck_override("+1,2,3,4,5", 99), Ok([1, 2, 3, 4, 5, 99]));
    // tabs and the ideographic space are white space too
    assert_eq!(parse_deck_override("\t1,\u{3000}2,3,4,5", 99), Ok([1, 2, 3, 4, 5, 99]));
}

#[test]
fn rank_names_by_threshold() {
    let scores = [0, 100, 200];
    let names: Vec<String> = ["G", "F", "E"].iter().map(|s| s.to_string()).collect();
    assert_eq!(get_rank_name(&scores, &names, 50), "G");
    assert_eq!(get_rank_name(&scores, &names, 100), "F");
    assert_eq!(get_rank_name(&scores, &names, 199), "F");
    assert_eq!(get_rank_name(&scores, &names, 5000), "US9");
    // negative scores count as 0
    assert_eq!(get_rank_name(&scores, &names, -30), "G");
}

#[test]
fn flow_turn_predicates() {
    let s = |turn| FlowState { stage: RamenStage::Begin, turn, pending_ramen: false, combined_decision: false, free_race_ok: true };
    assert_eq!(s(0).current_year(), 1);
    assert_eq!(s(23).current_year(), 1);
    assert_eq!(s(24).current_year(), 2);
    assert_eq!(s(48).current_year(), 3);
    assert!(s(72).is_super_ramen_turn());
    assert!(s(77).is_super_ramen_turn());
    assert!(!s(71).is_super_ramen_turn());
    assert!(s(23).is_rmj_turn() && s(47).is_rmj_turn() && s(71).is_rmj_turn());
    assert!(!s(24).is_rmj_turn());
}

fn rec(card_id: u32, card_type: i32) -> CardRecord {
    CardRecord { card_id, rarity: 3, card_type, card_name: format!("c{card_id}"), value_count: 5 }
}

#[test]
fn representatives_are_newest_ssrs() {
    let mut cards = Vec::new();
    for t in 0..5 {
        for k in 0..4 {
            cards.push(rec(30000 + t as u32 * 100 + k, t));
        }
    }
    // not an SSR, or without a full panel: never chosen
    cards.push(CardRecord { rarity: 2, ..rec(39999, 0) });
    cards.push(CardRecord { value_count: 4, ..rec(39998, 0) });
    let reps = select_representatives(&cards).unwrap();
    let ids: Vec<u32> = reps[0].iter().map(|c| c.idrank).collect();
    assert_eq!(ids, vec![300034, 300024, 300014]);
    assert_eq!(reps[4][0].idrank, 304034);
    assert_eq!(reps[4][0].name, "c30403");
    let few: Vec<CardRecord> = cards.into_iter().filter(|c| !(c.card_type == 2 && c.card_id % 100 >= 2)).collect();
    assert_eq!(select_representatives(&few).unwrap_err(), RepresentativeError::TooFew { card_type: 2 });
}

#[test]
fn snapshots_ordered_by_game_turn_seq() {
    let names: Vec<String> = [
        "game7078_turn62_5.json",
        "thisTurn.json",
        "game7075_turn13_2.json",
        "game7075_turn13.json",
        "archive.zip",
        "game7075_turn2.json",
        "game7075.json",
    ]
    .iter()
    .map(|s| s.to_string())
    .collect();
    let snaps = umasim::replay::collect_snapshots(&names).unwrap();
    let keys: Vec<(u64, u32, u32)> = snaps.iter().map(|s| (s.game, s.turn, s.seq)).collect();
    assert_eq!(keys, vec![(7075, 2, 0), (7075, 13, 0), (7075, 13, 2), (7078, 62, 5)]);
    assert_eq!(snaps[1].file, "game7075_turn13.json");
    let none: Vec<String> = vec!["thisTurn.json".to_string(), "archive.zip".to_string()];
    assert_eq!(
        umasim::replay::collect_snapshots(&none).err(),
        Some(umasim::replay::ReplayError::NoSnapshots)
    );
}

fn no_counts() -> ReplayCounts {
    ReplayCounts { snaps: 0, calc_snaps: 0, no_emit_snaps: 0, emit_rows: 0, skips: Vec::new() }
}

fn rows_of(rows: &[ReplayRow]) -> Vec<(ReplayRowKind, String)> {
    rows.iter().map(|r| (r.kind, r.reason.clone())).collect()
}

#[test]
fn replay_steps_rows_and_counters() {
    let mut c = no_counts();
    let r = replay_step(&mut c, &ReplayOutcome::Processed(2));
    assert_eq!(
        rows_of(&r),
        vec![
            (ReplayRowKind::Calc { chain_len: 2, index: 0 }, String::new()),
            (ReplayRowKind::Calc { chain_len: 2, index: 1 }, String::new()),
        ]
    );
    let r = replay_step(&mut c, &ReplayOutcome::Processed(0));
    assert_eq!(rows_of(&r), vec![(ReplayRowKind::NoEmit, "no_decision".to_string())]);
    let r = replay_step(&mut c, &ReplayOutcome::Unreadable("denied".into()));
    assert_eq!(rows_of(&r), vec![(ReplayRowKind::Skip, "read_error: denied".to_string())]);
    let r = replay_step(&mut c, &ReplayOutcome::BadJson("eof".into()));
    assert_eq!(rows_of(&r), vec![(ReplayRowKind::Skip, "parse_error(json): eof".to_string())]);
    replay_step(&mut c, &ReplayOutcome::Unparsed("bad".into()));
    replay_step(&mut c, &ReplayOutcome::Onsen);
    let r = replay_step(&mut c, &ReplayOutcome::Begin("event".into()));
    assert_eq!(rows_of(&r), vec![(ReplayRowKind::Skip, "event".to_string())]);
    let r = replay_step(&mut c, &ReplayOutcome::Failed("boom".into()));
    assert_eq!(rows_of(&r), vec![(ReplayRowKind::Skip, "process_error: boom".to_string())]);
    assert_eq!((c.snaps, c.calc_snaps, c.no_emit_snaps, c.emit_rows), (8, 1, 1, 2));
    assert_eq!(
        c.skips,
        vec![
            ("skip_other".to_string(), 1),
            ("skip_parse_error".to_string(), 2),
            ("skip_onsen".to_string(), 1),
            ("event".to_string(), 1),
            ("skip_process_error".to_string(), 1),
        ]
    );
}
