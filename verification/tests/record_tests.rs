use umasim::record::{
    build_row, deletion_allowed, classify_begin_reason, detail_header, game_name, parse_file_name, snapshot_file_name,
    unparsed_file_name, BeginSnapshot, DecisionInfo, LuckCols, SnapMeta, SnapRef,
};
use umasim::replay::{snap_ref, summary_header, SnapshotRef};

#[test]
fn test_parse_file_name() {
    assert_eq!(parse_file_name("game7075_turn13.json"), Some((7075, 13, 0)));
    assert_eq!(parse_file_name("game7075_turn13_2.json"), Some((7075, 13, 2)));
    assert_eq!(parse_file_name("game7078_turn62_5.json"), Some((7078, 62, 5)));
    assert_eq!(parse_file_name("thisTurn.json"), None);
    assert_eq!(parse_file_name("archive.zip"), None);
    assert_eq!(parse_file_name("game7075.json"), None);
}

#[test]
fn parse_file_name_edge_cases() {
    // a leading plus is read as a number sign, as integer parsing does
    assert_eq!(parse_file_name("game+7_turn+1.json"), Some((7, 1, 0)));
    assert_eq!(parse_file_name("game7_turn1_.json"), None);
    assert_eq!(parse_file_name("game7_turn1_2_3.json"), None);
    assert_eq!(parse_file_name("game_turn1.json"), None);
    assert_eq!(parse_file_name("game7_turn4294967296.json"), None);
    assert_eq!(parse_file_name("game7_turn4294967295.json"), Some((7, 4294967295, 0)));
    assert_eq!(parse_file_name("game18446744073709551615_turn0.json"), Some((u64::MAX, 0, 0)));
    assert_eq!(parse_file_name("game7_turn1.JSON"), None);
}

#[test]
fn snapshot_names_read_back() {
    for (g, t, s) in [(7075u64, 13u32, 0u32), (7075, 13, 2), (0, 0, 0), (u64::MAX, u32::MAX, u32::MAX), (12, 77, 9)] {
        let name = snapshot_file_name(Some(g), t, s);
        assert_eq!(parse_file_name(&name), Some((g, t, s)), "{name}");
    }
    assert_eq!(snapshot_file_name(Some(7075), 13, 0), "game7075_turn13.json");
    assert_eq!(snapshot_file_name(Some(7075), 13, 2), "game7075_turn13_2.json");
    assert_eq!(snapshot_file_name(None, 5, 3), "game_unknown_turn5_3.json");
    assert_eq!(unparsed_file_name(Some(7075), 1), "game7075_unparsed_1.json");
    assert_eq!(unparsed_file_name(None, 12), "game_unknown_unparsed_12.json");
    assert_eq!(game_name(Some(42)), "game42");
    assert_eq!(game_name(None), "game_unknown");
}

#[test]
fn test_detail_header_len() {
    let h = detail_header();
    println!("header {} columns: {h:?}", h.len());
    assert_eq!(h.len(), 35);
}

#[test]
fn detail_header_columns() {
    let h = detail_header();
    assert_eq!(h[0], "game");
    assert_eq!(h[8], "reason");
    assert_eq!(h[13], "cand1_desc");
    assert_eq!(h[17], "cand5_desc");
    assert_eq!(h[18], "cand1_score");
    assert_eq!(h[27], "cand5_n");
    assert_eq!(h[28], "chosen_idx");
    assert_eq!(h[34], "turn_delta");
}

fn mk_begin(source: &str, ps: u64, turn: u64, regions: &[u64], active_effect: usize) -> BeginSnapshot {
    BeginSnapshot {
        turn,
        source: source.to_string(),
        playing_state: ps,
        selected_regions: Some(regions.to_vec()),
        active_effect_len: Some(active_effect),
    }
}

#[test]
fn test_classify_begin_reason() {
    assert_eq!(classify_begin_reason(&mk_begin("event", 1, 13, &[3, 7, 12], 0)), "event");
    assert_eq!(
        classify_begin_reason(&mk_begin("event", 1, 13, &[0, 0, 0], 0)),
        "data_incomplete(selected_regions=0)"
    );
    assert_eq!(classify_begin_reason(&mk_begin("command", 46, 13, &[3, 7, 12], 0)), "rmj_settle(46)");
    assert_eq!(
        classify_begin_reason(&mk_begin("command", 1, 72, &[3, 7, 12], 0)),
        "super_ramen_drop(active_effect empty)"
    );
    assert_eq!(classify_begin_reason(&mk_begin("command", 1, 72, &[3, 7, 12], 2)), "begin_unclassified");
}

#[test]
fn classify_begin_reason_other_branches() {
    assert_eq!(classify_begin_reason(&mk_begin("command", 5, 13, &[3, 7, 12], 1)), "playing_state=5(event)");
    assert_eq!(classify_begin_reason(&mk_begin("command", 48, 13, &[3, 7, 12], 1)), "rmj_final(48)");
    // turn 1 is outside the range where missing regions count as incomplete data
    assert_eq!(classify_begin_reason(&mk_begin("command", 1, 1, &[0, 0, 0], 1)), "begin_unclassified");
    // a missing active effect array counts as empty
    let mut s = mk_begin("command", 1, 75, &[3, 7, 12], 1);
    s.active_effect_len = None;
    assert_eq!(classify_begin_reason(&s), "super_ramen_drop(active_effect empty)");
    // missing regions never count as unset
    let mut s = mk_begin("command", 1, 30, &[], 1);
    s.selected_regions = None;
    assert_eq!(classify_begin_reason(&s), "begin_unclassified");
    assert_eq!(classify_begin_reason(&BeginSnapshot::default()), "begin_unclassified");
}

fn sample_ref() -> SnapRef {
    SnapRef {
        game: 7075,
        file: "game7075_turn13.json".into(),
        turn: 13,
        seq: 0,
        source: "command".into(),
        playing_state: 1,
        stage: "Train".into(),
    }
}

#[test]
fn test_build_row_calc_and_skip() {
    let snap = sample_ref();
    let info = DecisionInfo {
        action_index: 1,
        decision_kind: "train".into(),
        candidate_scores: vec!["100.00".into(), "200.00".into()],
        candidate_descriptions: vec!["训练/速".into(), "训练/智".into()],
        candidate_n: vec![100, 50],
        luck: Some(LuckCols {
            chosen_luck: "25.00".into(),
            t_raw: "60282.50".into(),
            t_display: "60410.50".into(),
            total: "152.50".into(),
            delta: "-12.40".into(),
        }),
    };
    let row = build_row(&snap, "calc", "", Some(&info), 0, 0);
    println!("calc row: {row:?}");
    assert_eq!(row.len(), 35);
    assert_eq!(row[1], "game7075_turn13.json");
    assert_eq!(row[2], "13");
    assert_eq!(row[7], "calc");
    assert_eq!(row[11], "train");
    assert_eq!(row[28], "1");
    assert_eq!(row[29], "训练/智");
    assert_eq!(row[24], "50");
    assert!(!row[31].is_empty());
    assert!(!row[32].is_empty());
    assert_eq!(row[33], "152.50");

    let skip = build_row(&snap, "skip", "event", None, 0, 0);
    println!("skip row: {skip:?}");
    assert_eq!(skip.len(), 35);
    assert_eq!(skip[7], "skip");
    assert_eq!(skip[8], "event");
    assert_eq!(skip[28], "");
    assert_eq!(skip[30], "");
}

#[test]
fn build_row_chain_and_candidates() {
    let snap = sample_ref();
    let info = DecisionInfo {
        action_index: 7,
        decision_kind: "ramen_select".into(),
        candidate_scores: (0..7).map(|i| format!("{i}.00")).collect(),
        candidate_descriptions: (0..7).map(|i| format!("d{i}")).collect(),
        candidate_n: (0..7).collect(),
        luck: None,
    };
    let row = build_row(&snap, "calc", "", Some(&info), 3, 1);
    assert_eq!(row[0], "7075");
    assert_eq!(row[3], "0");
    assert_eq!(row[5], "1");
    assert_eq!(row[9], "2");
    assert_eq!(row[10], "3");
    assert_eq!(row[12], "7");
    // only the first five candidates have columns
    assert_eq!(row[13], "d0");
    assert_eq!(row[17], "d4");
    assert_eq!(row[22], "4.00");
    assert_eq!(row[27], "4");
    // the chosen index is past the list: its description is empty
    assert_eq!(row[28], "7");
    assert_eq!(row[29], "");
    for c in &row[30..35] {
        assert_eq!(c, "");
    }
    let plain = build_row(&snap, "no_emit", "no_decision", None, 0, 9);
    assert_eq!(plain[9], "");
    assert_eq!(plain[10], "");
    assert_eq!(plain[8], "no_decision");
}

#[test]
fn snap_meta_builders() {
    let m = SnapMeta::normal(7075, 3, "Train").with_skip(Some("event".into())).with_max_turn(77);
    assert_eq!(m.game, Some(7075));
    assert_eq!(m.turn, Some(3));
    assert_eq!(m.stage, "Train");
    assert_eq!(m.skip.as_deref(), Some("event"));
    assert_eq!(m.max_turn, Some(77));
    let f = SnapMeta::failed("parse_error: bad struct");
    assert_eq!(f.game, None);
    assert_eq!(f.turn, None);
    assert_eq!(f.stage, "");
    assert_eq!(f.skip.as_deref(), Some("parse_error: bad struct"));
    assert_eq!(f.max_turn, None);
}

#[test]
fn replay_summary_and_ref() {
    let h = summary_header();
    assert_eq!(h.len(), 33);
    assert_eq!(h[0], "game");
    assert_eq!(h[8], "skip_rmj");
    assert_eq!(h[32], "total_luck_end");
    let s = SnapshotRef { game: 7075, turn: 13, seq: 2, file: "game7075_turn13_2.json".into() };
    let r = snap_ref(&s, "command", 1, "Train");
    assert_eq!(r.game, 7075);
    assert_eq!(r.file, "game7075_turn13_2.json");
    assert_eq!(r.turn, 13);
    assert_eq!(r.seq, 2);
    assert_eq!(r.source, "command");
    assert_eq!(r.playing_state, 1);
    assert_eq!(r.stage, "Train");
}

#[test]
fn deletion_only_for_game_dirs_under_logs() {
    assert!(deletion_allowed(Some("logs"), Some("game7075")));
    assert!(deletion_allowed(Some("logs"), Some("game_unknown")));
    assert!(!deletion_allowed(Some("log"), Some("game7075")));
    assert!(!deletion_allowed(Some("logs"), Some("gam")));
    assert!(!deletion_allowed(None, Some("game1")));
    assert!(!deletion_allowed(Some("logs"), None));
    assert!(!deletion_allowed(Some("Logs"), Some("game1")));
}
