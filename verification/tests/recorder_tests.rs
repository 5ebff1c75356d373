use umasim::record::{DecisionInfo, GameView, SnapMeta};
use umasim::recorder::{
    finalize_shutdown, init, on_emit, on_snapshot, on_turn_done, BaseGameInfo, DecisionSink, EmptySink, EndReason,
    OnlineRecorder, RecordAction, RecorderError, RecordingSink, RowKind,
};

fn raw(turn: u32) -> BaseGameInfo {
    BaseGameInfo { turn: Some(turn), source: "command".into(), playing_state: 1, uma_id: Some(100201) }
}

fn stored(acts: &[RecordAction]) -> Vec<String> {
    acts.iter()
        .filter_map(|a| match a {
            RecordAction::StoreSnapshot { file } => Some(file.clone()),
            _ => None,
        })
        .collect()
}

fn rows(acts: &[RecordAction]) -> Vec<(String, String, String)> {
    acts.iter()
        .filter_map(|a| match a {
            RecordAction::WriteRow { sref, kind } => {
                Some((sref.file.clone(), kind.outcome().to_string(), kind.reason()))
            }
            _ => None,
        })
        .collect()
}

fn metas(acts: &[RecordAction]) -> Vec<(&'static str, Option<u64>, u64)> {
    acts.iter()
        .filter_map(|a| match a {
            RecordAction::WriteMeta { reason, record } => Some((reason.as_str(), record.game, record.snaps)),
            _ => None,
        })
        .collect()
}

fn plots(acts: &[RecordAction]) -> Vec<u64> {
    acts.iter()
        .filter_map(|a| match a {
            RecordAction::RenderPlot { game } => Some(*game),
            _ => None,
        })
        .collect()
}

fn packs(acts: &[RecordAction]) -> usize {
    acts.iter().filter(|a| matches!(a, RecordAction::PackGame)).count()
}

/// A sink that counts the decisions it receives.
#[derive(Default)]
struct CountingSink {
    seen: usize,
}

impl DecisionSink for CountingSink {
    fn emit(&mut self, _info: &DecisionInfo, _view: &GameView) {
        self.seen += 1;
    }
}

#[test]
fn test_recording_sink_passthrough() {
    let mut sink = RecordingSink::new(CountingSink::default());
    sink.emit(&DecisionInfo::default(), &GameView::default());
    assert_eq!(sink.inner().seen, 1);
    assert!(sink.take_actions().is_empty());
    println!("RecordingSink forwarded the decision (no recorder installed, nothing recorded)");
}

#[test]
fn recording_sink_records_into_installed_recorder() {
    let mut sink = RecordingSink::new(EmptySink);
    sink.emit(&DecisionInfo::default(), &GameView::default());
    assert!(sink.take_actions().is_empty());
    init(sink.slot_mut(), true, "logs".into()).unwrap();
    let opened = on_snapshot(sink.slot_mut(), &SnapMeta::normal(1, 0, "Train"), &raw(0));
    assert_eq!(stored(&opened), vec!["game1_turn0.json"]);
    sink.emit(&DecisionInfo::default(), &GameView::default());
    let acts = sink.take_actions();
    assert_eq!(rows(&acts), vec![("game1_turn0.json".to_string(), "calc".to_string(), String::new())]);
    assert!(sink.take_actions().is_empty());
    // the decision was recorded: closing owes no no_emit row
    let fin = finalize_shutdown(sink.slot_mut());
    assert!(rows(&fin).is_empty());
    assert_eq!(metas(&fin), vec![("process_exit", Some(1), 1)]);
}

#[test]
fn recorder_end_to_end_decisions() {
    let mut rec = OnlineRecorder::new("logs".into());
    let mut all = Vec::new();
    all.extend(rec.handle_snapshot(&SnapMeta::normal(7075, 0, "Train"), &raw(0)));
    all.extend(rec.handle_emit());
    all.extend(rec.handle_snapshot(&SnapMeta::normal(7075, 1, "RamenSelect"), &raw(1)));
    all.extend(rec.handle_emit());
    all.extend(rec.handle_emit());
    all.extend(rec.handle_snapshot(&SnapMeta::normal(7075, 1, "Train"), &raw(1)));
    all.extend(rec.handle_emit());
    let switch = rec.handle_snapshot(&SnapMeta::normal(7076, 0, "Begin").with_skip(Some("event".into())), &raw(0));
    all.extend(switch);
    all.extend(rec.finalize(EndReason::ProcessExit));

    assert_eq!(
        stored(&all),
        vec!["game7075_turn0.json", "game7075_turn1.json", "game7075_turn1_2.json", "game7076_turn0.json"]
    );
    let r = rows(&all);
    assert_eq!(r.iter().filter(|x| x.0.starts_with("game7075") && x.1 == "calc").count(), 4);
    assert!(r.contains(&("game7076_turn0.json".to_string(), "skip".to_string(), "event".to_string())));
    assert!(!r.iter().any(|x| x.1 == "no_emit"));
    assert_eq!(metas(&all), vec![("switch", Some(7075), 3), ("process_exit", Some(7076), 1)]);
    assert_eq!(plots(&all), vec![7075, 7076]);
    assert_eq!(packs(&all), 0);
    let opens: Vec<Option<u64>> = all
        .iter()
        .filter_map(|a| match a {
            RecordAction::OpenGame { game, .. } => Some(*game),
            _ => None,
        })
        .collect();
    assert_eq!(opens, vec![Some(7075), Some(7076)]);
    assert_eq!(all.iter().filter(|a| matches!(a, RecordAction::CloseGame)).count(), 2);
}

#[test]
fn recorder_parse_failure_and_no_emit() {
    let mut rec = OnlineRecorder::new("logs".into());
    let mut all = Vec::new();
    all.extend(rec.handle_snapshot(&SnapMeta::normal(7075, 0, "Train"), &raw(0)));
    let unknown = BaseGameInfo { turn: None, source: String::new(), playing_state: 0, uma_id: None };
    let fail = rec.handle_snapshot(&SnapMeta::failed("parse_error: bad struct"), &unknown);
    // the first snapshot got no decision: its no_emit row comes first
    assert_eq!(
        rows(&fail),
        vec![
            ("game7075_turn0.json".to_string(), "no_emit".to_string(), "no_decision".to_string()),
            ("game7075_unparsed_1.json".to_string(), "skip".to_string(), "parse_error: bad struct".to_string()),
        ]
    );
    all.extend(fail);
    all.extend(rec.finalize(EndReason::ProcessExit));
    assert!(stored(&all).contains(&"game7075_unparsed_1.json".to_string()));
    assert_eq!(metas(&all), vec![("process_exit", Some(7075), 2)]);
}

#[test]
fn recorder_end_turn_triggers_meta_once() {
    let mut rec = OnlineRecorder::new("logs".into());
    rec.handle_snapshot(&SnapMeta::normal(7075, 76, "Train").with_max_turn(77), &raw(76));
    rec.handle_emit();
    assert!(rec.handle_turn_done().is_empty());
    rec.handle_snapshot(
        &SnapMeta::normal(7075, 77, "Begin")
            .with_skip(Some("super_ramen_drop(active_effect empty)".into()))
            .with_max_turn(77),
        &raw(77),
    );
    assert!(rec.handle_turn_done().is_empty());
    let acts = rec.handle_snapshot(&SnapMeta::normal(7075, 77, "Train").with_max_turn(77), &raw(77));
    assert_eq!(stored(&acts), vec!["game7075_turn77_2.json"]);
    rec.handle_emit();
    let done = rec.handle_turn_done();
    assert_eq!(metas(&done), vec![("game_end", Some(7075), 3)]);
    assert_eq!(plots(&done), vec![7075]);
    assert_eq!(packs(&done), 1);
    assert!(matches!(done.last(), Some(RecordAction::PackGame)));
    assert!(rec.handle_turn_done().is_empty());
    // switching afterwards writes no second meta, plot or archive
    let sw = rec.handle_snapshot(&SnapMeta::normal(7076, 0, "Train"), &raw(0));
    assert!(metas(&sw).is_empty());
    assert!(plots(&sw).is_empty());
    assert_eq!(packs(&sw), 0);
    assert!(sw.iter().any(|a| matches!(a, RecordAction::CloseGame)));
}

#[test]
fn recorder_switch_fallback_meta() {
    let mut rec = OnlineRecorder::new("logs".into());
    rec.handle_snapshot(&SnapMeta::normal(7075, 12, "Train").with_max_turn(77), &raw(12));
    rec.handle_emit();
    let sw = rec.handle_snapshot(&SnapMeta::normal(7076, 0, "Train"), &raw(0));
    assert_eq!(metas(&sw), vec![("switch", Some(7075), 1)]);
    assert_eq!(plots(&sw), vec![7075]);
    assert_eq!(packs(&sw), 0);
}

#[test]
fn recorder_unknown_game_and_sequence() {
    let mut rec = OnlineRecorder::new("logs".into());
    let unknown = BaseGameInfo { turn: Some(4), source: "event".into(), playing_state: 5, uma_id: None };
    let meta = SnapMeta { game: None, turn: None, stage: "Begin".into(), skip: None, max_turn: None };
    let a = rec.handle_snapshot(&meta, &unknown);
    assert_eq!(stored(&a), vec!["game_unknown_turn4.json"]);
    let b = rec.handle_snapshot(&meta, &unknown);
    assert_eq!(stored(&b), vec!["game_unknown_turn4_2.json"]);
    let c = rec.handle_snapshot(&meta, &unknown);
    assert_eq!(stored(&c), vec!["game_unknown_turn4_3.json"]);
    // the first two owed a no_emit row
    assert_eq!(rows(&b)[0].1, "no_emit");
    assert_eq!(rows(&c)[0].0, "game_unknown_turn4_2.json");
}

#[test]
fn global_entry_points() {
    let mut slot: Option<OnlineRecorder> = None;
    assert!(on_snapshot(&mut slot, &SnapMeta::normal(1, 0, "Train"), &raw(0)).is_empty());
    assert!(on_emit(&mut slot).is_empty());
    assert!(on_turn_done(&mut slot).is_empty());
    assert!(finalize_shutdown(&mut slot).is_empty());
    assert!(slot.is_none());
    assert_eq!(init(&mut slot, false, "logs".into()), Ok(()));
    assert!(slot.is_none());
    assert_eq!(init(&mut slot, true, "logs".into()), Ok(()));
    assert!(slot.is_some());
    assert_eq!(init(&mut slot, true, "other".into()), Err(RecorderError::AlreadyInitialized));
    assert_eq!(slot.as_ref().unwrap().logs_dir, "logs");
    let acts = on_snapshot(&mut slot, &SnapMeta::normal(1, 0, "Train"), &raw(0));
    assert_eq!(stored(&acts), vec!["game1_turn0.json"]);
    let fin = finalize_shutdown(&mut slot);
    assert_eq!(rows(&fin)[0].1, "no_emit");
    assert_eq!(metas(&fin), vec![("process_exit", Some(1), 1)]);
    assert_eq!(plots(&fin), vec![1]);
    assert_eq!(packs(&fin), 0);
}

#[test]
fn row_kind_columns() {
    assert_eq!(RowKind::Calc.outcome(), "calc");
    assert_eq!(RowKind::Calc.reason(), "");
    assert!(RowKind::Calc.is_decision());
    assert_eq!(RowKind::Skip("event".into()).outcome(), "skip");
    assert_eq!(RowKind::Skip("event".into()).reason(), "event");
    assert_eq!(RowKind::NoEmit.outcome(), "no_emit");
    assert_eq!(RowKind::NoEmit.reason(), "no_decision");
    assert!(!RowKind::NoEmit.is_decision());
    assert_eq!(EndReason::Switch.as_str(), "switch");
    assert_eq!(EndReason::GameEnd.as_str(), "game_end");
}
