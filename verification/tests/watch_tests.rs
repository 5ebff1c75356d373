use umasim::watch::{
    is_target_event, push_if_new, read_stable_give_up, read_stable_step, reader_action, ReadError, ReaderAction,
    StableStep, WatchInput, WatchKind,
};

fn s(x: &str) -> String {
    x.to_string()
}

#[test]
fn only_writes_of_the_target_count() {
    let target = s("thisTurn.json");
    assert!(is_target_event(WatchKind::Modify, &[Some(s("thisTurn.json"))], &target));
    assert!(is_target_event(WatchKind::Create, &[None, Some(s("thisTurn.json"))], &target));
    assert!(!is_target_event(WatchKind::Modify, &[Some(s("game6211_turn1.json"))], &target));
    assert!(!is_target_event(WatchKind::Other, &[Some(s("thisTurn.json"))], &target));
    assert!(!is_target_event(WatchKind::Modify, &[], &target));
}

#[test]
fn reader_reacts_to_events_errors_and_close() {
    let target = s("thisTurn.json");
    let write = WatchInput::Event { kind: WatchKind::Modify, file_names: vec![Some(s("thisTurn.json"))] };
    let other = WatchInput::Event { kind: WatchKind::Modify, file_names: vec![Some(s("game6211_turn1.json"))] };
    assert_eq!(reader_action(&write, &target), ReaderAction::ReadTarget);
    assert_eq!(reader_action(&other, &target), ReaderAction::Ignore);
    assert_eq!(reader_action(&WatchInput::Error, &target), ReaderAction::ReadTarget);
    assert_eq!(reader_action(&WatchInput::Closed, &target), ReaderAction::Stop);
}

#[test]
fn queue_keeps_every_changed_snapshot_once() {
    let mut last = None;
    let reads = ["{\"turn\":1}", "{\"turn\":1}", "{\"turn\":2}", "{\"turn\":2}", "{\"turn\":3}", "{\"turn\":1}"];
    let queued: Vec<String> = reads.iter().filter_map(|r| push_if_new(&mut last, s(r))).collect();
    assert_eq!(queued, vec![s("{\"turn\":1}"), s("{\"turn\":2}"), s("{\"turn\":3}"), s("{\"turn\":1}")]);
    assert_eq!(last, Some(s("{\"turn\":1}")));
}

#[test]
fn stable_read_needs_two_equal_reads() {
    let mut last = None;
    assert_eq!(read_stable_step(&mut last, None), StableStep::Again);
    assert_eq!(read_stable_step(&mut last, Some(s(""))), StableStep::Again);
    assert_eq!(last, None);
    assert_eq!(read_stable_step(&mut last, Some(s("{\"turn\":9"))), StableStep::Again);
    assert_eq!(read_stable_step(&mut last, Some(s("{\"turn\":9}"))), StableStep::Again);
    assert_eq!(last, Some(s("{\"turn\":9}")));
    assert_eq!(read_stable_step(&mut last, Some(s("{\"turn\":9}"))), StableStep::Done(s("{\"turn\":9}")));
    assert_eq!(read_stable_give_up(last), Ok(s("{\"turn\":9}")));
    assert_eq!(read_stable_give_up(None), Err(ReadError::Unreadable));
}
