use pulse_sinks::engine::{
    exit_code, move_all_default, move_all_next, move_stream, set_default, Command, Dispatch,
    EngineError, ToolFailure,
};
use pulse_sinks::model::Diagnostic;
use pulse_sinks::snapshot::Snapshot;

fn sinks_text(sinks: &[(u32, bool)]) -> String {
    let mut s = String::new();
    for (index, default) in sinks {
        let mark = if *default { "  * " } else { "    " };
        s.push_str(&format!(
            "{}index: {}\n\tname: <sink{}>\n\t\tdevice.description = \"Sink {}\"\n",
            mark, index, index, index
        ));
    }
    s
}

fn inputs_text(inputs: &[(u32, u32)]) -> String {
    let mut s = String::new();
    for (index, sink) in inputs {
        s.push_str(&format!(
            "    index: {}\n\tstate: RUNNING\n\tsink: {} <sink{}>\n\t\tmedia.name = \"Song\"\n\t\tapplication.process.binary = \"player\"\n",
            index, sink, sink
        ));
    }
    s
}

fn snapshot(sinks: &[(u32, bool)], inputs: &[(u32, u32)]) -> Snapshot {
    Snapshot::from_listings(&sinks_text(sinks), &inputs_text(inputs))
}

fn run(commands: Vec<Command>, outcomes: &[Result<(), ToolFailure>]) -> (Dispatch, Vec<Command>) {
    let mut d = Dispatch::new(commands);
    let mut issued = Vec::new();
    let mut k = 0;
    while let Some(c) = d.next_command() {
        issued.push(c);
        d.record(outcomes[k]);
        k += 1;
    }
    (d, issued)
}

#[test]
fn move_all_default_moves_each_stream_to_default() {
    let snap = snapshot(&[(0, true), (1, false)], &[(42, 1), (43, 1)]);
    let plan = move_all_default(&snap).unwrap();
    assert_eq!(
        plan,
        vec![
            Command::MoveSinkInput { stream: 42, sink: 0 },
            Command::MoveSinkInput { stream: 43, sink: 0 },
        ]
    );
}

#[test]
fn move_all_next_wraps_to_first() {
    let snap = snapshot(&[(0, false), (1, true)], &[(7, 1)]);
    assert_eq!(
        move_all_next(&snap),
        vec![Command::MoveSinkInput { stream: 7, sink: 0 }, Command::SetDefaultSink { sink: 0 }]
    );
}

#[test]
fn move_all_next_without_default_takes_first() {
    let snap = snapshot(&[(0, false), (1, false)], &[(7, 0)]);
    assert_eq!(
        move_all_next(&snap),
        vec![Command::MoveSinkInput { stream: 7, sink: 0 }, Command::SetDefaultSink { sink: 0 }]
    );
}

#[test]
fn move_all_next_takes_the_following_sink() {
    let snap = snapshot(&[(3, true), (5, false), (9, false)], &[(1, 3), (2, 3)]);
    let plan = move_all_next(&snap);
    assert_eq!(
        plan,
        vec![
            Command::MoveSinkInput { stream: 1, sink: 5 },
            Command::MoveSinkInput { stream: 2, sink: 5 },
            Command::SetDefaultSink { sink: 5 },
        ]
    );
    let defaults = plan.iter().filter(|c| matches!(c, Command::SetDefaultSink { .. })).count();
    assert_eq!(defaults, 1);
}

#[test]
fn move_all_default_without_default_fails() {
    let snap = snapshot(&[(0, false)], &[(7, 0)]);
    assert_eq!(move_all_default(&snap), Err(EngineError::NoDefault));
    assert_eq!(exit_code(EngineError::NoDefault), 2);
}

#[test]
fn move_all_with_no_sinks_plans_nothing() {
    let snap = snapshot(&[], &[]);
    assert_eq!(move_all_default(&snap), Ok(vec![]));
    assert!(move_all_next(&snap).is_empty());
}

#[test]
fn move_all_next_with_no_streams_still_sets_default() {
    let snap = snapshot(&[(0, true), (1, false)], &[]);
    assert_eq!(move_all_next(&snap), vec![Command::SetDefaultSink { sink: 1 }]);
}

#[test]
fn every_stream_is_moved_or_has_its_failure_recorded() {
    let snap = snapshot(&[(0, true), (1, false)], &[(42, 1), (43, 1), (44, 1)]);
    let plan = move_all_default(&snap).unwrap();
    let outcomes = [Ok(()), Err(ToolFailure::Exited { code: 1 }), Ok(())];
    let (d, issued) = run(plan, &outcomes);
    assert_eq!(d.finish(), Ok(()));
    for (k, s) in snap.sink_inputs().iter().enumerate() {
        assert_eq!(issued[k], Command::MoveSinkInput { stream: s.index, sink: 0 });
    }
    assert_eq!(d.outcomes()[1], Some(ToolFailure::Exited { code: 1 }));
}

#[test]
fn fatal_failure_is_returned_even_after_a_success() {
    let snap = snapshot(&[(0, true), (1, false)], &[(42, 1), (43, 1)]);
    let plan = move_all_next(&snap);
    let outcomes = [Ok(()), Err(ToolFailure::Unavailable), Err(ToolFailure::Unavailable)];
    let (d, issued) = run(plan, &outcomes);
    assert_eq!(issued.len(), 3);
    assert_eq!(d.finish(), Err(ToolFailure::Unavailable));
    assert_eq!(exit_code(EngineError::Tool(ToolFailure::Unavailable)), 1);
}

#[test]
fn all_moves_failing_returns_first_failure() {
    let snap = snapshot(&[(0, true)], &[(1, 0), (2, 0)]);
    let plan = move_all_default(&snap).unwrap();
    let outcomes = [Err(ToolFailure::Exited { code: 4 }), Err(ToolFailure::Signaled)];
    let (d, _) = run(plan, &outcomes);
    assert!(d.is_done());
    assert_eq!(d.finish(), Err(ToolFailure::Exited { code: 4 }));
}

#[test]
fn failed_set_default_alone_is_not_fatal() {
    let snap = snapshot(&[(0, true), (1, false)], &[(1, 0)]);
    let plan = move_all_next(&snap);
    let outcomes = [Ok(()), Err(ToolFailure::Exited { code: 1 })];
    let (d, _) = run(plan, &outcomes);
    assert_eq!(d.finish(), Ok(()));
}

#[test]
fn io_failure_maps_to_exit_three() {
    assert_eq!(exit_code(EngineError::Tool(ToolFailure::Io)), 3);
    assert_eq!(exit_code(EngineError::UnknownSink { index: 1 }), 2);
}

#[test]
fn move_stream_checks_both_indices() {
    let snap = snapshot(&[(0, true), (1, false)], &[(42, 0)]);
    assert_eq!(
        move_stream(&snap, 42, 1, false),
        Ok(vec![Command::MoveSinkInput { stream: 42, sink: 1 }])
    );
    assert_eq!(
        move_stream(&snap, 42, 1, true),
        Ok(vec![Command::MoveSinkInput { stream: 42, sink: 1 }, Command::SetDefaultSink { sink: 1 }])
    );
    assert_eq!(move_stream(&snap, 41, 1, false), Err(EngineError::UnknownStream { index: 41 }));
    assert_eq!(move_stream(&snap, 42, 2, false), Err(EngineError::UnknownSink { index: 2 }));
    assert_eq!(set_default(&snap, 1), Ok(Command::SetDefaultSink { sink: 1 }));
    assert_eq!(set_default(&snap, 5), Err(EngineError::UnknownSink { index: 5 }));
}

#[test]
fn snapshot_lookups() {
    let snap = snapshot(&[(0, false), (4, true), (6, false)], &[(42, 4), (43, 9)]);
    assert_eq!(snap.default_sink().unwrap().index, 4);
    assert_eq!(snap.lookup_sink_by_index(6).unwrap().name, "sink6");
    assert!(snap.lookup_sink_by_index(5).is_none());
    assert_eq!(snap.lookup_sink_input_by_index(43).unwrap().sink_index, 9);
    assert!(snap.lookup_sink_input_by_index(44).is_none());
    let others: Vec<u32> = snap.other_sinks().iter().map(|s| s.index).collect();
    assert_eq!(others, vec![0, 6]);
    assert_eq!(snap.diagnostics(), &vec![Diagnostic::DanglingStream { stream: 43, sink: 9 }]);
}

#[test]
fn snapshot_queries_leave_it_unchanged() {
    let snap = snapshot(&[(0, true), (1, false)], &[(42, 0)]);
    let before: Vec<(u32, bool)> = snap.sinks().iter().map(|s| (s.index, s.is_default)).collect();
    let _ = move_all_next(&snap);
    let _ = move_all_default(&snap);
    let _ = snap.other_sinks();
    let after: Vec<(u32, bool)> = snap.sinks().iter().map(|s| (s.index, s.is_default)).collect();
    assert_eq!(before, after);
    assert_eq!(snap.sink_inputs().len(), 1);
}

#[test]
fn incomplete_sinks_listing_is_unreadable() {
    let snap = Snapshot::from_listings("  * index: 0\n\tname: <a>\n", "");
    assert!(snap.sinks().is_empty());
    assert!(snap.unreadable());
    let empty = Snapshot::from_listings("", "");
    assert!(!empty.unreadable());
    let fine = snapshot(&[(0, true)], &[]);
    assert!(!fine.unreadable());
}

#[test]
fn dispatch_reports_whether_anything_moves() {
    let snap = snapshot(&[(0, true), (1, false)], &[]);
    let d = Dispatch::new(move_all_next(&snap));
    assert!(!d.has_moves());
    let (d, _) = run(move_all_next(&snap), &[Ok(())]);
    assert_eq!(d.finish(), Ok(()));
    let snap = snapshot(&[(0, true)], &[(5, 0)]);
    assert!(Dispatch::new(move_all_default(&snap).unwrap()).has_moves());
}
