use mongo_telemetry::command::CommandAnomaly;
use mongo_telemetry::metric::DatabaseMetric;
use mongo_telemetry::trace::CommandEvent;
use mongodb::bson::Document;

fn started(request_id: i32, name: &str) -> CommandEvent {
    CommandEvent::Started {
        request_id,
        name: name.to_string(),
        command: Document::new(),
        observed_at: 0,
    }
}

fn succeeded(request_id: i32, time_taken: u64) -> CommandEvent {
    CommandEvent::Succeeded { request_id, time_taken, reply: Document::new() }
}

fn failed(request_id: i32, time_taken: u64) -> CommandEvent {
    CommandEvent::Failed { request_id, time_taken, message: "failed".to_string() }
}

fn replay(events: Vec<CommandEvent>) -> (DatabaseMetric, Vec<Option<CommandAnomaly>>) {
    let mut metric = DatabaseMetric::new();
    let anomalies = events.into_iter().map(|event| metric.record_event(event)).collect();
    (metric, anomalies)
}

#[test]
fn paired_run_ranks_every_completion() {
    let mut events = Vec::new();
    for id in 0..40 {
        events.push(started(id, "find"));
    }
    for id in 0..25 {
        let time_taken = ((id * 7919) % 101) as u64;
        events.push(if id % 2 == 0 { succeeded(id, time_taken) } else { failed(id, time_taken) });
    }
    let (metric, anomalies) = replay(events);
    assert!(anomalies.iter().all(|anomaly| anomaly.is_none()));
    for n in [0usize, 1, 10, 24, 25, 26, 1000] {
        let top = metric.get_n_slowest_commands(n);
        assert_eq!(top.len(), n.min(25));
        assert!(top.windows(2).all(|pair| pair[0].time_taken >= pair[1].time_taken));
    }
}

#[test]
fn second_start_in_a_row_is_the_only_anomaly() {
    let (metric, anomalies) = replay(vec![started(9, "find"), started(9, "find")]);
    assert_eq!(anomalies.len(), 2);
    assert_eq!(anomalies[0], None);
    assert!(matches!(anomalies[1], Some(CommandAnomaly::DuplicateStart(_))));
    assert_eq!(metric.snapshot().len(), 1);
}

#[test]
fn orphan_in_a_stream_leaves_the_stores_alone() {
    let (with_orphan, anomalies) =
        replay(vec![started(1, "a"), succeeded(1, 5), failed(2, 50), started(3, "c")]);
    let (without, _) = replay(vec![started(1, "a"), succeeded(1, 5), started(3, "c")]);
    assert_eq!(
        anomalies,
        vec![None, None, Some(CommandAnomaly::OrphanCompletion(2)), None]
    );
    assert_eq!(with_orphan.snapshot(), without.snapshot());
    assert_eq!(with_orphan.get_n_slowest_commands(9), without.get_n_slowest_commands(9));
}

#[test]
fn events_in_any_interleaving_keep_the_ranking_ordered() {
    let (metric, _) = replay(vec![
        succeeded(1, 3),
        started(1, "a"),
        started(2, "b"),
        failed(2, 9),
        started(1, "a"),
        succeeded(1, 1),
        succeeded(2, 4),
        failed(7, 100),
        succeeded(1, 9),
    ]);
    let times: Vec<u64> =
        metric.get_n_slowest_commands(10).iter().map(|entry| entry.time_taken).collect();
    assert_eq!(times, vec![9, 9, 4, 1]);
    let names: Vec<String> =
        metric.get_n_slowest_commands(2).into_iter().map(|entry| entry.command_name).collect();
    assert_eq!(names, vec!["b", "a"]);
}
