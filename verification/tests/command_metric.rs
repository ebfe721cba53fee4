use mongo_telemetry::command::{
    CommandAnomaly, CommandStatistics, CommandStatuSuccessful, CommandStatus, CommandStatusFailed,
    FinishedCommandInfo,
};
use mongo_telemetry::metric::DatabaseMetric;
use mongodb::bson::{Bson, Document};

const MILLISECOND: u64 = 1_000_000;

fn payload(key: &str, value: i32) -> Document {
    let mut document = Document::new();
    document.insert(key, Bson::Int32(value));
    document
}

#[test]
fn new_metric_is_empty() {
    let metric = DatabaseMetric::new();
    assert!(metric.snapshot().is_empty());
    assert!(metric.get_n_slowest_commands(10).is_empty());
}

#[test]
fn one_finished_command_is_the_slowest() {
    let mut metric = DatabaseMetric::new();
    let command = payload("find", 1);
    assert_eq!(metric.add_init_command_at(1, "find".to_string(), command.clone(), 1_000), None);
    assert_eq!(metric.add_successful_command(1, 50 * MILLISECOND, payload("ok", 1)), None);
    let top = metric.get_n_slowest_commands(5);
    assert_eq!(
        top,
        vec![FinishedCommandInfo {
            time_taken: 50 * MILLISECOND,
            command_name: "find".to_string(),
            command,
        }]
    );
}

#[test]
fn two_slowest_of_three_come_slowest_first() {
    let mut metric = DatabaseMetric::new();
    for (id, name) in [(1, "a"), (2, "b"), (3, "c")] {
        assert_eq!(metric.add_init_command_at(id, name.to_string(), payload(name, id), 0), None);
    }
    assert_eq!(metric.add_successful_command(1, 10 * MILLISECOND, Document::new()), None);
    assert_eq!(metric.add_successful_command(2, 30 * MILLISECOND, Document::new()), None);
    assert_eq!(metric.add_successful_command(3, 20 * MILLISECOND, Document::new()), None);
    let top = metric.get_n_slowest_commands(2);
    assert_eq!(top.len(), 2);
    assert_eq!(top[0].time_taken, 30 * MILLISECOND);
    assert_eq!(top[0].command_name, "b");
    assert_eq!(top[0].command, payload("b", 2));
    assert_eq!(top[1].time_taken, 20 * MILLISECOND);
    assert_eq!(top[1].command_name, "c");
    assert_eq!(top[1].command, payload("c", 3));
}

#[test]
fn top_is_as_long_as_asked_or_as_many_as_finished() {
    let mut metric = DatabaseMetric::new();
    for id in 0..7 {
        metric.add_init_command_at(id, "insert".to_string(), Document::new(), 0);
    }
    for id in 0..5 {
        metric.add_failed_command(id, (id as u64 + 1) * 7, "refused".to_string());
    }
    assert_eq!(metric.get_n_slowest_commands(0).len(), 0);
    assert_eq!(metric.get_n_slowest_commands(3).len(), 3);
    assert_eq!(metric.get_n_slowest_commands(5).len(), 5);
    assert_eq!(metric.get_n_slowest_commands(6).len(), 5);
    assert_eq!(metric.get_n_slowest_commands(usize::MAX).len(), 5);
    let all = metric.get_n_slowest_commands(5);
    let times: Vec<u64> = all.iter().map(|entry| entry.time_taken).collect();
    assert_eq!(times, vec![35, 28, 21, 14, 7]);
}

#[test]
fn equal_durations_are_all_kept_in_order_of_completion() {
    let mut metric = DatabaseMetric::new();
    for (id, name) in [(1, "first"), (2, "second"), (3, "third"), (4, "fourth")] {
        metric.add_init_command_at(id, name.to_string(), Document::new(), 0);
    }
    metric.add_successful_command(1, 5, Document::new());
    metric.add_successful_command(2, 5, Document::new());
    metric.add_failed_command(3, 9, "late".to_string());
    metric.add_successful_command(4, 5, Document::new());
    let names: Vec<String> =
        metric.get_n_slowest_commands(10).into_iter().map(|entry| entry.command_name).collect();
    assert_eq!(names, vec!["third", "first", "second", "fourth"]);
}

#[test]
fn second_start_for_an_id_is_one_anomaly_and_one_record() {
    let mut metric = DatabaseMetric::new();
    assert_eq!(metric.add_init_command_at(7, "find".to_string(), payload("n", 1), 10), None);
    let anomaly = metric.add_init_command_at(7, "count".to_string(), payload("n", 2), 20);
    assert_eq!(
        anomaly,
        Some(CommandAnomaly::DuplicateStart(CommandStatistics {
            request_id: 7,
            name: "find".to_string(),
            status: CommandStatus::STARTED,
            command: payload("n", 1),
            intercepted_time: 10,
        }))
    );
    let ledger = metric.snapshot();
    assert_eq!(ledger.len(), 1);
    assert_eq!(
        ledger[&7],
        CommandStatistics {
            request_id: 7,
            name: "count".to_string(),
            status: CommandStatus::STARTED,
            command: payload("n", 2),
            intercepted_time: 20,
        }
    );
    assert!(metric.get_n_slowest_commands(10).is_empty());
}

#[test]
fn completion_for_an_unknown_id_is_an_anomaly_and_changes_nothing() {
    let mut metric = DatabaseMetric::new();
    metric.add_init_command_at(1, "find".to_string(), Document::new(), 5);
    metric.add_successful_command(1, 40, Document::new());
    let ledger_before = metric.snapshot();
    let top_before = metric.get_n_slowest_commands(10);
    assert_eq!(
        metric.add_successful_command(2, 90, payload("ok", 1)),
        Some(CommandAnomaly::OrphanCompletion(2))
    );
    assert_eq!(
        metric.add_failed_command(3, 90, "gone".to_string()),
        Some(CommandAnomaly::OrphanCompletion(3))
    );
    assert_eq!(metric.snapshot(), ledger_before);
    assert_eq!(metric.get_n_slowest_commands(10), top_before);
}

#[test]
fn completion_on_an_empty_ledger_is_an_orphan() {
    let mut metric = DatabaseMetric::new();
    assert_eq!(
        metric.add_failed_command(-4, 1, "x".to_string()),
        Some(CommandAnomaly::OrphanCompletion(-4))
    );
    assert!(metric.snapshot().is_empty());
    assert!(metric.get_n_slowest_commands(1).is_empty());
}

#[test]
fn completion_sets_the_status_and_keeps_the_rest() {
    let mut metric = DatabaseMetric::new();
    metric.add_init_command_at(1, "update".to_string(), payload("u", 1), 111);
    metric.add_init_command_at(2, "delete".to_string(), payload("d", 2), 222);
    assert_eq!(metric.add_failed_command(1, 77, "write conflict".to_string()), None);
    assert_eq!(metric.add_successful_command(2, 88, payload("n", 3)), None);
    let ledger = metric.snapshot();
    assert_eq!(
        ledger[&1],
        CommandStatistics {
            request_id: 1,
            name: "update".to_string(),
            status: CommandStatus::FAILED(CommandStatusFailed {
                time_taken: 77,
                message: "write conflict".to_string(),
            }),
            command: payload("u", 1),
            intercepted_time: 111,
        }
    );
    assert_eq!(
        ledger[&2],
        CommandStatistics {
            request_id: 2,
            name: "delete".to_string(),
            status: CommandStatus::SUCCESSFUL(CommandStatuSuccessful {
                time_taken: 88,
                reply: payload("n", 3),
            }),
            command: payload("d", 2),
            intercepted_time: 222,
        }
    );
}

#[test]
fn a_record_completed_twice_is_ranked_twice() {
    let mut metric = DatabaseMetric::new();
    metric.add_init_command_at(1, "find".to_string(), Document::new(), 0);
    assert_eq!(metric.add_failed_command(1, 3, "retry".to_string()), None);
    assert_eq!(metric.add_successful_command(1, 8, Document::new()), None);
    let times: Vec<u64> =
        metric.get_n_slowest_commands(10).iter().map(|entry| entry.time_taken).collect();
    assert_eq!(times, vec![8, 3]);
    assert!(matches!(metric.snapshot()[&1].status, CommandStatus::SUCCESSFUL(_)));
}

#[test]
fn restart_of_a_finished_id_keeps_its_ranking_entry() {
    let mut metric = DatabaseMetric::new();
    metric.add_init_command_at(1, "find".to_string(), Document::new(), 0);
    metric.add_successful_command(1, 8, Document::new());
    let anomaly = metric.add_init_command_at(1, "find".to_string(), Document::new(), 9);
    assert!(matches!(anomaly, Some(CommandAnomaly::DuplicateStart(_))));
    assert_eq!(metric.snapshot()[&1].status, CommandStatus::STARTED);
    assert_eq!(metric.get_n_slowest_commands(10).len(), 1);
}

#[test]
fn snapshot_is_a_copy() {
    let mut metric = DatabaseMetric::new();
    metric.add_init_command_at(1, "find".to_string(), Document::new(), 0);
    let mut copy = metric.snapshot();
    copy.clear();
    assert_eq!(metric.snapshot().len(), 1);
}

#[test]
fn clock_stamped_start_is_counted_in_the_trailing_window() {
    let mut metric = DatabaseMetric::new();
    assert_eq!(metric.add_init_command(1, "ping".to_string(), Document::new()), None);
    let observed = metric.snapshot()[&1].intercepted_time;
    assert!(observed > 1_600_000_000_000);
    let stats = metric.get_commands_statistics_per_sec(30);
    assert_eq!(stats.len(), 30);
    let started: usize = stats.iter().map(|bucket| bucket.0).sum();
    let failed: usize = stats.iter().map(|bucket| bucket.1).sum();
    let successful: usize = stats.iter().map(|bucket| bucket.2).sum();
    assert_eq!((started, failed, successful), (1, 0, 0));
}

#[test]
fn index_keeps_entries_slowest_first() {
    let mut index = mongo_telemetry::ranking::SlowestIndex::new();
    assert_eq!(index.len(), 0);
    assert!(index.top_n_slowest(3).is_empty());
    for (time_taken, name) in [(20u64, "b"), (10, "a"), (30, "c"), (20, "d"), (0, "e"), (u64::MAX, "f")]
    {
        index.insert(FinishedCommandInfo::new(time_taken, name.to_string(), payload(name, 0)));
    }
    assert_eq!(index.len(), 6);
    let names: Vec<String> =
        index.top_n_slowest(6).into_iter().map(|entry| entry.command_name).collect();
    assert_eq!(names, vec!["f", "c", "b", "d", "a", "e"]);
    let top = index.top_n_slowest(2);
    assert_eq!(top.len(), 2);
    assert_eq!(top[0], FinishedCommandInfo::new(u64::MAX, "f".to_string(), payload("f", 0)));
    assert_eq!(top[1], FinishedCommandInfo::new(30, "c".to_string(), payload("c", 0)));
    assert_eq!(index.top_n_slowest(100).len(), 6);
}

#[test]
fn started_record_carries_what_it_was_given() {
    let record = CommandStatistics::started_at(4, "find".to_string(), payload("q", 9), 1234);
    assert_eq!(
        record,
        CommandStatistics {
            request_id: 4,
            name: "find".to_string(),
            status: CommandStatus::STARTED,
            command: payload("q", 9),
            intercepted_time: 1234,
        }
    );
    let stamped = CommandStatistics::new(5, "count".to_string(), payload("q", 1));
    assert_eq!(stamped.request_id, 5);
    assert_eq!(stamped.name, "count");
    assert_eq!(stamped.status, CommandStatus::STARTED);
    assert_eq!(stamped.command, payload("q", 1));
    assert!(stamped.intercepted_time > 1_600_000_000_000);
}

#[test]
fn copies_equal_what_they_were_made_from() {
    let mut metric = DatabaseMetric::new();
    metric.add_init_command_at(1, "find".to_string(), payload("deep", 3), 8);
    metric.add_successful_command(1, 5, payload("reply", 1));
    let record = metric.snapshot()[&1].clone();
    assert_eq!(record.clone(), record);
    assert_eq!(record.command, payload("deep", 3));
    assert_eq!(
        record.status,
        CommandStatus::SUCCESSFUL(CommandStatuSuccessful { time_taken: 5, reply: payload("reply", 1) })
    );
    let anomaly = CommandAnomaly::DuplicateStart(record.clone());
    assert_eq!(anomaly.clone(), anomaly);
    let failed = CommandStatusFailed { time_taken: 2, message: "m".to_string() };
    assert_eq!(failed.clone(), failed);
}
