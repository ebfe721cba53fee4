//! The entry points that the driver's event notifications are routed to,
//! one per kind of event. Each takes the store it updates and the values
//! that the event carries, and returns as soon as the store is updated.

use crate::command::CommandAnomaly;
use crate::heartbeat::{window_push, DatabaseHeartbeat, FinishedHeartbeat, HEARTBEAT_CAPACITY};
use crate::metric::{ledger_started, start_anomaly, DatabaseMetric};
use crate::topology::{DatabaseTopology, ServerDescription};
use crate::trace::{reported, step, CommandEvent};
use mongodb::bson::Document;
use vstd::prelude::*;

verus! {

/// Receives the events of server discovery and monitoring.
pub struct ServerInfoHandler;

impl ServerInfoHandler {
    /// The topology changed: `servers` replaces the whole description.
    pub fn handle_topology_description_changed_event(
        &self,
        topology: &mut DatabaseTopology,
        servers: Vec<ServerDescription>,
    )
        ensures
            final(topology)@ == servers@,
    {
        topology.replace_document(servers);
    }

    /// A heartbeat failed after `latency` nanoseconds.
    pub fn handle_server_heartbeat_failed_event(
        &self,
        heartbeat: &mut DatabaseHeartbeat,
        latency: usize,
    )
        ensures
            final(heartbeat)@ == window_push(old(heartbeat)@, FinishedHeartbeat::FAILED(latency)),
            final(heartbeat)@.len() <= HEARTBEAT_CAPACITY,
    {
        heartbeat.add_failed_event(latency);
    }

    /// A heartbeat succeeded after `latency` nanoseconds.
    pub fn handle_server_heartbeat_succeeded_event(
        &self,
        heartbeat: &mut DatabaseHeartbeat,
        latency: usize,
    )
        ensures
            final(heartbeat)@ == window_push(
                old(heartbeat)@,
                FinishedHeartbeat::SUCCEEDED(latency),
            ),
            final(heartbeat)@.len() <= HEARTBEAT_CAPACITY,
    {
        heartbeat.add_succeeded_event(latency);
    }
}

/// Receives the events of command monitoring.
pub struct CommandInfoHandler;

impl CommandInfoHandler {
    /// A command started. It is filed as observed at the system clock's
    /// reading, and a duplicate start is reported.
    pub fn handle_command_started_event(
        &self,
        metric: &mut DatabaseMetric,
        request_id: i32,
        command_name: String,
        command: Document,
    ) -> (anomaly: Option<CommandAnomaly>)
        ensures
            exists|observed_at: usize|
                final(metric).state() == #[trigger] step(
                    old(metric).state(),
                    CommandEvent::Started { request_id, name: command_name, command, observed_at },
                ),
            anomaly == start_anomaly(old(metric).ledger(), request_id),
    {
        let anomaly = metric.add_init_command(request_id, command_name, command);
        proof {
            let observed_at = choose|observed_at: usize|
                metric.ledger() == #[trigger] ledger_started(
                    old(metric).ledger(),
                    request_id,
                    command_name,
                    command,
                    observed_at,
                );
            assert(metric.state() == step(
                old(metric).state(),
                CommandEvent::Started { request_id, name: command_name, command, observed_at },
            ));
        }
        anomaly
    }

    /// A command succeeded after `time_taken` nanoseconds with `reply`. An
    /// orphan completion is reported.
    pub fn handle_command_succeeded_event(
        &self,
        metric: &mut DatabaseMetric,
        request_id: i32,
        time_taken: u64,
        reply: Document,
    ) -> (anomaly: Option<CommandAnomaly>)
        ensures
            final(metric).state() == step(
                old(metric).state(),
                CommandEvent::Succeeded { request_id, time_taken, reply },
            ),
            anomaly == reported(
                old(metric).state(),
                CommandEvent::Succeeded { request_id, time_taken, reply },
            ),
    {
        metric.add_successful_command(request_id, time_taken, reply)
    }

    /// A command failed after `time_taken` nanoseconds with the failure
    /// message `failure`. An orphan completion is reported.
    pub fn handle_command_failed_event(
        &self,
        metric: &mut DatabaseMetric,
        request_id: i32,
        time_taken: u64,
        failure: String,
    ) -> (anomaly: Option<CommandAnomaly>)
        ensures
            final(metric).state() == step(
                old(metric).state(),
                CommandEvent::Failed { request_id, time_taken, message: failure },
            ),
            anomaly == reported(
                old(metric).state(),
                CommandEvent::Failed { request_id, time_taken, message: failure },
            ),
    {
        metric.add_failed_command(request_id, time_taken, failure)
    }
}

} // verus!
