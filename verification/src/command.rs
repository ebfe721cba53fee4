//! Records of commands as the ledger and the ranking keep them.

use crate::clock::current_millis;
use mongodb::bson::Document;
use vstd::prelude::*;

verus! {

/// How a failed command ended: the time it took in nanoseconds and the
/// driver's failure message.
#[derive(Debug, PartialEq)]
pub struct CommandStatusFailed {
    pub time_taken: u64,
    pub message: String,
}

/// How a successful command ended: the time it took in nanoseconds and the
/// server's reply.
#[derive(Debug, PartialEq)]
pub struct CommandStatuSuccessful {
    pub time_taken: u64,
    pub reply: Document,
}

/// Where a command stands in its lifecycle.
#[derive(Debug, PartialEq)]
pub enum CommandStatus {
    STARTED,
    FAILED(CommandStatusFailed),
    SUCCESSFUL(CommandStatuSuccessful),
}

/// The ledger's record of one command.
#[derive(Debug, PartialEq)]
pub struct CommandStatistics {
    pub request_id: i32,
    pub name: String,
    pub status: CommandStatus,
    pub command: Document,
    /// When the start of the command was observed, in milliseconds since the epoch.
    pub intercepted_time: usize,
}

/// Summary of a finished command, as kept in the ranking.
#[derive(Debug, PartialEq)]
pub struct FinishedCommandInfo {
    pub time_taken: u64,
    pub command_name: String,
    pub command: Document,
}

/// An inconsistency in the stream of command events. It is reported to the
/// caller and never stops ingestion.
#[derive(Debug, PartialEq)]
pub enum CommandAnomaly {
    /// A start event reused an id that the ledger already held; the record
    /// it replaced is attached.
    DuplicateStart(CommandStatistics),
    /// A completion event named an id that the ledger does not hold.
    OrphanCompletion(i32),
}

/// The record that a start event creates.
pub open spec fn started_record(
    request_id: i32,
    name: String,
    command: Document,
    observed_at: usize,
) -> CommandStatistics {
    CommandStatistics {
        request_id,
        name,
        status: CommandStatus::STARTED,
        command,
        intercepted_time: observed_at,
    }
}

/// `record` with its status replaced by `status`.
pub open spec fn with_status(record: CommandStatistics, status: CommandStatus) -> CommandStatistics {
    CommandStatistics {
        request_id: record.request_id,
        name: record.name,
        status,
        command: record.command,
        intercepted_time: record.intercepted_time,
    }
}

/// The time a status carries, if it is a finished one.
pub open spec fn elapsed_of(status: CommandStatus) -> Option<u64> {
    match status {
        CommandStatus::STARTED => None,
        CommandStatus::FAILED(failed) => Some(failed.time_taken),
        CommandStatus::SUCCESSFUL(successful) => Some(successful.time_taken),
    }
}

/// The ranking entry for `record` finishing after `time_taken` nanoseconds.
pub open spec fn summary_of(record: CommandStatistics, time_taken: u64) -> FinishedCommandInfo {
    FinishedCommandInfo { time_taken, command_name: record.name, command: record.command }
}

/// The counter a status is tallied under: 0 started, 1 failed, 2 successful.
pub open spec fn status_slot(status: CommandStatus) -> int {
    match status {
        CommandStatus::STARTED => 0,
        CommandStatus::FAILED(_) => 1,
        CommandStatus::SUCCESSFUL(_) => 2,
    }
}

impl Clone for CommandStatusFailed {
    fn clone(&self) -> (copy: Self)
        ensures
            copy == *self,
    {
        CommandStatusFailed { time_taken: self.time_taken, message: self.message.clone() }
    }
}

impl Clone for CommandStatuSuccessful {
    fn clone(&self) -> (copy: Self)
        ensures
            copy == *self,
    {
        CommandStatuSuccessful { time_taken: self.time_taken, reply: self.reply.clone() }
    }
}

impl Clone for CommandStatus {
    fn clone(&self) -> (copy: Self)
        ensures
            copy == *self,
    {
        match self {
            CommandStatus::STARTED => CommandStatus::STARTED,
            CommandStatus::FAILED(failed) => CommandStatus::FAILED(failed.clone()),
            CommandStatus::SUCCESSFUL(successful) => CommandStatus::SUCCESSFUL(successful.clone()),
        }
    }
}

impl Clone for CommandStatistics {
    fn clone(&self) -> (copy: Self)
        ensures
            copy == *self,
    {
        CommandStatistics {
            request_id: self.request_id,
            name: self.name.clone(),
            status: self.status.clone(),
            command: self.command.clone(),
            intercepted_time: self.intercepted_time,
        }
    }
}

impl Clone for FinishedCommandInfo {
    fn clone(&self) -> (copy: Self)
        ensures
            copy == *self,
    {
        FinishedCommandInfo {
            time_taken: self.time_taken,
            command_name: self.command_name.clone(),
            command: self.command.clone(),
        }
    }
}

impl Clone for CommandAnomaly {
    fn clone(&self) -> (copy: Self)
        ensures
            copy == *self,
    {
        match self {
            CommandAnomaly::DuplicateStart(replaced) => CommandAnomaly::DuplicateStart(
                replaced.clone(),
            ),
            CommandAnomaly::OrphanCompletion(request_id) => CommandAnomaly::OrphanCompletion(
                *request_id,
            ),
        }
    }
}

impl CommandStatistics {
    /// The record of a command whose start was observed at `observed_at`,
    /// in milliseconds since the epoch.
    pub fn started_at(request_id: i32, name: String, command: Document, observed_at: usize) -> (record:
        CommandStatistics)
        ensures
            record == started_record(request_id, name, command, observed_at),
    {
        CommandStatistics {
            request_id,
            name,
            status: CommandStatus::STARTED,
            command,
            intercepted_time: observed_at,
        }
    }

    /// The record of a command that starts now, by the system clock.
    pub fn new(request_id: i32, name: String, command: Document) -> (record: CommandStatistics)
        ensures
            exists|observed_at: usize|
                record == #[trigger] started_record(request_id, name, command, observed_at),
    {
        let observed_at = current_millis();
        let record = CommandStatistics::started_at(request_id, name, command, observed_at);
        assert(record == started_record(request_id, name, command, observed_at));
        record
    }
}

impl FinishedCommandInfo {
    /// The summary of a command `command_name` with payload `command` that
    /// finished after `time_taken` nanoseconds.
    pub fn new(time_taken: u64, command_name: String, command: Document) -> (info:
        FinishedCommandInfo)
        ensures
            info == (FinishedCommandInfo { time_taken, command_name, command }),
    {
        FinishedCommandInfo { time_taken, command_name, command }
    }
}

} // verus!
