//! Log entries: what a task, a step or the system reports while it runs.
use vstd::prelude::*;

verus! {

/// One line of the log.
#[derive(Debug)]
pub struct LogEntry {
    pub id: u64,
    pub task_id: String,
    pub step_id: Option<String>,
    pub level: LogLevel,
    pub message: String,
    pub timestamp: u64,
    pub source: LogSource,
}

/// Severity of a log entry.
#[derive(PartialEq, Eq, Structural, Clone, Copy, Debug)]
pub enum LogLevel {
    Debug,
    Info,
    Warn,
    Error,
}

/// Where a log entry comes from.
#[derive(Debug)]
pub enum LogSource {
    Stdout,
    Stderr,
    System,
    Plugin { plugin_id: String },
}

/// Builds the log entries of the system and of task steps; sending them
/// to the user interface happens outside.
pub struct LogPipeline;

impl LogPipeline {
    /// A system-level entry: task id `system`, no step, source `System`.
    pub fn system_entry(id: u64, level: LogLevel, message: String, timestamp: u64) -> (r: LogEntry)
        ensures
            r.id == id,
            r.task_id@ == "system"@,
            r.step_id is None,
            r.level == level,
            r.message == message,
            r.timestamp == timestamp,
            r.source is System,
    {
        LogEntry {
            id,
            task_id: "system".to_owned(),
            step_id: None,
            level,
            message,
            timestamp,
            source: LogSource::System,
        }
    }

    /// An entry of a task's step, with the given fields.
    pub fn step_entry(
        id: u64,
        level: LogLevel,
        task_id: String,
        step_id: Option<String>,
        source: LogSource,
        message: String,
        timestamp: u64,
    ) -> (r: LogEntry)
        ensures
            r == (LogEntry { id, task_id, step_id, level, message, timestamp, source }),
    {
        LogEntry { id, task_id, step_id, level, message, timestamp, source }
    }
}

} // verus!
