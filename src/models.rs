//! The records that the store keeps, receives and hands back.

use vstd::prelude::*;

verus! {

/// The view of an optional string.
pub open spec fn opt_view(o: Option<String>) -> Option<Seq<char>> {
    match o {
        Some(s) => Some(s@),
        None => None,
    }
}

/// The views of a list of strings.
pub open spec fn strings_view(v: Seq<String>) -> Seq<Seq<char>> {
    Seq::new(v.len(), |i: int| v[i]@)
}

/// The view of an optional list of strings.
pub open spec fn opt_strings_view(o: Option<Vec<String>>) -> Option<Seq<Seq<char>>> {
    match o {
        Some(v) => Some(strings_view(v@)),
        None => None,
    }
}

pub fn clone_opt_string(o: &Option<String>) -> (r: Option<String>)
    ensures
        opt_view(r) == opt_view(*o),
{
    match o {
        Some(s) => Some(s.clone()),
        None => None,
    }
}

/// A stored log row. Rows are written once and never changed afterwards.
#[derive(Debug)]
pub struct LogEntry {
    pub id: String,
    pub ts: i64,
    pub deployment: String,
    pub request_id: Option<String>,
    pub execution_id: Option<String>,
    pub topic: Option<String>,
    pub level: Option<String>,
    pub function_path: Option<String>,
    pub function_name: Option<String>,
    pub udf_type: Option<String>,
    pub success: Option<bool>,
    pub duration_ms: Option<i64>,
    pub message: String,
    pub json_blob: String,
    pub created_at: i64,
}

/// The mathematical content of a [`LogEntry`].
pub struct EntryView {
    pub id: Seq<char>,
    pub ts: i64,
    pub deployment: Seq<char>,
    pub request_id: Option<Seq<char>>,
    pub execution_id: Option<Seq<char>>,
    pub topic: Option<Seq<char>>,
    pub level: Option<Seq<char>>,
    pub function_path: Option<Seq<char>>,
    pub function_name: Option<Seq<char>>,
    pub udf_type: Option<Seq<char>>,
    pub success: Option<bool>,
    pub duration_ms: Option<i64>,
    pub message: Seq<char>,
    pub json_blob: Seq<char>,
    pub created_at: i64,
}

impl View for LogEntry {
    type V = EntryView;

    open spec fn view(&self) -> EntryView {
        EntryView {
            id: self.id@,
            ts: self.ts,
            deployment: self.deployment@,
            request_id: opt_view(self.request_id),
            execution_id: opt_view(self.execution_id),
            topic: opt_view(self.topic),
            level: opt_view(self.level),
            function_path: opt_view(self.function_path),
            function_name: opt_view(self.function_name),
            udf_type: opt_view(self.udf_type),
            success: self.success,
            duration_ms: self.duration_ms,
            message: self.message@,
            json_blob: self.json_blob@,
            created_at: self.created_at,
        }
    }
}

impl LogEntry {
    /// A copy of the row.
    pub fn duplicate(&self) -> (r: LogEntry)
        ensures
            r@ == self@,
    {
        LogEntry {
            id: self.id.clone(),
            ts: self.ts,
            deployment: self.deployment.clone(),
            request_id: clone_opt_string(&self.request_id),
            execution_id: clone_opt_string(&self.execution_id),
            topic: clone_opt_string(&self.topic),
            level: clone_opt_string(&self.level),
            function_path: clone_opt_string(&self.function_path),
            function_name: clone_opt_string(&self.function_name),
            udf_type: clone_opt_string(&self.udf_type),
            success: self.success,
            duration_ms: self.duration_ms,
            message: self.message.clone(),
            json_blob: self.json_blob.clone(),
            created_at: self.created_at,
        }
    }
}

/// The views of a list of rows.
pub open spec fn entries_view(v: Seq<LogEntry>) -> Seq<EntryView> {
    Seq::new(v.len(), |i: int| v[i]@)
}

/// An incoming event, before it is normalised into a row.
#[derive(Debug)]
pub struct IngestLogEntry {
    pub id: String,
    pub timestamp: i64,
    pub function_identifier: Option<String>,
    pub function_name: Option<String>,
    pub udf_type: Option<String>,
    pub request_id: Option<String>,
    pub execution_id: Option<String>,
    pub success: Option<bool>,
    pub duration_ms: Option<i64>,
    pub error: Option<String>,
    pub log_lines: Option<Vec<String>>,
    /// The serialised payload to keep with the row; `{}` is kept where there is none.
    pub raw: Option<String>,
}

/// The mathematical content of an [`IngestLogEntry`].
pub struct IngestView {
    pub id: Seq<char>,
    pub timestamp: i64,
    pub function_identifier: Option<Seq<char>>,
    pub function_name: Option<Seq<char>>,
    pub udf_type: Option<Seq<char>>,
    pub request_id: Option<Seq<char>>,
    pub execution_id: Option<Seq<char>>,
    pub success: Option<bool>,
    pub duration_ms: Option<i64>,
    pub error: Option<Seq<char>>,
    pub log_lines: Option<Seq<Seq<char>>>,
    pub raw: Option<Seq<char>>,
}

impl View for IngestLogEntry {
    type V = IngestView;

    open spec fn view(&self) -> IngestView {
        IngestView {
            id: self.id@,
            timestamp: self.timestamp,
            function_identifier: opt_view(self.function_identifier),
            function_name: opt_view(self.function_name),
            udf_type: opt_view(self.udf_type),
            request_id: opt_view(self.request_id),
            execution_id: opt_view(self.execution_id),
            success: self.success,
            duration_ms: self.duration_ms,
            error: opt_view(self.error),
            log_lines: opt_strings_view(self.log_lines),
            raw: opt_view(self.raw),
        }
    }
}

/// The views of a batch of events.
pub open spec fn events_view(v: Seq<IngestLogEntry>) -> Seq<IngestView> {
    Seq::new(v.len(), |i: int| v[i]@)
}

/// Conjunctive filters of a query; an absent filter admits every row.
#[derive(Debug)]
pub struct LogFilters {
    pub deployment: Option<String>,
    pub start_ts: Option<i64>,
    pub end_ts: Option<i64>,
    pub levels: Option<Vec<String>>,
    /// Carried for the interface; queries do not filter on it.
    pub topics: Option<Vec<String>>,
    pub function_path: Option<String>,
    pub request_id: Option<String>,
    pub success: Option<bool>,
}

/// The mathematical content of [`LogFilters`].
pub struct FilterView {
    pub deployment: Option<Seq<char>>,
    pub start_ts: Option<i64>,
    pub end_ts: Option<i64>,
    pub levels: Option<Seq<Seq<char>>>,
    pub topics: Option<Seq<Seq<char>>>,
    pub function_path: Option<Seq<char>>,
    pub request_id: Option<Seq<char>>,
    pub success: Option<bool>,
}

impl View for LogFilters {
    type V = FilterView;

    open spec fn view(&self) -> FilterView {
        FilterView {
            deployment: opt_view(self.deployment),
            start_ts: self.start_ts,
            end_ts: self.end_ts,
            levels: opt_strings_view(self.levels),
            topics: opt_strings_view(self.topics),
            function_path: opt_view(self.function_path),
            request_id: opt_view(self.request_id),
            success: self.success,
        }
    }
}

impl LogFilters {
    /// Filters that admit every row.
    pub fn none() -> (r: LogFilters)
        ensures
            r.deployment is None,
            r.start_ts is None,
            r.end_ts is None,
            r.levels is None,
            r.topics is None,
            r.function_path is None,
            r.request_id is None,
            r.success is None,
    {
        LogFilters {
            deployment: None,
            start_ts: None,
            end_ts: None,
            levels: None,
            topics: None,
            function_path: None,
            request_id: None,
            success: None,
        }
    }
}

/// One page of rows.
#[derive(Debug)]
pub struct LogQueryResult {
    pub logs: Vec<LogEntry>,
    pub total_count: i64,
    pub has_more: bool,
    pub cursor: Option<String>,
}

/// The outcome of ingesting a batch.
#[derive(Debug, Clone, Copy, PartialEq, Eq, Structural)]
pub struct IngestResult {
    pub inserted: usize,
    pub duplicates: usize,
    pub errors: usize,
}

/// Figures about what the store holds.
#[derive(Debug)]
pub struct LogStats {
    pub total_logs: i64,
    pub oldest_ts: Option<i64>,
    pub newest_ts: Option<i64>,
    pub db_size_bytes: i64,
    pub logs_by_deployment: Vec<(String, i64)>,
}

/// The store's configuration.
#[derive(Debug, Clone, Copy, PartialEq, Eq, Structural)]
pub struct LogStoreSettings {
    pub retention_days: i32,
    pub enabled: bool,
}

impl Default for LogStoreSettings {
    fn default() -> (r: LogStoreSettings)
        ensures
            r.retention_days == 30,
            r.enabled,
    {
        LogStoreSettings { retention_days: 30, enabled: true }
    }
}

} // verus!
