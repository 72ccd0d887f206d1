//! The operations that the application calls on the store.

use vstd::prelude::*;
use crate::models::{
    IngestLogEntry, IngestResult, LogEntry, LogStats, LogStoreSettings, events_view,
};
use crate::store::{
    LogStore, deployment_count, ingest_at, ingest_fold, kept, lemma_kept_prefix, lists_deployment,
    lookup, settings_of,
};
use crate::text::{i64_numeral, numeral};

verus! {

/// Milliseconds in a day.
pub const DAY_MILLIS: i64 = 86_400_000;

/// The retention cutoff: `days` whole days before `now`.
pub open spec fn retention_cutoff(now: i64, days: i32) -> int {
    now as int - days as int * DAY_MILLIS as int
}

/// Creates a store holding no rows, with the default settings recorded.
pub fn init_db() -> (r: LogStore)
    ensures
        r.wf(),
        r.entries().len() == 0,
        lookup(r.setting_pairs(), "retention_days"@) == Some("30"@),
        lookup(r.setting_pairs(), "enabled"@) == Some("true"@),
        settings_of(r.setting_pairs()) == (LogStoreSettings { retention_days: 30, enabled: true }),
{
    let mut store = LogStore::new();
    set_log_store_settings(&mut store, LogStoreSettings { retention_days: 30, enabled: true });
    proof {
        reveal_strlit("30");
        assert(numeral(30) =~= "30"@) by {
            reveal_with_fuel(crate::text::nat_numeral, 3);
        }
    }
    store
}

/// Ingests a batch of events for a deployment at time `now` (milliseconds
/// since the Unix epoch), which new rows carry as their ingest time: each event
/// becomes a row, inserted unless a row with its id is already held, in which
/// case it counts as a duplicate.
pub fn ingest_logs(store: &mut LogStore, logs: Vec<IngestLogEntry>, deployment: String, now: i64) -> (r:
    IngestResult)
    requires
        old(store).wf(),
        old(store).entries().len() + logs@.len() <= i64::MAX,
    ensures
        final(store).wf(),
        final(store).entries().to_set() == ingest_fold(
            old(store).entries().to_set(),
            events_view(logs@),
            deployment@,
            now,
        ).rows,
        r.inserted == ingest_fold(
            old(store).entries().to_set(),
            events_view(logs@),
            deployment@,
            now,
        ).inserted,
        r.duplicates == ingest_fold(
            old(store).entries().to_set(),
            events_view(logs@),
            deployment@,
            now,
        ).duplicates,
        r.errors == 0,
        r.inserted + r.duplicates == logs@.len(),
        final(store).entries().len() == old(store).entries().len() + r.inserted,
        final(store).setting_pairs() == old(store).setting_pairs(),
{
    ingest_at(store, logs, deployment, now)
}

/// The row with this id, if one is held.
pub fn get_log_by_id(store: &LogStore, id: &String) -> (r: Option<LogEntry>)
    requires
        store.wf(),
    ensures
        match r {
            Some(e) => exists|i: int|
                0 <= i < store.entries().len() && store.entries()[i] == e@ && e@.id == id@,
            None => forall|i: int|
                0 <= i < store.entries().len() ==> (#[trigger] store.entries()[i]).id != id@,
        },
{
    store.find(id)
}

/// Deletes the rows older than `days` days before `now`, that is those whose
/// timestamp lies before [`retention_cutoff`], and returns how many went.
pub fn delete_logs_older_than(store: &mut LogStore, days: i32, now: i64) -> (r: i64)
    requires
        old(store).wf(),
    ensures
        final(store).wf(),
        final(store).entries() == kept(old(store).entries(), retention_cutoff(now, days)),
        r == old(store).entries().len() - final(store).entries().len(),
        final(store).setting_pairs() == old(store).setting_pairs(),
{
    let span: i64 = (days as i64) * DAY_MILLIS;
    let cutoff: i128 = (now as i128) - (span as i128);
    let ghost s = store.entries();
    proof {
        store.lemma_wf();
    }
    if cutoff > 9223372036854775807i128 {
        let n = store.len();
        store.clear();
        proof {
            lemma_kept_prefix(s, cutoff as int, 0);
            assert(s.subrange(0, 0) =~= store.entries());
        }
        n as i64
    } else if cutoff < -9223372036854775808i128 {
        proof {
            lemma_kept_prefix(s, cutoff as int, s.len() as int);
            assert(s.subrange(0, s.len() as int) =~= s);
        }
        0
    } else {
        let gone = store.delete_before(cutoff as i64);
        gone as i64
    }
}

/// One retention sweep with the given window at time `now`, as the scheduler
/// runs it.
pub fn run_retention_once(store: &mut LogStore, retention_days: i32, now: i64) -> (r: i64)
    requires
        old(store).wf(),
    ensures
        final(store).wf(),
        final(store).entries() == kept(old(store).entries(), retention_cutoff(now, retention_days)),
        r == old(store).entries().len() - final(store).entries().len(),
        final(store).setting_pairs() == old(store).setting_pairs(),
{
    delete_logs_older_than(store, retention_days, now)
}

/// A scheduled sweep at time `now`: reads the retention window from the
/// settings as they stand, then runs [`run_retention_once`] with it.
pub fn run_scheduled_sweep(store: &mut LogStore, now: i64) -> (r: i64)
    requires
        old(store).wf(),
    ensures
        final(store).wf(),
        final(store).entries() == kept(
            old(store).entries(),
            retention_cutoff(now, settings_of(old(store).setting_pairs()).retention_days),
        ),
        r == old(store).entries().len() - final(store).entries().len(),
        final(store).setting_pairs() == old(store).setting_pairs(),
{
    let settings = get_log_store_settings(store);
    run_retention_once(store, settings.retention_days, now)
}

/// Figures about the store: the row count, the oldest and newest timestamps
/// (none when empty), the given size of the database, and the row count of
/// each deployment.
pub fn get_log_stats(store: &LogStore, db_size_bytes: i64) -> (r: LogStats)
    requires
        store.wf(),
    ensures
        r.total_logs as int == store.entries().len(),
        r.db_size_bytes == db_size_bytes,
        store.entries().len() == 0 ==> r.oldest_ts is None && r.newest_ts is None,
        store.entries().len() > 0 ==> {
            &&& r.oldest_ts is Some && r.newest_ts is Some
            &&& exists|i: int|
                0 <= i < store.entries().len() && store.entries()[i].ts == r.oldest_ts->0
            &&& exists|i: int|
                0 <= i < store.entries().len() && store.entries()[i].ts == r.newest_ts->0
            &&& forall|i: int|
                0 <= i < store.entries().len() ==> r.oldest_ts->0 <= (#[trigger] store.entries()[i]).ts
                    <= r.newest_ts->0
        },
        forall|k: int|
            0 <= k < r.logs_by_deployment@.len() ==> (#[trigger] r.logs_by_deployment@[k]).1 as int
                == deployment_count(store.entries(), r.logs_by_deployment@[k].0@)
                && r.logs_by_deployment@[k].1 > 0,
        forall|a: int, b: int|
            0 <= a < b < r.logs_by_deployment@.len() ==> (#[trigger] r.logs_by_deployment@[a]).0@
                != (#[trigger] r.logs_by_deployment@[b]).0@,
        forall|i: int|
            0 <= i < store.entries().len() ==> lists_deployment(
                r.logs_by_deployment@,
                (#[trigger] store.entries()[i]).deployment,
            ),
{
    proof {
        store.lemma_wf();
    }
    let n = store.len();
    let (oldest, newest) = if n == 0 {
        (None, None)
    } else {
        let ghost s = store.entries();
        let lo = store.row(n - 1).ts;
        let hi = store.row(0).ts;
        proof {
            assert forall|i: int| 0 <= i < s.len() implies lo <= (#[trigger] s[i]).ts <= hi by {
                if i < s.len() - 1 {
                    assert(crate::store::key_before(s[i], s[s.len() - 1]));
                }
                if i > 0 {
                    assert(crate::store::key_before(s[0], s[i]));
                }
            }
        }
        (Some(lo), Some(hi))
    };
    LogStats {
        total_logs: n as i64,
        oldest_ts: oldest,
        newest_ts: newest,
        db_size_bytes,
        logs_by_deployment: store.counts_by_deployment(),
    }
}

fn setting_text(store: &LogStore, key: &str) -> (r: Option<String>)
    requires
        store.wf(),
    ensures
        crate::models::opt_view(r) == lookup(store.setting_pairs(), key@),
{
    store.setting(key)
}

/// The settings: the recorded retention where it reads as an `i32`, else 30
/// days; enabled unless recorded as anything but `true`.
pub fn get_log_store_settings(store: &LogStore) -> (r: LogStoreSettings)
    requires
        store.wf(),
    ensures
        r == settings_of(store.setting_pairs()),
{
    let retention_days = match setting_text(store, "retention_days") {
        Some(v) => match crate::text::parse_i32(v.as_str()) {
            Some(n) => n,
            None => 30,
        },
        None => 30,
    };
    let enabled = match setting_text(store, "enabled") {
        Some(v) => {
            let t = String::from_str("true");
            t.eq(&v)
        },
        None => true,
    };
    LogStoreSettings { retention_days, enabled }
}

/// Records both settings, replacing what was recorded.
pub fn set_log_store_settings(store: &mut LogStore, settings: LogStoreSettings)
    requires
        old(store).wf(),
    ensures
        final(store).wf(),
        final(store).entries() == old(store).entries(),
        lookup(final(store).setting_pairs(), "retention_days"@) == Some(
            numeral(settings.retention_days as int),
        ),
        lookup(final(store).setting_pairs(), "enabled"@) == Some(
            if settings.enabled {
                "true"@
            } else {
                "false"@
            },
        ),
        forall|k: Seq<char>|
            k != "retention_days"@ && k != "enabled"@ ==> lookup(final(store).setting_pairs(), k)
                == lookup(old(store).setting_pairs(), k),
        settings_of(final(store).setting_pairs()) == settings,
{
    let days = i64_numeral(settings.retention_days as i64);
    store.record_setting(String::from_str("retention_days"), days);
    let flag = if settings.enabled {
        String::from_str("true")
    } else {
        String::from_str("false")
    };
    store.record_setting(String::from_str("enabled"), flag);
    proof {
        reveal_strlit("retention_days");
        reveal_strlit("enabled");
        reveal_strlit("true");
        reveal_strlit("false");
        assert("retention_days"@ != "enabled"@) by {
            assert("retention_days"@.len() != "enabled"@.len());
        }
        crate::text::lemma_numeral_round_trip(settings.retention_days as i64);
        assert("true"@ != "false"@) by {
            assert("true"@.len() != "false"@.len());
        }
    }
}

/// Deletes every row; the settings stay.
pub fn clear_all_logs(store: &mut LogStore)
    requires
        old(store).wf(),
    ensures
        final(store).wf(),
        final(store).entries().len() == 0,
        final(store).setting_pairs() == old(store).setting_pairs(),
{
    store.clear();
}

/// Rebuilds the search index from the rows; the rows stay as they are.
pub fn optimize_log_db(store: &mut LogStore)
    requires
        old(store).wf(),
    ensures
        final(store).wf(),
        final(store).entries() == old(store).entries(),
        final(store).setting_pairs() == old(store).setting_pairs(),
{
    store.rebuild_index();
}

} // verus!
