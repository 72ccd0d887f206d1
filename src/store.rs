//! The log store: canonical rows kept in pagination order, the token index
//! kept beside them, and the settings table.

use vstd::prelude::*;
use crate::log_id::{compute_log_id, log_id, opt_str_view};
use crate::models::{
    EntryView, IngestLogEntry, IngestResult, IngestView, LogEntry, entries_view, events_view,
    opt_view, strings_view,
};
use crate::normalize::{
    extract_message, infer_level, infer_topic, level_of, message_of, topic_of,
};
use crate::text::seq_lt;
use crate::tokens::{search_words, words_of};

verus! {

/// Whether `a` comes strictly before `b` in the order `(ts DESC, id DESC)`.
pub open spec fn key_before(a: EntryView, b: EntryView) -> bool {
    a.ts > b.ts || (a.ts == b.ts && seq_lt(b.id, a.id))
}

/// Rows listed strictly in the order `(ts DESC, id DESC)`.
pub open spec fn sorted_desc(s: Seq<EntryView>) -> bool {
    forall|i: int, j: int| 0 <= i < j < s.len() ==> key_before(#[trigger] s[i], #[trigger] s[j])
}

/// No two rows share an id.
pub open spec fn unique_ids(s: Seq<EntryView>) -> bool {
    forall|i: int, j: int|
        0 <= i < s.len() && 0 <= j < s.len() && i != j ==> (#[trigger] s[i]).id != (#[trigger] s[j]).id
}

/// Whether some row of `rows` has this id.
pub open spec fn has_id(rows: Set<EntryView>, id: Seq<char>) -> bool {
    exists|r: EntryView| rows.contains(r) && r.id == id
}

/// The search words of an optional field.
pub open spec fn field_tokens(o: Option<Seq<char>>) -> Seq<Seq<char>> {
    match o {
        Some(s) => search_words(s),
        None => Seq::empty(),
    }
}

/// The words under which the search index files a row: those of its message,
/// function path, function name and request id.
pub open spec fn doc_tokens(e: EntryView) -> Seq<Seq<char>> {
    search_words(e.message) + field_tokens(e.function_path) + field_tokens(e.function_name)
        + field_tokens(e.request_id)
}

/// The payload kept with a row: the event's serialised payload, else `{}`.
pub open spec fn payload_of(e: IngestView) -> Seq<char> {
    match e.raw {
        Some(r) => r,
        None => "{}"@,
    }
}

/// The row that an event becomes, ingested for `deployment` at time `now`.
pub open spec fn row_of(e: IngestView, deployment: Seq<char>, now: i64) -> EntryView {
    let message = message_of(e);
    let level = level_of(e);
    EntryView {
        id: log_id(e.timestamp, deployment, e.request_id, e.function_identifier, level, message),
        ts: e.timestamp,
        deployment,
        request_id: e.request_id,
        execution_id: e.execution_id,
        topic: topic_of(e.udf_type),
        level,
        function_path: e.function_identifier,
        function_name: e.function_name,
        udf_type: e.udf_type,
        success: e.success,
        duration_ms: e.duration_ms,
        message,
        json_blob: payload_of(e),
        created_at: now,
    }
}

/// The rows after a batch, and how many of its events were inserted or found
/// to be duplicates.
pub struct IngestOutcome {
    pub rows: Set<EntryView>,
    pub inserted: nat,
    pub duplicates: nat,
}

/// Ingests `events` in order into `rows`: an event whose id is already held
/// is a duplicate and changes nothing; any other is inserted.
pub open spec fn ingest_fold(
    rows: Set<EntryView>,
    events: Seq<IngestView>,
    deployment: Seq<char>,
    now: i64,
) -> IngestOutcome
    decreases events.len(),
{
    if events.len() == 0 {
        IngestOutcome { rows, inserted: 0, duplicates: 0 }
    } else {
        let prev = ingest_fold(rows, events.drop_last(), deployment, now);
        let row = row_of(events.last(), deployment, now);
        if has_id(prev.rows, row.id) {
            IngestOutcome { rows: prev.rows, inserted: prev.inserted, duplicates: prev.duplicates + 1 }
        } else {
            IngestOutcome {
                rows: prev.rows.insert(row),
                inserted: prev.inserted + 1,
                duplicates: prev.duplicates,
            }
        }
    }
}

pub proof fn lemma_key_before_transitive(a: EntryView, b: EntryView, c: EntryView)
    requires
        key_before(a, b),
        key_before(b, c),
    ensures
        key_before(a, c),
{
    if a.ts == b.ts && b.ts == c.ts {
        crate::text::lemma_seq_lt_transitive(c.id, b.id, a.id);
    }
}

pub proof fn lemma_key_before_irreflexive(a: EntryView)
    ensures
        !key_before(a, a),
{
    crate::text::lemma_seq_lt_irreflexive(a.id);
}

pub proof fn lemma_key_before_total(a: EntryView, b: EntryView)
    requires
        a.id != b.id,
    ensures
        key_before(a, b) || key_before(b, a),
{
    crate::text::lemma_seq_lt_total(a.id, b.id);
}

pub proof fn lemma_key_before_asymmetric(a: EntryView, b: EntryView)
    requires
        key_before(a, b),
    ensures
        !key_before(b, a),
{
    if key_before(b, a) {
        lemma_key_before_transitive(a, b, a);
        lemma_key_before_irreflexive(a);
    }
}

/// A setting: a key and its value as text.
pub struct Setting {
    pub key: String,
    pub value: String,
}

/// The store. Rows are kept in pagination order with unique ids; entry `i`
/// of the index holds the search words of row `i`.
pub struct LogStore {
    rows: Vec<LogEntry>,
    index: Vec<Vec<String>>,
    settings: Vec<Setting>,
}

impl LogStore {
    /// The rows, in the order `(ts DESC, id DESC)`.
    pub closed spec fn entries(&self) -> Seq<EntryView> {
        entries_view(self.rows@)
    }

    /// The settings table as text keys and values.
    pub closed spec fn setting_pairs(&self) -> Seq<(Seq<char>, Seq<char>)> {
        Seq::new(self.settings@.len(), |i: int| (self.settings@[i].key@, self.settings@[i].value@))
    }

    /// The store's invariant.
    pub closed spec fn wf(&self) -> bool {
        &&& sorted_desc(self.entries())
        &&& unique_ids(self.entries())
        &&& forall|i: int|
            0 <= i < self.rows@.len() ==> !(#[trigger] self.rows@[i]).id@.contains(':')
        &&& self.index@.len() == self.rows@.len()
        &&& forall|i: int|
            0 <= i < self.index@.len() ==> strings_view((#[trigger] self.index@[i])@)
                == doc_tokens(self.rows@[i]@)
        &&& self.rows@.len() <= i64::MAX
        &&& forall|i: int, j: int|
            0 <= i < j < self.settings@.len() ==> (#[trigger] self.settings@[i]).key@
                != (#[trigger] self.settings@[j]).key@
    }

    /// An empty store with no settings recorded.
    pub fn new() -> (r: LogStore)
        ensures
            r.wf(),
            r.entries().len() == 0,
            r.setting_pairs().len() == 0,
    {
        let r = LogStore { rows: Vec::new(), index: Vec::new(), settings: Vec::new() };
        assert(r.entries() =~= Seq::<EntryView>::empty());
        r
    }

    /// What the invariant gives to readers of the rows.
    pub proof fn lemma_wf(&self)
        requires
            self.wf(),
        ensures
            sorted_desc(self.entries()),
            unique_ids(self.entries()),
            forall|i: int|
                0 <= i < self.entries().len() ==> !(#[trigger] self.entries()[i]).id.contains(':'),
            self.entries().len() <= i64::MAX,
    {
        assert forall|i: int| 0 <= i < self.entries().len() implies !(
        #[trigger] self.entries()[i]).id.contains(':') by {
            assert(self.entries()[i] == self.rows@[i]@);
        }
    }

    /// The row at position `i`.
    pub fn row(&self, i: usize) -> (r: &LogEntry)
        requires
            self.wf(),
            i < self.entries().len(),
        ensures
            r@ == self.entries()[i as int],
    {
        &self.rows[i]
    }

    /// The index entry of the row at position `i`.
    pub fn row_tokens(&self, i: usize) -> (r: &Vec<String>)
        requires
            self.wf(),
            i < self.entries().len(),
        ensures
            strings_view(r@) == doc_tokens(self.entries()[i as int]),
    {
        &self.index[i]
    }

    /// Copies of every row, in the order `(ts DESC, id DESC)`.
    pub fn export_rows(&self) -> (r: Vec<LogEntry>)
        requires
            self.wf(),
        ensures
            entries_view(r@) == self.entries(),
    {
        let mut out: Vec<LogEntry> = Vec::new();
        let mut i: usize = 0;
        while i < self.rows.len()
            invariant
                i <= self.rows@.len(),
                entries_view(out@) == self.entries().subrange(0, i as int),
            decreases self.rows@.len() - i,
        {
            let ghost prev = out@;
            let e = self.rows[i].duplicate();
            out.push(e);
            assert(out@ == prev.push(e));
            assert(self.entries()[i as int] == e@);
            assert(entries_view(out@) =~= entries_view(prev).push(e@));
            i = i + 1;
            assert(entries_view(out@) =~= self.entries().subrange(0, i as int));
        }
        assert(self.entries().subrange(0, i as int) =~= self.entries());
        out
    }

    /// The number of rows.
    pub fn len(&self) -> (r: usize)
        requires
            self.wf(),
        ensures
            r == self.entries().len(),
    {
        self.rows.len()
    }
}

fn append_strings(out: &mut Vec<String>, more: Vec<String>)
    ensures
        strings_view(final(out)@) == strings_view(old(out)@) + strings_view(more@),
{
    let ghost m0 = more@;
    let mut more = more;
    out.append(&mut more);
    assert(strings_view(out@) =~= strings_view(old(out)@) + strings_view(m0));
}

fn opt_str(o: &Option<String>) -> (r: Option<&str>)
    ensures
        opt_str_view(r) == opt_view(*o),
{
    match o {
        Some(s) => Some(s.as_str()),
        None => None,
    }
}

fn field_index(o: &Option<String>) -> (r: Vec<String>)
    ensures
        strings_view(r@) == field_tokens(opt_view(*o)),
{
    match o {
        Some(s) => words_of(s.as_str()),
        None => {
            let r: Vec<String> = Vec::new();
            assert(strings_view(r@) =~= Seq::<Seq<char>>::empty());
            r
        },
    }
}

/// The index entry of a row: its words, in the order that [`doc_tokens`] gives.
pub fn index_entry(e: &LogEntry) -> (r: Vec<String>)
    ensures
        strings_view(r@) == doc_tokens(e@),
{
    let mut r = words_of(e.message.as_str());
    append_strings(&mut r, field_index(&e.function_path));
    append_strings(&mut r, field_index(&e.function_name));
    append_strings(&mut r, field_index(&e.request_id));
    r
}


proof fn lemma_hex_has_no_colon(b: Seq<u8>)
    ensures
        !crate::log_id::hex_of(b).contains(':'),
    decreases b.len(),
{
    if b.len() > 0 {
        lemma_hex_has_no_colon(b.drop_last());
        let h = crate::log_id::hex_of(b);
        let p = crate::log_id::hex_of(b.drop_last());
        assert forall|i: int| 0 <= i < h.len() implies h[i] != ':' by {
            if i < p.len() {
                assert(h[i] == p[i]);
            }
        }
    }
}

/// Builds the row that an event becomes.
fn make_row(e: &IngestLogEntry, deployment: &String, now: i64) -> (r: LogEntry)
    ensures
        r@ == row_of(e@, deployment@, now),
        !r@.id.contains(':'),
{
    let message = extract_message(e);
    let level = infer_level(e);
    let topic = infer_topic(opt_str(&e.udf_type));
    let id = compute_log_id(
        e.timestamp,
        deployment.as_str(),
        opt_str(&e.request_id),
        opt_str(&e.function_identifier),
        opt_str(&level),
        message.as_str(),
    );
    proof {
        lemma_hex_has_no_colon(
            crate::log_id::sha256_of(
                crate::log_id::id_preimage(
                    e.timestamp,
                    deployment@,
                    e@.request_id,
                    e@.function_identifier,
                    opt_view(level),
                    message@,
                ),
            ),
        );
    }
    let json_blob = match &e.raw {
        Some(r) => r.clone(),
        None => String::from_str("{}"),
    };
    LogEntry {
        id,
        ts: e.timestamp,
        deployment: deployment.clone(),
        request_id: crate::models::clone_opt_string(&e.request_id),
        execution_id: crate::models::clone_opt_string(&e.execution_id),
        topic,
        level,
        function_path: crate::models::clone_opt_string(&e.function_identifier),
        function_name: crate::models::clone_opt_string(&e.function_name),
        udf_type: crate::models::clone_opt_string(&e.udf_type),
        success: e.success,
        duration_ms: e.duration_ms,
        message,
        json_blob,
        created_at: now,
    }
}

impl LogStore {
    /// The position of the row with this id, if there is one.
    fn position_of_id(&self, id: &String) -> (r: Option<usize>)
        requires
            self.wf(),
        ensures
            r is Some ==> r->0 < self.entries().len() && self.entries()[r->0 as int].id == id@,
            r is None ==> forall|i: int|
                0 <= i < self.entries().len() ==> (#[trigger] self.entries()[i]).id != id@,
    {
        let mut i: usize = 0;
        while i < self.rows.len()
            invariant
                i <= self.rows@.len(),
                forall|k: int| 0 <= k < i ==> (#[trigger] self.entries()[k]).id != id@,
            decreases self.rows@.len() - i,
        {
            if self.rows[i].id.eq(id) {
                return Some(i);
            }
            i = i + 1;
        }
        None
    }

    /// Inserts a row whose id is new, at its place in the order.
    fn insert_row(&mut self, row: LogEntry)
        requires
            old(self).wf(),
            forall|i: int|
                0 <= i < old(self).entries().len() ==> (#[trigger] old(self).entries()[i]).id
                    != row@.id,
            !row@.id.contains(':'),
            old(self).entries().len() < i64::MAX,
        ensures
            final(self).wf(),
            final(self).entries().to_set() == old(self).entries().to_set().insert(row@),
            final(self).entries().len() == old(self).entries().len() + 1,
            final(self).setting_pairs() == old(self).setting_pairs(),
    {
        let doc = index_entry(&row);
        let ghost s = self.entries();
        let ghost r = row@;
        let mut p: usize = 0;
        while p < self.rows.len()
            invariant
                p <= self.rows@.len(),
                s == self.entries(),
                r == row@,
                self.wf(),
                forall|k: int| 0 <= k < p ==> key_before(#[trigger] s[k], r),
            ensures
                p <= self.rows@.len(),
                forall|k: int| 0 <= k < p ==> key_before(#[trigger] s[k], r),
                p < self.rows@.len() ==> !key_before(s[p as int], r),
            decreases self.rows@.len() - p,
        {
            let before = key_less_than(&row, &self.rows[p]);
            assert(s[p as int] == self.rows@[p as int]@);
            if !before {
                break;
            }
            p = p + 1;
        }
        proof {
            assert forall|j: int| p <= j < s.len() implies key_before(r, #[trigger] s[j]) by {
                lemma_key_before_total(r, s[p as int]);
                if j > p {
                    lemma_key_before_transitive(r, s[p as int], s[j]);
                }
            }
        }
        self.rows.insert(p, row);
        self.index.insert(p, doc);
        proof {
            let t = self.entries();
            assert(t =~= s.insert(p as int, r));
            assert forall|i: int, j: int| 0 <= i < j < t.len() implies key_before(
                #[trigger] t[i],
                #[trigger] t[j],
            ) by {
                if i < p && j > p {
                    lemma_key_before_transitive(s[i], r, s[j - 1]);
                }
            }
            assert forall|i: int| 0 <= i < self.rows@.len() implies !(
            #[trigger] self.rows@[i]).id@.contains(':') by {
                if i > p {
                    assert(self.rows@[i] == old(self).rows@[i - 1]);
                }
            }
            assert forall|i: int| 0 <= i < self.index@.len() implies strings_view(
                (#[trigger] self.index@[i])@,
            ) == doc_tokens(self.rows@[i]@) by {
                if i > p {
                    assert(self.index@[i] == old(self).index@[i - 1]);
                    assert(self.rows@[i] == old(self).rows@[i - 1]);
                }
            }
            assert(t.to_set() =~= s.to_set().insert(r)) by {
                assert forall|x: EntryView| t.to_set().contains(x) implies s.to_set().insert(
                    r,
                ).contains(x) by {
                    let k = choose|k: int| 0 <= k < t.len() && t[k] == x;
                    if k < p {
                        assert(s[k] == x);
                    } else if k > p {
                        assert(s[k - 1] == x);
                    }
                }
                assert forall|x: EntryView| s.to_set().insert(r).contains(x) implies t.to_set().contains(
                    x,
                ) by {
                    if x == r {
                        assert(t[p as int] == x);
                    } else {
                        let k = choose|k: int| 0 <= k < s.len() && s[k] == x;
                        if k < p {
                            assert(t[k] == x);
                        } else {
                            assert(t[k + 1] == x);
                        }
                    }
                }
            }
        }
    }
}

fn holds_colon(s: &String) -> (r: bool)
    ensures
        r == s@.contains(':'),
{
    let cs = crate::text::chars_of(s.as_str());
    let mut k: usize = 0;
    while k < cs.len()
        invariant
            k <= cs@.len(),
            cs@ == s@,
            forall|m: int| 0 <= m < k ==> cs@[m] != ':',
        decreases cs@.len() - k,
    {
        if cs[k] == ':' {
            assert(s@[k as int] == ':');
            return true;
        }
        k = k + 1;
    }
    false
}

/// Whether `b` comes strictly before `a` in the order `(ts DESC, id DESC)`.
fn key_less_than(a: &LogEntry, b: &LogEntry) -> (r: bool)
    ensures
        r == key_before(b@, a@),
{
    b.ts > a.ts || (b.ts == a.ts && crate::text::str_less(&a.id, &b.id))
}

proof fn lemma_has_id_in_seq(s: Seq<EntryView>, id: Seq<char>)
    ensures
        has_id(s.to_set(), id) == exists|i: int| 0 <= i < s.len() && (#[trigger] s[i]).id == id,
{
    if has_id(s.to_set(), id) {
        let r = choose|r: EntryView| s.to_set().contains(r) && r.id == id;
        let k = choose|k: int| 0 <= k < s.len() && s[k] == r;
        assert(s[k].id == id);
    }
    if exists|i: int| 0 <= i < s.len() && (#[trigger] s[i]).id == id {
        let k = choose|k: int| 0 <= k < s.len() && (#[trigger] s[k]).id == id;
        assert(s.to_set().contains(s[k]));
    }
}

/// Ingests a batch at time `now`: each event becomes a row, inserted unless a
/// row with its id is already held, in which case it counts as a duplicate.
pub fn ingest_at(store: &mut LogStore, logs: Vec<IngestLogEntry>, deployment: String, now: i64) -> (r:
    IngestResult)
    requires
        old(store).wf(),
        old(store).entries().len() + logs@.len() <= i64::MAX,
    ensures
        final(store).wf(),
        final(store).entries().to_set() == ingest_fold(
            old(store).entries().to_set(),
            events_view(logs@),
            deployment@,
            now,
        ).rows,
        r.inserted == ingest_fold(
            old(store).entries().to_set(),
            events_view(logs@),
            deployment@,
            now,
        ).inserted,
        r.duplicates == ingest_fold(
            old(store).entries().to_set(),
            events_view(logs@),
            deployment@,
            now,
        ).duplicates,
        r.errors == 0,
        r.inserted + r.duplicates == logs@.len(),
        final(store).entries().len() == old(store).entries().len() + r.inserted,
        final(store).setting_pairs() == old(store).setting_pairs(),
{
    let ghost base = old(store).entries().to_set();
    let ghost evs = events_view(logs@);
    let mut inserted: usize = 0;
    let mut duplicates: usize = 0;
    let mut i: usize = 0;
    assert(evs.subrange(0, 0) =~= Seq::<IngestView>::empty());
    while i < logs.len()
        invariant
            i <= logs@.len(),
            evs == events_view(logs@),
            store.wf(),
            store.entries().to_set() == ingest_fold(
                base,
                evs.subrange(0, i as int),
                deployment@,
                now,
            ).rows,
            inserted == ingest_fold(base, evs.subrange(0, i as int), deployment@, now).inserted,
            duplicates == ingest_fold(base, evs.subrange(0, i as int), deployment@, now).duplicates,
            inserted + duplicates == i,
            store.entries().len() == old(store).entries().len() + inserted,
            old(store).entries().len() + logs@.len() <= i64::MAX,
            store.setting_pairs() == old(store).setting_pairs(),
        decreases logs@.len() - i,
    {
        let row = make_row(&logs[i], &deployment, now);
        let ghost pre = evs.subrange(0, i as int);
        assert(evs.subrange(0, i + 1).drop_last() =~= pre);
        assert(evs.subrange(0, i + 1).last() == logs@[i as int]@);
        proof {
            lemma_has_id_in_seq(store.entries(), row@.id);
        }
        match store.position_of_id(&row.id) {
            Some(_) => {
                duplicates = duplicates + 1;
            },
            None => {
                store.insert_row(row);
                inserted = inserted + 1;
            },
        }
        i = i + 1;
    }
    assert(evs.subrange(0, i as int) =~= evs);
    IngestResult { inserted, duplicates, errors: 0 }
}


proof fn lemma_fold_grows(rows: Set<EntryView>, events: Seq<IngestView>, deployment: Seq<char>, now: i64)
    ensures
        rows.subset_of(ingest_fold(rows, events, deployment, now).rows),
    decreases events.len(),
{
    if events.len() > 0 {
        lemma_fold_grows(rows, events.drop_last(), deployment, now);
    }
}

proof fn lemma_fold_holds_event_ids(
    rows: Set<EntryView>,
    events: Seq<IngestView>,
    deployment: Seq<char>,
    now: i64,
)
    ensures
        forall|k: int|
            0 <= k < events.len() ==> has_id(
                ingest_fold(rows, events, deployment, now).rows,
                (#[trigger] row_of(events[k], deployment, now)).id,
            ),
    decreases events.len(),
{
    if events.len() > 0 {
        let prev = ingest_fold(rows, events.drop_last(), deployment, now);
        let out = ingest_fold(rows, events, deployment, now);
        lemma_fold_holds_event_ids(rows, events.drop_last(), deployment, now);
        assert(prev.rows.subset_of(out.rows));
        assert forall|k: int| 0 <= k < events.len() implies has_id(
            out.rows,
            (#[trigger] row_of(events[k], deployment, now)).id,
        ) by {
            let id = row_of(events[k], deployment, now).id;
            if k < events.len() - 1 {
                assert(events.drop_last()[k] == events[k]);
                assert(has_id(prev.rows, id));
                let w = choose|w: EntryView| prev.rows.contains(w) && w.id == id;
                assert(out.rows.contains(w));
            } else {
                let row = row_of(events.last(), deployment, now);
                if !has_id(prev.rows, row.id) {
                    assert(out.rows.contains(row));
                }
            }
        }
    }
}

proof fn lemma_fold_all_duplicates(
    rows: Set<EntryView>,
    events: Seq<IngestView>,
    deployment: Seq<char>,
    held: i64,
    now: i64,
)
    requires
        forall|k: int|
            0 <= k < events.len() ==> has_id(
                rows,
                (#[trigger] row_of(events[k], deployment, held)).id,
            ),
    ensures
        ingest_fold(rows, events, deployment, now) == (IngestOutcome {
            rows,
            inserted: 0,
            duplicates: events.len(),
        }),
    decreases events.len(),
{
    if events.len() > 0 {
        assert forall|k: int| 0 <= k < events.drop_last().len() implies has_id(
            rows,
            (#[trigger] row_of(events.drop_last()[k], deployment, held)).id,
        ) by {
            assert(events.drop_last()[k] == events[k]);
        }
        lemma_fold_all_duplicates(rows, events.drop_last(), deployment, held, now);
        assert(row_of(events.last(), deployment, now).id == row_of(
            events[events.len() - 1],
            deployment,
            held,
        ).id);
    }
}

/// Ingesting the same batch twice: the second pass inserts nothing, counts
/// every event as a duplicate and leaves the rows as the first pass left them,
/// whatever the clock read on either pass.
pub proof fn lemma_ingest_twice(
    rows: Set<EntryView>,
    events: Seq<IngestView>,
    deployment: Seq<char>,
    first_now: i64,
    second_now: i64,
)
    ensures
        ingest_fold(
            ingest_fold(rows, events, deployment, first_now).rows,
            events,
            deployment,
            second_now,
        ) == (IngestOutcome {
            rows: ingest_fold(rows, events, deployment, first_now).rows,
            inserted: 0,
            duplicates: events.len(),
        }),
{
    let first = ingest_fold(rows, events, deployment, first_now);
    lemma_fold_holds_event_ids(rows, events, deployment, first_now);
    lemma_fold_all_duplicates(first.rows, events, deployment, first_now, second_now);
}


/// The rows of `s` whose timestamp is at least `cutoff`, in order.
pub open spec fn kept(s: Seq<EntryView>, cutoff: int) -> Seq<EntryView>
    decreases s.len(),
{
    if s.len() == 0 {
        Seq::empty()
    } else if s.last().ts >= cutoff {
        kept(s.drop_last(), cutoff).push(s.last())
    } else {
        kept(s.drop_last(), cutoff)
    }
}

pub(crate) proof fn lemma_kept_prefix(s: Seq<EntryView>, cutoff: int, p: int)
    requires
        0 <= p <= s.len(),
        forall|i: int| 0 <= i < p ==> (#[trigger] s[i]).ts >= cutoff,
        forall|i: int| p <= i < s.len() ==> (#[trigger] s[i]).ts < cutoff,
    ensures
        kept(s, cutoff) == s.subrange(0, p),
    decreases s.len(),
{
    if s.len() > 0 {
        if p == s.len() {
            lemma_kept_prefix(s.drop_last(), cutoff, p - 1);
            assert(s.drop_last().subrange(0, p - 1).push(s.last()) =~= s.subrange(0, p));
        } else {
            lemma_kept_prefix(s.drop_last(), cutoff, p);
            assert(s.drop_last().subrange(0, p) =~= s.subrange(0, p));
        }
    } else {
        assert(s.subrange(0, p) =~= s);
    }
}

/// After a sweep at `cutoff`, every row left has a timestamp of at least
/// `cutoff`, and a row that was held stays exactly when its timestamp is at
/// least `cutoff`.
pub proof fn lemma_sweep_keeps_recent(s: Seq<EntryView>, cutoff: int)
    ensures
        forall|i: int|
            0 <= i < kept(s, cutoff).len() ==> (#[trigger] kept(s, cutoff)[i]).ts >= cutoff,
        forall|i: int|
            0 <= i < s.len() ==> (kept(s, cutoff).contains(#[trigger] s[i]) <==> s[i].ts
                >= cutoff),
    decreases s.len(),
{
    if s.len() > 0 {
        let t = s.drop_last();
        lemma_sweep_keeps_recent(t, cutoff);
        let k = kept(s, cutoff);
        let k0 = kept(t, cutoff);
        assert forall|i: int| 0 <= i < k.len() implies (#[trigger] k[i]).ts >= cutoff by {
            if i < k0.len() {
                assert(k[i] == k0[i]);
            }
        }
        assert forall|i: int| 0 <= i < s.len() implies (k.contains(#[trigger] s[i]) <==> s[i].ts
            >= cutoff) by {
            if i < t.len() {
                assert(s[i] == t[i]);
                if k0.contains(t[i]) {
                    let j = choose|j: int| 0 <= j < k0.len() && k0[j] == t[i];
                    assert(k[j] == t[i]);
                }
                if k.contains(s[i]) {
                    let j = choose|j: int| 0 <= j < k.len() && k[j] == s[i];
                    assert(k[j].ts >= cutoff);
                }
            } else {
                if s[i].ts >= cutoff {
                    assert(k[k.len() - 1] == s[i]);
                } else if k.contains(s[i]) {
                    let j = choose|j: int| 0 <= j < k.len() && k[j] == s[i];
                    assert(k[j].ts >= cutoff);
                }
            }
        }
    }
}

/// Whether some pair of `r` names `deployment`.
pub open spec fn lists_deployment(r: Seq<(String, i64)>, deployment: Seq<char>) -> bool {
    exists|k: int| 0 <= k < r.len() && r[k].0@ == deployment
}

/// How many rows of `s` belong to `deployment`.
pub open spec fn deployment_count(s: Seq<EntryView>, deployment: Seq<char>) -> nat
    decreases s.len(),
{
    if s.len() == 0 {
        0
    } else if s.last().deployment == deployment {
        deployment_count(s.drop_last(), deployment) + 1
    } else {
        deployment_count(s.drop_last(), deployment)
    }
}

/// The first value recorded under `key`, if any.
pub open spec fn lookup(pairs: Seq<(Seq<char>, Seq<char>)>, key: Seq<char>) -> Option<Seq<char>>
    decreases pairs.len(),
{
    if pairs.len() == 0 {
        None
    } else if pairs[0].0 == key {
        Some(pairs[0].1)
    } else {
        lookup(pairs.drop_first(), key)
    }
}

/// The settings that a table gives: the recorded retention where it reads as
/// an `i32`, else 30 days; enabled unless recorded as anything but `true`.
pub open spec fn settings_of(pairs: Seq<(Seq<char>, Seq<char>)>) -> crate::models::LogStoreSettings {
    crate::models::LogStoreSettings {
        retention_days: match lookup(pairs, "retention_days"@) {
            Some(v) => match crate::text::parsed_i32(v) {
                Some(n) => n,
                None => 30,
            },
            None => 30,
        },
        enabled: match lookup(pairs, "enabled"@) {
            Some(v) => v == "true"@,
            None => true,
        },
    }
}

proof fn lemma_lookup_index(pairs: Seq<(Seq<char>, Seq<char>)>, key: Seq<char>, i: int)
    requires
        0 <= i < pairs.len(),
        pairs[i].0 == key,
        forall|j: int| 0 <= j < i ==> (#[trigger] pairs[j]).0 != key,
    ensures
        lookup(pairs, key) == Some(pairs[i].1),
    decreases i,
{
    if i > 0 {
        lemma_lookup_index(pairs.drop_first(), key, i - 1);
    }
}

proof fn lemma_lookup_absent(pairs: Seq<(Seq<char>, Seq<char>)>, key: Seq<char>)
    requires
        forall|j: int| 0 <= j < pairs.len() ==> (#[trigger] pairs[j]).0 != key,
    ensures
        lookup(pairs, key) is None,
    decreases pairs.len(),
{
    if pairs.len() > 0 {
        assert(pairs[0].0 != key);
        lemma_lookup_absent(pairs.drop_first(), key);
    }
}

impl LogStore {
    /// Deletes every row whose timestamp lies before `cutoff`, and returns how
    /// many were deleted. The index loses their entries with them.
    pub fn delete_before(&mut self, cutoff: i64) -> (r: usize)
        requires
            old(self).wf(),
        ensures
            final(self).wf(),
            final(self).entries() == kept(old(self).entries(), cutoff as int),
            r == old(self).entries().len() - final(self).entries().len(),
            final(self).setting_pairs() == old(self).setting_pairs(),
    {
        let ghost s = self.entries();
        let mut p: usize = 0;
        while p < self.rows.len()
            invariant
                p <= self.rows@.len(),
                s == self.entries(),
                self.wf(),
                forall|k: int| 0 <= k < p ==> (#[trigger] s[k]).ts >= cutoff,
            ensures
                p <= self.rows@.len(),
                forall|k: int| 0 <= k < p ==> (#[trigger] s[k]).ts >= cutoff,
                p < self.rows@.len() ==> s[p as int].ts < cutoff,
            decreases self.rows@.len() - p,
        {
            assert(s[p as int] == self.rows@[p as int]@);
            if self.rows[p].ts < cutoff {
                break;
            }
            p = p + 1;
        }
        proof {
            assert forall|k: int| p <= k < s.len() implies (#[trigger] s[k]).ts < cutoff by {
                if k > p {
                    assert(key_before(s[p as int], s[k]));
                }
            }
            lemma_kept_prefix(s, cutoff as int, p as int);
        }
        let n = self.rows.len();
        self.rows.truncate(p);
        self.index.truncate(p);
        assert(self.entries() =~= s.subrange(0, p as int));
        n - p
    }

    /// The row with this id, if one is held.
    pub fn find(&self, id: &String) -> (r: Option<LogEntry>)
        requires
            self.wf(),
        ensures
            match r {
                Some(e) => exists|i: int|
                    0 <= i < self.entries().len() && self.entries()[i] == e@ && e@.id == id@,
                None => forall|i: int|
                    0 <= i < self.entries().len() ==> (#[trigger] self.entries()[i]).id != id@,
            },
    {
        match self.position_of_id(id) {
            Some(i) => Some(self.rows[i].duplicate()),
            None => None,
        }
    }

    /// Deletes every row.
    pub fn clear(&mut self)
        requires
            old(self).wf(),
        ensures
            final(self).wf(),
            final(self).entries().len() == 0,
            final(self).setting_pairs() == old(self).setting_pairs(),
    {
        self.rows.clear();
        self.index.clear();
        assert(self.entries() =~= Seq::<EntryView>::empty());
    }

    /// Rebuilds every entry of the index from its row.
    pub fn rebuild_index(&mut self)
        requires
            old(self).wf(),
        ensures
            final(self).wf(),
            final(self).entries() == old(self).entries(),
            final(self).setting_pairs() == old(self).setting_pairs(),
    {
        let mut fresh: Vec<Vec<String>> = Vec::new();
        let mut i: usize = 0;
        while i < self.rows.len()
            invariant
                i <= self.rows@.len(),
                self.wf(),
                self.rows@ == old(self).rows@,
                self.settings@ == old(self).settings@,
                fresh@.len() == i,
                forall|k: int|
                    0 <= k < i ==> strings_view((#[trigger] fresh@[k])@) == doc_tokens(
                        self.rows@[k]@,
                    ),
            decreases self.rows@.len() - i,
        {
            fresh.push(index_entry(&self.rows[i]));
            i = i + 1;
        }
        self.index = fresh;
    }

    /// The row counts of each deployment, one pair per deployment held.
    pub fn counts_by_deployment(&self) -> (r: Vec<(String, i64)>)
        requires
            self.wf(),
        ensures
            forall|k: int|
                0 <= k < r@.len() ==> (#[trigger] r@[k]).1 as int == deployment_count(
                    self.entries(),
                    r@[k].0@,
                ) && r@[k].1 > 0,
            forall|a: int, b: int|
                0 <= a < b < r@.len() ==> (#[trigger] r@[a]).0@ != (#[trigger] r@[b]).0@,
            forall|i: int|
                0 <= i < self.entries().len() ==> lists_deployment(
                    r@,
                    (#[trigger] self.entries()[i]).deployment,
                ),
    {
        let ghost s = self.entries();
        let mut out: Vec<(String, i64)> = Vec::new();
        let mut i: usize = 0;
        assert(s.subrange(0, 0) =~= Seq::<EntryView>::empty());
        while i < self.rows.len()
            invariant
                i <= self.rows@.len(),
                s == self.entries(),
                self.wf(),
                forall|k: int|
                    0 <= k < out@.len() ==> (#[trigger] out@[k]).1 as int == deployment_count(
                        s.subrange(0, i as int),
                        out@[k].0@,
                    ) && out@[k].1 > 0,
                forall|a: int, b: int|
                    0 <= a < b < out@.len() ==> (#[trigger] out@[a]).0@ != (#[trigger] out@[b]).0@,
                forall|j: int| 0 <= j < i ==> lists_deployment(out@, (#[trigger] s[j]).deployment),
            decreases self.rows@.len() - i,
        {
            let d = &self.rows[i].deployment;
            let ghost pre = s.subrange(0, i as int);
            let ghost next = s.subrange(0, i + 1);
            assert(next.drop_last() =~= pre);
            assert(next.last() == s[i as int]);
            assert(s[i as int].deployment == d@);
            proof {
                lemma_count_bounded(pre, d@);
            }
            let mut k: usize = 0;
            while k < out.len()
                invariant
                    k <= out@.len(),
                    forall|m: int| 0 <= m < k ==> (#[trigger] out@[m]).0@ != d@,
                ensures
                    k <= out@.len(),
                    forall|m: int| 0 <= m < k ==> (#[trigger] out@[m]).0@ != d@,
                    k < out@.len() ==> out@[k as int].0@ == d@,
                decreases out@.len() - k,
            {
                if out[k].0.eq(d) {
                    break;
                }
                k = k + 1;
            }
            let ghost before = out@;
            if k < out.len() {
                let c = out[k].1;
                let name = out[k].0.clone();
                out.set(k, (name, c + 1));
            } else {
                out.push((d.clone(), 1));
            }
            proof {
                assert forall|m: int| 0 <= m < out@.len() implies (#[trigger] out@[m]).1 as int
                    == deployment_count(next, out@[m].0@) && out@[m].1 > 0 by {
                    assert(deployment_count(next, out@[m].0@) == deployment_count(pre, out@[m].0@)
                        + if out@[m].0@ == d@ {
                        1int
                    } else {
                        0int
                    });
                    if m < before.len() {
                        assert(out@[m].0@ == before[m].0@);
                        if m != k {
                            assert(out@[m] == before[m]);
                        }
                    } else {
                        assert(out@[m].0@ == d@);
                        if deployment_count(pre, d@) > 0 {
                            lemma_count_positive(pre, d@);
                            let j = choose|j: int| 0 <= j < pre.len() && pre[j].deployment == d@;
                            assert(s[j] == pre[j]);
                            assert(lists_deployment(before, s[j].deployment));
                            let w = choose|w: int| 0 <= w < before.len() && before[w].0@ == d@;
                            assert(before[w].0@ != d@);
                        }
                    }
                }
                assert forall|j: int| 0 <= j < i + 1 implies lists_deployment(
                    out@,
                    (#[trigger] s[j]).deployment,
                ) by {
                    if j < i {
                        let m = choose|m: int|
                            0 <= m < before.len() && before[m].0@ == s[j].deployment;
                        assert(out@[m].0@ == before[m].0@);
                    } else if k < before.len() {
                        assert(out@[k as int].0@ == d@);
                    } else {
                        assert(out@[before.len() as int].0@ == d@);
                    }
                }
            }
            i = i + 1;
        }
        assert(s.subrange(0, i as int) =~= s);
        out
    }

    /// Puts back a row read from storage: it is added unless its id is already
    /// held or holds a colon, and the result says whether it was added.
    pub fn restore_row(&mut self, row: LogEntry) -> (r: bool)
        requires
            old(self).wf(),
            old(self).entries().len() < i64::MAX,
        ensures
            final(self).wf(),
            r == (!row@.id.contains(':') && forall|i: int|
                0 <= i < old(self).entries().len() ==> (#[trigger] old(self).entries()[i]).id
                    != row@.id),
            r ==> final(self).entries().to_set() == old(self).entries().to_set().insert(row@),
            !r ==> final(self).entries() == old(self).entries(),
            final(self).setting_pairs() == old(self).setting_pairs(),
    {
        if holds_colon(&row.id) {
            return false;
        }
        match self.position_of_id(&row.id) {
            Some(_) => false,
            None => {
                self.insert_row(row);
                true
            },
        }
    }

    /// The value recorded under `key`, if any.
    pub fn setting(&self, key: &str) -> (r: Option<String>)
        requires
            self.wf(),
        ensures
            crate::models::opt_view(r) == lookup(self.setting_pairs(), key@),
    {
        let ghost pairs = self.setting_pairs();
        let k = String::from_str(key);
        let mut i: usize = 0;
        while i < self.settings.len()
            invariant
                i <= self.settings@.len(),
                pairs == self.setting_pairs(),
                k@ == key@,
                forall|m: int| 0 <= m < i ==> (#[trigger] pairs[m]).0 != key@,
            decreases self.settings@.len() - i,
        {
            if self.settings[i].key.eq(&k) {
                proof {
                    lemma_lookup_index(pairs, key@, i as int);
                }
                return Some(self.settings[i].value.clone());
            }
            i = i + 1;
        }
        proof {
            lemma_lookup_absent(pairs, key@);
        }
        None
    }

    /// Records `value` under `key`, replacing what was recorded there.
    pub fn record_setting(&mut self, key: String, value: String)
        requires
            old(self).wf(),
        ensures
            final(self).wf(),
            final(self).entries() == old(self).entries(),
            lookup(final(self).setting_pairs(), key@) == Some(value@),
            forall|k: Seq<char>|
                k != key@ ==> lookup(final(self).setting_pairs(), k) == lookup(
                    old(self).setting_pairs(),
                    k,
                ),
    {
        let ghost old_pairs = self.setting_pairs();
        let ghost kv = key@;
        let ghost vv = value@;
        let mut i: usize = 0;
        while i < self.settings.len()
            invariant
                i <= self.settings@.len(),
                forall|m: int| 0 <= m < i ==> (#[trigger] self.settings@[m]).key@ != key@,
            ensures
                i <= self.settings@.len(),
                forall|m: int| 0 <= m < i ==> (#[trigger] self.settings@[m]).key@ != key@,
                i < self.settings@.len() ==> self.settings@[i as int].key@ == key@,
            decreases self.settings@.len() - i,
        {
            if self.settings[i].key.eq(&key) {
                break;
            }
            i = i + 1;
        }
        if i < self.settings.len() {
            self.settings.set(i, Setting { key, value });
            proof {
                let p = self.setting_pairs();
                assert(p =~= old_pairs.update(i as int, (kv, vv)));
                lemma_lookup_index(p, kv, i as int);
                assert forall|k: Seq<char>| k != kv implies lookup(p, k) == lookup(old_pairs, k) by {
                    lemma_lookup_update(old_pairs, i as int, kv, vv, k);
                }
            }
        } else {
            self.settings.push(Setting { key, value });
            proof {
                let p = self.setting_pairs();
                assert(p =~= old_pairs.push((kv, vv)));
                lemma_lookup_index(p, kv, i as int);
                assert forall|k: Seq<char>| k != kv implies lookup(p, k) == lookup(old_pairs, k) by {
                    lemma_lookup_push(old_pairs, kv, vv, k);
                }
            }
        }
    }
}

proof fn lemma_count_positive(s: Seq<EntryView>, d: Seq<char>)
    requires
        deployment_count(s, d) > 0,
    ensures
        exists|j: int| 0 <= j < s.len() && s[j].deployment == d,
    decreases s.len(),
{
    if s.last().deployment != d {
        lemma_count_positive(s.drop_last(), d);
        let j = choose|j: int| 0 <= j < s.drop_last().len() && s.drop_last()[j].deployment == d;
        assert(s[j] == s.drop_last()[j]);
    } else {
        assert(s[s.len() - 1].deployment == d);
    }
}

proof fn lemma_count_bounded(s: Seq<EntryView>, d: Seq<char>)
    ensures
        deployment_count(s, d) <= s.len(),
    decreases s.len(),
{
    if s.len() > 0 {
        lemma_count_bounded(s.drop_last(), d);
    }
}

proof fn lemma_lookup_update(
    pairs: Seq<(Seq<char>, Seq<char>)>,
    i: int,
    key: Seq<char>,
    value: Seq<char>,
    k: Seq<char>,
)
    requires
        0 <= i < pairs.len(),
        pairs[i].0 == key,
        k != key,
    ensures
        lookup(pairs.update(i, (key, value)), k) == lookup(pairs, k),
    decreases pairs.len(),
{
    if i > 0 && pairs[0].0 != k {
        assert(pairs.update(i, (key, value)).drop_first() =~= pairs.drop_first().update(
            i - 1,
            (key, value),
        ));
        lemma_lookup_update(pairs.drop_first(), i - 1, key, value, k);
    } else if i == 0 {
        assert(pairs.update(i, (key, value)).drop_first() =~= pairs.drop_first());
    }
}

proof fn lemma_lookup_push(
    pairs: Seq<(Seq<char>, Seq<char>)>,
    key: Seq<char>,
    value: Seq<char>,
    k: Seq<char>,
)
    requires
        k != key,
    ensures
        lookup(pairs.push((key, value)), k) == lookup(pairs, k),
    decreases pairs.len(),
{
    if pairs.len() > 0 {
        assert(pairs.push((key, value)).drop_first() =~= pairs.drop_first().push((key, value)));
        lemma_lookup_push(pairs.drop_first(), key, value, k);
    } else {
        assert(pairs.push((key, value)).drop_first() =~= pairs);
    }
}

} // verus!
