//! Token search over the rows, through the index kept beside them.

use vstd::prelude::*;
use crate::models::{EntryView, FilterView, LogEntry, LogFilters, LogQueryResult, entries_view, strings_view};
use crate::query::list_holds;
use crate::store::{LogStore, doc_tokens};
use crate::tokens::{sanitize_query, sanitized, search_words, words_of};

verus! {

/// Why a search was refused.
#[derive(Debug, Clone, Copy, PartialEq, Eq, Structural)]
pub enum SearchError {
    /// The query is empty once cleaned.
    EmptyQuery,
    /// The query holds no token to look for.
    NoSearchTerms,
}

/// The terms that a search text looks for: the search words of its cleaned form.
pub open spec fn query_terms(q: Seq<char>) -> Seq<Seq<char>> {
    search_words(sanitized(q))
}

/// Whether row `e` passes the filters that search applies: deployment and time range.
pub open spec fn search_admits(f: FilterView, e: EntryView) -> bool {
    &&& (f.deployment is Some ==> e.deployment == f.deployment->0)
    &&& (f.start_ts is Some ==> e.ts >= f.start_ts->0)
    &&& (f.end_ts is Some ==> e.ts <= f.end_ts->0)
}

/// Whether row `e` is filed under every term.
pub open spec fn has_terms(terms: Seq<Seq<char>>, e: EntryView) -> bool {
    forall|i: int| 0 <= i < terms.len() ==> doc_tokens(e).contains(#[trigger] terms[i])
}

/// The rows of `s` that a search for `terms` finds, in order.
pub open spec fn found(s: Seq<EntryView>, terms: Seq<Seq<char>>, f: FilterView) -> Seq<EntryView>
    decreases s.len(),
{
    if s.len() == 0 {
        Seq::empty()
    } else {
        let sub = found(s.drop_last(), terms, f);
        if search_admits(f, s.last()) && has_terms(terms, s.last()) {
            sub.push(s.last())
        } else {
            sub
        }
    }
}

/// At most `l` rows of `s`: the first ones.
pub open spec fn limited(s: Seq<EntryView>, l: int) -> Seq<EntryView> {
    if s.len() > l {
        s.subrange(0, l)
    } else {
        s
    }
}

fn search_passes(f: &LogFilters, e: &LogEntry) -> (r: bool)
    ensures
        r == search_admits(f@, e@),
{
    if let Some(d) = &f.deployment {
        if !d.eq(&e.deployment) {
            return false;
        }
    }
    if let Some(s) = f.start_ts {
        if e.ts < s {
            return false;
        }
    }
    if let Some(t) = f.end_ts {
        if e.ts > t {
            return false;
        }
    }
    true
}

fn holds_terms(doc: &Vec<String>, terms: &Vec<String>, Ghost(e): Ghost<EntryView>) -> (r: bool)
    requires
        strings_view(doc@) == doc_tokens(e),
    ensures
        r == has_terms(strings_view(terms@), e),
{
    let mut i: usize = 0;
    while i < terms.len()
        invariant
            i <= terms@.len(),
            strings_view(doc@) == doc_tokens(e),
            forall|k: int| 0 <= k < i ==> doc_tokens(e).contains(#[trigger] strings_view(terms@)[k]),
        decreases terms@.len() - i,
    {
        if !list_holds(doc, &terms[i]) {
            assert(strings_view(terms@)[i as int] == terms@[i as int]@);
            return false;
        }
        assert(strings_view(terms@)[i as int] == terms@[i as int]@);
        i = i + 1;
    }
    true
}

/// Finds the rows filed under every one of `terms` that pass the deployment
/// and time-range filters, newest first, at most `limit` of them (100 by
/// default, brought within 1 to 1000).
pub fn search_terms(
    store: &LogStore,
    terms: &Vec<String>,
    filters: &LogFilters,
    limit: Option<i32>,
) -> (r: LogQueryResult)
    requires
        store.wf(),
    ensures
        entries_view(r.logs@) == limited(
            found(store.entries(), strings_view(terms@), filters@),
            crate::query::effective_limit(limit),
        ),
        r.total_count as int == r.logs@.len(),
        !r.has_more,
        r.cursor is None,
{
    let l: i32 = crate::query::page_size(limit);
    let ghost rows = store.entries();
    let ghost ts = strings_view(terms@);
    proof {
        store.lemma_wf();
    }
    let mut out: Vec<LogEntry> = Vec::new();
    let mut i: usize = 0;
    let n = store.len();
    assert(rows.subrange(0, 0) =~= Seq::<EntryView>::empty());
    while i < n
        invariant
            n == rows.len(),
            rows == store.entries(),
            store.wf(),
            rows.len() <= i64::MAX,
            i <= n,
            ts == strings_view(terms@),
            l as int == crate::query::effective_limit(limit),
            1 <= l <= 1000,
            out@.len() <= i,
            entries_view(out@) == limited(found(rows.subrange(0, i as int), ts, filters@), l as int),
        decreases n - i,
    {
        let e = store.row(i);
        let ghost pre = rows.subrange(0, i as int);
        assert(rows.subrange(0, i + 1).drop_last() =~= pre);
        assert(rows.subrange(0, i + 1).last() == e@);
        let ghost f0 = found(pre, ts, filters@);
        if search_passes(filters, e) && holds_terms(store.row_tokens(i), terms, Ghost(e@)) {
            if out.len() < l as usize {
                assert(entries_view(out@).len() == out@.len());
                assert(limited(f0, l as int) == f0);
                out.push(e.duplicate());
                assert(entries_view(out@) =~= limited(f0.push(e@), l as int));
            } else {
                assert(limited(f0.push(e@), l as int) =~= limited(f0, l as int)) by {
                    if f0.len() > l {
                        assert(f0.push(e@).subrange(0, l as int) =~= f0.subrange(0, l as int));
                    } else {
                        assert(f0.push(e@).subrange(0, l as int) =~= f0);
                    }
                }
            }
        }
        i = i + 1;
    }
    assert(rows.subrange(0, i as int) =~= rows);
    let count = out.len() as i64;
    LogQueryResult { logs: out, total_count: count, has_more: false, cursor: None }
}

/// Searches the rows for a text: the text is cleaned (quotes doubled, white
/// space trimmed) and turned into search words (case and accents folded,
/// split into tokens, each reduced to its stem), and the rows filed under
/// every term are returned as [`search_terms`] does. A text that is empty once
/// cleaned, or that holds no term, is refused.
pub fn search_logs(
    store: &LogStore,
    query: &str,
    filters: &LogFilters,
    limit: Option<i32>,
) -> (r: Result<LogQueryResult, SearchError>)
    requires
        store.wf(),
    ensures
        sanitized(query@).len() == 0 ==> r == Err::<LogQueryResult, SearchError>(
            SearchError::EmptyQuery,
        ),
        sanitized(query@).len() > 0 && query_terms(query@).len() == 0 ==> r == Err::<
            LogQueryResult,
            SearchError,
        >(SearchError::NoSearchTerms),
        sanitized(query@).len() > 0 && query_terms(query@).len() > 0 ==> r is Ok,
        r is Ok ==> entries_view(r->Ok_0.logs@) == limited(
            found(store.entries(), query_terms(query@), filters@),
            crate::query::effective_limit(limit),
        ) && r->Ok_0.total_count as int == r->Ok_0.logs@.len() && !r->Ok_0.has_more
            && r->Ok_0.cursor is None,
{
    let cleaned = sanitize_query(query);
    if cleaned.as_str().is_empty() {
        return Err(SearchError::EmptyQuery);
    }
    let terms = words_of(cleaned.as_str());
    if terms.len() == 0 {
        return Err(SearchError::NoSearchTerms);
    }
    Ok(search_terms(store, &terms, filters, limit))
}

} // verus!
