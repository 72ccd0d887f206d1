//! Filtered retrieval with keyset pagination over the order `(ts DESC, id DESC)`.

use vstd::prelude::*;
use crate::models::{
    EntryView, FilterView, LogEntry, LogFilters, LogQueryResult, entries_view, opt_view,
    strings_view,
};
use crate::store::{LogStore, key_before, sorted_desc};
use crate::text::{chars_of, i64_numeral, numeral, parse_i64, parsed_i64, push_char, seq_lt, str_less, string_from_chars};

verus! {

/// Whether row `e` passes the filters: each present filter must hold, and a
/// list of levels, where it is not empty, must hold the row's level.
pub open spec fn admits(f: FilterView, e: EntryView) -> bool {
    &&& (f.deployment is Some ==> e.deployment == f.deployment->0)
    &&& (f.start_ts is Some ==> e.ts >= f.start_ts->0)
    &&& (f.end_ts is Some ==> e.ts <= f.end_ts->0)
    &&& (f.request_id is Some ==> e.request_id == f.request_id)
    &&& (f.function_path is Some ==> e.function_path == f.function_path)
    &&& (f.success is Some ==> e.success == f.success)
    &&& (f.levels is Some && f.levels->0.len() > 0 ==> e.level is Some && f.levels->0.contains(
        e.level->0,
    ))
}

/// Whether row `e` lies strictly after the position `(ts, id)` in the order.
pub open spec fn beyond(after: Option<(i64, Seq<char>)>, e: EntryView) -> bool {
    match after {
        Some(k) => e.ts < k.0 || (e.ts == k.0 && seq_lt(e.id, k.1)),
        None => true,
    }
}

/// The rows of `s` that pass the filters and lie after the position, in order.
pub open spec fn selected(s: Seq<EntryView>, f: FilterView, after: Option<(i64, Seq<char>)>) -> Seq<
    EntryView,
>
    decreases s.len(),
{
    if s.len() == 0 {
        Seq::empty()
    } else {
        let sub = selected(s.drop_last(), f, after);
        if admits(f, s.last()) && beyond(after, s.last()) {
            sub.push(s.last())
        } else {
            sub
        }
    }
}

/// The text of a cursor: the timestamp's numeral, a colon, then the id.
pub open spec fn cursor_text(ts: i64, id: Seq<char>) -> Seq<char> {
    numeral(ts as int) + seq![':'] + id
}

/// Whether `p` is the position of the only colon in `c`.
pub open spec fn only_colon_at(c: Seq<char>, p: int) -> bool {
    &&& 0 <= p < c.len()
    &&& c[p] == ':'
    &&& forall|k: int| 0 <= k < c.len() && k != p ==> #[trigger] c[k] != ':'
}

/// The position that a cursor names: text with exactly one colon, a numeral
/// before it that fits in an `i64`, and the id after it.
pub open spec fn parsed_cursor(c: Seq<char>) -> Option<(i64, Seq<char>)> {
    if exists|p: int| only_colon_at(c, p) {
        let p = choose|p: int| only_colon_at(c, p);
        match parsed_i64(c.subrange(0, p)) {
            Some(ts) => Some((ts, c.subrange(p + 1, c.len() as int))),
            None => None,
        }
    } else {
        None
    }
}

/// The page size asked for: 100 by default, brought within `1..=1000`.
pub open spec fn effective_limit(limit: Option<i32>) -> int {
    let l = match limit {
        Some(l) => l as int,
        None => 100,
    };
    if l < 1 {
        1
    } else if l > 1000 {
        1000
    } else {
        l
    }
}

/// The page size as an `i32`, brought within `1..=1000`.
pub fn page_size(limit: Option<i32>) -> (r: i32)
    ensures
        r as int == effective_limit(limit),
        1 <= r <= 1000,
{
    match limit {
        Some(v) => if v < 1 {
            1
        } else if v > 1000 {
            1000
        } else {
            v
        },
        None => 100,
    }
}

/// The rows of a page out of the selection `sel`: the first `l` of them.
pub open spec fn page(sel: Seq<EntryView>, l: int) -> Seq<EntryView> {
    if sel.len() > l {
        sel.subrange(0, l)
    } else {
        sel
    }
}

/// The mathematical content of a page of results.
pub struct PageView {
    pub entries: Seq<EntryView>,
    pub total_count: int,
    pub has_more: bool,
    pub cursor: Option<Seq<char>>,
}

/// The page that a query returns.
pub open spec fn query_spec(
    rows: Seq<EntryView>,
    f: FilterView,
    limit: int,
    cursor: Option<Seq<char>>,
) -> PageView {
    let after = match cursor {
        Some(c) => parsed_cursor(c),
        None => None,
    };
    let sel = selected(rows, f, after);
    let es = page(sel, limit);
    PageView {
        entries: es,
        total_count: selected(rows, f, None).len() as int,
        has_more: sel.len() > limit,
        cursor: if es.len() > 0 {
            Some(cursor_text(es.last().ts, es.last().id))
        } else {
            None
        },
    }
}

fn same_opt(a: &Option<String>, b: &Option<String>) -> (r: bool)
    ensures
        r == (opt_view(*a) == opt_view(*b)),
{
    match (a, b) {
        (Some(x), Some(y)) => x.eq(y),
        (None, None) => true,
        _ => false,
    }
}

pub(crate) fn list_holds(v: &Vec<String>, x: &String) -> (r: bool)
    ensures
        r == strings_view(v@).contains(x@),
{
    let mut i: usize = 0;
    while i < v.len()
        invariant
            i <= v@.len(),
            forall|k: int| 0 <= k < i ==> (#[trigger] v@[k])@ != x@,
        decreases v@.len() - i,
    {
        if v[i].eq(x) {
            assert(strings_view(v@)[i as int] == x@);
            return true;
        }
        i = i + 1;
    }
    proof {
        if strings_view(v@).contains(x@) {
            let k = choose|k: int| 0 <= k < strings_view(v@).len() && strings_view(v@)[k] == x@;
            assert(v@[k]@ == x@);
        }
    }
    false
}

/// Whether the row passes the filters.
pub fn passes(f: &LogFilters, e: &LogEntry) -> (r: bool)
    ensures
        r == admits(f@, e@),
{
    if let Some(d) = &f.deployment {
        if !d.eq(&e.deployment) {
            return false;
        }
    }
    if let Some(s) = f.start_ts {
        if e.ts < s {
            return false;
        }
    }
    if let Some(t) = f.end_ts {
        if e.ts > t {
            return false;
        }
    }
    if f.request_id.is_some() && !same_opt(&f.request_id, &e.request_id) {
        return false;
    }
    if f.function_path.is_some() && !same_opt(&f.function_path, &e.function_path) {
        return false;
    }
    if let Some(s) = f.success {
        if e.success != Some(s) {
            return false;
        }
    }
    if let Some(levels) = &f.levels {
        if levels.len() > 0 {
            match &e.level {
                Some(l) => {
                    if !list_holds(levels, l) {
                        return false;
                    }
                },
                None => {
                    return false;
                },
            }
        }
    }
    true
}

fn is_beyond(after: &Option<(i64, String)>, e: &LogEntry) -> (r: bool)
    ensures
        r == beyond(
            match after {
                Some(k) => Some((k.0, k.1@)),
                None => None,
            },
            e@,
        ),
{
    match after {
        Some(k) => e.ts < k.0 || (e.ts == k.0 && str_less(&e.id, &k.1)),
        None => true,
    }
}

/// Reads a cursor of the form `ts:id`.
pub fn parse_cursor(c: &String) -> (r: Option<(i64, String)>)
    ensures
        match r {
            Some(k) => parsed_cursor(c@) == Some((k.0, k.1@)),
            None => parsed_cursor(c@) is None,
        },
{
    let cs = chars_of(c.as_str());
    let mut count: usize = 0;
    let mut pos: usize = 0;
    let mut i: usize = 0;
    while i < cs.len()
        invariant
            i <= cs@.len(),
            cs@ == c@,
            count <= i,
            count == 0 ==> forall|k: int| 0 <= k < i ==> #[trigger] cs@[k] != ':',
            count >= 1 ==> pos < i && cs@[pos as int] == ':',
            count == 1 ==> forall|k: int| 0 <= k < i && k != pos ==> #[trigger] cs@[k] != ':',
            count >= 2 ==> exists|a: int, b: int|
                0 <= a < b < i && cs@[a] == ':' && cs@[b] == ':',
        decreases cs@.len() - i,
    {
        if cs[i] == ':' {
            if count == 1 {
                assert(cs@[pos as int] == ':' && cs@[i as int] == ':');
            }
            if count == 0 {
                pos = i;
            }
            if count < 2 {
                count = count + 1;
            }
        }
        i = i + 1;
    }
    if count != 1 {
        proof {
            if exists|p: int| only_colon_at(c@, p) {
                let p = choose|p: int| only_colon_at(c@, p);
                if count >= 2 {
                    let (a, b) = choose|a: int, b: int|
                        0 <= a < b < i && cs@[a] == ':' && cs@[b] == ':';
                    assert(a == p || b == p);
                    assert(cs@[a] != ':' || cs@[b] != ':');
                } else {
                    assert(cs@[p] != ':');
                }
            }
        }
        return None;
    }
    assert(only_colon_at(c@, pos as int));
    assert forall|p: int| only_colon_at(c@, p) implies p == pos by {
        if p != pos {
            assert(c@[p] != ':');
        }
    }
    let mut head: Vec<char> = Vec::new();
    let mut k: usize = 0;
    while k < pos
        invariant
            k <= pos,
            pos < cs@.len(),
            cs@ == c@,
            head@ == c@.subrange(0, k as int),
        decreases pos - k,
    {
        head.push(cs[k]);
        k = k + 1;
        assert(head@ =~= c@.subrange(0, k as int));
    }
    let mut tail: Vec<char> = Vec::new();
    let mut k: usize = pos + 1;
    while k < cs.len()
        invariant
            pos + 1 <= k <= cs@.len(),
            cs@ == c@,
            tail@ == c@.subrange(pos + 1, k as int),
        decreases cs@.len() - k,
    {
        tail.push(cs[k]);
        k = k + 1;
        assert(tail@ =~= c@.subrange(pos + 1, k as int));
    }
    let head_text = string_from_chars(&head);
    match parse_i64(head_text.as_str()) {
        Some(ts) => Some((ts, string_from_chars(&tail))),
        None => None,
    }
}

/// The cursor text for a row's position.
pub fn format_cursor(e: &LogEntry) -> (r: String)
    ensures
        r@ == cursor_text(e.ts, e.id@),
{
    let mut r = i64_numeral(e.ts);
    push_char(&mut r, ':');
    let ghost mid = r@;
    let cs = chars_of(e.id.as_str());
    let mut i: usize = 0;
    while i < cs.len()
        invariant
            i <= cs@.len(),
            cs@ == e.id@,
            mid == numeral(e.ts as int) + seq![':'],
            r@ == mid + cs@.subrange(0, i as int),
        decreases cs@.len() - i,
    {
        push_char(&mut r, cs[i]);
        i = i + 1;
        assert(r@ =~= mid + cs@.subrange(0, i as int));
    }
    assert(cs@.subrange(0, i as int) =~= cs@);
    r
}

/// Retrieves one page of the rows that pass the filters, in the order
/// `(ts DESC, id DESC)`, starting after the cursor's position where a cursor
/// is given and can be read. The count covers every row that passes the
/// filters, wherever the cursor stands.
pub fn query_logs(
    store: &LogStore,
    filters: &LogFilters,
    limit: Option<i32>,
    cursor: Option<String>,
) -> (r: LogQueryResult)
    requires
        store.wf(),
    ensures
        entries_view(r.logs@) == query_spec(
            store.entries(),
            filters@,
            effective_limit(limit),
            opt_view(cursor),
        ).entries,
        r.total_count as int == query_spec(
            store.entries(),
            filters@,
            effective_limit(limit),
            opt_view(cursor),
        ).total_count,
        r.has_more == query_spec(
            store.entries(),
            filters@,
            effective_limit(limit),
            opt_view(cursor),
        ).has_more,
        opt_view(r.cursor) == query_spec(
            store.entries(),
            filters@,
            effective_limit(limit),
            opt_view(cursor),
        ).cursor,
{
    let l: i32 = page_size(limit);
    let after: Option<(i64, String)> = match &cursor {
        Some(c) => parse_cursor(c),
        None => None,
    };
    let ghost av: Option<(i64, Seq<char>)> = match &after {
        Some(k) => Some((k.0, k.1@)),
        None => None,
    };
    assert(av == match opt_view(cursor) {
        Some(c) => parsed_cursor(c),
        None => None,
    });
    let ghost rows = store.entries();
    proof {
        store.lemma_wf();
    }
    let mut out: Vec<LogEntry> = Vec::new();
    let mut total: usize = 0;
    let mut chosen: usize = 0;
    let mut i: usize = 0;
    let n = store.len();
    assert(rows.subrange(0, 0) =~= Seq::<EntryView>::empty());
    while i < n
        invariant
            n == rows.len(),
            rows == store.entries(),
            store.wf(),
            rows.len() <= i64::MAX,
            av == match after {
                Some(k) => Some((k.0, k.1@)),
                None => None,
            },
            i <= n,
            l as int == effective_limit(limit),
            1 <= l <= 1000,
            total as int == selected(rows.subrange(0, i as int), filters@, None).len(),
            chosen as int == selected(rows.subrange(0, i as int), filters@, av).len(),
            total <= i,
            chosen <= i,
            entries_view(out@) == page(selected(rows.subrange(0, i as int), filters@, av), l as int),
        decreases n - i,
    {
        let e = store.row(i);
        let ghost pre = rows.subrange(0, i as int);
        assert(rows.subrange(0, i + 1).drop_last() =~= pre);
        assert(rows.subrange(0, i + 1).last() == e@);
        let ghost sel0 = selected(pre, filters@, av);
        if passes(filters, e) {
            total = total + 1;
            if is_beyond(&after, e) {
                if chosen < l as usize {
                    out.push(e.duplicate());
                    assert(entries_view(out@) =~= page(sel0.push(e@), l as int)) by {
                        assert(page(sel0, l as int) == sel0);
                    }
                } else {
                    assert(page(sel0.push(e@), l as int) =~= page(sel0, l as int)) by {
                        if sel0.len() > l {
                            assert(sel0.push(e@).subrange(0, l as int) =~= sel0.subrange(
                                0,
                                l as int,
                            ));
                        } else {
                            assert(sel0.push(e@).subrange(0, l as int) =~= sel0);
                        }
                    }
                }
                chosen = chosen + 1;
            }
        }
        i = i + 1;
    }
    assert(rows.subrange(0, i as int) =~= rows);
    let has_more = chosen > l as usize;
    let next = if out.len() > 0 {
        let last = &out[out.len() - 1];
        assert(entries_view(out@).last() == last@);
        Some(format_cursor(last))
    } else {
        None
    };
    LogQueryResult { logs: out, total_count: total as i64, has_more, cursor: next }
}


proof fn lemma_selected_from(s: Seq<EntryView>, f: FilterView, after: Option<(i64, Seq<char>)>)
    ensures
        forall|k: int|
            0 <= k < selected(s, f, after).len() ==> exists|j: int|
                0 <= j < s.len() && s[j] == #[trigger] selected(s, f, after)[k],
    decreases s.len(),
{
    if s.len() > 0 {
        lemma_selected_from(s.drop_last(), f, after);
        let sel = selected(s, f, after);
        let sub = selected(s.drop_last(), f, after);
        assert forall|k: int| 0 <= k < sel.len() implies exists|j: int|
            0 <= j < s.len() && s[j] == #[trigger] sel[k] by {
            if k < sub.len() {
                let j = choose|j: int| 0 <= j < s.drop_last().len() && s.drop_last()[j] == sub[k];
                assert(s[j] == sel[k]);
            } else {
                assert(s[s.len() - 1] == sel[k]);
            }
        }
    }
}

proof fn lemma_selected_none_beyond(s: Seq<EntryView>, f: FilterView, after: Option<(i64, Seq<char>)>)
    requires
        forall|j: int| 0 <= j < s.len() ==> !beyond(after, #[trigger] s[j]),
    ensures
        selected(s, f, after) == Seq::<EntryView>::empty(),
    decreases s.len(),
{
    if s.len() > 0 {
        assert(!beyond(after, s[s.len() - 1]));
        lemma_selected_none_beyond(s.drop_last(), f, after);
    }
}

/// In rows kept in the order `(ts DESC, id DESC)`, the rows that pass the
/// filters and lie after the `p`-th of them are exactly those that follow it.
pub proof fn lemma_resume_after(s: Seq<EntryView>, f: FilterView, p: int)
    requires
        sorted_desc(s),
        0 <= p < selected(s, f, None).len(),
    ensures
        selected(
            s,
            f,
            Some((selected(s, f, None)[p].ts, selected(s, f, None)[p].id)),
        ) == selected(s, f, None).subrange(p + 1, selected(s, f, None).len() as int),
    decreases s.len(),
{
    let m = selected(s, f, None);
    let x = m[p];
    let c = Some((x.ts, x.id));
    let t = s.drop_last();
    let last = s.last();
    let m0 = selected(t, f, None);
    assert(sorted_desc(t));
    if p < m0.len() {
        assert(m0[p] == x);
        lemma_resume_after(t, f, p);
        lemma_selected_from(t, f, None);
        let j = choose|j: int| 0 <= j < t.len() && t[j] == m0[p];
        assert(key_before(s[j], s[s.len() - 1]));
        assert(beyond(c, last));
        if admits(f, last) {
            assert(selected(s, f, c) =~= m.subrange(p + 1, m.len() as int));
        } else {
            assert(selected(s, f, c) =~= m.subrange(p + 1, m.len() as int));
        }
    } else {
        assert(x == last);
        assert forall|j: int| 0 <= j < t.len() implies !beyond(c, #[trigger] t[j]) by {
            assert(key_before(s[j], s[s.len() - 1]));
            crate::store::lemma_key_before_asymmetric(t[j], x);
        }
        lemma_selected_none_beyond(t, f, c);
        crate::store::lemma_key_before_irreflexive(x);
        assert(selected(s, f, c) =~= m.subrange(p + 1, m.len() as int));
    }
}

/// The cursor handed out for a row reads back as that row's position.
pub proof fn lemma_cursor_round_trip(ts: i64, id: Seq<char>)
    requires
        !id.contains(':'),
    ensures
        parsed_cursor(cursor_text(ts, id)) == Some((ts, id)),
{
    crate::text::lemma_numeral_round_trip(ts);
    let n = numeral(ts as int);
    let c = cursor_text(ts, id);
    let p = n.len() as int;
    assert forall|k: int| 0 <= k < c.len() && k != p implies #[trigger] c[k] != ':' by {
        if k < p {
            assert(c[k] == n[k]);
        } else {
            assert(c[k] == id[k - p - 1]);
        }
    }
    assert(only_colon_at(c, p));
    let q = choose|q: int| only_colon_at(c, q);
    if q != p {
        assert(c[q] != ':');
    }
    assert(c.subrange(0, p) =~= n);
    assert(c.subrange(p + 1, c.len() as int) =~= id);
}

/// The rows that repeated queries return, starting from `cursor` and
/// following each page's cursor while the page reports more, for at most
/// `fuel` further pages.
pub open spec fn walk(
    rows: Seq<EntryView>,
    f: FilterView,
    k: int,
    cursor: Option<Seq<char>>,
    fuel: nat,
) -> Seq<EntryView>
    decreases fuel,
{
    let pg = query_spec(rows, f, k, cursor);
    if fuel == 0 || !pg.has_more {
        pg.entries
    } else {
        pg.entries + walk(rows, f, k, pg.cursor, (fuel - 1) as nat)
    }
}

/// The cursor that resumes after the first `q` rows of `m`; none for `q == 0`.
pub open spec fn cursor_at(m: Seq<EntryView>, q: int) -> Option<Seq<char>> {
    if q == 0 {
        None
    } else {
        Some(cursor_text(m[q - 1].ts, m[q - 1].id))
    }
}

proof fn lemma_page_from(rows: Seq<EntryView>, f: FilterView, k: int, q: int)
    requires
        sorted_desc(rows),
        forall|i: int| 0 <= i < rows.len() ==> !(#[trigger] rows[i]).id.contains(':'),
        k >= 1,
        0 <= q <= selected(rows, f, None).len(),
    ensures
        ({
            let m = selected(rows, f, None);
            let pg = query_spec(rows, f, k, cursor_at(m, q));
            &&& pg.entries == m.subrange(q, if q + k < m.len() { q + k } else { m.len() as int })
            &&& pg.has_more == (q + k < m.len())
            &&& pg.has_more ==> pg.cursor == cursor_at(m, q + k)
        }),
{
    let m = selected(rows, f, None);
    let cursor = cursor_at(m, q);
    let after = match cursor {
        Some(c) => parsed_cursor(c),
        None => None,
    };
    if q == 0 {
        assert(m.subrange(0, m.len() as int) =~= m);
    } else {
        lemma_selected_from(rows, f, None);
        let j = choose|j: int| 0 <= j < rows.len() && rows[j] == m[q - 1];
        assert(!rows[j].id.contains(':'));
        lemma_cursor_round_trip(m[q - 1].ts, m[q - 1].id);
        lemma_resume_after(rows, f, q - 1);
    }
    let sel = selected(rows, f, after);
    assert(sel == m.subrange(q, m.len() as int));
    let pg = query_spec(rows, f, k, cursor);
    if pg.has_more {
        assert(pg.entries =~= m.subrange(q, q + k));
        assert(pg.entries.last() == m[q + k - 1]);
    } else {
        assert(pg.entries =~= m.subrange(q, m.len() as int));
    }
}

proof fn lemma_walk_from(rows: Seq<EntryView>, f: FilterView, k: int, q: int, fuel: nat)
    requires
        sorted_desc(rows),
        forall|i: int| 0 <= i < rows.len() ==> !(#[trigger] rows[i]).id.contains(':'),
        k >= 1,
        0 <= q <= selected(rows, f, None).len(),
        fuel >= selected(rows, f, None).len() - q,
    ensures
        walk(rows, f, k, cursor_at(selected(rows, f, None), q), fuel) == selected(
            rows,
            f,
            None,
        ).subrange(q, selected(rows, f, None).len() as int),
        page_count(rows, f, k, cursor_at(selected(rows, f, None), q), fuel) == if q + k
            >= selected(rows, f, None).len() {
            1
        } else {
            (selected(rows, f, None).len() - q + k - 1) / k
        },
    decreases fuel,
{
    let m = selected(rows, f, None);
    let cursor = cursor_at(m, q);
    lemma_page_from(rows, f, k, q);
    let pg = query_spec(rows, f, k, cursor);
    if pg.has_more {
        assert(fuel > 0);
        lemma_walk_from(rows, f, k, q + k, (fuel - 1) as nat);
        assert(walk(rows, f, k, cursor, fuel) =~= m.subrange(q, m.len() as int));
        let r = m.len() - q;
        if q + k + k >= m.len() {
            assert((r + k - 1) / k == 2) by (nonlinear_arith)
                requires
                    k < r <= 2 * k,
            ;
        } else {
            assert(1 + (r - k + k - 1) / k == (r + k - 1) / k) by (nonlinear_arith)
                requires
                    k >= 1,
                    r > k,
            ;
        }
    } else {
        assert(pg.entries =~= m.subrange(q, m.len() as int));
    }
}

/// The number of pages that repeated queries return, counted as [`walk`]
/// collects them.
pub open spec fn page_count(
    rows: Seq<EntryView>,
    f: FilterView,
    k: int,
    cursor: Option<Seq<char>>,
    fuel: nat,
) -> nat
    decreases fuel,
{
    let pg = query_spec(rows, f, k, cursor);
    if fuel == 0 || !pg.has_more {
        1
    } else {
        1 + page_count(rows, f, k, pg.cursor, (fuel - 1) as nat)
    }
}

/// The page that starts after the first `q` matching rows holds the next `k`
/// of them (fewer only on the last page), reports more exactly when rows are
/// left after it, and hands back the cursor of the page that follows it.
pub proof fn lemma_page_at(store: &LogStore, f: FilterView, k: i32, q: int)
    requires
        store.wf(),
        1 <= k <= 1000,
        0 <= q <= selected(store.entries(), f, None).len(),
    ensures
        ({
            let m = selected(store.entries(), f, None);
            let pg = query_spec(store.entries(), f, effective_limit(Some(k)), cursor_at(m, q));
            &&& pg.entries == m.subrange(
                q,
                if q + k < m.len() {
                    q + k
                } else {
                    m.len() as int
                },
            )
            &&& pg.has_more == (q + k < m.len())
            &&& pg.has_more ==> pg.entries.len() == k && pg.cursor == cursor_at(m, q + k)
        }),
{
    store.lemma_wf();
    lemma_page_from(store.entries(), f, k as int, q);
}

/// Paging through a query with a fixed page size `k` between 1 and 1000,
/// starting without a cursor and passing each page's cursor to the next call
/// while a page reports more, returns every row that passes the filters
/// exactly once, in the order `(ts DESC, id DESC)`, over `max(1, ceil(m / k))`
/// pages for `m` matching rows; see [`lemma_page_at`] for the size of each.
pub proof fn lemma_pages_cover_selection(store: &LogStore, f: FilterView, k: i32)
    requires
        store.wf(),
        1 <= k <= 1000,
    ensures
        walk(
            store.entries(),
            f,
            effective_limit(Some(k)),
            None,
            selected(store.entries(), f, None).len(),
        ) == selected(store.entries(), f, None),
        sorted_desc(selected(store.entries(), f, None)),
        selected(store.entries(), f, None).no_duplicates(),
        page_count(
            store.entries(),
            f,
            effective_limit(Some(k)),
            None,
            selected(store.entries(), f, None).len(),
        ) == if selected(store.entries(), f, None).len() <= k {
            1
        } else {
            (selected(store.entries(), f, None).len() + k - 1) / k as int
        },
{
    store.lemma_wf();
    lemma_walk_from(store.entries(), f, k as int, 0, selected(store.entries(), f, None).len());
    let m = selected(store.entries(), f, None);
    assert(m.subrange(0, m.len() as int) =~= m);
    lemma_selected_sorted(store.entries(), f, None);
    assert forall|i: int, j: int| 0 <= i < m.len() && 0 <= j < m.len() && i != j implies m[i]
        != m[j] by {
        if i < j {
            crate::store::lemma_key_before_irreflexive(m[i]);
        } else {
            crate::store::lemma_key_before_irreflexive(m[j]);
        }
    }
}

proof fn lemma_selected_sorted(s: Seq<EntryView>, f: FilterView, after: Option<(i64, Seq<char>)>)
    requires
        sorted_desc(s),
    ensures
        sorted_desc(selected(s, f, after)),
    decreases s.len(),
{
    if s.len() > 0 {
        let t = s.drop_last();
        assert(sorted_desc(t));
        lemma_selected_sorted(t, f, after);
        lemma_selected_from(t, f, after);
        let sub = selected(t, f, after);
        let sel = selected(s, f, after);
        assert forall|i: int, j: int| 0 <= i < j < sel.len() implies key_before(
            #[trigger] sel[i],
            #[trigger] sel[j],
        ) by {
            if j == sub.len() {
                let a = choose|a: int| 0 <= a < t.len() && t[a] == sub[i];
                assert(key_before(s[a], s[s.len() - 1]));
            } else {
                assert(sel[i] == sub[i] && sel[j] == sub[j]);
            }
        }
    }
}

/// A page of one row reports more exactly when two or more rows pass the filters.
pub proof fn lemma_single_row_page(rows: Seq<EntryView>, f: FilterView)
    ensures
        selected(rows, f, None).len() >= 2 ==> query_spec(
            rows,
            f,
            effective_limit(Some(1)),
            None,
        ).has_more,
        selected(rows, f, None).len() == 1 ==> !query_spec(
            rows,
            f,
            effective_limit(Some(1)),
            None,
        ).has_more,
{
}

} // verus!
