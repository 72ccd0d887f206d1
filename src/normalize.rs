//! Derivation of a row's summary fields from an incoming event.

use vstd::prelude::*;
use crate::models::{IngestLogEntry, IngestView, opt_view, strings_view};

verus! {

/// The lines joined with `sep` between neighbours.
pub open spec fn join(ls: Seq<Seq<char>>, sep: Seq<char>) -> Seq<char>
    decreases ls.len(),
{
    if ls.len() == 0 {
        Seq::empty()
    } else if ls.len() == 1 {
        ls[0]
    } else {
        join(ls.drop_last(), sep) + sep + ls.last()
    }
}

/// The summary message of an event: its error, else its log lines, else a
/// sentence on its function, else a fixed fallback.
pub open spec fn message_of(e: IngestView) -> Seq<char> {
    if e.error is Some {
        "Error: "@ + e.error->0
    } else if e.log_lines is Some && e.log_lines->0.len() > 0 {
        join(e.log_lines->0, " | "@)
    } else if e.function_name is Some {
        if e.success != Some(false) {
            "Function '"@ + e.function_name->0 + "' executed"@
        } else {
            "Function '"@ + e.function_name->0 + "' failed"@
        }
    } else {
        "Log entry"@
    }
}

/// The severity of an event: `ERROR` on an error or an explicit failure,
/// `INFO` on an explicit success, none otherwise.
pub open spec fn level_of(e: IngestView) -> Option<Seq<char>> {
    if e.error is Some || e.success == Some(false) {
        Some("ERROR"@)
    } else if e.success == Some(true) {
        Some("INFO"@)
    } else {
        None
    }
}

fn append_str(s: &mut String, t: &str)
    ensures
        final(s)@ == old(s)@ + t@,
{
    s.append(t);
}

/// Joins the lines with `sep` between neighbours.
pub fn join_lines(lines: &Vec<String>, sep: &str) -> (r: String)
    ensures
        r@ == join(strings_view(lines@), sep@),
{
    let mut r = String::new();
    let ghost ls = strings_view(lines@);
    let mut i: usize = 0;
    while i < lines.len()
        invariant
            i <= lines@.len(),
            ls == strings_view(lines@),
            r@ == join(ls.subrange(0, i as int), sep@),
        decreases lines@.len() - i,
    {
        if i > 0 {
            append_str(&mut r, sep);
        }
        append_str(&mut r, lines[i].as_str());
        i = i + 1;
        let ghost sub = ls.subrange(0, i as int);
        assert(sub.drop_last() =~= ls.subrange(0, i - 1));
        assert(sub.last() == lines@[i - 1]@);
        if i == 1 {
            assert(r@ =~= join(sub, sep@));
        }
    }
    assert(ls.subrange(0, i as int) =~= ls);
    r
}

/// Derives the summary message of an event.
pub fn extract_message(entry: &IngestLogEntry) -> (r: String)
    ensures
        r@ == message_of(entry@),
{
    if let Some(error) = &entry.error {
        let mut r = String::from_str("Error: ");
        append_str(&mut r, error.as_str());
        return r;
    }
    if let Some(lines) = &entry.log_lines {
        if lines.len() > 0 {
            return join_lines(lines, " | ");
        }
    }
    if let Some(name) = &entry.function_name {
        let mut r = String::from_str("Function '");
        append_str(&mut r, name.as_str());
        if entry.success != Some(false) {
            append_str(&mut r, "' executed");
        } else {
            append_str(&mut r, "' failed");
        }
        return r;
    }
    String::from_str("Log entry")
}

/// Derives the severity of an event.
pub fn infer_level(entry: &IngestLogEntry) -> (r: Option<String>)
    ensures
        opt_view(r) == level_of(entry@),
{
    let failed = match entry.success {
        Some(s) => !s,
        None => false,
    };
    if entry.error.is_some() || failed {
        Some(String::from_str("ERROR"))
    } else if entry.success == Some(true) {
        Some(String::from_str("INFO"))
    } else {
        None
    }
}

/// The lowercase form of a string, as Unicode case mapping gives it.
pub uninterp spec fn lower_of(s: Seq<char>) -> Seq<char>;

/// Relies on `str::to_lowercase`: the result depends on the characters alone.
#[verifier::external_body]
pub(crate) fn lowercase(s: &str) -> (r: String)
    ensures
        r@ == lower_of(s@),
{
    s.to_lowercase()
}

/// Whether a lowercased function kind names a function of the backend.
pub open spec fn is_function_kind(lowered: Seq<char>) -> bool {
    lowered == "query"@ || lowered == "mutation"@ || lowered == "action"@ || lowered
        == "httpaction"@
}

/// The topic for a function kind `raw` whose lowercase form is `lowered`.
pub open spec fn topic_for(raw: Seq<char>, lowered: Seq<char>) -> Seq<char> {
    if is_function_kind(lowered) {
        "function"@
    } else {
        raw
    }
}

/// The topic of an event with this function kind.
pub open spec fn topic_of(udf_type: Option<Seq<char>>) -> Option<Seq<char>> {
    match udf_type {
        Some(t) => Some(topic_for(t, lower_of(t))),
        None => None,
    }
}

fn same_text(a: &String, lit: &str) -> (r: bool)
    ensures
        r == (a@ == lit@),
{
    let l = String::from_str(lit);
    l.eq(a)
}

/// The topic for the function kind `raw`, given its lowercase form `lowered`:
/// `function` for a query, mutation, action or HTTP action, else `raw` itself.
pub fn topic_from_lowered(raw: &str, lowered: &String) -> (r: String)
    ensures
        r@ == topic_for(raw@, lowered@),
{
    if same_text(lowered, "query") || same_text(lowered, "mutation") || same_text(lowered, "action")
        || same_text(lowered, "httpaction") {
        String::from_str("function")
    } else {
        raw.to_owned()
    }
}

/// Derives the topic of an event from its function kind, matching the kind
/// without regard to case.
pub fn infer_topic(udf_type: Option<&str>) -> (r: Option<String>)
    ensures
        opt_view(r) == topic_of(crate::log_id::opt_str_view(udf_type)),
{
    match udf_type {
        Some(t) => {
            let lowered = lowercase(t);
            Some(topic_from_lowered(t, &lowered))
        },
        None => None,
    }
}

} // verus!
