//! Splitting text into search words: case and accents folded away, words
//! reduced to their stems; and the cleaning of search queries.

use unicode_normalization::UnicodeNormalization;
use vstd::prelude::*;
use crate::text::{chars_of, string_from_chars};

verus! {

/// Whether a character is alphabetic or numeric in Unicode; these make up
/// tokens, and every other character separates them.
pub uninterp spec fn is_word_char(c: char) -> bool;

/// Relies on `char::is_alphanumeric`: Unicode's Alphabetic or Numeric property
/// of the character alone.
#[verifier::external_body]
fn word_char(c: char) -> (r: bool)
    ensures
        r == is_word_char(c),
{
    c.is_alphanumeric()
}

/// The canonical decomposition (NFD) of a string.
pub uninterp spec fn nfd_of(s: Seq<char>) -> Seq<char>;

/// Relies on `unicode_normalization::UnicodeNormalization::nfd`: the canonical
/// decomposition, which depends on the characters alone.
#[verifier::external_body]
fn decompose(s: &str) -> (r: String)
    ensures
        r@ == nfd_of(s@),
{
    s.nfd().collect()
}

/// Whether a character is a combining mark (General_Category Mark).
pub uninterp spec fn is_mark(c: char) -> bool;

/// Relies on `unicode_normalization::char::is_combining_mark`: whether the
/// character's general category is Mark.
#[verifier::external_body]
fn combining_mark(c: char) -> (r: bool)
    ensures
        r == is_mark(c),
{
    unicode_normalization::char::is_combining_mark(c)
}

/// The stem of a word under the Snowball English stemmer.
pub uninterp spec fn stem_of(w: Seq<char>) -> Seq<char>;

/// Relies on `rust_stemmers::Stemmer::stem` with `Algorithm::English`: the
/// stem depends on the word alone.
#[verifier::external_body]
fn stem(w: &str) -> (r: String)
    ensures
        r@ == stem_of(w@),
{
    rust_stemmers::Stemmer::create(rust_stemmers::Algorithm::English).stem(w).into_owned()
}

/// The tokens completed so far, and the token still open, after reading `s`.
pub open spec fn split_tokens(s: Seq<char>) -> (Seq<Seq<char>>, Seq<char>)
    decreases s.len(),
{
    if s.len() == 0 {
        (Seq::empty(), Seq::empty())
    } else {
        let (done, cur) = split_tokens(s.drop_last());
        let c = s.last();
        if is_word_char(c) {
            (done, cur.push(c))
        } else if cur.len() > 0 {
            (done.push(cur), Seq::empty())
        } else {
            (done, Seq::empty())
        }
    }
}

/// The maximal runs of token characters in `s`, in order.
pub open spec fn tokens(s: Seq<char>) -> Seq<Seq<char>> {
    let (done, cur) = split_tokens(s);
    if cur.len() > 0 {
        done.push(cur)
    } else {
        done
    }
}



/// Splits `s` into its tokens.
pub fn tokenize(s: &str) -> (r: Vec<String>)
    ensures
        crate::models::strings_view(r@) == tokens(s@),
{
    let cs = chars_of(s);
    let mut done: Vec<String> = Vec::new();
    let mut cur: Vec<char> = Vec::new();
    let mut i: usize = 0;
    while i < cs.len()
        invariant
            i <= cs@.len(),
            cs@ == s@,
            crate::models::strings_view(done@) == split_tokens(s@.subrange(0, i as int)).0,
            cur@ == split_tokens(s@.subrange(0, i as int)).1,
        decreases cs@.len() - i,
    {
        let c = cs[i];
        let ghost pre = s@.subrange(0, i as int);
        assert(s@.subrange(0, i + 1).drop_last() =~= pre);
        if word_char(c) {
            cur.push(c);
        } else if cur.len() > 0 {
            let t = string_from_chars(&cur);
            done.push(t);
            cur = Vec::new();
        }
        i = i + 1;
        assert(crate::models::strings_view(done@) =~= split_tokens(s@.subrange(0, i as int)).0);
        assert(cur@ =~= split_tokens(s@.subrange(0, i as int)).1);
    }
    assert(s@.subrange(0, i as int) =~= s@);
    if cur.len() > 0 {
        let t = string_from_chars(&cur);
        done.push(t);
    }
    assert(crate::models::strings_view(done@) =~= tokens(s@));
    done
}

/// The characters that `trim` removes: those with the Unicode White_Space property.
pub open spec fn is_white_space(c: char) -> bool {
    ('\u{9}' <= c && c <= '\u{d}') || c == ' ' || c == '\u{85}' || c == '\u{a0}' || c
        == '\u{1680}' || ('\u{2000}' <= c && c <= '\u{200a}') || c == '\u{2028}' || c
        == '\u{2029}' || c == '\u{202f}' || c == '\u{205f}' || c == '\u{3000}'
}

fn white_space(c: char) -> (r: bool)
    ensures
        r == is_white_space(c),
{
    ('\u{9}' <= c && c <= '\u{d}') || c == ' ' || c == '\u{85}' || c == '\u{a0}' || c
        == '\u{1680}' || ('\u{2000}' <= c && c <= '\u{200a}') || c == '\u{2028}' || c
        == '\u{2029}' || c == '\u{202f}' || c == '\u{205f}' || c == '\u{3000}'
}

/// `s` with every double quote doubled.
pub open spec fn double_quotes(s: Seq<char>) -> Seq<char>
    decreases s.len(),
{
    if s.len() == 0 {
        Seq::empty()
    } else if s.last() == '"' {
        double_quotes(s.drop_last()) + seq!['"', '"']
    } else {
        double_quotes(s.drop_last()).push(s.last())
    }
}

/// `s` without white space at either end.
pub open spec fn trimmed(s: Seq<char>) -> Seq<char> {
    if exists|i: int| 0 <= i < s.len() && !is_white_space(#[trigger] s[i]) {
        let a = choose|a: int|
            0 <= a < s.len() && !is_white_space(s[a]) && forall|k: int|
                0 <= k < a ==> is_white_space(#[trigger] s[k]);
        let b = choose|b: int|
            0 <= b < s.len() && !is_white_space(s[b]) && forall|k: int|
                b < k < s.len() ==> is_white_space(#[trigger] s[k]);
        s.subrange(a, b + 1)
    } else {
        Seq::empty()
    }
}

/// The search text as the store matches it: quotes doubled, white space
/// trimmed from both ends.
pub open spec fn sanitized(q: Seq<char>) -> Seq<char> {
    trimmed(double_quotes(q))
}

/// Cleans a search query: doubles each double quote, then trims white space.
pub fn sanitize_query(q: &str) -> (r: String)
    ensures
        r@ == sanitized(q@),
{
    let cs = chars_of(q);
    let mut d: Vec<char> = Vec::new();
    let mut i: usize = 0;
    while i < cs.len()
        invariant
            i <= cs@.len(),
            cs@ == q@,
            d@ == double_quotes(q@.subrange(0, i as int)),
        decreases cs@.len() - i,
    {
        assert(q@.subrange(0, i + 1).drop_last() =~= q@.subrange(0, i as int));
        if cs[i] == '"' {
            d.push('"');
            d.push('"');
        } else {
            d.push(cs[i]);
        }
        i = i + 1;
        assert(d@ =~= double_quotes(q@.subrange(0, i as int)));
    }
    assert(q@.subrange(0, i as int) =~= q@);
    let ghost s = d@;
    let mut a: usize = 0;
    while a < d.len() && white_space(d[a])
        invariant
            a <= s.len(),
            d@ == s,
            forall|k: int| 0 <= k < a ==> is_white_space(#[trigger] s[k]),
        decreases s.len() - a,
    {
        a = a + 1;
    }
    if a == d.len() {
        assert(!exists|i: int| 0 <= i < s.len() && !is_white_space(#[trigger] s[i]));
        return String::new();
    }
    let mut b: usize = d.len() - 1;
    while white_space(d[b])
        invariant
            a <= b < s.len(),
            d@ == s,
            !is_white_space(s[a as int]),
            forall|k: int| b < k < s.len() ==> is_white_space(#[trigger] s[k]),
        decreases b,
    {
        b = b - 1;
    }
    let ghost wa = choose|x: int|
        0 <= x < s.len() && !is_white_space(s[x]) && forall|k: int|
            0 <= k < x ==> is_white_space(#[trigger] s[k]);
    let ghost wb = choose|x: int|
        0 <= x < s.len() && !is_white_space(s[x]) && forall|k: int|
            x < k < s.len() ==> is_white_space(#[trigger] s[k]);
    assert(exists|i: int| 0 <= i < s.len() && !is_white_space(#[trigger] s[i])) by {
        assert(!is_white_space(s[a as int]));
    }
    assert(wa == a) by {
        if wa < a {
            assert(is_white_space(s[wa]));
        } else if wa > a {
            assert(is_white_space(s[a as int]));
        }
    }
    assert(wb == b) by {
        if wb < b {
            assert(is_white_space(s[b as int]));
        } else if wb > b {
            assert(is_white_space(s[wb]));
        }
    }
    let mut out: Vec<char> = Vec::new();
    let mut k: usize = a;
    let n: usize = d.len();
    while k <= b
        invariant
            a <= k <= b + 1,
            b < s.len(),
            n == s.len(),
            b < n,
            d@ == s,
            out@ == s.subrange(a as int, k as int),
        decreases b + 1 - k,
    {
        out.push(d[k]);
        k = k + 1;
        assert(out@ =~= s.subrange(a as int, k as int));
    }
    string_from_chars(&out)
}


/// `s` without its combining marks.
pub open spec fn strip_marks(s: Seq<char>) -> Seq<char>
    decreases s.len(),
{
    if s.len() == 0 {
        Seq::empty()
    } else if is_mark(s.last()) {
        strip_marks(s.drop_last())
    } else {
        strip_marks(s.drop_last()).push(s.last())
    }
}

/// `s` lowercased, decomposed, and without combining marks, so that case and
/// accents no longer tell words apart.
pub open spec fn folded(s: Seq<char>) -> Seq<char> {
    strip_marks(nfd_of(crate::normalize::lower_of(s)))
}

/// The stems of a list of words.
pub open spec fn stems(ws: Seq<Seq<char>>) -> Seq<Seq<char>> {
    Seq::new(ws.len(), |i: int| stem_of(ws[i]))
}

/// The words under which text is searched: the stems of the tokens of its folded form.
pub open spec fn search_words(s: Seq<char>) -> Seq<Seq<char>> {
    stems(tokens(folded(s)))
}

/// Folds case and accents out of `s`.
pub fn fold_text(s: &str) -> (r: String)
    ensures
        r@ == folded(s@),
{
    let lowered = crate::normalize::lowercase(s);
    let d = decompose(lowered.as_str());
    let cs = chars_of(d.as_str());
    let mut out: Vec<char> = Vec::new();
    let mut i: usize = 0;
    while i < cs.len()
        invariant
            i <= cs@.len(),
            cs@ == d@,
            out@ == strip_marks(d@.subrange(0, i as int)),
        decreases cs@.len() - i,
    {
        assert(d@.subrange(0, i + 1).drop_last() =~= d@.subrange(0, i as int));
        if !combining_mark(cs[i]) {
            out.push(cs[i]);
        }
        i = i + 1;
    }
    assert(d@.subrange(0, i as int) =~= d@);
    string_from_chars(&out)
}

/// The stems of the given words.
pub fn stem_words(ws: Vec<String>) -> (r: Vec<String>)
    ensures
        crate::models::strings_view(r@) == stems(crate::models::strings_view(ws@)),
{
    let mut out: Vec<String> = Vec::new();
    let mut i: usize = 0;
    while i < ws.len()
        invariant
            i <= ws@.len(),
            out@.len() == i,
            forall|k: int| 0 <= k < i ==> (#[trigger] out@[k])@ == stem_of(ws@[k]@),
        decreases ws@.len() - i,
    {
        out.push(stem(ws[i].as_str()));
        i = i + 1;
    }
    assert(crate::models::strings_view(out@) =~= stems(crate::models::strings_view(ws@)));
    out
}

/// The words under which `s` is searched.
pub fn words_of(s: &str) -> (r: Vec<String>)
    ensures
        crate::models::strings_view(r@) == search_words(s@),
{
    let f = fold_text(s);
    stem_words(tokenize(f.as_str()))
}

} // verus!
