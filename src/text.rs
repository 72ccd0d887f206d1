//! Character-level helpers shared by the store: string building, decimal
//! numerals and the lexicographic order on identifiers.

use vstd::prelude::*;

verus! {

/// Relies on `str::chars`, collected into a `Vec`: the characters of `s`, in order.
#[verifier::external_body]
pub(crate) fn chars_of(s: &str) -> (r: Vec<char>)
    ensures
        r@ == s@,
{
    s.chars().collect()
}

/// Relies on `String::push`: appends one character.
#[verifier::external_body]
pub(crate) fn push_char(s: &mut String, c: char)
    ensures
        final(s)@ == old(s)@.push(c),
{
    s.push(c)
}

/// Builds a `String` holding exactly the given characters.
pub fn string_from_chars(cs: &Vec<char>) -> (r: String)
    ensures
        r@ == cs@,
{
    let mut r = String::new();
    let mut i: usize = 0;
    while i < cs.len()
        invariant
            i <= cs@.len(),
            r@ == cs@.subrange(0, i as int),
        decreases cs@.len() - i,
    {
        push_char(&mut r, cs[i]);
        i = i + 1;
        assert(r@ =~= cs@.subrange(0, i as int));
    }
    assert(r@ =~= cs@);
    r
}


/// Strict lexicographic order on character sequences, comparing code points;
/// on well-formed strings it agrees with byte-wise comparison of their UTF-8 form.
pub open spec fn seq_lt(a: Seq<char>, b: Seq<char>) -> bool
    decreases a.len(),
{
    if b.len() == 0 {
        false
    } else if a.len() == 0 {
        true
    } else if a[0] != b[0] {
        a[0] < b[0]
    } else {
        seq_lt(a.drop_first(), b.drop_first())
    }
}

pub proof fn lemma_seq_lt_irreflexive(a: Seq<char>)
    ensures
        !seq_lt(a, a),
    decreases a.len(),
{
    if a.len() > 0 {
        lemma_seq_lt_irreflexive(a.drop_first());
    }
}

pub proof fn lemma_seq_lt_transitive(a: Seq<char>, b: Seq<char>, c: Seq<char>)
    requires
        seq_lt(a, b),
        seq_lt(b, c),
    ensures
        seq_lt(a, c),
    decreases a.len(),
{
    if a.len() > 0 && b.len() > 0 && c.len() > 0 {
        if a[0] == b[0] && b[0] == c[0] {
            lemma_seq_lt_transitive(a.drop_first(), b.drop_first(), c.drop_first());
        }
    }
}

pub proof fn lemma_seq_lt_total(a: Seq<char>, b: Seq<char>)
    ensures
        a == b || seq_lt(a, b) || seq_lt(b, a),
    decreases a.len(),
{
    if a.len() > 0 && b.len() > 0 {
        if a[0] == b[0] {
            lemma_seq_lt_total(a.drop_first(), b.drop_first());
            if a.drop_first() == b.drop_first() {
                assert(a =~= seq![a[0]] + a.drop_first());
                assert(b =~= seq![b[0]] + b.drop_first());
            }
        } else {
        }
    } else if a.len() == 0 && b.len() == 0 {
        assert(a =~= b);
    }
}

/// Whether `a` sorts strictly before `b`, comparing characters.
pub fn str_less(a: &String, b: &String) -> (r: bool)
    ensures
        r == seq_lt(a@, b@),
{
    let x = chars_of(a.as_str());
    let y = chars_of(b.as_str());
    let mut i: usize = 0;
    assert(a@.skip(0) =~= a@);
    assert(b@.skip(0) =~= b@);
    while i < x.len() && i < y.len() && x[i] == y[i]
        invariant
            i <= x@.len(),
            i <= y@.len(),
            x@ == a@,
            y@ == b@,
            seq_lt(a@, b@) == seq_lt(a@.skip(i as int), b@.skip(i as int)),
        decreases x@.len() - i,
    {
        assert(a@.skip(i as int).drop_first() =~= a@.skip(i + 1));
        assert(b@.skip(i as int).drop_first() =~= b@.skip(i + 1));
        i = i + 1;
    }
    if i == y.len() {
        false
    } else if i == x.len() {
        true
    } else {
        x[i] < y[i]
    }
}

/// The character of a decimal digit.
pub open spec fn digit_char(d: int) -> char {
    ((d + 48) as u32) as char
}

pub open spec fn is_digit(c: char) -> bool {
    '0' <= c && c <= '9'
}

pub open spec fn digit_value(c: char) -> int {
    (c as u32) - 48
}

/// The decimal numeral of a natural number, without leading zeros.
pub open spec fn nat_numeral(n: nat) -> Seq<char>
    decreases n,
{
    if n < 10 {
        seq![digit_char(n as int)]
    } else {
        nat_numeral(n / 10).push(digit_char((n % 10) as int))
    }
}

/// The decimal numeral of an integer, with a leading `-` when negative.
pub open spec fn numeral(n: int) -> Seq<char> {
    if n < 0 {
        seq!['-'] + nat_numeral((-n) as nat)
    } else {
        nat_numeral(n as nat)
    }
}

fn push_nat_numeral(s: &mut String, n: u64)
    ensures
        final(s)@ == old(s)@ + nat_numeral(n as nat),
    decreases n,
{
    if n >= 10 {
        push_nat_numeral(s, n / 10);
    }
    let d: u64 = n % 10;
    let c: char = ((d as u8) + 48u8) as char;
    assert(c == digit_char(d as int)) by {
        assert((((d as u8) + 48u8) as char) == (((d + 48) as u32) as char));
    }
    push_char(s, c);
    assert(final(s)@ =~= old(s)@ + nat_numeral(n as nat));
}

/// The decimal numeral of `n`.
pub fn i64_numeral(n: i64) -> (r: String)
    ensures
        r@ == numeral(n as int),
{
    let mut r = String::new();
    if n < 0 {
        push_char(&mut r, '-');
        let m: u64 = ((-(n + 1)) as u64) + 1;
        push_nat_numeral(&mut r, m);
    } else {
        push_nat_numeral(&mut r, n as u64);
    }
    r
}


/// The value of a string of decimal digits.
pub open spec fn digits_value(s: Seq<char>) -> int
    decreases s.len(),
{
    if s.len() == 0 {
        0
    } else {
        digits_value(s.drop_last()) * 10 + digit_value(s.last())
    }
}

pub open spec fn all_digits(s: Seq<char>) -> bool {
    forall|i: int| 0 <= i < s.len() ==> is_digit(#[trigger] s[i])
}

/// The integer that a numeral denotes: an optional sign, then at least one digit.
pub open spec fn numeral_value(s: Seq<char>) -> Option<int> {
    if s.len() > 0 && (s[0] == '-' || s[0] == '+') {
        let body = s.skip(1);
        if body.len() > 0 && all_digits(body) {
            Some(if s[0] == '-' { -digits_value(body) } else { digits_value(body) })
        } else {
            None
        }
    } else if s.len() > 0 && all_digits(s) {
        Some(digits_value(s))
    } else {
        None
    }
}

/// The numeral's value, where it is one that fits in an `i64`.
pub open spec fn parsed_i64(s: Seq<char>) -> Option<i64> {
    match numeral_value(s) {
        Some(v) => if i64::MIN <= v <= i64::MAX {
            Some(v as i64)
        } else {
            None
        },
        None => None,
    }
}

/// The numeral's value, where it is one that fits in an `i32`.
pub open spec fn parsed_i32(s: Seq<char>) -> Option<i32> {
    match numeral_value(s) {
        Some(v) => if i32::MIN <= v <= i32::MAX {
            Some(v as i32)
        } else {
            None
        },
        None => None,
    }
}

proof fn lemma_digits_value_nonneg(s: Seq<char>)
    requires
        all_digits(s),
    ensures
        digits_value(s) >= 0,
    decreases s.len(),
{
    if s.len() > 0 {
        assert(all_digits(s.drop_last()));
        lemma_digits_value_nonneg(s.drop_last());
        assert(is_digit(s[s.len() - 1]));
    }
}

proof fn lemma_digits_value_grows(s: Seq<char>, k: int)
    requires
        all_digits(s),
        0 <= k <= s.len(),
    ensures
        digits_value(s) >= digits_value(s.subrange(0, k)),
    decreases s.len(),
{
    if k < s.len() {
        assert(all_digits(s.drop_last()));
        lemma_digits_value_grows(s.drop_last(), k);
        lemma_digits_value_nonneg(s.drop_last());
        assert(s.drop_last().subrange(0, k) =~= s.subrange(0, k));
        assert(is_digit(s[s.len() - 1]));
    } else {
        assert(s.subrange(0, k) =~= s);
    }
}

/// Reads a decimal numeral as an `i64`: an optional `+` or `-` and at least
/// one digit, nothing else; `None` where it is not one or does not fit.
pub fn parse_i64(s: &str) -> (r: Option<i64>)
    ensures
        r == parsed_i64(s@),
{
    let cs = chars_of(s);
    if cs.len() == 0 {
        return None;
    }
    let mut start: usize = 0;
    let mut neg = false;
    if cs[0] == '-' {
        neg = true;
        start = 1;
    } else if cs[0] == '+' {
        start = 1;
    }
    if start == cs.len() {
        return None;
    }
    let ghost body = cs@.subrange(start as int, cs@.len() as int);
    assert(start == 1 ==> body =~= s@.skip(1));
    assert(start == 0 ==> body =~= s@);
    let mut acc: u64 = 0;
    let mut i: usize = start;
    assert(cs@.subrange(start as int, i as int) =~= Seq::<char>::empty());
    while i < cs.len()
        invariant
            start <= i <= cs@.len(),
            cs@ == s@,
            body == cs@.subrange(start as int, cs@.len() as int),
            s@.len() > 0,
            start == 1 ==> body == s@.skip(1),
            start == 0 ==> body == s@,
            (start == 1) == (s@[0] == '-' || s@[0] == '+'),
            start <= 1,
            neg == (s@[0] == '-'),
            all_digits(cs@.subrange(start as int, i as int)),
            acc as int == digits_value(cs@.subrange(start as int, i as int)),
            acc <= 9223372036854775808u64,
        decreases cs@.len() - i,
    {
        let c = cs[i];
        let ghost pre = cs@.subrange(start as int, i as int);
        let ghost next = cs@.subrange(start as int, i + 1);
        assert(next.drop_last() =~= pre);
        assert(body.subrange(0, i - start) =~= pre);
        assert(body[i - start] == c);
        if !('0' <= c && c <= '9') {
            assert(!is_digit(body[i - start]));
            assert(!all_digits(body));
            return None;
        }
        let d: u64 = ((c as u32) - 48) as u64;
        if acc > (9223372036854775808u64 - d) / 10 {
            proof {
                let a = acc as int;
                let dd = d as int;
                assert(a * 10 + dd > 9223372036854775808) by (nonlinear_arith)
                    requires
                        a > (9223372036854775808 - dd) / 10,
                        0 <= dd <= 9,
                ;
                assert(digits_value(next) == a * 10 + dd);
                assert(all_digits(next));
                assert(body.subrange(0, i + 1 - start) =~= next);
                if all_digits(body) {
                    lemma_digits_value_grows(body, i + 1 - start);
                }
            }
            return None;
        }
        acc = acc * 10 + d;
        i = i + 1;
    }
    assert(cs@.subrange(start as int, i as int) =~= body);
    if neg {
        if acc == 9223372036854775808u64 {
            Some(i64::MIN)
        } else {
            Some(-(acc as i64))
        }
    } else if acc > 9223372036854775807u64 {
        None
    } else {
        Some(acc as i64)
    }
}

/// Reads a decimal numeral as an `i32`, with the grammar of [`parse_i64`].
pub fn parse_i32(s: &str) -> (r: Option<i32>)
    ensures
        r == parsed_i32(s@),
{
    match parse_i64(s) {
        Some(v) => if -2147483648 <= v && v <= 2147483647 {
            Some(v as i32)
        } else {
            None
        },
        None => {
            proof {
                if let Some(v) = numeral_value(s@) {
                    assert(!(i64::MIN <= v <= i64::MAX));
                }
            }
            None
        },
    }
}


proof fn lemma_nat_numeral(n: nat)
    ensures
        nat_numeral(n).len() >= 1,
        all_digits(nat_numeral(n)),
        digits_value(nat_numeral(n)) == n,
    decreases n,
{
    let d = (n % 10) as int;
    let c = digit_char(d);
    assert(c as u32 == d + 48) by {
        vstd::utf8::char_u32_cast(c, (d + 48) as u32);
    }
    if n >= 10 {
        lemma_nat_numeral(n / 10);
        let s = nat_numeral(n);
        assert(s.drop_last() == nat_numeral(n / 10));
        assert(s.last() == c);
        assert(digit_value(c) == d);
        assert(digits_value(s) == digits_value(s.drop_last()) * 10 + digit_value(c));
        assert((n / 10) * 10 + d == n) by (nonlinear_arith)
            requires
                d == n % 10,
        ;
        assert forall|i: int| 0 <= i < s.len() implies is_digit(#[trigger] s[i]) by {
            if i < s.len() - 1 {
                assert(s[i] == nat_numeral(n / 10)[i]);
            }
        }
    } else {
        assert(nat_numeral(n).drop_last() =~= Seq::<char>::empty());
        assert(nat_numeral(n).last() == c);
        assert(d == n);
        assert(digits_value(nat_numeral(n).drop_last()) == 0);
        assert(digits_value(nat_numeral(n)) == digits_value(nat_numeral(n).drop_last()) * 10
            + digit_value(c));
    }
}

/// A numeral reads back as the integer it was written from, and holds no colon.
pub proof fn lemma_numeral_round_trip(v: i64)
    ensures
        parsed_i64(numeral(v as int)) == Some(v),
        !numeral(v as int).contains(':'),
{
    if v < 0 {
        let m = (-(v as int)) as nat;
        lemma_nat_numeral(m);
        let s = numeral(v as int);
        assert(s.skip(1) =~= nat_numeral(m));
        assert forall|i: int| 0 <= i < s.len() implies s[i] != ':' by {
            if i > 0 {
                assert(s[i] == nat_numeral(m)[i - 1]);
                assert(is_digit(nat_numeral(m)[i - 1]));
            }
        }
    } else {
        lemma_nat_numeral(v as nat);
        let s = numeral(v as int);
        assert(is_digit(s[0]));
        assert forall|i: int| 0 <= i < s.len() implies s[i] != ':' by {
            assert(is_digit(s[i]));
        }
    }
}

} // verus!
