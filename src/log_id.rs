//! Content-addressed identities of log rows: a SHA-256 digest over the row's
//! defining fields, written as lowercase hexadecimal.

use sha2::Digest;
use vstd::prelude::*;
use vstd::utf8::encode_utf8;

verus! {

/// The SHA-256 digest of a byte string.
pub uninterp spec fn sha256_of(data: Seq<u8>) -> Seq<u8>;

/// Relies on `sha2::Sha256::digest`: the 32-byte SHA-256 digest of `data`.
#[verifier::external_body]
fn sha256(data: &[u8]) -> (r: Vec<u8>)
    ensures
        r@ == sha256_of(data@),
        r@.len() == 32,
{
    sha2::Sha256::digest(data).to_vec()
}

/// The lowercase hexadecimal digit for `n` in `0..16`.
pub open spec fn hex_digit(n: int) -> char {
    if n < 10 {
        ((n + 48) as u32) as char
    } else {
        ((n + 87) as u32) as char
    }
}

/// Two lowercase hexadecimal digits per byte, high half first.
pub open spec fn hex_of(b: Seq<u8>) -> Seq<char>
    decreases b.len(),
{
    if b.len() == 0 {
        Seq::empty()
    } else {
        hex_of(b.drop_last()) + seq![hex_digit(b.last() as int / 16), hex_digit(b.last() as int % 16)]
    }
}

/// Whether `c` is a lowercase hexadecimal digit.
pub open spec fn is_lower_hex(c: char) -> bool {
    ('0' <= c && c <= '9') || ('a' <= c && c <= 'f')
}

pub proof fn lemma_hex_shape(b: Seq<u8>)
    ensures
        hex_of(b).len() == 2 * b.len(),
        forall|i: int| 0 <= i < hex_of(b).len() ==> is_lower_hex(#[trigger] hex_of(b)[i]),
    decreases b.len(),
{
    if b.len() > 0 {
        lemma_hex_shape(b.drop_last());
        let h = hex_of(b);
        let p = hex_of(b.drop_last());
        let hi = b.last() as int / 16;
        let lo = b.last() as int % 16;
        assert(is_lower_hex(hex_digit(hi))) by {
            vstd::utf8::char_u32_cast(hex_digit(hi), (if hi < 10 { hi + 48 } else { hi + 87 }) as u32);
        }
        assert(is_lower_hex(hex_digit(lo))) by {
            vstd::utf8::char_u32_cast(hex_digit(lo), (if lo < 10 { lo + 48 } else { lo + 87 }) as u32);
        }
        assert forall|i: int| 0 <= i < h.len() implies is_lower_hex(#[trigger] h[i]) by {
            if i < p.len() {
                assert(h[i] == p[i]);
            }
        }
    }
}

/// Relies on `hex::encode`: two lowercase hexadecimal digits per byte, high half first.
#[verifier::external_body]
fn hex_encode(b: &[u8]) -> (r: String)
    ensures
        r@ == hex_of(b@),
{
    hex::encode(b)
}

/// The eight bytes of `v` in little-endian order.
pub open spec fn le_bytes(v: i64) -> Seq<u8> {
    Seq::new(8, |k: int| (((v as u64) >> ((8 * k) as u64)) & 0xffu64) as u8)
}

/// The UTF-8 bytes of an optional field; an absent field contributes nothing.
pub open spec fn opt_bytes(o: Option<Seq<char>>) -> Seq<u8> {
    match o {
        Some(s) => encode_utf8(s),
        None => Seq::empty(),
    }
}

/// The bytes that the identity digests: the timestamp, then each present field in order.
pub open spec fn id_preimage(
    ts: i64,
    deployment: Seq<char>,
    request_id: Option<Seq<char>>,
    function_path: Option<Seq<char>>,
    level: Option<Seq<char>>,
    message: Seq<char>,
) -> Seq<u8> {
    le_bytes(ts) + encode_utf8(deployment) + opt_bytes(request_id) + opt_bytes(function_path)
        + opt_bytes(level) + encode_utf8(message)
}

/// The identity of a log row with these defining fields.
pub open spec fn log_id(
    ts: i64,
    deployment: Seq<char>,
    request_id: Option<Seq<char>>,
    function_path: Option<Seq<char>>,
    level: Option<Seq<char>>,
    message: Seq<char>,
) -> Seq<char> {
    hex_of(sha256_of(id_preimage(ts, deployment, request_id, function_path, level, message)))
}

/// The view of an optional string slice.
pub open spec fn opt_str_view(o: Option<&str>) -> Option<Seq<char>> {
    match o {
        Some(s) => Some(s@),
        None => None,
    }
}

fn push_bytes(out: &mut Vec<u8>, b: &[u8])
    ensures
        final(out)@ == old(out)@ + b@,
{
    let mut i: usize = 0;
    while i < b.len()
        invariant
            i <= b@.len(),
            out@ == old(out)@ + b@.subrange(0, i as int),
        decreases b@.len() - i,
    {
        out.push(b[i]);
        i = i + 1;
        assert(out@ =~= old(out)@ + b@.subrange(0, i as int));
    }
    assert(b@.subrange(0, i as int) =~= b@);
}

fn push_opt_str(out: &mut Vec<u8>, o: Option<&str>)
    ensures
        final(out)@ == old(out)@ + opt_bytes(opt_str_view(o)),
{
    match o {
        Some(s) => push_bytes(out, s.as_bytes()),
        None => {
            assert(old(out)@ + Seq::<u8>::empty() =~= old(out)@);
        },
    }
}

/// Computes the identity of a log row: the SHA-256 digest of the timestamp's
/// little-endian bytes followed by the UTF-8 bytes of the deployment, the
/// present optional fields and the message, in lowercase hexadecimal.
pub fn compute_log_id(
    ts: i64,
    deployment: &str,
    request_id: Option<&str>,
    function_path: Option<&str>,
    level: Option<&str>,
    message: &str,
) -> (r: String)
    ensures
        r@ == log_id(
            ts,
            deployment@,
            opt_str_view(request_id),
            opt_str_view(function_path),
            opt_str_view(level),
            message@,
        ),
        r@.len() == 64,
        forall|i: int| 0 <= i < r@.len() ==> is_lower_hex(#[trigger] r@[i]),
{
    let mut data: Vec<u8> = Vec::new();
    let t: u64 = ts as u64;
    let mut k: u64 = 0;
    while k < 8
        invariant
            k <= 8,
            t == ts as u64,
            data@ == le_bytes(ts).subrange(0, k as int),
        decreases 8 - k,
    {
        data.push(((t >> (8 * k)) & 0xffu64) as u8);
        k = k + 1;
        assert(data@ =~= le_bytes(ts).subrange(0, k as int));
    }
    assert(data@ =~= le_bytes(ts));
    push_bytes(&mut data, deployment.as_bytes());
    push_opt_str(&mut data, request_id);
    push_opt_str(&mut data, function_path);
    push_opt_str(&mut data, level);
    push_bytes(&mut data, message.as_bytes());
    let digest = sha256(data.as_slice());
    proof {
        lemma_hex_shape(digest@);
    }
    hex_encode(digest.as_slice())
}


/// The identity is a function of the defining fields: equal fields give equal ids.
pub proof fn lemma_log_id_deterministic(
    ts: i64,
    deployment: Seq<char>,
    request_id: Option<Seq<char>>,
    function_path: Option<Seq<char>>,
    level: Option<Seq<char>>,
    message: Seq<char>,
    ts2: i64,
    deployment2: Seq<char>,
    request_id2: Option<Seq<char>>,
    function_path2: Option<Seq<char>>,
    level2: Option<Seq<char>>,
    message2: Seq<char>,
)
    requires
        ts == ts2,
        deployment == deployment2,
        request_id == request_id2,
        function_path == function_path2,
        level == level2,
        message == message2,
    ensures
        log_id(ts, deployment, request_id, function_path, level, message) == log_id(
            ts2,
            deployment2,
            request_id2,
            function_path2,
            level2,
            message2,
        ),
{
}

/// Two rows that differ only in their message have different digested bytes,
/// so their ids differ unless the two byte strings collide under SHA-256.
pub proof fn lemma_message_changes_preimage(
    ts: i64,
    deployment: Seq<char>,
    request_id: Option<Seq<char>>,
    function_path: Option<Seq<char>>,
    level: Option<Seq<char>>,
    message: Seq<char>,
    other_message: Seq<char>,
)
    requires
        message != other_message,
    ensures
        id_preimage(ts, deployment, request_id, function_path, level, message) != id_preimage(
            ts,
            deployment,
            request_id,
            function_path,
            level,
            other_message,
        ),
{
    let prefix = le_bytes(ts) + encode_utf8(deployment) + opt_bytes(request_id) + opt_bytes(
        function_path,
    ) + opt_bytes(level);
    let a = id_preimage(ts, deployment, request_id, function_path, level, message);
    let b = id_preimage(ts, deployment, request_id, function_path, level, other_message);
    if a == b {
        assert(a.skip(prefix.len() as int) =~= encode_utf8(message));
        assert(b.skip(prefix.len() as int) =~= encode_utf8(other_message));
        vstd::utf8::encode_utf8_decode_utf8(message);
        vstd::utf8::encode_utf8_decode_utf8(other_message);
    }
}

} // verus!
