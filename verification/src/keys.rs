//! Idempotency keys: one key for one decision in one decision window.
use crate::json::{json_text, printed, Json, JsonView};
use crate::text::{signed_decimal, signed_number_text};
use vstd::prelude::*;
use vstd::utf8::encode_utf8;

verus! {

/// The SHA-256 digest of some bytes.
pub uninterp spec fn sha256_of(bytes: Seq<u8>) -> Seq<u8>;

/// `Sha256` of `sha2`: the digest of the bytes, which has 32 bytes.
#[verifier::external_body]
fn sha256(bytes: &[u8]) -> (digest: Vec<u8>)
    ensures
        digest@ == sha256_of(bytes@),
        digest@.len() == 32,
{
    <sha2::Sha256 as sha2::Digest>::digest(bytes).to_vec()
}

/// The lower-case hexadecimal digit `d`.
pub open spec fn hex_digit(d: int) -> char {
    if d < 10 {
        ('0' as int + d) as char
    } else {
        ('a' as int + d - 10) as char
    }
}

/// Two lower-case hexadecimal digits for each byte, the higher first.
pub open spec fn hex_of(bytes: Seq<u8>) -> Seq<char>
    decreases bytes.len(),
{
    if bytes.len() == 0 {
        Seq::empty()
    } else {
        let last = bytes.last() as int;
        hex_of(bytes.drop_last()).push(hex_digit(last / 16)).push(hex_digit(last % 16))
    }
}

/// `hex::encode`: two lower-case hexadecimal digits for each byte.
#[verifier::external_body]
fn hex_text(bytes: &Vec<u8>) -> (text: String)
    ensures
        text@ == hex_of(bytes@),
{
    hex::encode(bytes)
}

proof fn lemma_hex_len(bytes: Seq<u8>)
    ensures
        hex_of(bytes).len() == 2 * bytes.len(),
    decreases bytes.len(),
{
    if bytes.len() > 0 {
        lemma_hex_len(bytes.drop_last());
    }
}

/// What is hashed for a decision: its parts in order, with a bar between any
/// two.
pub open spec fn key_input(
    tenant_id: Seq<char>,
    workload_id: Seq<char>,
    action_type: Seq<char>,
    payload: JsonView,
    window_start: int,
) -> Seq<char> {
    tenant_id + seq!['|'] + workload_id + seq!['|'] + action_type + seq!['|'] + printed(payload)
        + seq!['|'] + signed_decimal(window_start)
}

/// The idempotency key of a decision.
pub open spec fn key_of(
    tenant_id: Seq<char>,
    workload_id: Seq<char>,
    action_type: Seq<char>,
    payload: JsonView,
    window_start: int,
) -> Seq<char> {
    hex_of(
        sha256_of(encode_utf8(key_input(tenant_id, workload_id, action_type, payload, window_start))),
    )
}

/// The idempotency key of a decision: the hexadecimal SHA-256 digest of its
/// parts. It depends on what the payload holds, not on the order in which its
/// members are written.
pub fn deterministic_idempotency_key(
    tenant_id: &str,
    workload_id: &str,
    action_type: &str,
    payload: &Json,
    decision_window_start: i64,
) -> (key: String)
    ensures
        key@ == key_of(
            tenant_id@,
            workload_id@,
            action_type@,
            payload@,
            decision_window_start as int,
        ),
        key@.len() == 64,
{
    let mut input = tenant_id.to_owned();
    input.push('|');
    input.append(workload_id);
    input.push('|');
    input.append(action_type);
    input.push('|');
    input.append(json_text(payload).as_str());
    input.push('|');
    input.append(signed_number_text(decision_window_start).as_str());
    proof {
        assert(input@ =~= key_input(
            tenant_id@,
            workload_id@,
            action_type@,
            payload@,
            decision_window_start as int,
        ));
    }
    let bytes: Vec<u8> = input.as_str().as_bytes_vec();
    let digest: Vec<u8> = sha256(bytes.as_slice());
    proof {
        lemma_hex_len(digest@);
    }
    hex_text(&digest)
}

/// Two payloads that hold the same give one key, whatever the order in which
/// their members are written.
pub proof fn equal_payloads_give_one_key(
    tenant_id: Seq<char>,
    workload_id: Seq<char>,
    action_type: Seq<char>,
    xs: Vec<(String, Json)>,
    ys: Vec<(String, Json)>,
    window_start: int,
)
    requires
        forall|i: int, j: int|
            0 <= i < j < xs@.len() ==> (#[trigger] xs@[i]).0@ != (#[trigger] xs@[j]).0@,
        forall|i: int, j: int|
            0 <= i < j < ys@.len() ==> (#[trigger] ys@[i]).0@ != (#[trigger] ys@[j]).0@,
        crate::json::member_views(xs@).to_set() == crate::json::member_views(ys@).to_set(),
    ensures
        key_of(tenant_id, workload_id, action_type, Json::Object(xs)@, window_start) == key_of(
            tenant_id,
            workload_id,
            action_type,
            Json::Object(ys)@,
            window_start,
        ),
{
    crate::json::member_order_is_immaterial(xs, ys);
}

// ---------------------------------------------------------------------------
// Decision windows
// ---------------------------------------------------------------------------

/// The start of the decision window that holds `now`: the multiple of the
/// window's length nearest to `now` on the side of zero.
pub open spec fn window_start_of(now: int, window_seconds: int) -> int {
    if now >= 0 {
        now - now % window_seconds
    } else {
        now + (-now) % window_seconds
    }
}

/// The start of the decision window that holds `now`.
pub fn decision_window_start(now: i64, window_seconds: i64) -> (start: i64)
    requires
        window_seconds != 0,
        !(now == i64::MIN && window_seconds == -1),
    ensures
        start as int == window_start_of(now as int, window_seconds as int),
{
    let length: i128 = window_seconds as i128;
    let size: i128 = if length < 0 {
        -length
    } else {
        length
    };
    let distance: i128 = if now < 0 {
        -(now as i128)
    } else {
        now as i128
    };
    let rest: i128 = distance % size;
    proof {
        lemma_rest(distance as int, window_seconds as int);
        assert(rest == (distance as int) % (size as int));
        assert(0 <= rest <= distance) by (nonlinear_arith)
            requires
                rest == (distance as int) % (size as int),
                size > 0,
                distance >= 0,
        ;
    }
    if now < 0 {
        (now as i128 + rest) as i64
    } else {
        (now as i128 - rest) as i64
    }
}

/// The remainder does not depend on the sign of the divisor.
proof fn lemma_rest(a: int, d: int)
    requires
        d != 0,
    ensures
        d < 0 ==> a % d == a % (-d),
{
    if d < 0 {
        assert(a % d == a % (-d)) by (nonlinear_arith)
            requires
                d < 0,
        ;
    }
}

/// Two moments of one window have one window start, at or before both of
/// them.
pub proof fn one_window_has_one_start(a: int, b: int, window_seconds: int)
    requires
        window_seconds > 0,
        0 <= a,
        a / window_seconds == b / window_seconds,
    ensures
        window_start_of(a, window_seconds) == window_start_of(b, window_seconds),
        window_start_of(a, window_seconds) <= a < window_start_of(a, window_seconds)
            + window_seconds,
        window_start_of(a, window_seconds) % window_seconds == 0,
{
    assert(b >= 0) by (nonlinear_arith)
        requires
            window_seconds > 0,
            0 <= a,
            a / window_seconds == b / window_seconds,
    ;
    vstd::arithmetic::div_mod::lemma_fundamental_div_mod(a, window_seconds);
    vstd::arithmetic::div_mod::lemma_fundamental_div_mod(b, window_seconds);
    vstd::arithmetic::div_mod::lemma_mod_multiples_basic(a / window_seconds, window_seconds);
    assert(window_start_of(a, window_seconds) == (a / window_seconds) * window_seconds)
        by (nonlinear_arith)
        requires
            0 <= a,
            a == window_seconds * (a / window_seconds) + a % window_seconds,
            window_start_of(a, window_seconds) == a - a % window_seconds,
    ;
    assert(window_start_of(b, window_seconds) == (b / window_seconds) * window_seconds)
        by (nonlinear_arith)
        requires
            0 <= b,
            b == window_seconds * (b / window_seconds) + b % window_seconds,
            window_start_of(b, window_seconds) == b - b % window_seconds,
    ;
}

/// A digest is written with two digits for each byte, in order: the first for
/// its sixteens, the second for its ones, with small letters from ten on.
pub proof fn hex_digits_stand_for_bytes(bytes: Seq<u8>, i: int)
    requires
        0 <= i < bytes.len(),
    ensures
        hex_of(bytes).len() == 2 * bytes.len(),
        hex_of(bytes)[2 * i] == "0123456789abcdef"@[bytes[i] as int / 16],
        hex_of(bytes)[2 * i + 1] == "0123456789abcdef"@[bytes[i] as int % 16],
    decreases bytes.len(),
{
    reveal_strlit("0123456789abcdef");
    lemma_hex_len(bytes);
    lemma_hex_len(bytes.drop_last());
    if i < bytes.len() - 1 {
        hex_digits_stand_for_bytes(bytes.drop_last(), i);
    }
}

/// What is hashed for a decision is its tenant, its workload, the type of the
/// action, the payload's text and the window's start, each in full and in this
/// order, with a bar between any two.
pub proof fn key_covers_the_decision(
    tenant_id: Seq<char>,
    workload_id: Seq<char>,
    action_type: Seq<char>,
    payload: JsonView,
    window_start: int,
)
    ensures
        key_of(tenant_id, workload_id, action_type, payload, window_start) == hex_of(
            sha256_of(
                encode_utf8(
                    tenant_id + seq!['|'] + workload_id + seq!['|'] + action_type + seq!['|']
                        + printed(payload) + seq!['|'] + signed_decimal(window_start),
                ),
            ),
        ),
{
}

/// A window's start is a multiple of the window's length, less than one length
/// from the moment, and between it and zero.
pub proof fn window_starts_before_the_moment(now: int, window_seconds: int)
    requires
        window_seconds > 0,
    ensures
        window_start_of(now, window_seconds) % window_seconds == 0,
        now >= 0 ==> 0 <= window_start_of(now, window_seconds) <= now
            < window_start_of(now, window_seconds) + window_seconds,
        now < 0 ==> window_start_of(now, window_seconds) - window_seconds < now
            <= window_start_of(now, window_seconds) <= 0,
{
    let size = if now >= 0 {
        now
    } else {
        -now
    };
    vstd::arithmetic::div_mod::lemma_fundamental_div_mod(size, window_seconds);
    vstd::arithmetic::div_mod::lemma_mod_bound(size, window_seconds);
    let q = size / window_seconds;
    vstd::arithmetic::div_mod::lemma_mod_multiples_basic(q, window_seconds);
    vstd::arithmetic::div_mod::lemma_mod_multiples_basic(-q, window_seconds);
    assert(q >= 0) by (nonlinear_arith)
        requires
            size >= 0,
            window_seconds > 0,
            q == size / window_seconds,
    ;
    assert(q * window_seconds >= 0) by (nonlinear_arith)
        requires
            q >= 0,
            window_seconds > 0,
    ;
    assert(window_seconds * q == q * window_seconds) by (nonlinear_arith);
    assert((-q) * window_seconds == -(q * window_seconds)) by (nonlinear_arith);
}

} // verus!
