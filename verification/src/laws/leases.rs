//! Signed scopes.

use vstd::prelude::*;
use vstd::utf8::*;
use crate::chars::{decimal, occurs, occurs_at, signed_decimal};
use crate::foreign::{base64url, from_base64url, hmac_sha256};
use crate::lease::{
    before_dot, decodes, issued, judged, moment, new_key, open, opened, payload_part, signature,
    tag_part, LeaseError, Scope, TAG_BYTES,
};
use crate::scope_text::{lemma_written, read_written};
use crate::uia::{fresh_scope, generation, WindowInfo};

verus! {

/// What was signed comes back: a token issued for a scope decodes to that scope
/// under the same key until it runs out, whatever reader is at hand.
pub proof fn law_a_scope_survives_the_round_trip(
    token: Seq<char>,
    scope: Scope,
    key: Seq<u8>,
    now: u64,
    read: spec_fn(Seq<u8>) -> Option<Scope>,
    r: Result<Scope, LeaseError>,
)
    requires
        issued(token, scope, key),
        now <= scope.exp,
        decodes(token, key, now, read, r),
    ensures
        r == Ok::<Scope, LeaseError>(scope),
{
    lemma_written(scope);
    assert(opened(token, key) == Ok::<Seq<u8>, LeaseError>(scope.payload()));
}

/// A scope that has run out is refused, and the refusal says how long ago.
pub proof fn law_an_expired_scope_is_refused(
    token: Seq<char>,
    scope: Scope,
    key: Seq<u8>,
    now: u64,
    read: spec_fn(Seq<u8>) -> Option<Scope>,
    r: Result<Scope, LeaseError>,
)
    requires
        issued(token, scope, key),
        now > scope.exp,
        decodes(token, key, now, read, r),
    ensures
        r == Err::<Scope, LeaseError>(
            LeaseError::Expired { ago: (now - scope.exp) as u64 },
        ),
{
    lemma_written(scope);
    assert(opened(token, key) == Ok::<Seq<u8>, LeaseError>(scope.payload()));
}

/// Under a key that signs differently a token is refused, whatever a reader
/// would make of it and whatever the time.
pub proof fn law_another_key_is_refused(
    token: Seq<char>,
    scope: Scope,
    key: Seq<u8>,
    other: Seq<u8>,
    now: u64,
    read: spec_fn(Seq<u8>) -> Option<Scope>,
    r: Result<Scope, LeaseError>,
)
    requires
        issued(token, scope, key),
        signature(other, scope.payload()) != signature(key, scope.payload()),
        decodes(token, other, now, read, r),
    ensures
        r == Err::<Scope, LeaseError>(LeaseError::SignatureInvalid),
{
    assert(opened(token, other) == Err::<Seq<u8>, LeaseError>(LeaseError::SignatureInvalid));
}

/// Nothing decodes without a signature: whatever token is accepted carries, in
/// its part after the dot, the signature that the key gives to the part before
/// it.
pub proof fn law_what_is_accepted_was_signed(
    token: Seq<char>,
    key: Seq<u8>,
    now: u64,
    read: spec_fn(Seq<u8>) -> Option<Scope>,
    r: Result<Scope, LeaseError>,
)
    requires
        decodes(token, key, now, read, r),
        r is Ok,
    ensures
        ({
            let data = from_base64url(payload_part(token));
            let tag = from_base64url(tag_part(token));
            data is Some && tag == Some(signature(key, data->0))
        }),
{
}

/// A token with its tag changed is refused: keep the part before the dot of an
/// issued token, put any text after it that stands for other bytes or for none,
/// and it does not decode.
pub proof fn law_a_changed_tag_is_refused(
    token: Seq<char>,
    scope: Scope,
    key: Seq<u8>,
    changed: Seq<char>,
    now: u64,
    read: spec_fn(Seq<u8>) -> Option<Scope>,
    r: Result<Scope, LeaseError>,
)
    requires
        issued(token, scope, key),
        payload_part(changed) == payload_part(token),
        from_base64url(tag_part(changed)) != from_base64url(tag_part(token)),
        decodes(changed, key, now, read, r),
    ensures
        r matches Err(e) && (e is Malformed || e is MalformedSignature || e is SignatureInvalid),
{
    assert(opened(token, key) == Ok::<Seq<u8>, LeaseError>(scope.payload()));
}

/// A token with its payload changed is refused: keep the part after the dot of
/// an issued token, put any text before it that stands for other bytes or for
/// none, and it does not decode, unless the key gives those bytes the very
/// signature that it gave the scope.
pub proof fn law_a_changed_payload_is_refused(
    token: Seq<char>,
    scope: Scope,
    key: Seq<u8>,
    changed: Seq<char>,
    now: u64,
    read: spec_fn(Seq<u8>) -> Option<Scope>,
    r: Result<Scope, LeaseError>,
)
    requires
        issued(token, scope, key),
        before_dot(changed) < changed.len(),
        tag_part(changed) == tag_part(token),
        match from_base64url(payload_part(changed)) {
            Some(data) => signature(key, data) != signature(key, scope.payload()),
            None => true,
        },
        decodes(changed, key, now, read, r),
    ensures
        r matches Err(e) && (e is MalformedPayload || e is SignatureInvalid),
{
    assert(opened(token, key) == Ok::<Seq<u8>, LeaseError>(scope.payload()));
}

/// A piece of the code is no signature: a token whose tag is shorter or longer
/// than 128 bits is refused, even where the key's code begins with that tag.
pub proof fn law_a_tag_of_another_length_is_refused(
    token: Seq<char>,
    key: Seq<u8>,
    now: u64,
    read: spec_fn(Seq<u8>) -> Option<Scope>,
    r: Result<Scope, LeaseError>,
)
    requires
        from_base64url(tag_part(token)) matches Some(tag) && tag.len() != TAG_BYTES,
        decodes(token, key, now, read, r),
    ensures
        r is Err,
{
}

/// A refusal says what is wrong: a signature that does not pass is called one,
/// and a scope that has run out is called expired.
pub proof fn law_a_refusal_names_its_reason(ago: u64)
    ensures
        occurs(LeaseError::SignatureInvalid.text(), "signature"@),
        occurs((LeaseError::Expired { ago }).text(), "expired"@),
{
    reveal_strlit("signature");
    reveal_strlit("lease signature invalid");
    reveal_strlit("expired");
    reveal_strlit("lease expired ");
    let invalid = LeaseError::SignatureInvalid.text();
    let expired = (LeaseError::Expired { ago }).text();
    assert(invalid.subrange(6, 15) =~= "signature"@);
    assert(occurs_at(invalid, "signature"@, 6));
    assert(expired.subrange(6, 13) =~= "expired"@);
    assert(occurs_at(expired, "expired"@, 6));
}

/// The signature of a token is 128 bits long: its part after the dot stands for
/// just so many.
pub proof fn law_the_signature_has_128_bits(token: Seq<char>, scope: Scope, key: Seq<u8>)
    requires
        issued(token, scope, key),
    ensures
        from_base64url(tag_part(token)) == Some(signature(key, scope.payload())),
        signature(key, scope.payload()).len() == TAG_BYTES,
        TAG_BYTES * 8 == 128,
{
    assert(opened(token, key) == Ok::<Seq<u8>, LeaseError>(scope.payload()));
}

/// What is signed names one scope: no two scopes are signed as the same bytes.
pub proof fn law_a_payload_names_one_scope(a: Scope, b: Scope)
    requires
        a.payload() == b.payload(),
    ensures
        a == b,
{
    lemma_written(a);
    lemma_written(b);
}

/// A scope that is accepted has not run out.
pub proof fn law_what_is_accepted_has_not_run_out(read: Result<Scope, String>, now: u64)
    requires
        judged(read, now) is Ok,
    ensures
        read is Ok,
        judged(read, now) == Ok::<Scope, LeaseError>(read->Ok_0),
        now <= read->Ok_0.exp,
{
}

// What is written on a token

/// A token is the base64url text of the scope as JSON, a dot, and the base64url
/// text of the first 16 bytes of the HMAC-SHA-256 of that JSON under the key.
/// Signing does not fail.
pub proof fn law_a_token_is_the_scope_and_its_signature(
    scope: Scope,
    key: &[u8],
    r: Result<String, LeaseError>,
)
    requires
        call_ensures(Scope::encode, (&scope, key), r),
    ensures
        r matches Ok(token) && token@ == base64url(encode_utf8(scope.json())).push('.') + base64url(
            hmac_sha256(key@, encode_utf8(scope.json())).take(16),
        ) && issued(token@, scope, key@),
{
}

/// The JSON of a scope is an object with the handle, the generation and the last
/// second, in this order, as `h`, `g` and `e`.
pub proof fn law_the_json_of_a_scope(scope: Scope, r: String)
    requires
        call_ensures(Scope::to_json, (&scope,), r),
    ensures
        r@ == "{\"h\":"@ + signed_decimal(scope.hwnd as int) + ",\"g\":"@ + decimal(
            scope.generation as nat,
        ) + ",\"e\":"@ + decimal(scope.exp as nat) + "}"@,
{
}

/// A token that was issued opens to its scope under its key up to and with its
/// last second, and is refused from the next one on.
pub proof fn law_a_token_is_good_to_its_last_second<F: Fn(&[u8]) -> Result<Scope, String>>(
    token: &str,
    scope: Scope,
    key: &[u8],
    now: u64,
    read: F,
    r: Result<Scope, LeaseError>,
)
    requires
        issued(token@, scope, key@),
        call_ensures(Scope::decode_at::<F>, (token, key, now, read), r),
    ensures
        now <= scope.exp ==> r == Ok::<Scope, LeaseError>(scope),
        now > scope.exp ==> (r matches Err(LeaseError::Expired { ago }) && ago == now - scope.exp),
{
    lemma_written(scope);
    assert(opened(token@, key@) == Ok::<Seq<u8>, LeaseError>(scope.payload()));
}

/// By the clock, a token that was issued opens to its scope or has expired, and
/// nothing else becomes of it.
pub proof fn law_a_token_opens_or_has_expired<F: Fn(&[u8]) -> Result<Scope, String>>(
    token: &str,
    scope: Scope,
    key: &[u8],
    read: F,
    r: Result<Scope, LeaseError>,
)
    requires
        issued(token@, scope, key@),
        call_ensures(Scope::decode::<F>, (token, key, read), r),
    ensures
        r == Ok::<Scope, LeaseError>(scope) || r matches Err(LeaseError::Expired { .. }),
        scope.exp == u64::MAX ==> r == Ok::<Scope, LeaseError>(scope),
{
    lemma_written(scope);
    assert(opened(token@, key@) == Ok::<Seq<u8>, LeaseError>(scope.payload()));
}

/// A scope has run out exactly after its last second, and a clock before the
/// epoch counts as the epoch.
pub proof fn law_a_scope_runs_out_after_its_last_second(
    scope: Scope,
    now: u64,
    out: bool,
    reading: Option<u64>,
    at: u64,
)
    requires
        call_ensures(Scope::expired_at, (&scope, now), out),
        call_ensures(moment, (reading,), at),
    ensures
        out <==> now > scope.exp,
        reading is None ==> at == 0,
        forall|s: u64| reading == Some(s) ==> at == s,
{
}

/// A scope is read back from the bytes it is signed as, and from no others.
pub proof fn law_a_scope_is_read_back_from_its_bytes(data: &[u8], r: Option<Scope>, scope: Scope)
    requires
        call_ensures(read_written, (data,), r),
    ensures
        r == Some(scope) <==> data@ == encode_utf8(scope.json()),
{
    lemma_written(scope);
    if r == Some(scope) {
        assert(exists|s: Scope| data@ == #[trigger] s.payload());
    }
}

/// A fresh key has 32 bytes.
pub proof fn law_a_fresh_key_has_32_bytes(r: Result<Vec<u8>, LeaseError>)
    requires
        call_ensures(new_key, (), r),
    ensures
        r matches Ok(key) ==> key@.len() == 32,
        r matches Err(e) ==> e is NoRandomness,
{
}

/// The scope of a window is signed for that window as it stands, for so many
/// seconds.
pub proof fn law_a_fresh_scope_is_for_the_window(
    w: WindowInfo,
    now: u64,
    ttl: u64,
    key: &[u8],
    r: Option<String>,
)
    requires
        now + ttl <= u64::MAX,
        call_ensures(fresh_scope, (&w, now, ttl, key), r),
    ensures
        r matches Some(token) && issued(
            token@,
            (Scope { hwnd: w.hwnd, generation: generation(w@), exp: (now + ttl) as u64 }),
            key@,
        ),
{
}

/// A token is opened part by part: without a dot it is malformed; the part before
/// the first dot and the part after it have to be base64url; and the second has
/// to stand for the first 16 bytes of the code that the key gives to what the
/// first stands for. What comes out is that.
pub proof fn law_a_token_is_opened_part_by_part(
    token: &str,
    key: &[u8],
    r: Result<Vec<u8>, LeaseError>,
    head: Seq<char>,
    tail: Seq<char>,
)
    requires
        call_ensures(open, (token, key), r),
        forall|i: int| 0 <= i < head.len() ==> #[trigger] head[i] != '.',
    ensures
        token@ == head ==> r == Err::<Vec<u8>, LeaseError>(LeaseError::Malformed),
        token@ == head.push('.') + tail ==> match (from_base64url(head), from_base64url(tail)) {
            (None, _) => r == Err::<Vec<u8>, LeaseError>(LeaseError::MalformedPayload),
            (Some(_), None) => r == Err::<Vec<u8>, LeaseError>(LeaseError::MalformedSignature),
            (Some(data), Some(tag)) => if tag.len() == 16 && tag == hmac_sha256(key@, data).take(
                16,
            ) {
                r matches Ok(out) && out@ == data
            } else {
                r == Err::<Vec<u8>, LeaseError>(LeaseError::SignatureInvalid)
            },
        },
{
    let t = token@;
    if t == head {
        lemma_dot(head, seq![]);
        assert(head + Seq::<char>::empty() =~= head);
    }
    if t == head.push('.') + tail {
        let rest = seq!['.'] + tail;
        assert(t =~= head + rest);
        lemma_dot(head, rest);
        assert(t.take(head.len() as int) =~= head);
        assert(t.skip(head.len() as int + 1) =~= tail);
    }
}

proof fn lemma_dot(head: Seq<char>, rest: Seq<char>)
    requires
        forall|i: int| 0 <= i < head.len() ==> #[trigger] head[i] != '.',
        rest.len() > 0 ==> rest[0] == '.',
    ensures
        before_dot(head + rest) == head.len(),
    decreases head.len(),
{
    let all = head + rest;
    if head.len() == 0 {
        assert(all =~= rest);
    } else {
        let less = head.drop_first();
        assert forall|i: int| 0 <= i < less.len() implies #[trigger] less[i] != '.' by {
            assert(less[i] == head[i + 1]);
        }
        lemma_dot(less, rest);
        assert(all.drop_first() =~= less + rest);
        assert(all.first() == head[0]);
    }
}

/// A scope that was read is good up to its last second, and what could not be read
/// is refused for the reason given.
pub proof fn law_a_scope_is_judged_by_its_last_second(
    read: Result<Scope, String>,
    now: u64,
    r: Result<Scope, LeaseError>,
)
    requires
        call_ensures(Scope::judge, (read, now), r),
    ensures
        read matches Ok(s) ==> {
            &&& now <= s.exp ==> r == Ok::<Scope, LeaseError>(s)
            &&& now > s.exp ==> (r matches Err(LeaseError::Expired { ago }) && s.exp + ago == now)
        },
        read matches Err(why) ==> r == Err::<Scope, LeaseError>(
            LeaseError::Unreadable { reason: why },
        ),
{
}

} // verus!
