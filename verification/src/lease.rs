//! Self-describing, signed window scopes.
//!
//! A scope is not a pointer and not a session key: it is a recipe for
//! re-finding a window, signed so it cannot be forged, and stamped so a stale
//! one is detected rather than acted on. That keeps the server stateless:
//! there is no table to look up, expire or garbage-collect.
//!
//! One scope is issued per discovery, not per element: every entity in a
//! response shares the same window, generation and expiry. The per-element
//! part, the child-index path, is carried unsigned on the entity.
//!
//! Wire format: `base64url(json).base64url(hmac_sha256(json)[..16])`.

use vstd::prelude::*;
use vstd::string::*;
use vstd::utf8::*;
use crate::chars::{
    copy_range, decimal, from_chars, signed_decimal, to_chars, write_decimal, write_signed,
};
use crate::foreign::{
    base64url, base64url_decode, base64url_encode, from_base64url, getrandom_reason, hmac_accepts,
    hmac_code, hmac_sha256, seconds_since_epoch,
};
use crate::scope_text::{read_written, written};

verus! {

/// How long a scope lives. The scope is bound to the window and its
/// generation, so it invalidates itself the moment the window is retitled,
/// resized or replaced; the expiry is a backstop, not the guard.
pub const DEFAULT_TTL_SECS: u64 = 300;

/// How many bytes of the code are kept as the signature: 128 bits.
pub const TAG_BYTES: usize = 16;

/// Authority over one window at one generation until one moment.
#[derive(Debug, Clone, Copy, PartialEq, Eq, Structural)]
pub struct Scope {
    /// Owning top-level window.
    pub hwnd: isize,
    /// Cheap fingerprint of the owning window at discovery time. If this no
    /// longer matches, the window was replaced or substantially redrawn.
    pub generation: u64,
    /// The last second, counted from the Unix epoch, at which it is good.
    pub exp: u64,
}

/// Why a token is not accepted, or why there is no key.
#[derive(Debug, PartialEq, Eq)]
pub enum LeaseError {
    /// The token has no dot.
    Malformed,
    /// The part before the dot is not base64url.
    MalformedPayload,
    /// The part after the dot is not base64url.
    MalformedSignature,
    /// The signature is not that of the payload under the key.
    SignatureInvalid,
    /// The payload is signed, but it is not a scope; the reader says why.
    Unreadable { reason: String },
    /// The scope ran out so many seconds ago.
    Expired { ago: u64 },
    /// The system has no random bytes to make a key from, and says why.
    NoRandomness { reason: String },
}

impl LeaseError {
    /// The sentence that `message` returns.
    pub open spec fn text(self) -> Seq<char> {
        match self {
            LeaseError::Malformed => "malformed lease"@,
            LeaseError::MalformedPayload => "malformed lease payload"@,
            LeaseError::MalformedSignature => "malformed lease signature"@,
            LeaseError::SignatureInvalid => "lease signature invalid"@,
            LeaseError::Unreadable { reason } => reason@,
            LeaseError::Expired { ago } => "lease expired "@ + decimal(ago as nat) + "s ago"@,
            LeaseError::NoRandomness { reason } => "getrandom failed: "@ + reason@,
        }
    }

    /// The error in words.
    pub fn message(&self) -> (r: String)
        ensures
            r@ == self.text(),
    {
        match self {
            LeaseError::Malformed => String::from_str("malformed lease"),
            LeaseError::MalformedPayload => String::from_str("malformed lease payload"),
            LeaseError::MalformedSignature => String::from_str("malformed lease signature"),
            LeaseError::SignatureInvalid => String::from_str("lease signature invalid"),
            LeaseError::Unreadable { reason } => String::from_str(reason.as_str()),
            LeaseError::Expired { ago } => {
                let mut out = String::from_str("lease expired ");
                let n = write_decimal(*ago);
                out.append(n.as_str());
                out.append("s ago");
                out
            },
            LeaseError::NoRandomness { reason } => {
                let mut out = String::from_str("getrandom failed: ");
                out.append(reason.as_str());
                out
            },
        }
    }
}

impl Scope {
    /// The scope as JSON text.
    pub open spec fn json(self) -> Seq<char> {
        "{\"h\":"@ + signed_decimal(self.hwnd as int) + ",\"g\":"@ + decimal(self.generation as nat)
            + ",\"e\":"@ + decimal(self.exp as nat) + "}"@
    }

    /// The bytes that are signed.
    pub open spec fn payload(self) -> Seq<u8> {
        encode_utf8(self.json())
    }

    /// Writes the scope as JSON.
    pub fn to_json(&self) -> (r: String)
        ensures
            r@ == self.json(),
    {
        let mut out = String::from_str("{\"h\":");
        let h = write_signed(self.hwnd as i64);
        out.append(h.as_str());
        out.append(",\"g\":");
        let g = write_decimal(self.generation);
        out.append(g.as_str());
        out.append(",\"e\":");
        let e = write_decimal(self.exp);
        out.append(e.as_str());
        out.append("}");
        out
    }
}

/// How many characters stand before the first dot of `s`.
pub open spec fn before_dot(s: Seq<char>) -> nat
    decreases s.len(),
{
    if s.len() == 0 || s.first() == '.' {
        0
    } else {
        1 + before_dot(s.drop_first())
    }
}

/// The part of a token before its first dot.
pub open spec fn payload_part(token: Seq<char>) -> Seq<char> {
    token.take(before_dot(token) as int)
}

/// The part of a token after its first dot.
pub open spec fn tag_part(token: Seq<char>) -> Seq<char> {
    token.skip(before_dot(token) as int + 1)
}

/// A tag passes for data under a key when it is the signature, all 128 bits of
/// it. A shorter or longer piece of the code does not pass.
pub open spec fn tag_passes(key: Seq<u8>, data: Seq<u8>, tag: Seq<u8>) -> bool {
    tag.len() == TAG_BYTES && tag == signature(key, data)
}

/// What a token opens to under a key: the signed bytes, or why there are none.
pub open spec fn opened(token: Seq<char>, key: Seq<u8>) -> Result<Seq<u8>, LeaseError> {
    if before_dot(token) >= token.len() {
        Err(LeaseError::Malformed)
    } else {
        match from_base64url(payload_part(token)) {
            None => Err(LeaseError::MalformedPayload),
            Some(data) => match from_base64url(tag_part(token)) {
                None => Err(LeaseError::MalformedSignature),
                Some(tag) => if tag_passes(key, data, tag) {
                    Ok(data)
                } else {
                    Err(LeaseError::SignatureInvalid)
                },
            },
        }
    }
}

/// The token that carries `data` signed under `key`.
pub open spec fn sealed(data: Seq<u8>, key: Seq<u8>) -> Seq<char> {
    base64url(data).push('.') + base64url(signature(key, data))
}

/// The signature of `data` under `key`.
pub open spec fn signature(key: Seq<u8>, data: Seq<u8>) -> Seq<u8> {
    hmac_sha256(key, data).take(TAG_BYTES as int)
}

/// `token` is what signing `scope` under `key` makes: its text, and what it
/// opens to under any key.
pub open spec fn issued(token: Seq<char>, scope: Scope, key: Seq<u8>) -> bool {
    &&& token == sealed(scope.payload(), key)
    &&& signature(key, scope.payload()).len() == TAG_BYTES
    &&& forall|other: Seq<u8>| #[trigger]
        opened(token, other) == (if signature(other, scope.payload()) == signature(
            key,
            scope.payload(),
        ) {
            Ok::<Seq<u8>, LeaseError>(scope.payload())
        } else {
            Err::<Seq<u8>, LeaseError>(LeaseError::SignatureInvalid)
        })
}

/// What comes of the scope read from a signed payload at a given moment.
pub open spec fn judged(read: Result<Scope, String>, now: u64) -> Result<Scope, LeaseError> {
    match read {
        Err(reason) => Err(LeaseError::Unreadable { reason }),
        Ok(scope) => if now > scope.exp {
            Err(LeaseError::Expired { ago: (now - scope.exp) as u64 })
        } else {
            Ok(scope)
        },
    }
}

/// `out` is what signed bytes are read as: the scope that they were written for,
/// or else what the function `read` says of them.
pub open spec fn read_by<F: Fn(&[u8]) -> Result<Scope, String>>(
    read: F,
    payload: Seq<u8>,
    out: Result<Scope, String>,
) -> bool {
    match written(payload) {
        Some(scope) => out == Ok::<Scope, String>(scope),
        None => exists|data: &[u8]|
            data@ == payload && #[trigger] call_ensures(read, (data,), out),
    }
}

/// `r` is what a token decodes to at the moment `now`, when `read` says what
/// scope, if any, signed bytes are that no scope is written as.
pub open spec fn decodes(
    token: Seq<char>,
    key: Seq<u8>,
    now: u64,
    read: spec_fn(Seq<u8>) -> Option<Scope>,
    r: Result<Scope, LeaseError>,
) -> bool {
    match opened(token, key) {
        Err(e) => r == Err::<Scope, LeaseError>(e),
        Ok(payload) => match (written(payload), read(payload)) {
            (Some(scope), _) => r == judged(Ok(scope), now),
            (None, Some(scope)) => r == judged(Ok(scope), now),
            (None, None) => r matches Err(LeaseError::Unreadable { .. }),
        },
    }
}

/// The function `read` reads the scopes that `model` says, and no others.
pub open spec fn reads_by<F: Fn(&[u8]) -> Result<Scope, String>>(
    read: F,
    model: spec_fn(Seq<u8>) -> Option<Scope>,
) -> bool {
    forall|data: &[u8], out: Result<Scope, String>| #[trigger]
        call_ensures(read, (data,), out) ==> match out {
            Ok(scope) => model(data@) == Some(scope),
            Err(_) => model(data@) is None,
        }
}

spec fn power_of_ten(k: nat) -> nat
    decreases k,
{
    if k == 0 {
        1
    } else {
        10 * power_of_ten((k - 1) as nat)
    }
}

proof fn lemma_decimal_is_short(n: nat, k: nat)
    requires
        k >= 1,
        n < power_of_ten(k),
    ensures
        1 <= decimal(n).len() <= k,
        is_ascii_chars(decimal(n)),
    decreases k,
{
    if n >= 10 {
        assert(k >= 2) by {
            reveal_with_fuel(power_of_ten, 2);
        }
        assert(n / 10 < power_of_ten((k - 1) as nat)) by (nonlinear_arith)
            requires
                n < 10 * power_of_ten((k - 1) as nat),
        ;
        lemma_decimal_is_short(n / 10, (k - 1) as nat);
        is_ascii_chars_concat(decimal(n), decimal(n / 10), seq![crate::chars::digit(n % 10)]);
    }
}

proof fn lemma_payload_is_short(scope: Scope)
    ensures
        scope.payload().len() <= 100,
{
    assert(power_of_ten(20) == 100_000_000_000_000_000_000nat) by {
        reveal_with_fuel(power_of_ten, 21);
    }
    reveal_strlit("{\"h\":");
    reveal_strlit(",\"g\":");
    reveal_strlit(",\"e\":");
    reveal_strlit("}");
    let h = scope.hwnd as int;
    lemma_decimal_is_short(if h < 0 {
        (-h) as nat
    } else {
        h as nat
    }, 20);
    lemma_decimal_is_short(scope.generation as nat, 20);
    lemma_decimal_is_short(scope.exp as nat, 20);
    assert(is_ascii_chars(scope.json()));
    is_ascii_chars_encode_utf8(scope.json());
}

proof fn lemma_before_dot(s: Seq<char>)
    ensures
        before_dot(s) <= s.len(),
        forall|i: int| 0 <= i < before_dot(s) ==> s[i] != '.',
        before_dot(s) < s.len() ==> s[before_dot(s) as int] == '.',
    decreases s.len(),
{
    if s.len() > 0 && s.first() != '.' {
        lemma_before_dot(s.drop_first());
        assert forall|i: int| 0 <= i < before_dot(s) implies s[i] != '.' by {
            if i > 0 {
                assert(s[i] == s.drop_first()[i - 1]);
            }
        }
        if before_dot(s) < s.len() {
            assert(s[before_dot(s) as int] == s.drop_first()[before_dot(s) - 1]);
        }
    }
}

proof fn lemma_dot_found(s: Seq<char>, n: int)
    requires
        0 <= n < s.len(),
        s[n] == '.',
        forall|i: int| 0 <= i < n ==> s[i] != '.',
    ensures
        before_dot(s) == n,
{
    lemma_before_dot(s);
}

/// The bytes a token carries, if its signature passes under `key`.
pub fn open(token: &str, key: &[u8]) -> (r: Result<Vec<u8>, LeaseError>)
    ensures
        match r {
            Ok(data) => opened(token@, key@) == Ok::<Seq<u8>, LeaseError>(data@),
            Err(e) => opened(token@, key@) == Err::<Seq<u8>, LeaseError>(e),
        },
{
    let v = to_chars(token);
    let mut n: usize = 0;
    while n < v.len() && v[n] != '.'
        invariant
            n <= v@.len(),
            forall|i: int| 0 <= i < n ==> v@[i] != '.',
        decreases v@.len() - n,
    {
        n += 1;
    }
    proof {
        lemma_before_dot(token@);
    }
    if n == v.len() {
        return Err(LeaseError::Malformed);
    }
    proof {
        lemma_dot_found(token@, n as int);
    }
    let payload = copy_range(&v, 0, n);
    let signature = copy_range(&v, n + 1, v.len());
    assert(payload@ =~= token@.take(n as int));
    assert(signature@ =~= token@.skip(n + 1));
    let payload_text = from_chars(&payload);
    let data = match base64url_decode(payload_text.as_str()) {
        Some(d) => d,
        None => {
            return Err(LeaseError::MalformedPayload);
        },
    };
    let signature_text = from_chars(&signature);
    let tag = match base64url_decode(signature_text.as_str()) {
        Some(t) => t,
        None => {
            return Err(LeaseError::MalformedSignature);
        },
    };
    if tag.len() == TAG_BYTES && hmac_accepts(key, &data, &tag) {
        Ok(data)
    } else {
        Err(LeaseError::SignatureInvalid)
    }
}

impl Scope {
    /// Whether the scope has run out at the moment `now`.
    pub fn expired_at(&self, now: u64) -> (r: bool)
        ensures
            r == (now > self.exp),
    {
        now > self.exp
    }

    /// Whether the scope has run out by the system's clock. A scope that lasts
    /// to the end of time never has.
    pub fn expired(&self) -> (r: bool)
        ensures
            self.exp == u64::MAX ==> !r,
    {
        self.expired_at(now())
    }

    /// Signs the scope. Signing does not fail. The token opens to the bytes that
    /// were signed under the same key, and under another key only if the two
    /// keys give those bytes the same signature.
    pub fn encode(&self, key: &[u8]) -> (r: Result<String, LeaseError>)
        ensures
            r matches Ok(token) && issued(token@, *self, key@),
    {
        let json = self.to_json();
        let data = json.as_str().as_bytes();
        proof {
            lemma_payload_is_short(*self);
        }
        let mut token = base64url_encode(data);
        let ghost head = token@;
        let code = hmac_code(key, data);
        let tag = vstd::slice::slice_subrange(code.as_slice(), 0, TAG_BYTES);
        let tail = base64url_encode(tag);
        token.push('.');
        token.append(tail.as_str());
        proof {
            assert(tag@ =~= hmac_sha256(key@, data@).take(16));
            let n = head.len() as int;
            assert forall|i: int| 0 <= i < n implies token@[i] != '.' by {
                assert(head.contains(head[i]));
            }
            lemma_dot_found(token@, n);
            assert(token@.take(n) =~= head);
            assert(token@.skip(n + 1) =~= tail@);
        }
        Ok(token)
    }

    /// What comes of a scope read from a signed payload at the moment `now`.
    pub fn judge(read: Result<Scope, String>, now: u64) -> (r: Result<Scope, LeaseError>)
        ensures
            r == judged(read, now),
    {
        match read {
            Err(reason) => Err(LeaseError::Unreadable { reason }),
            Ok(scope) => if scope.expired_at(now) {
                Err(LeaseError::Expired { ago: now - scope.exp })
            } else {
                Ok(scope)
            },
        }
    }

    /// Opens a token at the moment `now`. Bytes that a scope is signed as are read
    /// as that scope; `read` turns signed bytes of any other form into one. It is
    /// called only on bytes whose signature passed, so a malformed or forged
    /// payload never reaches the parser.
    pub fn decode_at<F: Fn(&[u8]) -> Result<Scope, String>>(
        token: &str,
        key: &[u8],
        now: u64,
        read: F,
    ) -> (r: Result<Scope, LeaseError>)
        requires
            forall|data: &[u8]|
                opened(token@, key@) == Ok::<Seq<u8>, LeaseError>(data@) && written(data@) is None
                    ==> #[trigger] call_requires(read, (data,)),
        ensures
            match opened(token@, key@) {
                Err(e) => r == Err::<Scope, LeaseError>(e),
                Ok(payload) => exists|out: Result<Scope, String>| #[trigger]
                    read_by(read, payload, out) && r == judged(out, now),
            },
            forall|model: spec_fn(Seq<u8>) -> Option<Scope>| #[trigger]
                reads_by(read, model) ==> decodes(token@, key@, now, model, r),
    {
        let data = match open(token, key) {
            Ok(d) => d,
            Err(e) => {
                return Err(e);
            },
        };
        let bytes = data.as_slice();
        let ghost payload = opened(token@, key@)->Ok_0;
        assert(bytes@ == payload);
        let out = match read_written(bytes) {
            Some(scope) => Ok(scope),
            None => {
                let out = read(bytes);
                assert(call_ensures(read, (bytes,), out));
                out
            },
        };
        let ghost seen = out;
        let r = Scope::judge(out, now);
        assert(read_by(read, payload, seen) && r == judged(seen, now));
        r
    }

    /// Opens a token by the system's clock, see [`Scope::decode_at`]. A token
    /// that does not open is refused whatever the time; one that opens is
    /// judged as it is at some moment.
    pub fn decode<F: Fn(&[u8]) -> Result<Scope, String>>(
        token: &str,
        key: &[u8],
        read: F,
    ) -> (r: Result<Scope, LeaseError>)
        requires
            forall|data: &[u8]|
                opened(token@, key@) == Ok::<Seq<u8>, LeaseError>(data@) && written(data@) is None
                    ==> #[trigger] call_requires(read, (data,)),
        ensures
            match opened(token@, key@) {
                Err(e) => r == Err::<Scope, LeaseError>(e),
                Ok(payload) => exists|out: Result<Scope, String>, now: u64| #[trigger]
                    read_by(read, payload, out) && r == #[trigger] judged(out, now),
            },
    {
        Scope::decode_at(token, key, now(), read)
    }
}

/// The moment that a reading of the clock stands for: the seconds it gives, and
/// zero for a clock set before the Unix epoch.
pub fn moment(reading: Option<u64>) -> (r: u64)
    ensures
        r == (match reading {
            Some(s) => s,
            None => 0,
        }),
{
    match reading {
        Some(s) => s,
        None => 0,
    }
}

/// Seconds since the Unix epoch by the system's clock, see [`moment`]. A clock
/// may read anything, so nothing is promised of the number.
pub fn now() -> (r: u64) {
    moment(seconds_since_epoch())
}

/// A fresh signing key of 32 random bytes. It is made once per process and
/// never written to disk, so a process of lower integrity cannot mint scopes.
pub fn new_key() -> (r: Result<Vec<u8>, LeaseError>)
    ensures
        match r {
            Ok(key) => key@.len() == 32,
            Err(e) => e is NoRandomness,
        },
{
    let mut key: Vec<u8> = vec![0u8; 32];
    match getrandom::fill(key.as_mut_slice()) {
        Ok(()) => Ok(key),
        Err(e) => Err(LeaseError::NoRandomness { reason: getrandom_reason(&e) }),
    }
}

} // verus!
