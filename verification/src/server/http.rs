//! Who may reach the server, and where it listens.

use vstd::prelude::*;
use vstd::string::*;
use vstd::utf8::*;
use crate::chars::{
    copy_range, decimal, from_chars, same_text, to_chars, views, write_decimal,
};
use super::is_listed;

verus! {

/// Whether two byte strings are equal, in time that does not depend on where
/// they first differ.
pub fn constant_time_eq(a: &[u8], b: &[u8]) -> (r: bool)
    ensures
        r == (a@ == b@),
{
    if a.len() != b.len() {
        return false;
    }
    let mut acc: u8 = 0;
    for i in 0..a.len()
        invariant
            a@.len() == b@.len(),
            acc == 0 <==> (forall|j: int| 0 <= j < i ==> a@[j] == b@[j]),
    {
        let x: u8 = a[i];
        let y: u8 = b[i];
        let next: u8 = acc | (x ^ y);
        assert(next == 0 <==> (acc == 0 && x == y)) by (bit_vector)
            requires
                next == acc | (x ^ y),
        ;
        acc = next;
    }
    proof {
        if acc == 0 {
            assert(a@ =~= b@);
        }
    }
    acc == 0
}

// The `Host` header

/// A square bracket.
pub open spec fn bracket(c: char) -> bool {
    c == '[' || c == ']'
}

/// `s` without the brackets it starts with.
pub open spec fn unbracketed_start(s: Seq<char>) -> Seq<char>
    decreases s.len(),
{
    if s.len() > 0 && bracket(s.first()) {
        unbracketed_start(s.drop_first())
    } else {
        s
    }
}

/// `s` without the brackets it ends in.
pub open spec fn unbracketed_end(s: Seq<char>) -> Seq<char>
    decreases s.len(),
{
    if s.len() > 0 && bracket(s.last()) {
        unbracketed_end(s.drop_last())
    } else {
        s
    }
}

/// `s` without brackets at either end.
pub open spec fn unbracketed(s: Seq<char>) -> Seq<char> {
    unbracketed_end(unbracketed_start(s))
}

/// The host without brackets at either end.
pub fn bare_host(host: &str) -> (r: String)
    ensures
        r@ == unbracketed(host@),
{
    let v = to_chars(host);
    let mut from: usize = 0;
    assert(v@.skip(0) =~= v@);
    while from < v.len() && (v[from] == '[' || v[from] == ']')
        invariant
            from <= v@.len(),
            unbracketed_start(v@) == unbracketed_start(v@.skip(from as int)),
        decreases v@.len() - from,
    {
        assert(v@.skip(from as int).drop_first() =~= v@.skip(from + 1));
        from += 1;
    }
    let ghost rest = v@.skip(from as int);
    assert(from < v@.len() ==> rest.first() == v@[from as int]);
    assert(unbracketed_start(v@) == rest);
    let mut to: usize = v.len();
    assert(v@.subrange(from as int, to as int) =~= rest);
    while to > from && (v[to - 1] == '[' || v[to - 1] == ']')
        invariant
            from <= to <= v@.len(),
            unbracketed_end(rest) == unbracketed_end(v@.subrange(from as int, to as int)),
        decreases to,
    {
        assert(v@.subrange(from as int, to as int).drop_last() =~= v@.subrange(
            from as int,
            to - 1,
        ));
        to -= 1;
    }
    assert(to > from ==> v@.subrange(from as int, to as int).last() == v@[to - 1]);
    let bare = copy_range(&v, from, to);
    from_chars(&bare)
}

/// How the host is spelt in a `Host` header: an IPv6 literal has to be
/// bracketed to survive authority parsing, since `fd7a::1:8900` is ambiguous
/// with the address itself.
pub open spec fn authority(host: Seq<char>, ipv6: bool) -> Seq<char> {
    if ipv6 {
        "["@ + unbracketed(host) + "]"@
    } else {
        host
    }
}

/// `list` with `item` at the end, unless it is there already.
pub open spec fn with_item(list: Seq<Seq<char>>, item: Seq<char>) -> Seq<Seq<char>> {
    if list.contains(item) {
        list
    } else {
        list.push(item)
    }
}

/// The `Host` values accepted by a server bound to `host` and `port`, given
/// those that are accepted anyway. None at all stands for no checking.
pub open spec fn accepted_hosts(
    default: Seq<Seq<char>>,
    host: Seq<char>,
    port: u16,
    ipv6: bool,
) -> Seq<Seq<char>> {
    if default.len() == 0 {
        default
    } else {
        let bare = authority(host, ipv6);
        with_item(with_item(default, bare), bare + ":"@ + decimal(port as nat))
    }
}

fn add_item(list: &mut Vec<String>, item: String)
    ensures
        views(final(list)@) == with_item(views(old(list)@), item@),
{
    let ghost said = item@;
    if !is_listed(list.as_slice(), item.as_str()) {
        list.push(item);
        assert(views(list@) =~= views(old(list)@).push(said));
    }
}

/// The `Host` header values the server accepts.
///
/// The default is right for a server that only ever listens on localhost.
/// Binding another address makes that address unreachable unless it is added,
/// bare and with the port, since either spelling can arrive. Everything else is
/// still rejected, and an empty default is left empty: it means that checking
/// is disabled, and this must not quietly enable it again. `ipv6` says whether
/// the host without its brackets is an IPv6 address.
pub fn allowed_hosts_for(default: Vec<String>, host: &str, port: u16, ipv6: bool) -> (r: Vec<
    String,
>)
    ensures
        views(r@) == accepted_hosts(views(default@), host@, port, ipv6),
{
    assert(views(default@).len() == default@.len());
    let mut list = default;
    if list.len() == 0 {
        return list;
    }
    let bare = if ipv6 {
        let mut out = String::from_str("[");
        let inner = bare_host(host);
        out.append(inner.as_str());
        out.append("]");
        out
    } else {
        String::from_str(host)
    };
    let mut with_port = bare.clone();
    with_port.append(":");
    let number = write_decimal(port as u64);
    with_port.append(number.as_str());
    add_item(&mut list, bare);
    add_item(&mut list, with_port);
    list
}

// Access

/// What becomes of a request.
#[derive(Debug, Clone, Copy, PartialEq, Eq, Structural)]
pub enum Access {
    Granted,
    /// The source address is not allowed.
    Forbidden,
    /// The token is wrong or missing.
    Unauthorized,
}

/// The text after the prefix, if it is there.
pub open spec fn after_prefix(s: Seq<char>, prefix: Seq<char>) -> Option<Seq<char>> {
    if s.len() >= prefix.len() && s.take(prefix.len() as int) == prefix {
        Some(s.skip(prefix.len() as int))
    } else {
        None
    }
}

/// The request carries the key as a bearer token.
pub open spec fn bears(header: Option<Seq<char>>, key: Seq<char>) -> bool {
    match header {
        Some(h) => after_prefix(h, "Bearer "@) == Some(key),
        None => false,
    }
}

/// Who may pass. The peer address comes first: an unauthorised source does not
/// even get to present a token, and a wrong token does not reveal whether the
/// address would have been accepted. Without a list any address may pass, and
/// without a key any request.
pub open spec fn access_to(
    allow: Seq<Seq<char>>,
    peer: Seq<char>,
    key: Option<Seq<char>>,
    header: Option<Seq<char>>,
) -> Access {
    if allow.len() > 0 && !allow.contains(peer) {
        Access::Forbidden
    } else if key is Some && !bears(header, key->0) {
        Access::Unauthorized
    } else {
        Access::Granted
    }
}

/// What a text that may be absent says.
pub open spec fn text_view(s: Option<&str>) -> Option<Seq<char>> {
    match s {
        Some(t) => Some(t@),
        None => None,
    }
}

fn token_in(header: &str) -> (r: Option<String>)
    ensures
        match r {
            Some(t) => after_prefix(header@, "Bearer "@) == Some(t@),
            None => after_prefix(header@, "Bearer "@) is None,
        },
{
    let v = to_chars(header);
    let prefix = to_chars("Bearer ");
    let n: usize = prefix.len();
    if v.len() < n {
        return None;
    }
    let head = copy_range(&v, 0, n);
    assert(head@ =~= header@.take(n as int));
    if !crate::chars::same_chars(&head, &prefix) {
        return None;
    }
    let rest = copy_range(&v, n, v.len());
    assert(rest@ =~= header@.skip(n as int));
    Some(from_chars(&rest))
}

fn is_key(header: Option<&str>, key: &str) -> (r: bool)
    ensures
        r == bears(text_view(header), key@),
{
    match header {
        None => false,
        Some(h) => match token_in(h) {
            None => false,
            Some(token) => {
                proof {
                    encode_utf8_decode_utf8(token@);
                    encode_utf8_decode_utf8(key@);
                }
                constant_time_eq(token.as_str().as_bytes(), key.as_bytes())
            },
        },
    }
}

/// Whether a request from `peer` with that `Authorization` header may pass.
pub fn access(allow: &[String], peer: &str, key: Option<&str>, header: Option<&str>) -> (r: Access)
    ensures
        r == access_to(views(allow@), peer@, text_view(key), text_view(header)),
{
    assert(views(allow@).len() == allow@.len());
    if allow.len() > 0 && !is_listed(allow, peer) {
        return Access::Forbidden;
    }
    if let Some(k) = key {
        if !is_key(header, k) {
            return Access::Unauthorized;
        }
    }
    Access::Granted
}

// Serving

/// How the server is reached.
#[derive(Debug, Clone, Copy, PartialEq, Eq, Structural)]
pub enum Transport {
    Stdio,
    Http,
}

impl Transport {
    /// The transport of that name.
    pub fn parse(name: &str) -> (r: Result<Transport, String>)
        ensures
            match r {
                Ok(Transport::Stdio) => name@ == "stdio"@,
                Ok(Transport::Http) => name@ == "http"@ && name@ != "stdio"@,
                Err(e) => {
                    &&& name@ != "stdio"@
                    &&& name@ != "http"@
                    &&& e@ == "unknown transport '"@ + name@ + "' (stdio|http)"@
                },
            },
    {
        if same_text(name, "stdio") {
            Ok(Transport::Stdio)
        } else if same_text(name, "http") {
            Ok(Transport::Http)
        } else {
            let mut out = String::from_str("unknown transport '");
            out.append(name);
            out.append("' (stdio|http)");
            Err(out)
        }
    }
}

/// Every address that a host resolves to is a loopback address. Decided on the
/// resolved addresses, not the spelling; a host that does not resolve is not.
pub open spec fn all_loopback(resolved: Option<Seq<bool>>) -> bool {
    match resolved {
        Some(flags) => !flags.contains(false),
        None => false,
    }
}

fn all_true(flags: &[bool]) -> (r: bool)
    ensures
        r == !flags@.contains(false),
{
    for i in 0..flags.len()
        invariant
            forall|j: int| 0 <= j < i ==> #[trigger] flags@[j] != false,
    {
        if !flags[i] {
            assert(flags@[i as int] == false);
            return false;
        }
    }
    true
}

/// Whether the server may bind `host`, given for each address that it resolves
/// to whether that is a loopback address, and whether there is a key.
///
/// Refusing rather than warning: the process holds an admin token, and an
/// unauthenticated bind is not a mistake worth a flag to override.
pub fn check_bind(host: &str, resolved: Option<Vec<bool>>, has_key: bool) -> (r: Result<(), String>)
    ensures
        ({
            let flags = match resolved {
                Some(v) => Some(v@),
                None => None,
            };
            match r {
                Ok(_) => all_loopback(flags) || has_key,
                Err(e) => {
                    &&& !all_loopback(flags)
                    &&& !has_key
                    &&& e@ == "refusing to bind "@ + host@
                        + " without --auth-key: this server runs elevated"@
                },
            }
        }),
{
    if has_key {
        return Ok(());
    }
    if let Some(flags) = &resolved {
        if all_true(flags.as_slice()) {
            return Ok(());
        }
    }
    let mut out = String::from_str("refusing to bind ");
    out.append(host);
    out.append(" without --auth-key: this server runs elevated");
    Err(out)
}

} // verus!
