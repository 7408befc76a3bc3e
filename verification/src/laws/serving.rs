//! Who is served, and with what.

use vstd::prelude::*;
use crate::chars::{decimal, trim, views};
use crate::foreign::{base64, lowercase};
use crate::guard::{
    apps, is_entry, line_len, lines, load_allowlist, names_app, refusal, refusal_text,
};
use crate::ocr::{FindArgs, OcrError};
use crate::server::http::{
    accepted_hosts, access, access_to, all_loopback, allowed_hosts_for, authority, bare_host, bears,
    check_bind, constant_time_eq, unbracketed, unbracketed_end, unbracketed_start, with_item,
    Access, Transport,
};
use crate::server::wait::{
    best_sightings, judged, poll_of, sightings, timeout_of, waited, Sighting, Until, Wait, WaitNext,
    WaitStatus, MAX_TIMEOUT_MS, MIN_POLL_MS,
};
use crate::server::{
    attached_picture, check_stop, falls_back, is_listed, launch_decision, launch_outcome, ocr_query, ActParams,
    DiscoverParams, FindTextParams, LaunchParams, Look, ObserveParams, Refusal, Wincrust,
};
use crate::uia::act::{ActArgs, ActResult, ResolvedBy, Status};
use crate::uia::tree::{described, discovered, places, selected, shown, Node};
use crate::uia::{
    entity_views, DiscoverArgs, Discovery, EntityView, Filter, RawWindow, SelectorView,
};
use super::discovery::{
    law_an_entity_is_matched_as_its_element, law_an_untruncated_discovery_is_complete,
};
use super::labels::law_the_best_hits_are_kept;

verus! {

// The `Host` header

/// The address that the server was told to bind is reachable, bare and with the
/// port.
pub proof fn law_the_bound_address_is_reachable(
    default: Seq<Seq<char>>,
    host: Seq<char>,
    port: u16,
    ipv6: bool,
)
    requires
        default.len() > 0,
    ensures
        accepted_hosts(default, host, port, ipv6).contains(authority(host, ipv6)),
        accepted_hosts(default, host, port, ipv6).contains(
            authority(host, ipv6) + ":"@ + decimal(port as nat),
        ),
{
    let bare = authority(host, ipv6);
    let full = bare + ":"@ + decimal(port as nat);
    let one = with_item(default, bare);
    lemma_with_item(default, bare);
    lemma_with_item(one, full);
}

proof fn lemma_with_item(list: Seq<Seq<char>>, item: Seq<char>)
    ensures
        with_item(list, item).contains(item),
        forall|h: Seq<char>| #[trigger]
            with_item(list, item).contains(h) <==> list.contains(h) || h == item,
        list.no_duplicates() ==> with_item(list, item).no_duplicates(),
{
    let all = with_item(list, item);
    if !list.contains(item) {
        assert(all[list.len() as int] == item);
        assert forall|h: Seq<char>| #[trigger] all.contains(h) <==> list.contains(h) || h == item by {
            if all.contains(h) {
                let i = choose|i: int| 0 <= i < all.len() && all[i] == h;
                if i < list.len() {
                    assert(list[i] == h);
                }
            }
            if list.contains(h) {
                let i = choose|i: int| 0 <= i < list.len() && list[i] == h;
                assert(all[i] == h);
            }
        }
        if list.no_duplicates() {
            assert forall|i: int, j: int|
                0 <= i < all.len() && 0 <= j < all.len() && i != j implies all[i] != all[j] by {
                if i < list.len() {
                    assert(list.contains(list[i]));
                }
                if j < list.len() {
                    assert(list.contains(list[j]));
                }
            }
        }
    }
}

/// Everything else is still rejected: what is accepted was accepted anyway, or
/// spells the bound address. Nothing that was accepted is lost, and nothing is
/// listed twice that was not.
pub proof fn law_no_other_host_is_accepted(
    default: Seq<Seq<char>>,
    host: Seq<char>,
    port: u16,
    ipv6: bool,
    h: Seq<char>,
)
    requires
        default.len() > 0,
    ensures
        accepted_hosts(default, host, port, ipv6).contains(h) <==> default.contains(h) || h
            == authority(host, ipv6) || h == authority(host, ipv6) + ":"@ + decimal(port as nat),
        default.no_duplicates() ==> accepted_hosts(default, host, port, ipv6).no_duplicates(),
{
    let bare = authority(host, ipv6);
    let full = bare + ":"@ + decimal(port as nat);
    let one = with_item(default, bare);
    lemma_with_item(default, bare);
    lemma_with_item(one, full);
    assert(accepted_hosts(default, host, port, ipv6) == with_item(one, full));
}

/// Host checking that is switched off stays off.
pub proof fn law_an_empty_host_list_stays_empty(host: Seq<char>, port: u16, ipv6: bool)
    ensures
        accepted_hosts(seq![], host, port, ipv6).len() == 0,
{
}

// Access

/// An address that is not listed is turned away before its token is looked at:
/// the answer is the same whatever the key and the header.
pub proof fn law_the_address_comes_first(
    allow: Seq<Seq<char>>,
    peer: Seq<char>,
    key: Option<Seq<char>>,
    header: Option<Seq<char>>,
)
    requires
        allow.len() > 0,
        !allow.contains(peer),
    ensures
        access_to(allow, peer, key, header) == Access::Forbidden,
{
}

/// Where there is a key, only a request that bears it is served.
pub proof fn law_a_key_is_required(
    allow: Seq<Seq<char>>,
    peer: Seq<char>,
    key: Seq<char>,
    header: Option<Seq<char>>,
)
    requires
        access_to(allow, peer, Some(key), header) == Access::Granted,
    ensures
        bears(header, key),
        allow.len() == 0 || allow.contains(peer),
{
}

/// A host that resolves to nothing known, or to any address that is not a
/// loopback address, is not taken for this machine.
pub proof fn law_one_foreign_address_is_enough(flags: Seq<bool>, i: int)
    requires
        0 <= i < flags.len(),
        !flags[i],
    ensures
        !all_loopback(Some(flags)),
        !all_loopback(None),
{
    assert(flags.contains(false));
}

// Launching

/// The stop halts launching, whatever is on the list.
pub proof fn law_the_stop_halts_launching(
    allowlist: Seq<Seq<char>>,
    name: Seq<char>,
    want: Seq<char>,
    r: Result<(), Refusal>,
)
    requires
        launch_outcome(allowlist, true, name, want, r),
    ensures
        r matches Err(Refusal::Internal(text)) && text@ == refusal_text(),
{
}

/// Launching fails closed: an empty allowlist permits nothing.
pub proof fn law_an_empty_allowlist_permits_nothing(
    stopped: bool,
    name: Seq<char>,
    want: Seq<char>,
    r: Result<(), Refusal>,
)
    requires
        launch_outcome(seq![], stopped, name, want, r),
    ensures
        r is Err,
{
}

proof fn lemma_apps(ls: Seq<Seq<char>>)
    ensures
        forall|e: Seq<char>| #[trigger]
            apps(ls).contains(e) ==> names_app(e) && exists|i: int|
                0 <= i < ls.len() && e == lowercase(trim(#[trigger] ls[i])),
    decreases ls.len(),
{
    if ls.len() > 0 {
        let rest = ls.drop_last();
        lemma_apps(rest);
        assert forall|e: Seq<char>| #[trigger] apps(ls).contains(e) implies names_app(e) && exists|
            i: int,
        |
            0 <= i < ls.len() && e == lowercase(trim(#[trigger] ls[i])) by {
            let k = choose|k: int| 0 <= k < apps(ls).len() && apps(ls)[k] == e;
            if k < apps(rest).len() {
                assert(apps(rest)[k] == e);
                assert(apps(rest).contains(e));
                let i = choose|i: int|
                    0 <= i < rest.len() && e == lowercase(trim(#[trigger] rest[i]));
                assert(ls[i] == rest[i]);
            } else {
                assert(ls[ls.len() - 1] == ls.last());
            }
        }
    }
}

/// Only what the file names is launched: a name that is permitted stands on a
/// line of the allowlist file, up to case and surrounding white space, and that
/// line is neither blank nor a comment.
pub proof fn law_only_what_is_named_is_launched(
    file: Seq<char>,
    stopped: bool,
    name: Seq<char>,
    want: Seq<char>,
    r: Result<(), Refusal>,
)
    requires
        launch_outcome(apps(lines(file)), stopped, name, want, r),
        r is Ok,
    ensures
        names_app(want),
        exists|i: int| 0 <= i < lines(file).len() && want == lowercase(trim(#[trigger] lines(file)[i])),
{
    lemma_apps(lines(file));
}

// Falling back

/// Reading the screen instead has to be asked for, and needs a name to read.
pub proof fn law_reading_instead_is_opt_in(allow_ocr: bool, select: Option<SelectorView>)
    requires
        ocr_query(allow_ocr, select) is Some,
    ensures
        allow_ocr,
        select matches Some(s) && s.name is Some,
{
}

// Waiting

/// A wait ends: once its time is up no further sleep is asked for, and its time
/// is never more than two minutes.
pub proof fn law_a_wait_ends(
    w: Wait,
    walk: Result<Discovery, String>,
    elapsed_ms: u64,
    r: WaitNext,
    asked: Option<u64>,
)
    requires
        w.timeout_ms == timeout_of(asked),
        waited(w, walk, elapsed_ms, r),
        elapsed_ms >= MAX_TIMEOUT_MS,
    ensures
        r is Done,
{
}

/// The window is not looked at more often than every 50 milliseconds.
pub proof fn law_looks_are_spaced(asked: Option<u64>)
    ensures
        poll_of(asked) >= MIN_POLL_MS,
        MIN_POLL_MS == 50,
{
}

/// A wait never picks one of several: when it hands back a control, that is the
/// only one that the selector resolves to, and it is enabled if that was waited
/// for.
pub proof fn law_a_wait_never_guesses(w: Wait, d: Discovery)
    requires
        judged(w, Ok::<Discovery, String>(d)) matches Some(r) && r.matched is Some,
    ensures
        ({
            let best = best_sightings(entity_views(d.entities@), w.select@);
            let r = judged(w, Ok::<Discovery, String>(d))->0;
            &&& best.len() == 1
            &&& r.ok
            &&& r.status == WaitStatus::Met
            &&& r.scope == Some(d.scope@)
            &&& r.matched == Some(best[0].entity)
            &&& w.until == Until::Enabled ==> best[0].entity.enabled
        }),
{
}

/// A wait for a disappearance goes by what a look tells of: it is met exactly
/// when nothing that was told of answers to the selector. A look that a cap cut
/// short tells of less than there is.
pub proof fn law_a_disappearance_goes_by_what_was_told(w: Wait, d: Discovery)
    requires
        w.until == Until::Disappears,
    ensures
        match judged(w, Ok::<Discovery, String>(d)) {
            Some(r) => r.ok && best_sightings(entity_views(d.entities@), w.select@).len() == 0,
            None => best_sightings(entity_views(d.entities@), w.select@).len() > 0,
        },
{
}

proof fn lemma_nothing_seen(es: Seq<EntityView>, sel: SelectorView, e: EntityView)
    requires
        sightings(es, sel).len() == 0,
        es.contains(e),
    ensures
        sel.selects(e.name, e.automation_id, e.control_type) is None,
    decreases es.len(),
{
    if e != es.last() {
        let i = choose|i: int| 0 <= i < es.len() && es[i] == e;
        assert(es.drop_last()[i] == e);
        lemma_nothing_seen(es.drop_last(), sel, e);
    }
}

/// Nothing disappears while it is there: when a look at a window tells of
/// everything, a wait for a disappearance is met by it only if no element that
/// is on screen and worth telling answers to the selector.
pub proof fn law_a_disappearance_is_real(
    w: Wait,
    d: Discovery,
    raw: RawWindow,
    root: Node,
    args: DiscoverArgs,
    now: u64,
    key: Seq<u8>,
    i: int,
)
    requires
        w.until == Until::Disappears,
        discovered(d, raw, root, args, now, key),
        d.truncated is None,
        judged(w, Ok::<Discovery, String>(d)) is Some,
        0 <= i < places(root, seq![]).len(),
        shown(places(root, seq![])[i], args),
    ensures
        selected(places(root, seq![])[i].node, w.select@) is None,
{
    let es = entity_views(d.entities@);
    let sel = w.select@;
    let p = places(root, seq![])[i];
    law_an_untruncated_discovery_is_complete(root, args, i);
    law_an_entity_is_matched_as_its_element(p.node, p.path, args.filter, args.verbose, sel);
    let all = sightings(es, sel);
    if all.len() > 0 {
        law_the_best_hits_are_kept(all, all.map_values(|s: Sighting| s.tier));
    }
    lemma_nothing_seen(es, sel, described(p.node, p.path, args.filter, args.verbose));
}

// What a caller gets

/// Who is served: an address that is listed, or any if none is, and where there
/// is a key, only with a header that is `Bearer`, a space and that key. The
/// address is judged first.
pub proof fn law_who_is_served(
    allow: &[String],
    peer: &str,
    key: Option<&str>,
    header: Option<&str>,
    r: Access,
)
    requires
        call_ensures(access, (allow, peer, key, header), r),
    ensures
        ({
            let known = allow@.len() == 0 || exists|i: int|
                0 <= i < allow@.len() && (#[trigger] allow@[i])@ == peer@;
            let trusted = match key {
                None => true,
                Some(k) => header matches Some(h) && h@ == "Bearer "@ + k@,
            };
            &&& r == Access::Forbidden <==> !known
            &&& r == Access::Unauthorized <==> known && !trusted
            &&& r == Access::Granted <==> known && trusted
        }),
{
    lemma_listed(allow@, peer@);
    if key is Some && header is Some {
        lemma_bears((header->0)@, (key->0)@);
    }
}

proof fn lemma_listed(list: Seq<String>, item: Seq<char>)
    ensures
        views(list).contains(item) <==> exists|i: int|
            0 <= i < list.len() && (#[trigger] list[i])@ == item,
        views(list).len() == list.len(),
{
    let vs = views(list);
    if vs.contains(item) {
        let i = choose|i: int| 0 <= i < vs.len() && vs[i] == item;
        assert(list[i]@ == item);
    }
    if exists|i: int| 0 <= i < list.len() && (#[trigger] list[i])@ == item {
        let i = choose|i: int| 0 <= i < list.len() && (#[trigger] list[i])@ == item;
        assert(vs[i] == item);
    }
}

proof fn lemma_bears(header: Seq<char>, key: Seq<char>)
    ensures
        bears(Some(header), key) <==> header == "Bearer "@ + key,
{
    let n = "Bearer "@.len() as int;
    if bears(Some(header), key) {
        assert(header =~= header.take(n) + header.skip(n));
    }
    if header == "Bearer "@ + key {
        assert(header.take(n) =~= "Bearer "@);
        assert(header.skip(n) =~= key);
    }
}

/// A host is spelt as it was given, unless it is an IPv6 address: that goes in
/// one pair of brackets, whatever brackets it came in.
pub proof fn law_an_ipv6_host_goes_in_brackets(host: Seq<char>, ipv6: bool) -> (ends: (int, int))
    ensures
        !ipv6 ==> authority(host, ipv6) == host,
        ipv6 ==> authority(host, ipv6) == "["@ + host.subrange(ends.0, ends.1) + "]"@,
        0 <= ends.0 <= ends.1 <= host.len(),
        forall|i: int|
            0 <= i < ends.0 || ends.1 <= i < host.len() ==> #[trigger] host[i] == '[' || host[i]
                == ']',
        ends.0 < ends.1 ==> host[ends.0] != '[' && host[ends.0] != ']' && host[ends.1 - 1] != '['
            && host[ends.1 - 1] != ']',
{
    let from = lemma_open_brackets(host);
    let t = unbracketed_start(host);
    let len = lemma_close_brackets(t);
    assert(unbracketed(host) =~= host.subrange(from, from + len));
    assert forall|i: int| 0 <= i < from || from + len <= i < host.len() implies #[trigger] host[i]
        == '[' || host[i] == ']' by {
        if i >= from + len {
            assert(t[i - from] == host[i]);
        }
    }
    if len > 0 {
        assert(t[0] == host[from]);
        assert(t[len - 1] == host[from + len - 1]);
    }
    (from, from + len)
}

proof fn lemma_open_brackets(s: Seq<char>) -> (from: int)
    ensures
        0 <= from <= s.len(),
        unbracketed_start(s) == s.skip(from),
        forall|i: int| 0 <= i < from ==> #[trigger] s[i] == '[' || s[i] == ']',
        from < s.len() ==> s[from] != '[' && s[from] != ']',
    decreases s.len(),
{
    if s.len() > 0 && (s.first() == '[' || s.first() == ']') {
        let r = s.drop_first();
        let from = lemma_open_brackets(r);
        assert(r.skip(from) =~= s.skip(from + 1));
        assert forall|i: int| 0 <= i < from + 1 implies #[trigger] s[i] == '[' || s[i] == ']' by {
            if i > 0 {
                assert(r[i - 1] == s[i]);
            }
        }
        if from < r.len() {
            assert(r[from] == s[from + 1]);
        }
        from + 1
    } else {
        assert(s.skip(0) =~= s);
        0
    }
}

proof fn lemma_close_brackets(s: Seq<char>) -> (len: int)
    ensures
        0 <= len <= s.len(),
        unbracketed_end(s) == s.take(len),
        forall|i: int| len <= i < s.len() ==> #[trigger] s[i] == '[' || s[i] == ']',
        len > 0 ==> s[len - 1] != '[' && s[len - 1] != ']',
    decreases s.len(),
{
    if s.len() > 0 && (s.last() == '[' || s.last() == ']') {
        let r = s.drop_last();
        let len = lemma_close_brackets(r);
        assert(r.take(len) =~= s.take(len));
        assert forall|i: int| len <= i < s.len() implies #[trigger] s[i] == '[' || s[i] == ']' by {
            if i < r.len() {
                assert(r[i] == s[i]);
            }
        }
        len
    } else {
        assert(s.take(s.len() as int) =~= s);
        s.len() as int
    }
}

/// The hosts that are accepted are those that were accepted anyway and the bound
/// address, bare and with the port; where none was listed, none is.
pub proof fn law_the_bound_host_is_added(
    default: Vec<String>,
    host: &str,
    port: u16,
    ipv6: bool,
    r: Vec<String>,
    h: Seq<char>,
)
    requires
        call_ensures(allowed_hosts_for, (default, host, port, ipv6), r),
    ensures
        default@.len() == 0 ==> r@.len() == 0,
        default@.len() > 0 ==> ((exists|i: int| 0 <= i < r@.len() && (#[trigger] r@[i])@ == h) <==> (
        exists|i: int| 0 <= i < default@.len() && (#[trigger] default@[i])@ == h) || h == authority(
            host@,
            ipv6,
        ) || h == authority(host@, ipv6) + ":"@ + decimal(port as nat)),
{
    lemma_listed(default@, h);
    lemma_listed(r@, h);
    if default@.len() > 0 {
        law_no_other_host_is_accepted(views(default@), host@, port, ipv6, h);
    }
}

/// The server binds an address without a key only if every address that it
/// resolves to is this machine's own.
pub proof fn law_no_open_door_without_a_key(
    host: &str,
    resolved: Option<Vec<bool>>,
    has_key: bool,
    r: Result<(), String>,
)
    requires
        call_ensures(check_bind, (host, resolved, has_key), r),
    ensures
        r is Ok <==> has_key || (resolved matches Some(flags) && forall|i: int|
            0 <= i < flags@.len() ==> #[trigger] flags@[i]),
{
    if resolved is Some {
        let flags = (resolved->0)@;
        if flags.contains(false) {
            let i = choose|i: int| 0 <= i < flags.len() && flags[i] == false;
            assert(!flags[i]);
        }
        if !(forall|i: int| 0 <= i < flags.len() ==> #[trigger] flags[i]) {
            let i = choose|i: int| 0 <= i < flags.len() && !#[trigger] flags[i];
            assert(flags[i] == false);
        }
    }
}

/// An application is launched exactly when the stop is not engaged and its name,
/// trimmed and in lower case, is on the list.
pub proof fn law_what_is_launched<E>(
    server: Wincrust<E>,
    stopped: bool,
    p: LaunchParams,
    r: Result<(), Refusal>,
)
    requires
        call_ensures(Wincrust::<E>::launch, (&server, stopped, &p), r),
    ensures
        r is Ok <==> !stopped && server.launchable().contains(lowercase(trim(p.name@))),
        stopped ==> r matches Err(Refusal::Internal(_)),
        !stopped && r is Err ==> r matches Err(Refusal::InvalidParams(_)),
{
}

/// A list is searched through: a name is on it exactly when an entry is that
/// name.
pub proof fn law_a_list_is_searched_through(list: &[String], want: &str, r: bool)
    requires
        call_ensures(is_listed, (list, want), r),
    ensures
        r <==> exists|i: int| 0 <= i < list@.len() && (#[trigger] list@[i])@ == want@,
{
    lemma_listed(list@, want@);
}

/// A text is split into lines at its line breaks and nowhere else.
pub proof fn law_lines_end_at_line_breaks(a: Seq<char>, b: Seq<char>)
    requires
        forall|i: int| 0 <= i < a.len() ==> #[trigger] a[i] != '\n',
    ensures
        lines(a) == seq![a],
        lines(a.push('\n') + b) == seq![a] + lines(b),
{
    lemma_line(a, seq![]);
    assert(a + Seq::<char>::empty() =~= a);
    let all = a.push('\n') + b;
    let rest = seq!['\n'] + b;
    lemma_line(a, rest);
    assert(all =~= a + rest);
    assert(all.take(a.len() as int) =~= a);
    assert(all.skip(a.len() as int + 1) =~= b);
}

proof fn lemma_line(a: Seq<char>, b: Seq<char>)
    requires
        forall|i: int| 0 <= i < a.len() ==> #[trigger] a[i] != '\n',
        b.len() > 0 ==> b[0] == '\n',
    ensures
        line_len(a + b) == a.len(),
    decreases a.len(),
{
    let all = a + b;
    if a.len() == 0 {
        assert(all =~= b);
    } else {
        let rest = a.drop_first();
        assert forall|i: int| 0 <= i < rest.len() implies #[trigger] rest[i] != '\n' by {
            assert(rest[i] == a[i + 1]);
        }
        lemma_line(rest, b);
        assert(all.drop_first() =~= rest + b);
        assert(all.first() == a[0]);
    }
}

proof fn lemma_named_apps(ls: Seq<Seq<char>>, i: int)
    requires
        0 <= i < ls.len(),
        names_app(lowercase(trim(ls[i]))),
    ensures
        apps(ls).contains(lowercase(trim(ls[i]))),
    decreases ls.len(),
{
    let e = lowercase(trim(ls[i]));
    let rest = ls.drop_last();
    if i < rest.len() {
        assert(rest[i] == ls[i]);
        lemma_named_apps(rest, i);
        let k = choose|k: int| 0 <= k < apps(rest).len() && apps(rest)[k] == e;
        assert(apps(ls)[k] == e);
    } else {
        assert(ls.last() == ls[i]);
        assert(apps(ls)[apps(rest).len() as int] == e);
    }
}

/// The allowlist is the file: a name may be launched exactly when it is a line of
/// the file, trimmed and in lower case, that is neither empty nor starts with a
/// number sign.
pub proof fn law_the_allowlist_is_the_file(text: &str, r: Vec<String>, name: Seq<char>)
    requires
        call_ensures(load_allowlist, (text,), r),
    ensures
        (exists|k: int| 0 <= k < r@.len() && (#[trigger] r@[k])@ == name) <==> name.len() > 0
            && name[0] != '#' && exists|i: int|
            0 <= i < lines(text@).len() && name == lowercase(trim(#[trigger] lines(text@)[i])),
{
    lemma_listed(r@, name);
    lemma_apps(lines(text@));
    if name.len() > 0 && name[0] != '#' && exists|i: int|
        0 <= i < lines(text@).len() && name == lowercase(trim(#[trigger] lines(text@)[i])) {
        let i = choose|i: int|
            0 <= i < lines(text@).len() && name == lowercase(trim(#[trigger] lines(text@)[i]));
        lemma_named_apps(lines(text@), i);
    }
}

/// A discovery is made as it was asked for: of that window, with everything if
/// `all` was said, of 400 entities where nothing was; down to 24 levels, with a
/// scope of 300 seconds.
pub proof fn law_a_discovery_is_made_as_asked(p: DiscoverParams, r: DiscoverArgs)
    requires
        call_ensures(DiscoverParams::args, (&p,), r),
    ensures
        r.hwnd == p.hwnd,
        forall|n: usize| p.max_elements == Some(n) ==> r.max_elements == n,
        p.max_elements is None ==> r.max_elements == 400,
        r.filter == Filter::All <==> (p.filter matches Some(f) && f@ == "all"@),
        r.max_depth == 24,
        r.ttl_secs == 300,
        !r.verbose,
{
}

/// The screen is looked at as was asked for: in words for `text`, for what
/// changed for `diff`, and as a whole otherwise; to the width that was given, or
/// 1400.
pub proof fn law_the_screen_is_looked_at_as_asked(p: ObserveParams, r: Look)
    requires
        call_ensures(ObserveParams::look, (&p,), r),
    ensures
        r == Look::Text <==> (p.detail matches Some(d) && d@ == "text"@),
        r matches Look::Screen { diff, max_width } ==> {
            &&& diff <==> (p.detail matches Some(d) && d@ == "diff"@)
            &&& forall|w: u32| p.max_width == Some(w) ==> max_width == w
            &&& p.max_width is None ==> max_width == 1400
        },
{
    reveal_strlit("text");
    reveal_strlit("diff");
    assert("text"@[0] != "diff"@[0]);
}

/// Text is looked for as was asked: that query, in that window and language, and
/// as many matches as were asked for, or 50.
pub proof fn law_text_is_looked_for_as_asked(p: FindTextParams, r: FindArgs<'_>)
    requires
        call_ensures(FindTextParams::args, (&p,), r),
    ensures
        r.query is Some == p.query is Some,
        p.query matches Some(q) ==> (r.query matches Some(s) && s@ == q@),
        r.lang is Some == p.lang is Some,
        p.lang matches Some(l) ==> (r.lang matches Some(s) && s@ == l@),
        r.hwnd == p.hwnd,
        r.image is None,
        forall|n: usize| p.max_matches == Some(n) ==> r.max_matches == n,
        p.max_matches is None ==> r.max_matches == 50,
{
}

/// A window and a picture cannot both be read.
pub proof fn law_one_source_is_read(args: FindArgs<'_>, r: Result<(), OcrError>)
    requires
        call_ensures(FindArgs::check, (&args,), r),
    ensures
        r is Err <==> args.hwnd is Some && args.image is Some,
        r matches Err(e) ==> e == OcrError::Exclusive,
{
}

/// An action is planned as it was asked for, with the selector only if it
/// constrains something; the screen is read for its name only if that was
/// allowed.
pub proof fn law_an_action_is_planned_as_asked(p: ActParams, r: (ActArgs, Option<String>))
    requires
        call_ensures(ActParams::plan, (p,), r),
    ensures
        ({
            let used = p.select matches Some(s) && (s.name is Some || s.automation_id is Some
                || s.control_type is Some);
            &&& r.0.scope@ == p.scope@
            &&& r.0.path@ == p.path@
            &&& r.0.action@ == p.action@
            &&& r.0.value == p.value
            &&& r.0.select is Some <==> used
            &&& used ==> (r.0.select->0)@ == (p.select->0)@
            &&& r.1 is Some <==> used && p.allow_ocr && (p.select->0).name is Some
            &&& r.1 matches Some(q) ==> q@ == ((p.select->0).name->0)@
        }),
{
}

/// The screen is read instead only of an absent target, and only if there is
/// something to read for.
pub proof fn law_only_an_absent_target_is_read_for(query: Option<String>, r: ActResult, b: bool)
    requires
        call_ensures(falls_back, (&query, &r), b),
    ensures
        b <==> query is Some && r.status == Status::NotFound,
{
}

/// The stop refuses input, and nothing else does.
pub proof fn law_the_stop_refuses_input(stopped: bool, r: Result<(), Refusal>)
    requires
        call_ensures(check_stop, (stopped,), r),
    ensures
        r is Err <==> stopped,
        r matches Err(e) ==> (e matches Refusal::Internal(text) && text@ == refusal_text()),
{
}

/// A picture is attached exactly when there is one.
pub proof fn law_a_picture_is_attached_if_there_is_one(png: &[u8], r: Option<String>)
    requires
        png@.len() <= isize::MAX / 2,
        call_ensures(attached_picture, (png,), r),
    ensures
        r is Some <==> png@.len() > 0,
        r matches Some(text) ==> text@ == base64(png@),
{
}

/// Two byte strings are told apart exactly when they differ.
pub proof fn law_a_key_is_compared_byte_by_byte(a: &[u8], b: &[u8], r: bool)
    requires
        call_ensures(constant_time_eq, (a, b), r),
    ensures
        r <==> a@.len() == b@.len() && forall|i: int| 0 <= i < a@.len() ==> #[trigger] a@[i] == b@[i],
{
    if a@.len() == b@.len() && forall|i: int| 0 <= i < a@.len() ==> #[trigger] a@[i] == b@[i] {
        assert(a@ =~= b@);
    }
}

/// The names of transports and filters are what they say.
pub proof fn law_names_mean_what_they_say(
    name: &str,
    t: Result<Transport, String>,
    f: Result<Filter, String>,
)
    requires
        call_ensures(Transport::parse, (name,), t),
        call_ensures(Filter::parse, (name,), f),
    ensures
        t == Ok::<Transport, String>(Transport::Stdio) <==> name@ == "stdio"@,
        t == Ok::<Transport, String>(Transport::Http) <==> name@ == "http"@,
        f == Ok::<Filter, String>(Filter::Actionable) <==> name@ == "actionable"@,
        f == Ok::<Filter, String>(Filter::All) <==> name@ == "all"@,
{
    reveal_strlit("stdio");
    reveal_strlit("http");
    reveal_strlit("actionable");
    reveal_strlit("all");
    assert("stdio"@.len() != "http"@.len());
    assert("actionable"@.len() != "all"@.len());
}

/// A refusal to launch says what was asked for and how many names there are.
pub proof fn law_a_refused_launch_says_why(
    allowlist: &[String],
    name: &str,
    want: &str,
    r: Result<(), Refusal>,
)
    requires
        call_ensures(launch_decision, (allowlist, false, name, want), r),
        r is Err,
    ensures
        r matches Err(Refusal::InvalidParams(text)) && text@ == "'"@ + name@
            + "' is not in the launch allowlist ("@ + decimal(allowlist@.len())
            + " entries). Add it to %LOCALAPPDATA%\\wincrust\\launch-allowlist.txt on the host."@,
{
    lemma_listed(allowlist@, want@);
}

/// The results of actions and waits are reported under their own names.
pub proof fn law_results_are_reported_by_their_names(
    s: Status,
    status: &str,
    by: ResolvedBy,
    resolved: &str,
    u: Until,
    until: &str,
    w: WaitStatus,
    wait: &str,
)
    requires
        call_ensures(Status::as_str, (s,), status),
        call_ensures(ResolvedBy::as_str, (by,), resolved),
        call_ensures(Until::as_str, (u,), until),
        call_ensures(WaitStatus::as_str, (w,), wait),
    ensures
        match s {
            Status::Acted => status@ == "ok"@,
            Status::IdentityChanged => status@ == "identity_changed"@,
            Status::NotFound => status@ == "not_found"@,
            Status::Ambiguous => status@ == "ambiguous"@,
            Status::Disabled => status@ == "disabled"@,
            Status::Moved => status@ == "moved"@,
            Status::PatternGone => status@ == "pattern_gone"@,
            Status::Stopped => status@ == "stopped"@,
            Status::Error => status@ == "error"@,
        },
        match by {
            ResolvedBy::Path => resolved@ == "path"@,
            ResolvedBy::Selector => resolved@ == "selector"@,
            ResolvedBy::Ocr => resolved@ == "ocr"@,
        },
        match u {
            Until::Appears => until@ == "appears"@,
            Until::Disappears => until@ == "disappears"@,
            Until::Enabled => until@ == "enabled"@,
        },
        match w {
            WaitStatus::Met => wait@ == "ok"@,
            WaitStatus::TimedOut => wait@ == "timeout"@,
            WaitStatus::Ambiguous => wait@ == "ambiguous"@,
            WaitStatus::Failed => wait@ == "error"@,
        },
{
}

/// A bare host is what an IPv6 authority has between its brackets.
pub proof fn law_a_bare_host_stands_between_the_brackets(host: &str, r: String)
    requires
        call_ensures(bare_host, (host,), r),
    ensures
        authority(host@, true) == "["@ + r@ + "]"@,
{
}

/// A line of the allowlist is an entry unless it is empty or starts with a number
/// sign, and a refusal gives the sentence of the stop.
pub proof fn law_an_entry_is_no_comment(line: &str, r: bool, text: String)
    requires
        call_ensures(is_entry, (line,), r),
        call_ensures(refusal, (), text),
    ensures
        r <==> line@.len() > 0 && line@[0] != '#',
        text@ == refusal_text(),
{
}

} // verus!
