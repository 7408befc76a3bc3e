use std::sync::Arc;
use wincrust::capture::ScreenChange;
use wincrust::ocr::{TextMatch, TextResult};
use wincrust::server::fallback::{Fallback, Move, Reading, Report};
use wincrust::server::http::{
    access, allowed_hosts_for, bare_host, check_bind, constant_time_eq, Access, Transport,
};
use wincrust::server::wait::{
    Until, Wait, WaitForParams, WaitNext, WaitResult, WaitStatus,
};
use wincrust::server::{
    attached_picture, check_stop, falls_back, is_listed, launch_decision, ActParams, DiscoverParams,
    FindTextParams, LaunchParams, Look, ObserveParams, Refusal, Wincrust,
};
use wincrust::text::MatchTier;
use wincrust::uia::act::{ActResult, ResolvedBy, Status};
use wincrust::uia::{Bounds, Discovery, Entity, Filter, Selector, WindowInfo};

fn loopback() -> Vec<String> {
    vec!["localhost".into(), "127.0.0.1".into(), "::1".into()]
}

/// The matching that the accepted values are subject to: parse each entry,
/// fall back to a bare hostname when it will not parse, strip brackets, and
/// compare. Asserting on the returned list alone would prove only that a string
/// is present, not that it would ever match.
fn rmcp_would_allow(allowed: &[String], host_header: &str) -> bool {
    fn norm(h: &str) -> String {
        h.trim_matches('[').trim_matches(']').to_ascii_lowercase()
    }
    fn parse(s: &str) -> (String, Option<u16>) {
        match http::uri::Authority::try_from(s) {
            Ok(a) => (norm(a.host()), a.port_u16()),
            Err(_) => (norm(s), None),
        }
    }
    let (hh, hp) = parse(host_header);
    allowed
        .iter()
        .map(|a| parse(a))
        .any(|(ah, ap)| ah == hh && ap.is_none_or(|p| hp == Some(p)))
}

#[test]
fn a_tailscale_bind_becomes_reachable() {
    let out = allowed_hosts_for(loopback(), "100.78.123.110", 8900, false);
    assert!(rmcp_would_allow(&out, "100.78.123.110:8900"));
}

#[test]
fn an_ipv6_bind_is_bracketed_so_the_port_entry_is_not_dead() {
    // `fd7a::1:8900` does not parse as an authority, so an unbracketed
    // entry silently matches nothing and the port is never enforced.
    let out = allowed_hosts_for(loopback(), "fd7a:115c:a1e0::1", 8900, true);
    assert!(
        out.contains(&"[fd7a:115c:a1e0::1]:8900".to_string()),
        "{out:?}"
    );
    assert!(rmcp_would_allow(&out, "[fd7a:115c:a1e0::1]:8900"));
}

#[test]
fn an_already_bracketed_ipv6_host_is_not_double_bracketed() {
    let out = allowed_hosts_for(loopback(), "[fd7a:115c:a1e0::1]", 8900, true);
    assert!(!out.iter().any(|h| h.contains("[[")), "{out:?}");
    assert!(rmcp_would_allow(&out, "[fd7a:115c:a1e0::1]:8900"));
}

#[test]
fn loopback_still_works_and_is_not_duplicated() {
    let out = allowed_hosts_for(loopback(), "127.0.0.1", 8900, false);
    assert_eq!(out.iter().filter(|h| *h == "127.0.0.1").count(), 1);
    assert!(rmcp_would_allow(&out, "127.0.0.1:8900"));
}

#[test]
fn an_unlisted_host_is_rejected_by_the_same_matching() {
    let out = allowed_hosts_for(loopback(), "100.78.123.110", 8900, false);
    assert!(!rmcp_would_allow(&out, "evil.example.com"));
    assert!(!rmcp_would_allow(&out, "evil.example.com:8900"));
    assert!(!rmcp_would_allow(&out, "100.78.123.111:8900"));
}

#[test]
fn an_empty_default_stays_empty() {
    // An empty list means "host checking disabled". This must not switch it
    // back on with a one-entry allowlist that rejects everything else.
    assert!(allowed_hosts_for(Vec::new(), "100.78.123.110", 8900, false).is_empty());
}

#[test]
fn the_bound_address_is_added_bare_and_with_its_port() {
    assert_eq!(
        allowed_hosts_for(vec!["localhost".to_string()], "h", 80, false),
        vec!["localhost", "h", "h:80"]
    );
    assert_eq!(bare_host("[[::1]]"), "::1");
    assert_eq!(bare_host("]["), "");
}

// --- access ---

#[test]
fn equal_bytes_are_equal_and_nothing_else_is() {
    assert!(constant_time_eq(b"", b""));
    assert!(constant_time_eq(b"secret", b"secret"));
    assert!(!constant_time_eq(b"secret", b"secreT"));
    assert!(!constant_time_eq(b"secret", b"secrets"));
}

fn one(s: &str) -> Vec<String> {
    vec![s.to_string()]
}

#[test]
fn a_request_needs_the_key_as_a_bearer_token() {
    let go = |header| access(&[], "1.2.3.4", Some("k"), header);
    assert_eq!(go(Some("Bearer k")), Access::Granted);
    assert_eq!(go(Some("Bearer  k")), Access::Unauthorized);
    assert_eq!(go(Some("bearer k")), Access::Unauthorized);
    assert_eq!(go(Some("k")), Access::Unauthorized);
    assert_eq!(go(Some("Bear")), Access::Unauthorized);
    assert_eq!(go(None), Access::Unauthorized);
}

#[test]
fn an_unlisted_address_is_turned_away_before_its_token() {
    let list = one("10.0.0.1");
    assert_eq!(access(&list, "10.0.0.2", Some("k"), Some("Bearer k")), Access::Forbidden);
    assert_eq!(access(&list, "10.0.0.2", Some("k"), None), Access::Forbidden);
    assert_eq!(access(&list, "10.0.0.1", Some("k"), None), Access::Unauthorized);
    assert_eq!(access(&list, "10.0.0.1", Some("k"), Some("Bearer k")), Access::Granted);
    assert_eq!(access(&[], "10.0.0.2", None, None), Access::Granted);
}

#[test]
fn a_foreign_bind_needs_a_key() {
    assert_eq!(check_bind("localhost", Some(vec![true, true]), false), Ok(()));
    assert_eq!(check_bind("h", Some(vec![true, false]), true), Ok(()));
    let refused = "refusing to bind h without --auth-key: this server runs elevated";
    assert_eq!(check_bind("h", Some(vec![true, false]), false), Err(refused.to_string()));
    assert_eq!(check_bind("h", None, false), Err(refused.to_string()));
}

#[test]
fn transports_have_names() {
    assert_eq!(Transport::parse("stdio"), Ok(Transport::Stdio));
    assert_eq!(Transport::parse("http"), Ok(Transport::Http));
    assert_eq!(
        Transport::parse("tcp"),
        Err("unknown transport 'tcp' (stdio|http)".to_string())
    );
}

// --- launching ---

fn server(names: &[&str]) -> Wincrust<u8> {
    Wincrust::new(9, Arc::new(names.iter().map(|n| n.to_string()).collect()))
}

fn launch(names: &[&str], stopped: bool, name: &str) -> Result<(), Refusal> {
    server(names).launch(stopped, &LaunchParams { name: name.to_string() })
}

#[test]
fn only_a_listed_name_is_launched() {
    assert_eq!(*server(&[]).engine(), 9);
    assert!(launch(&["notepad"], false, "  NotePad ").is_ok());
    assert!(matches!(
        launch(&["notepad"], false, "note"),
        Err(Refusal::InvalidParams(t)) if t == "'note' is not in the launch allowlist (1 entries). \
            Add it to %LOCALAPPDATA%\\wincrust\\launch-allowlist.txt on the host."
    ));
}

#[test]
fn an_empty_allowlist_permits_nothing() {
    assert!(matches!(
        launch(&[], false, "notepad"),
        Err(Refusal::InvalidParams(t)) if t.contains("(0 entries)")
    ));
}

#[test]
fn the_stop_halts_launching_and_acting() {
    assert!(matches!(
        launch(&["notepad"], true, "notepad"),
        Err(Refusal::Internal(t)) if t.starts_with("EMERGENCY STOP")
    ));
    assert!(check_stop(false).is_ok());
    assert!(matches!(
        check_stop(true),
        Err(Refusal::Internal(t)) if t.starts_with("EMERGENCY STOP")
    ));
}

#[test]
fn the_decision_is_made_on_the_form_the_list_is_kept_in() {
    let list = one("äpp");
    assert!(is_listed(&list, "äpp"));
    assert!(!is_listed(&list, "ÄPP"));
    assert!(launch_decision(&list, false, "ÄPP", "äpp").is_ok());
    assert!(launch_decision(&list, false, "ÄPP", "ÄPP").is_err());
    assert!(launch(&["äpp"], false, "ÄPP").is_ok());
}

// --- parameters ---

#[test]
fn a_discovery_has_defaults() {
    let p = DiscoverParams { hwnd: None, filter: None, max_elements: None };
    let a = p.args();
    assert_eq!((a.hwnd, a.max_depth, a.max_elements, a.ttl_secs), (None, 24, 400, 300));
    assert_eq!((a.filter, a.verbose), (Filter::Actionable, false));
    let p = DiscoverParams {
        hwnd: Some(3),
        filter: Some("all".to_string()),
        max_elements: Some(7),
    };
    let a = p.args();
    assert_eq!((a.hwnd, a.max_elements, a.filter), (Some(3), 7, Filter::All));
    let p = DiscoverParams { filter: Some("everything".to_string()), ..p };
    assert_eq!(p.args().filter, Filter::Actionable);
}

#[test]
fn an_observation_is_a_picture_unless_asked_otherwise() {
    let look = |detail: Option<&str>, max_width| {
        ObserveParams { detail: detail.map(|d| d.to_string()), max_width }.look()
    };
    assert_eq!(look(None, None), Look::Screen { diff: false, max_width: 1400 });
    assert_eq!(look(Some("diff"), Some(0)), Look::Screen { diff: true, max_width: 0 });
    assert_eq!(look(Some("text"), None), Look::Text);
    assert_eq!(look(Some("image"), None), Look::Screen { diff: false, max_width: 1400 });
}

#[test]
fn a_text_search_has_defaults() {
    let p = FindTextParams { query: None, max_matches: None, hwnd: None, lang: None };
    let a = p.args();
    assert_eq!((a.query, a.max_matches, a.hwnd, a.image, a.lang), (None, 50, None, None, None));
    let p = FindTextParams {
        query: Some("q".to_string()),
        max_matches: Some(1),
        hwnd: Some(2),
        lang: Some("ja".to_string()),
    };
    let a = p.args();
    assert_eq!((a.query, a.max_matches, a.hwnd, a.lang), (Some("q"), 1, Some(2), Some("ja")));
}

fn selector(name: Option<&str>) -> Selector {
    Selector { name: name.map(|n| n.to_string()), automation_id: None, control_type: None }
}

fn act_params(select: Option<Selector>, allow_ocr: bool) -> ActParams {
    ActParams {
        scope: "s".to_string(),
        path: vec![1],
        select,
        allow_ocr,
        action: "click".to_string(),
        value: None,
    }
}

#[test]
fn reading_the_screen_instead_is_opt_in() {
    let (args, query) = act_params(Some(selector(Some("Save"))), true).plan();
    assert_eq!(query.as_deref(), Some("Save"));
    assert_eq!((args.scope.as_str(), args.path, args.action.as_str()), ("s", vec![1], "click"));
    assert!(args.select.is_some());
    let (_, query) = act_params(Some(selector(Some("Save"))), false).plan();
    assert_eq!(query, None);
    let (args, query) = act_params(Some(selector(None)), true).plan();
    assert_eq!(query, None);
    assert!(args.select.is_none());
    assert_eq!(act_params(None, true).plan().1, None);
}

fn missed() -> ActResult {
    ActResult {
        ok: false,
        action: "click".to_string(),
        status: Status::NotFound,
        target: "Untitled".to_string(),
        resolved_by: ResolvedBy::Selector,
        matched_by: None,
        next_scope: None,
        detail: None,
        screen_changed: None,
    }
}

#[test]
fn only_an_absent_target_falls_through() {
    let query = Some("Save".to_string());
    assert!(falls_back(&query, &missed()));
    assert!(!falls_back(&None, &missed()));
    for status in [Status::Ambiguous, Status::IdentityChanged, Status::Disabled, Status::Acted] {
        assert!(!falls_back(&query, &ActResult { status, ..missed() }));
    }
}

// --- reading and clicking ---

fn read_at(text: &str, at: (i32, i32), tier: MatchTier) -> TextMatch {
    TextMatch {
        text: text.to_string(),
        click_at: at,
        x: 0,
        y: 0,
        w: 1,
        h: 1,
        granularity: "word".to_string(),
        matched_by: tier,
    }
}

fn reading(matches: Vec<TextMatch>) -> Report {
    Report::Read {
        reading: Reading::Text(TextResult {
            language: "English".to_string(),
            matches,
            lines_seen: 12,
            available_languages: vec![],
        }),
    }
}

fn after(report: Report, first: &ActResult) -> (Fallback, Move) {
    let (f, read) = Fallback::start("Save".to_string(), first);
    assert!(matches!(read, Move::Read { query, max_matches: 8 } if query == "Save"));
    let (f, m) = f.step(report);
    (f, m.unwrap())
}

fn result(m: Move) -> ActResult {
    match m {
        Move::Done { result } => result,
        other => panic!("not done: {other:?}"),
    }
}

#[test]
fn one_clean_read_is_clicked_once() {
    let report = reading(vec![
        read_at("5ave", (1, 1), MatchTier::Confusable),
        read_at("Save", (40, -50), MatchTier::Exact),
    ]);
    let (f, m) = after(report, &missed());
    assert!(matches!(m, Move::CheckStop));
    let (f, m) = f.step(Report::Stop { engaged: false });
    assert!(matches!(m, Some(Move::Baseline)));
    let (f, m) = f.step(Report::Baseline);
    assert!(matches!(m, Some(Move::Click { x: 40, y: -50 })));
    let (f, m) = f.step(Report::Clicked { click: Ok(()) });
    assert!(matches!(m, Some(Move::Settle { ms: 250 })));
    let change = ScreenChange { x: 3, y: -4, w: 10, h: 20, changed: 25, total: 10_000 };
    let (f, m) = f.step(Report::Settled { changed: Some(change), share: "0.25".to_string() });
    let r = result(m.unwrap());
    assert!(r.ok);
    assert_eq!((r.status, r.resolved_by), (Status::Acted, ResolvedBy::Ocr));
    assert_eq!((r.target.as_str(), r.matched_by), ("Save", Some(MatchTier::Exact)));
    assert_eq!(r.screen_changed, Some(change));
    assert_eq!(
        r.detail.unwrap(),
        "not in the UI tree; clicked the screen at (40,-50) where OCR read \"Save\". \
         No control pattern was involved, so this reports that the click was sent, \
         not that the application handled it - the screen then changed over 0.25% of its area \
         at (3,-4) 10x20."
    );
    let (_, m) = f.step(Report::Baseline);
    assert!(m.is_none());
}

#[test]
fn a_loose_read_and_a_still_screen_are_said_out_loud() {
    let report = reading(vec![read_at("5ave", (4, 5), MatchTier::Confusable)]);
    let (f, _) = after(report, &missed());
    let (f, _) = f.step(Report::Stop { engaged: false });
    let (f, _) = f.step(Report::Baseline);
    let (f, _) = f.step(Report::Clicked { click: Ok(()) });
    let (_, m) = f.step(Report::Settled { changed: None, share: String::new() });
    let r = result(m.unwrap());
    assert_eq!(
        r.detail.unwrap(),
        "not in the UI tree; clicked the screen at (4,5) where OCR read \"5ave\". \
         No control pattern was involved, so this reports that the click was sent, \
         not that the application handled it - The text was matched at the confusable tier \
         rather than read back verbatim, the screen did NOT change afterwards - the click most \
         likely missed, though a control already in the requested state would look the same."
    );
    assert_eq!(r.screen_changed, None);
}

#[test]
fn a_text_that_is_not_there_is_not_found() {
    let r = result(after(reading(vec![]), &missed()).1);
    assert_eq!(r.status, Status::NotFound);
    assert_eq!(r.target, "Untitled");
    assert_eq!(
        r.detail.unwrap(),
        "\"Save\" is neither in the UI tree nor on screen (12 lines read)"
    );
}

#[test]
fn several_reads_are_never_guessed_among() {
    let twice = vec![
        read_at("Save", (1, 1), MatchTier::Exact),
        read_at("Save", (2, 2), MatchTier::Exact),
        read_at("SAVE", (3, 3), MatchTier::Case),
    ];
    let r = result(after(reading(twice), &missed()).1);
    assert_eq!(r.status, Status::Ambiguous);
    assert_eq!(
        r.detail.unwrap(),
        "\"Save\" appears 2 times on screen. OCR cannot disambiguate by role - \
         narrow the query or use a UI-tree selector."
    );
}

#[test]
fn only_a_click_is_possible_on_a_screen_read_target() {
    let first = ActResult { action: "type".to_string(), ..missed() };
    let r = result(after(reading(vec![read_at("Save", (1, 1), MatchTier::Exact)]), &first).1);
    assert_eq!(r.status, Status::PatternGone);
    assert_eq!(
        r.detail.unwrap(),
        "OCR found \"Save\" but only \"click\" is possible on a screen-read target - \
         there is no control pattern to perform \"type\""
    );
}

#[test]
fn a_failed_reading_says_nothing_about_the_target() {
    let failed = Report::Read { reading: Reading::Failed("no engine".to_string()) };
    let r = result(after(failed, &missed()).1);
    assert_eq!(r.status, Status::Error);
    assert_eq!(r.detail.unwrap(), "not in the UI tree, and OCR failed: no engine");
    let lost = Report::Read { reading: Reading::Lost("panicked".to_string()) };
    let r = result(after(lost, &missed()).1);
    assert_eq!(r.status, Status::Error);
    assert_eq!(r.detail.unwrap(), "OCR task failed: panicked");
}

#[test]
fn the_stop_is_checked_again_before_the_click() {
    let report = reading(vec![read_at("Save", (1, 1), MatchTier::Exact)]);
    let (f, _) = after(report, &missed());
    let (_, m) = f.step(Report::Stop { engaged: true });
    let r = result(m.unwrap());
    assert_eq!(r.status, Status::Stopped);
    assert!(r.detail.unwrap().starts_with("EMERGENCY STOP"));
}

#[test]
fn a_click_that_failed_is_an_error() {
    let report = reading(vec![read_at("Save", (1, -1), MatchTier::Exact)]);
    let (f, _) = after(report, &missed());
    let (f, _) = f.step(Report::Stop { engaged: false });
    let (f, _) = f.step(Report::Baseline);
    let (_, m) = f.step(Report::Clicked { click: Err("blocked".to_string()) });
    let r = result(m.unwrap());
    assert_eq!(r.status, Status::Error);
    assert_eq!(
        r.detail.unwrap(),
        "OCR found \"Save\" at (1,-1) but the click failed: blocked"
    );
}

// --- waiting ---

fn entity(name: &str, enabled: bool) -> Entity {
    Entity {
        name: name.to_string(),
        control_type: "button".to_string(),
        automation_id: String::new(),
        bounds: None,
        click_at: (0, 0),
        actions: vec![],
        enabled,
        path: vec![2],
    }
}

fn seen(entities: Vec<Entity>) -> Result<Discovery, String> {
    Ok(Discovery {
        window: WindowInfo {
            name: String::new(),
            class_name: String::new(),
            control_type: String::new(),
            hwnd: 5,
            pid: 0,
            bounds: Bounds { x: 0, y: 0, w: 0, h: 0 },
        },
        scope: "token".to_string(),
        generation: 0,
        entities,
        truncated: None,
    })
}

fn params(until: Option<&str>) -> WaitForParams {
    WaitForParams {
        hwnd: 5,
        select: selector(Some("Save")),
        until: until.map(|u| u.to_string()),
        timeout_ms: None,
        poll_ms: None,
    }
}

fn wait(until: &str) -> Wait {
    Wait::begin(params(Some(until))).unwrap()
}

fn ended(n: WaitNext) -> WaitResult {
    match n {
        WaitNext::Done { result } => result,
        other => panic!("still waiting: {other:?}"),
    }
}

#[test]
fn a_wait_has_defaults_and_limits() {
    let w = Wait::begin(params(None)).unwrap();
    assert_eq!((w.until, w.timeout_ms, w.poll_ms, w.polls), (Until::Appears, 10_000, 250, 0));
    let w = Wait::begin(WaitForParams {
        timeout_ms: Some(999_999),
        poll_ms: Some(1),
        ..params(Some("ENABLED"))
    })
    .unwrap();
    assert_eq!((w.until, w.timeout_ms, w.poll_ms), (Until::Enabled, 120_000, 50));
    let a = w.args();
    assert_eq!((a.hwnd, a.max_elements, a.filter), (Some(5), 400, Filter::All));
}

#[test]
fn a_wait_that_makes_no_sense_is_refused() {
    assert!(matches!(
        Wait::begin(params(Some("Vanishes"))),
        Err(Refusal::InvalidParams(t))
            if t == "unknown `until` value \"vanishes\" (appears|disappears|enabled)"
    ));
    let empty = WaitForParams { select: selector(None), ..params(None) };
    assert!(matches!(
        Wait::begin(empty),
        Err(Refusal::InvalidParams(t))
            if t == "`select` is empty - it would match every element and return instantly"
    ));
}

#[test]
fn a_control_that_appears_is_handed_back_with_its_scope() {
    let mut w = wait("appears");
    assert!(matches!(w.step(seen(vec![]), 0), WaitNext::Sleep { ms: 250 }));
    let r = ended(w.step(seen(vec![entity("SAVE", true), entity("Save", false)]), 300));
    assert!(r.ok);
    assert_eq!((r.status, r.until, r.polls), (WaitStatus::Met, Until::Appears, 2));
    assert_eq!(r.scope.as_deref(), Some("token"));
    assert_eq!(r.matched_by, Some(MatchTier::Exact));
    assert_eq!(r.matched.unwrap().path, vec![2]);
}

#[test]
fn several_controls_are_never_guessed_among() {
    let mut w = wait("appears");
    let r = ended(w.step(seen(vec![entity("Save", true), entity("Save", true)]), 0));
    assert!(!r.ok);
    assert_eq!(r.status, WaitStatus::Ambiguous);
    assert!(r.matched.is_none());
    assert_eq!(
        r.detail.unwrap(),
        "2 elements match name=\"Save\" at the exact tier. Add automation_id or control_type."
    );
}

#[test]
fn a_greyed_control_is_waited_for() {
    let mut w = wait("enabled");
    assert!(matches!(w.step(seen(vec![entity("Save", false)]), 0), WaitNext::Sleep { .. }));
    let r = ended(w.step(seen(vec![entity("Save", true)]), 1));
    assert!(r.ok && r.matched.unwrap().enabled);
}

#[test]
fn a_disappearance_needs_nothing_left() {
    let mut w = wait("disappears");
    assert!(matches!(w.step(seen(vec![entity("save", true)]), 0), WaitNext::Sleep { .. }));
    let r = ended(w.step(seen(vec![entity("Open", true)]), 1));
    assert!(r.ok);
    assert!(r.scope.is_none() && r.matched.is_none() && r.detail.is_none());
}

#[test]
fn a_window_that_vanishes_satisfies_a_disappearance_only() {
    let r = ended(wait("disappears").step(Err("gone".to_string()), 0));
    assert!(r.ok);
    assert_eq!(
        r.detail.unwrap(),
        "the window is no longer reachable, which satisfies `disappears`: gone"
    );
    let r = ended(wait("appears").step(Err("gone".to_string()), 0));
    assert!(!r.ok);
    assert_eq!(r.status, WaitStatus::Failed);
    assert_eq!(r.detail.unwrap(), "the window could not be walked: gone");
}

#[test]
fn a_wait_gives_up_when_its_time_is_up() {
    let mut w = wait("enabled");
    assert!(matches!(w.step(seen(vec![]), 9_999), WaitNext::Sleep { .. }));
    let r = ended(w.step(seen(vec![]), 10_000));
    assert!(!r.ok);
    assert_eq!((r.status, r.polls), (WaitStatus::TimedOut, 2));
    assert_eq!(
        r.detail.unwrap(),
        "nothing satisfied `enabled` for name=\"Save\" within 10000 ms"
    );
}

#[test]
fn outcomes_of_a_wait_have_names() {
    assert_eq!(WaitStatus::Met.as_str(), "ok");
    assert_eq!(WaitStatus::TimedOut.as_str(), "timeout");
    assert_eq!(WaitStatus::Ambiguous.as_str(), "ambiguous");
    assert_eq!(WaitStatus::Failed.as_str(), "error");
    assert_eq!(Until::Appears.as_str(), "appears");
    assert_eq!(Until::Disappears.as_str(), "disappears");
    assert_eq!(Until::Enabled.as_str(), "enabled");
}

#[test]
fn a_picture_is_attached_when_there_is_one() {
    assert_eq!(attached_picture(&[]), None);
    assert_eq!(attached_picture(b"\xfb\xff"), Some("+/8=".to_string()));
    assert_eq!(attached_picture(b"PNG"), Some("UE5H".to_string()));
}
