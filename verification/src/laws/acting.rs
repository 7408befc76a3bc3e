//! Acting on an element.

use vstd::prelude::*;
use vstd::utf8::*;
use crate::chars::{ascii_lower, ascii_lowered, decimal};
use crate::foreign::quoted;
use crate::input::key_events;
use crate::keys::{chords_in, complaint};
use crate::lease::{issued, opened, sealed, LeaseError, Scope, DEFAULT_TTL_SECS};
use crate::scope_text::lemma_written;
use crate::text::{best_of, best_rank, capped, tier, words, MatchTier};
use crate::uia::act::{
    ambiguity, begun, comma_list, finished, first_names, located, next, Act, ActArgs, ActResultView, ActView,
    Ask, AskView, Call, Event, Pattern, ResolvedBy, Stage, Status,
};
use crate::uia::tree::{
    hit_tiers, hit_views, hits, places, resolve, resolved, selected, Hit, HitView, Node, Place,
};
use crate::uia::{generation, scope_of, RawWindow, Selector, SelectorView, WindowView};
use super::discovery::{at_path, law_a_path_leads_back, law_every_path_has_its_place};
use super::labels::law_the_best_hits_are_kept;

verus! {

/// An action, the events it has taken in and the requests it made in return.
pub struct Run {
    pub act: ActView,
    pub asks: Seq<AskView>,
}

/// The run of an action through some events, each with the moment at which it
/// came in; `None` when one of them does not answer what was asked.
pub open spec fn run(a: ActView, events: Seq<(Event, u64)>, key: Seq<u8>) -> Option<Run>
    decreases events.len(),
{
    if events.len() == 0 {
        Some(Run { act: a, asks: seq![] })
    } else {
        match run(a, events.drop_last(), key) {
            None => None,
            Some(r) => match next(r.act, events.last().0, events.last().1, key) {
                None => None,
                Some(o) => Some(Run { act: o.0, asks: r.asks.push(o.1) }),
            },
        }
    }
}

/// A request that is felt by the application: its pattern is called or keys are
/// sent to it.
pub open spec fn is_effect(ask: AskView) -> bool {
    ask is Keys || ask is Pattern
}

/// A request that touches the control at all: an effect, or taking the focus
/// for one.
pub open spec fn touches(ask: AskView) -> bool {
    is_effect(ask) || ask is Focus
}

/// How many of the requests are effects.
pub open spec fn effects(asks: Seq<AskView>) -> nat
    decreases asks.len(),
{
    if asks.len() == 0 {
        0
    } else {
        effects(asks.drop_last()) + (if is_effect(asks.last()) {
            1nat
        } else {
            0
        })
    }
}

/// How many of the requests touch the control.
pub open spec fn contacts(asks: Seq<AskView>) -> nat
    decreases asks.len(),
{
    if asks.len() == 0 {
        0
    } else {
        contacts(asks.drop_last()) + (if touches(asks.last()) {
            1nat
        } else {
            0
        })
    }
}

/// Nothing has been asked for yet that touches the control.
spec fn before_contact(s: Stage) -> bool {
    s == Stage::Exists || s == Stage::Window || s is Children || s is Child || s == Stage::Element
        || s == Stage::State
}

/// The platform reported that the control could not be focused, that its
/// pattern is gone, or that the call of it failed.
pub open spec fn said_no(e: Event) -> bool {
    match e {
        Event::Focused { focus } => focus is Err,
        Event::Called { call } => call !is Done,
        _ => false,
    }
}

/// What a run has asked for, by the stage it has reached.
spec fn accounted(r: Run, events: Seq<(Event, u64)>) -> bool {
    let s = r.act.stage;
    &&& before_contact(s) ==> effects(r.asks) == 0 && contacts(r.asks) == 0
    &&& s == Stage::Focus ==> effects(r.asks) == 0
    &&& s == Stage::Keys || s == Stage::Pattern || s == Stage::Rescope ==> effects(r.asks) == 1
    &&& s == Stage::Done ==> r.asks.len() > 0 && match r.asks.last() {
        AskView::Done { result } => {
            &&& effects(r.asks) <= 1
            &&& result.ok == (result.status == Status::Acted)
            &&& result.ok ==> effects(r.asks) == 1
            &&& !result.ok ==> contacts(r.asks) == 0 || events.len() > 0 && said_no(events.last().0)
        },
        AskView::Failed { .. } => effects(r.asks) == 1,
        _ => false,
    }
}

proof fn lemma_push(asks: Seq<AskView>, ask: AskView)
    ensures
        effects(asks.push(ask)) == effects(asks) + (if is_effect(ask) {
            1nat
        } else {
            0
        }),
        contacts(asks.push(ask)) == contacts(asks) + (if touches(ask) {
            1nat
        } else {
            0
        }),
{
    assert(asks.push(ask).drop_last() =~= asks);
}

proof fn lemma_accounted(a: ActView, events: Seq<(Event, u64)>, key: Seq<u8>)
    requires
        a.stage == Stage::Exists,
        run(a, events, key) is Some,
    ensures
        accounted(run(a, events, key)->0, events),
    decreases events.len(),
{
    if events.len() > 0 {
        lemma_accounted(a, events.drop_last(), key);
        let r = run(a, events.drop_last(), key)->0;
        let o = next(r.act, events.last().0, events.last().1, key)->0;
        lemma_push(r.asks, o.1);
        assert(r.asks.push(o.1).last() == o.1);
    }
}

/// An action takes effect once at the most, however it goes.
pub proof fn law_an_action_takes_effect_at_most_once(
    args: ActArgs,
    scope: Scope,
    events: Seq<(Event, u64)>,
    key: Seq<u8>,
)
    requires
        run(begun(args, scope), events, key) is Some,
    ensures
        effects((run(begun(args, scope), events, key)->0).asks) <= 1,
{
    lemma_accounted(begun(args, scope), events, key);
}

/// A result that says so reports an effect that was asked for. Any other result
/// means that nothing happened: nothing was asked for that touches the control,
/// or the last thing that the platform reported is that it could not be focused,
/// that its pattern is gone, or that the call failed.
pub proof fn law_a_refusal_means_that_nothing_happened(
    args: ActArgs,
    scope: Scope,
    events: Seq<(Event, u64)>,
    key: Seq<u8>,
    result: ActResultView,
)
    requires
        run(begun(args, scope), events, key) matches Some(r) && r.asks.len() > 0 && r.asks.last()
            == (AskView::Done { result }),
    ensures
        ({
            let asks = (run(begun(args, scope), events, key)->0).asks;
            &&& result.ok == (result.status == Status::Acted)
            &&& result.ok ==> effects(asks) == 1
            &&& !result.ok ==> contacts(asks) == 0 || events.len() > 0 && said_no(events.last().0)
        }),
{
    lemma_accounted(begun(args, scope), events, key);
    lemma_done(begun(args, scope), events, key);
}

proof fn lemma_done(a: ActView, events: Seq<(Event, u64)>, key: Seq<u8>)
    requires
        run(a, events, key) matches Some(r) && r.asks.len() > 0 && r.asks.last() is Done,
    ensures
        (run(a, events, key)->0).act.stage == Stage::Done,
{
    if events.len() > 0 {
        let r = run(a, events.drop_last(), key)->0;
        let o = next(r.act, events.last().0, events.last().1, key)->0;
        assert(r.asks.push(o.1).last() == o.1);
    }
}

/// The platform reported that the control has taken the focus.
pub open spec fn took_focus(e: Event) -> bool {
    e matches Event::Focused { focus } && focus is Ok
}

/// What may come once the focus was taken.
spec fn committed(r: Run) -> bool {
    let s = r.act.stage;
    ||| s == Stage::Keys
    ||| s == Stage::Rescope
    ||| s == Stage::Done && r.asks.len() > 0 && match r.asks.last() {
        AskView::Done { result } => result.ok,
        AskView::Failed { .. } => true,
        _ => false,
    }
}

proof fn lemma_committed(a: ActView, events: Seq<(Event, u64)>, key: Seq<u8>)
    requires
        a.stage == Stage::Exists,
        run(a, events, key) is Some,
        reported(events, |e: Event| took_focus(e)),
    ensures
        committed(run(a, events, key)->0),
    decreases events.len(),
{
    let before = events.drop_last();
    let r = run(a, before, key)->0;
    let o = next(r.act, events.last().0, events.last().1, key)->0;
    assert(r.asks.push(o.1).last() == o.1);
    if reported(before, |e: Event| took_focus(e)) {
        lemma_committed(a, before, key);
    } else {
        let i = choose|i: int| 0 <= i < events.len() && took_focus((#[trigger] events[i]).0);
        if i < before.len() {
            assert(before[i] == events[i]);
        }
        assert(took_focus(events.last().0));
    }
}

/// Once the focus was taken no refusal comes any more: the action succeeds, or
/// it breaks off with an error that is no result.
pub proof fn law_no_refusal_once_the_focus_was_taken(
    args: ActArgs,
    scope: Scope,
    events: Seq<(Event, u64)>,
    key: Seq<u8>,
    result: ActResultView,
)
    requires
        run(begun(args, scope), events, key) matches Some(r) && r.asks.len() > 0 && r.asks.last()
            == (AskView::Done { result }),
        reported(events, |e: Event| took_focus(e)),
    ensures
        result.ok,
{
    lemma_done(begun(args, scope), events, key);
    lemma_committed(begun(args, scope), events, key);
}

/// An action breaks off for one reason only: the focus was taken, and the
/// keystrokes failed.
pub proof fn law_only_failed_keystrokes_break_off(a: ActView, event: Event, now: u64, key: Seq<u8>)
    requires
        next(a, event, now, key) matches Some(o) && o.1 is Failed,
    ensures
        a.stage == Stage::Keys,
        event matches Event::Typed { typing } && typing is Err,
{
}

/// Once an action is done nothing more can come of it.
pub proof fn law_a_finished_action_stays_finished(a: ActView, event: Event, now: u64, key: Seq<u8>)
    requires
        a.stage == Stage::Done,
    ensures
        next(a, event, now, key) is None,
{
}

// What has been verified before anything happens

/// The platform reported that the window exists.
pub open spec fn saw_window_alive(e: Event) -> bool {
    e == (Event::Exists { alive: true })
}

/// The platform reported a window that is still the one the scope was issued
/// for; if the target is to be found by a selector, just one element answers to
/// it.
pub open spec fn saw_same_window(a: ActView, e: Event) -> bool {
    e matches Event::Window { raw, tree } && {
        &&& generation(WindowView { hwnd: a.scope.hwnd, ..raw.described() }) == a.scope.generation
        &&& a.by == ResolvedBy::Selector ==> resolved(tree, a.select->0).len() == 1
    }
}

/// The platform reported that the target is enabled and on screen.
pub open spec fn saw_ready_target(e: Event) -> bool {
    e matches Event::State { enabled, offscreen, .. } && enabled && !offscreen
}

/// Some event is as `p` says.
pub open spec fn reported(events: Seq<(Event, u64)>, p: spec_fn(Event) -> bool) -> bool {
    exists|i: int| 0 <= i < events.len() && p((#[trigger] events[i]).0)
}

proof fn lemma_reported_longer(
    events: Seq<(Event, u64)>,
    more: Seq<(Event, u64)>,
    p: spec_fn(Event) -> bool,
)
    requires
        more.len() > 0,
        events == more.drop_last(),
    ensures
        reported(events, p) || p(more.last().0) ==> reported(more, p),
{
    if reported(events, p) {
        let i = choose|i: int| 0 <= i < events.len() && p((#[trigger] events[i]).0);
        assert(more[i] == events[i]);
    }
    if p(more.last().0) {
        assert(more[more.len() - 1] == more.last());
    }
}

/// The guards that have passed, by the stage that has been reached.
spec fn guarded(start: ActView, r: Run, events: Seq<(Event, u64)>) -> bool {
    let s = r.act.stage;
    &&& r.act.scope == start.scope && r.act.by == start.by && r.act.select == start.select
    &&& r.act.path == start.path && r.act.action == start.action && r.act.value == start.value
    &&& s != Stage::Exists && s != Stage::Done ==> reported(
        events,
        |e: Event| saw_window_alive(e),
    )
    &&& s != Stage::Exists && s != Stage::Window && s != Stage::Done ==> reported(
        events,
        |e: Event| saw_same_window(start, e),
    )
    &&& !before_contact(s) && s != Stage::Done ==> reported(events, |e: Event| saw_ready_target(e))
}

proof fn lemma_guarded(a: ActView, events: Seq<(Event, u64)>, key: Seq<u8>)
    requires
        a.stage == Stage::Exists,
        run(a, events, key) is Some,
    ensures
        guarded(a, run(a, events, key)->0, events),
    decreases events.len(),
{
    if events.len() > 0 {
        let before = events.drop_last();
        lemma_guarded(a, before, key);
        let r = run(a, before, key)->0;
        let last = events.last();
        let o = next(r.act, last.0, last.1, key)->0;
        lemma_reported_longer(before, events, |e: Event| saw_window_alive(e));
        lemma_reported_longer(before, events, |e: Event| saw_same_window(a, e));
        lemma_reported_longer(before, events, |e: Event| saw_ready_target(e));
    }
}

/// Everything is verified before anything happens: when a control is touched,
/// the platform has reported that the window exists, that it is still the one
/// the scope was issued for, that a selector resolves to one element, and that
/// the target is enabled and on screen.
pub proof fn law_everything_is_verified_first(
    args: ActArgs,
    scope: Scope,
    events: Seq<(Event, u64)>,
    key: Seq<u8>,
)
    requires
        run(begun(args, scope), events, key) matches Some(r) && r.asks.len() > 0 && touches(
            r.asks.last(),
        ),
    ensures
        reported(events, |e: Event| saw_window_alive(e)),
        reported(events, |e: Event| saw_same_window(begun(args, scope), e)),
        reported(events, |e: Event| saw_ready_target(e)),
{
    let a = begun(args, scope);
    lemma_guarded(a, events, key);
    if events.len() > 0 {
        let r = run(a, events.drop_last(), key)->0;
        let o = next(r.act, events.last().0, events.last().1, key)->0;
        assert(r.asks.push(o.1).last() == o.1);
    }
}

// Scopes

/// A scope fits the window it was made for: as long as handle, process, class,
/// title and size are what they were, the window is recognised.
pub proof fn law_a_scope_fits_its_window(
    a: ActView,
    raw: RawWindow,
    tree: Node,
    now: u64,
    ttl: u64,
)
    requires
        a.scope == scope_of(raw.described(), now, ttl),
    ensures
        !(located(a, raw, tree).1 matches AskView::Done { result } && result.status
            == Status::IdentityChanged),
{
}

/// Acting can be chained: the scope that comes back from an action is that of
/// the window as the action left it.
pub proof fn law_the_next_scope_is_for_the_window_as_it_is(
    a: ActView,
    raw: RawWindow,
    now: u64,
    key: Seq<u8>,
    token: Seq<char>,
)
    requires
        issued(
            token,
            scope_of(
                WindowView { hwnd: a.scope.hwnd, ..raw.described() },
                now,
                DEFAULT_TTL_SECS,
            ),
            key,
        ),
    ensures
        finished(a, Some(raw), now, key).1 matches AskView::Done { result } && result.next_scope
            == Some(token),
{
}

// Paths

/// The requests with which an action walks down `path` from step `at` on, and
/// the answers that the tree below `node` gives.
pub open spec fn walks_to(node: Node, a: ActView, at: nat) -> Option<Node>
    decreases a.path.len() - at,
{
    if at >= a.path.len() {
        Some(node)
    } else {
        let asked = ActView { stage: Stage::Children { at: at as usize }, ..a };
        let count = node.children@.len();
        match next(asked, (Event::Children { count: Some(count as u32) }), 0, seq![]) {
            Some((_, AskView::Child { index, .. })) => walks_to(
                node.children@[index as int],
                a,
                at + 1,
            ),
            _ => None,
        }
    }
}

proof fn lemma_walks(node: Node, a: ActView, at: nat)
    requires
        node.wf(),
        at <= a.path.len() <= usize::MAX,
    ensures
        walks_to(node, a, at) == at_path(node, a.path.skip(at as int)),
    decreases a.path.len() - at,
{
    let rest = a.path.skip(at as int);
    if at < a.path.len() {
        assert(rest[0] == a.path[at as int]);
        assert(rest.skip(1) =~= a.path.skip(at as int + 1));
        if rest[0] < node.children@.len() {
            lemma_walks(node.children@[rest[0] as int], a, at + 1);
        }
    }
}

/// A path is walked to where it leads: answered from an unchanged tree, the
/// requests of an action move step by step to the element that the path leads
/// to, and are refused where it leads nowhere.
pub proof fn law_a_path_is_walked_to_where_it_leads(root: Node, a: ActView)
    requires
        root.wf(),
        a.path.len() <= usize::MAX,
    ensures
        walks_to(root, a, 0) == at_path(root, a.path),
{
    lemma_walks(root, a, 0);
    assert(a.path.skip(0) =~= a.path);
}

// What is asked of the platform

proof fn lemma_request(a: ActView, events: Seq<(Event, u64)>, key: Seq<u8>, i: int)
    requires
        run(a, events, key) matches Some(r) && 0 <= i < r.asks.len(),
    ensures
        (run(a, events, key)->0).asks.len() == events.len(),
        run(a, events.take(i), key) matches Some(before) && next(
            before.act,
            events[i].0,
            events[i].1,
            key,
        ) matches Some(o) && o.1 == (run(a, events, key)->0).asks[i] && run(
            a,
            events.take(i + 1),
            key,
        ) == Some(Run { act: o.0, asks: before.asks.push(o.1) }),
    decreases events.len(),
{
    let less = events.drop_last();
    let r = run(a, less, key)->0;
    let n = events.len() - 1;
    if less.len() > 0 {
        if r.asks.len() > 0 {
            lemma_request(a, less, key, 0);
        } else {
            lemma_run_len(a, less, key);
        }
    }
    lemma_run_len(a, less, key);
    if i < n {
        lemma_request(a, less, key, i);
        assert(less.take(i) =~= events.take(i));
        assert(less.take(i + 1) =~= events.take(i + 1));
    } else {
        assert(events.take(i) =~= less);
        assert(events.take(i + 1) =~= events);
        assert(events.last() == events[i]);
    }
}

proof fn lemma_run_len(a: ActView, events: Seq<(Event, u64)>, key: Seq<u8>)
    requires
        run(a, events, key) is Some,
    ensures
        (run(a, events, key)->0).asks.len() == events.len(),
    decreases events.len(),
{
    if events.len() > 0 {
        lemma_run_len(a, events.drop_last(), key);
    }
}

/// What an action under way still knows of what it was begun with.
spec fn remembers(start: ActView, a: ActView) -> bool {
    &&& a.scope == start.scope && a.by == start.by && a.path == start.path
    &&& a.select == start.select && a.action == start.action && a.value == start.value
    &&& a.stage == Stage::Focus || a.stage == Stage::Keys ==> {
        &&& a.action == "key"@
        &&& complaint(a.value) is None
        &&& a.chords == chords_in(words(a.value))
    }
}

proof fn lemma_remembers(a: ActView, events: Seq<(Event, u64)>, key: Seq<u8>)
    requires
        a.stage == Stage::Exists,
        run(a, events, key) is Some,
    ensures
        remembers(a, (run(a, events, key)->0).act),
    decreases events.len(),
{
    if events.len() > 0 {
        lemma_remembers(a, events.drop_last(), key);
    }
}

/// The text that the caller gave, if any.
pub open spec fn given(value: Option<String>) -> Seq<char> {
    match value {
        Some(v) => v@,
        None => seq![],
    }
}

/// The target is to be found by a selector: the caller gave one, and it
/// constrains something.
pub open spec fn by_selector(select: Option<Selector>) -> bool {
    select matches Some(s) && (s.name is Some || s.automation_id is Some || s.control_type is Some)
}

/// What is asked of the platform is what the caller asked for. A pattern is
/// called for the action that it belongs to, with exactly the text that was
/// given. The focus is taken and keys are sent for `key` only, and the keys are
/// those of the text. The window that is looked at is the one the scope is for,
/// with everything below it only where a selector has to be searched for.
pub proof fn law_what_is_asked_is_what_was_asked_for(
    args: ActArgs,
    scope: Scope,
    events: Seq<(Event, u64)>,
    key: Seq<u8>,
    i: int,
)
    requires
        run(begun(args, scope), events, key) matches Some(r) && 0 <= i < r.asks.len(),
    ensures
        match (run(begun(args, scope), events, key)->0).asks[i] {
            AskView::Pattern { pattern, value } => {
                &&& value == given(args.value)
                &&& pattern == Pattern::Invoke <==> args.action@ == "click"@
                &&& pattern == Pattern::Value <==> args.action@ == "type"@
                &&& pattern == Pattern::Toggle <==> args.action@ == "toggle"@
                &&& pattern == Pattern::ExpandCollapse <==> args.action@ == "expand"@
                &&& pattern == Pattern::SelectionItem <==> args.action@ == "select"@
            },
            AskView::Focus => args.action@ == "key"@,
            AskView::Keys { events: ks } => {
                &&& args.action@ == "key"@
                &&& complaint(given(args.value)) is None
                &&& ks == key_events(chords_in(words(given(args.value))))
            },
            AskView::Exists { hwnd } => hwnd == scope.hwnd,
            AskView::Window { hwnd, subtree } => {
                &&& hwnd == scope.hwnd
                &&& subtree <==> by_selector(args.select)
            },
            AskView::Rescope { hwnd } => hwnd == scope.hwnd,
            AskView::Element { .. } => by_selector(args.select),
            AskView::Children => !by_selector(args.select),
            AskView::Child { .. } => !by_selector(args.select),
            AskView::Done { result } => {
                &&& result.action == args.action@
                &&& result.resolved_by == (if by_selector(args.select) {
                    ResolvedBy::Selector
                } else {
                    ResolvedBy::Path
                })
                &&& result.screen_changed is None
                &&& result.detail is Some
            },
            AskView::State => true,
            AskView::Failed { .. } => args.action@ == "key"@,
        },
{
    let a = begun(args, scope);
    assert(a.path.len() == args.path.len());
    lemma_request(a, events, key, i);
    lemma_remembers(a, events.take(i), key);
    lemma_route(a, events.take(i), key);
    lemma_distinct_actions();
}

proof fn lemma_distinct_actions()
    ensures
        "click"@.len() == 5,
        "type"@.len() == 4 && "type"@[0] == 't',
        "toggle"@.len() == 6 && "toggle"@[0] == 't',
        "expand"@.len() == 6 && "expand"@[0] == 'e',
        "select"@.len() == 6 && "select"@[0] == 's',
        "key"@.len() == 3,
{
    reveal_strlit("click");
    reveal_strlit("type");
    reveal_strlit("toggle");
    reveal_strlit("expand");
    reveal_strlit("select");
    reveal_strlit("key");
}

/// The indices of the children that were moved to, in order.
pub open spec fn steps_taken(asks: Seq<AskView>) -> Seq<u32>
    decreases asks.len(),
{
    if asks.len() == 0 {
        seq![]
    } else {
        match asks.last() {
            AskView::Child { index, .. } => steps_taken(asks.drop_last()).push(index),
            _ => steps_taken(asks.drop_last()),
        }
    }
}

/// How far along the path a run is, by the stage it has reached.
spec fn on_route(start: ActView, r: Run) -> bool {
    let s = r.act.stage;
    &&& r.act.path == start.path && r.act.by == start.by
    &&& start.by == ResolvedBy::Path || start.by == ResolvedBy::Selector
    &&& s is Children || s is Child ==> start.by == ResolvedBy::Path
    &&& s == Stage::Element ==> start.by == ResolvedBy::Selector
    &&& s == Stage::Exists || s == Stage::Window || s == Stage::Element ==> steps_taken(r.asks)
        == Seq::<u32>::empty()
    &&& s matches Stage::Children { at } ==> at < start.path.len() && steps_taken(r.asks)
        == start.path.take(at as int)
    &&& s matches Stage::Child { at } ==> at < start.path.len() && steps_taken(r.asks)
        == start.path.take(at + 1)
    &&& !before_contact(s) && s != Stage::Done || s == Stage::State ==> steps_taken(r.asks) == (
    if start.by == ResolvedBy::Selector {
        Seq::<u32>::empty()
    } else {
        start.path
    })
}

proof fn lemma_route(a: ActView, events: Seq<(Event, u64)>, key: Seq<u8>)
    requires
        a.stage == Stage::Exists,
        a.by == ResolvedBy::Path || a.by == ResolvedBy::Selector,
        run(a, events, key) is Some,
        a.path.len() <= usize::MAX,
    ensures
        on_route(a, run(a, events, key)->0),
    decreases events.len(),
{
    if events.len() > 0 {
        lemma_route(a, events.drop_last(), key);
        let r = run(a, events.drop_last(), key)->0;
        let o = next(r.act, events.last().0, events.last().1, key)->0;
        let asks = r.asks.push(o.1);
        assert(asks.drop_last() =~= r.asks);
        assert(asks.last() == o.1);
        assert(a.path.take(0) =~= Seq::<u32>::empty());
        assert(a.path.take(a.path.len() as int) =~= a.path);
        if r.act.stage is Children && o.1 is Child {
            let at = r.act.stage->Children_at as int;
            assert(a.path.take(at).push(a.path[at]) =~= a.path.take(at + 1));
        }
        if a.path.len() == 0 {
            assert(a.path =~= Seq::<u32>::empty());
        }
    }
}

/// A path is followed to its end: when a control is touched and no selector was
/// given, the children that were moved to are those of the path, one by one and
/// all of them. With a selector none of it is walked.
pub proof fn law_a_path_is_followed_to_its_end(
    args: ActArgs,
    scope: Scope,
    events: Seq<(Event, u64)>,
    key: Seq<u8>,
)
    requires
        run(begun(args, scope), events, key) matches Some(r) && r.asks.len() > 0 && touches(
            r.asks.last(),
        ),
    ensures
        steps_taken((run(begun(args, scope), events, key)->0).asks) == (if by_selector(
            args.select,
        ) {
            Seq::<u32>::empty()
        } else {
            args.path@
        }),
{
    let a = begun(args, scope);
    assert(a.path.len() == args.path.len());
    lemma_route(a, events, key);
    if events.len() > 0 {
        let r = run(a, events.drop_last(), key)->0;
        let o = next(r.act, events.last().0, events.last().1, key)->0;
        assert(r.asks.push(o.1).last() == o.1);
    }
}

/// What each answer of the platform leads to. A window that is gone, or that is
/// not the one the scope is for, ends the action as such; so does a control that
/// is disabled or offscreen, a focus that is refused and a pattern that is not
/// there or fails; nothing else does. A control that is enabled and on screen is
/// acted on whenever the action is known, and what was done is followed by a
/// look at the window as it is now.
pub proof fn law_each_answer_has_its_consequence(
    args: ActArgs,
    scope: Scope,
    events: Seq<(Event, u64)>,
    key: Seq<u8>,
)
    requires
        run(begun(args, scope), events, key) is Some,
        events.len() > 0,
    ensures
        ({
            let ask = (run(begun(args, scope), events, key)->0).asks.last();
            let known = args.action@ == "click"@ || args.action@ == "type"@ || args.action@
                == "toggle"@ || args.action@ == "expand"@ || args.action@ == "select"@;
            let typable = args.action@ == "key"@ && complaint(given(args.value)) is None;
            match events.last().0 {
                Event::Exists { alive } => {
                    &&& alive ==> ask is Window
                    &&& !alive ==> ended_as(ask, Status::IdentityChanged)
                },
                Event::Window { raw, tree } => {
                    let seen = WindowView { hwnd: scope.hwnd, ..raw.described() };
                    if generation(seen) != scope.generation {
                        ended_as(ask, Status::IdentityChanged)
                    } else if by_selector(args.select) {
                        let hits = resolved(tree, (args.select->0)@);
                        &&& hits.len() == 0 <==> ended_as(ask, Status::NotFound)
                        &&& hits.len() > 1 <==> ended_as(ask, Status::Ambiguous)
                        &&& hits.len() == 1 <==> ask is Element
                        &&& ask matches AskView::Element { path } ==> path == hits[0].path
                    } else {
                        &&& args.path@.len() == 0 ==> ask is State
                        &&& args.path@.len() > 0 ==> ask is Children
                    }
                },
                Event::State { name, enabled, offscreen } => {
                    &&& !enabled ==> ended_as(ask, Status::Disabled)
                    &&& enabled && offscreen ==> ended_as(ask, Status::Moved)
                    &&& enabled && !offscreen && known ==> ask is Pattern
                    &&& enabled && !offscreen && typable ==> ask is Focus
                    &&& enabled && !offscreen && !known && !typable ==> ended_as(
                        ask,
                        Status::PatternGone,
                    )
                    &&& ask matches AskView::Done { result } ==> result.target == name@
                },
                Event::Focused { focus } => {
                    &&& focus is Ok ==> ask is Keys
                    &&& focus is Err ==> ended_as(ask, Status::PatternGone)
                },
                Event::Typed { typing } => {
                    &&& typing is Ok ==> ask is Rescope
                    &&& typing is Err ==> ask is Failed
                },
                Event::Called { call } => {
                    &&& call is Done ==> ask is Rescope
                    &&& !(call is Done) ==> ended_as(ask, Status::PatternGone)
                },
                Event::Rescoped { window } => ask matches AskView::Done { result } && result.ok
                    && result.status == Status::Acted && (window is None ==> result.next_scope is None)
                    && (window is Some ==> result.next_scope is Some),
                Event::Children { count } => {
                    &&& count is None ==> ended_as(ask, Status::NotFound)
                    &&& count is Some ==> ended_as(ask, Status::NotFound) || ask is Child
                },
                Event::Moved => ask is Children || ask is State,
            }
        }),
{
    let a = begun(args, scope);
    assert(a.path.len() == args.path.len());
    let before = events.drop_last();
    lemma_remembers(a, before, key);
    lemma_route(a, before, key);
    let r = run(a, before, key)->0;
    let o = next(r.act, events.last().0, events.last().1, key)->0;
    assert(r.asks.push(o.1).last() == o.1);
    lemma_distinct_actions();
}

/// The action ended without an effect, and says so under that status.
pub open spec fn ended_as(ask: AskView, status: Status) -> bool {
    ask matches AskView::Done { result } && !result.ok && result.status == status
        && result.next_scope is None
}

/// A step of a path is taken exactly when it is there: a child is moved to if
/// and only if its index is less than the number of children, and it is the
/// child that the path names next.
pub proof fn law_a_step_is_taken_if_it_is_there(
    args: ActArgs,
    scope: Scope,
    events: Seq<(Event, u64)>,
    key: Seq<u8>,
    count: u32,
)
    requires
        run(begun(args, scope), events, key) is Some,
        events.len() > 0,
        events.last().0 == (Event::Children { count: Some(count) }),
    ensures
        ({
            let earlier = (run(begun(args, scope), events.drop_last(), key)->0).asks;
            let ask = (run(begun(args, scope), events, key)->0).asks.last();
            let at = steps_taken(earlier).len() as int;
            &&& at < args.path@.len()
            &&& args.path@[at] < count <==> ask is Child
            &&& ask matches AskView::Child { index, leaf } ==> index == args.path@[at] && leaf == (at
                + 1 == args.path@.len())
        }),
{
    let a = begun(args, scope);
    assert(a.path.len() == args.path.len());
    let before = events.drop_last();
    lemma_remembers(a, before, key);
    lemma_route(a, before, key);
    let r = run(a, before, key)->0;
    let o = next(r.act, events.last().0, events.last().1, key)->0;
    assert(r.asks.push(o.1).last() == o.1);
}

/// The platform reported a control of that name.
pub open spec fn names_target(e: Event, target: Seq<char>) -> bool {
    e matches Event::State { name, .. } && name@ == target
}

/// The platform reported a window in which one element answers to the selector,
/// at that tier.
pub open spec fn shows_one(e: Event, sel: SelectorView, tier: Option<MatchTier>) -> bool {
    e matches Event::Window { raw, tree } && resolved(tree, sel).len() == 1 && tier == Some(
        resolved(tree, sel)[0].tier,
    )
}

/// What an action has heard of its target.
spec fn heard(a: ActView, events: Seq<(Event, u64)>) -> bool {
    let s = a.stage;
    let acting = !before_contact(s) && s != Stage::Done;
    &&& acting ==> reported(events, |e: Event| names_target(e, a.target))
    &&& s == Stage::Exists || s == Stage::Window || s is Children || s is Child ==> a.matched
        is None
    &&& a.by == ResolvedBy::Path ==> a.matched is None
    &&& a.by == ResolvedBy::Selector && (s == Stage::Element || s == Stage::State || acting)
        ==> reported(events, |e: Event| shows_one(e, a.select->0, a.matched))
}

proof fn lemma_heard(a: ActView, events: Seq<(Event, u64)>, key: Seq<u8>)
    requires
        a.stage == Stage::Exists,
        a.matched is None,
        a.by == ResolvedBy::Path || a.by == ResolvedBy::Selector,
        a.path.len() <= usize::MAX,
        run(a, events, key) is Some,
    ensures
        heard((run(a, events, key)->0).act, events),
    decreases events.len(),
{
    lemma_remembers(a, events, key);
    lemma_route(a, events, key);
    if events.len() > 0 {
        let before = events.drop_last();
        lemma_heard(a, before, key);
        lemma_remembers(a, before, key);
        lemma_route(a, before, key);
        let r = run(a, before, key)->0;
        let o = next(r.act, events.last().0, events.last().1, key)->0;
        let now = o.0;
        assert((run(a, events, key)->0).act == now);
        lemma_reported_longer(before, events, |e: Event| names_target(e, now.target));
        lemma_reported_longer(before, events, |e: Event| shows_one(e, now.select->0, now.matched));
    }
}

/// A success names what was acted on: the target is the one that the platform
/// reported, the tier is that of the one element that the selector resolved to,
/// and the scope that comes back is that of the window as it was read last, for
/// the usual time from then on.
pub proof fn law_a_success_names_what_was_acted_on(
    args: ActArgs,
    scope: Scope,
    events: Seq<(Event, u64)>,
    key: Seq<u8>,
    result: ActResultView,
)
    requires
        run(begun(args, scope), events, key) matches Some(r) && r.asks.len() > 0 && r.asks.last()
            == (AskView::Done { result }),
        result.ok,
    ensures
        reported(events, |e: Event| names_target(e, result.target)),
        !by_selector(args.select) ==> result.matched_by is None,
        by_selector(args.select) ==> reported(
            events,
            |e: Event| shows_one(e, (args.select->0)@, result.matched_by),
        ),
        events.last().0 matches Event::Rescoped { window } && match window {
            None => result.next_scope is None,
            Some(raw) => result.next_scope == Some(
                sealed(
                    (Scope {
                        hwnd: scope.hwnd,
                        generation: generation(
                            (WindowView { hwnd: scope.hwnd, ..raw.described() }),
                        ),
                        exp: (events.last().1 + 300) as u64,
                    }).payload(),
                    key,
                ),
            ),
        },
{
    let a = begun(args, scope);
    assert(a.path.len() == args.path.len());
    if events.len() > 0 {
        let before = events.drop_last();
        lemma_heard(a, before, key);
        lemma_remembers(a, before, key);
        lemma_route(a, before, key);
        let r = run(a, before, key)->0;
        let o = next(r.act, events.last().0, events.last().1, key)->0;
        assert(r.asks.push(o.1).last() == o.1);
        lemma_reported_longer(before, events, |e: Event| names_target(e, result.target));
        lemma_reported_longer(
            before,
            events,
            |e: Event| shows_one(e, (args.select->0)@, result.matched_by),
        );
    }
}

/// What was done, in words.
spec fn told(a: ActView) -> bool {
    a.stage == Stage::Rescope ==> {
        &&& a.action == "click"@ ==> a.detail == "invoked"@
        &&& a.action == "toggle"@ ==> a.detail == "toggled"@
        &&& a.action == "expand"@ ==> a.detail == "expanded"@
        &&& a.action == "select"@ ==> a.detail == "selected"@
        &&& a.action == "type"@ ==> a.detail == "set "@ + decimal(encode_utf8(a.value).len())
            + " chars"@
        &&& a.action == "key"@ ==> exists|rest: Seq<char>|
            a.detail == "focused the control and sent "@ + decimal(words(a.value).len())
                + " keystroke(s): "@ + quoted(a.value) + #[trigger] said(rest)
    }
}

/// Some words.
spec fn said(s: Seq<char>) -> Seq<char> {
    s
}

proof fn lemma_told(a: ActView, events: Seq<(Event, u64)>, key: Seq<u8>)
    requires
        a.stage == Stage::Exists,
        run(a, events, key) is Some,
    ensures
        told((run(a, events, key)->0).act),
    decreases events.len(),
{
    if events.len() > 0 {
        let before = events.drop_last();
        lemma_told(a, before, key);
        lemma_remembers(a, before, key);
        lemma_distinct_actions();
        let r = run(a, before, key)->0;
        let o = next(r.act, events.last().0, events.last().1, key)->0;
        if r.act.stage == Stage::Keys && o.0.stage == Stage::Rescope {
            let rest = ". Keyboard input goes to whatever holds focus, so this reports that the keys were sent, not that the control consumed them - and taking focus is a visible side effect."@;
            assert(o.0.detail == "focused the control and sent "@ + decimal(
                words(r.act.value).len(),
            ) + " keystroke(s): "@ + quoted(r.act.value) + said(rest));
        }
        if r.act.stage == Stage::Pattern {
            lemma_pattern_stage(a, before, key);
        }
    }
}

proof fn lemma_pattern_stage(a: ActView, events: Seq<(Event, u64)>, key: Seq<u8>)
    requires
        a.stage == Stage::Exists,
        run(a, events, key) is Some,
    ensures
        (run(a, events, key)->0).act.stage == Stage::Pattern ==> a.action != "key"@ && (a.action
            == "click"@ || a.action == "type"@ || a.action == "toggle"@ || a.action == "expand"@
            || a.action == "select"@),
    decreases events.len(),
{
    if events.len() > 0 {
        lemma_pattern_stage(a, events.drop_last(), key);
        lemma_remembers(a, events.drop_last(), key);
        lemma_distinct_actions();
    }
}

/// A success says what was done: a pattern that was called by name, the size of
/// a text that was set, in bytes, and how many keystrokes were sent and which.
pub proof fn law_a_success_says_what_was_done(
    args: ActArgs,
    scope: Scope,
    events: Seq<(Event, u64)>,
    key: Seq<u8>,
    result: ActResultView,
)
    requires
        run(begun(args, scope), events, key) matches Some(r) && r.asks.len() > 0 && r.asks.last()
            == (AskView::Done { result }),
        result.ok,
    ensures
        args.action@ == "click"@ ==> result.detail == Some("invoked"@),
        args.action@ == "toggle"@ ==> result.detail == Some("toggled"@),
        args.action@ == "expand"@ ==> result.detail == Some("expanded"@),
        args.action@ == "select"@ ==> result.detail == Some("selected"@),
        args.action@ == "type"@ ==> result.detail == Some(
            "set "@ + decimal(encode_utf8(given(args.value)).len()) + " chars"@,
        ),
        args.action@ == "key"@ ==> ({
            let head = "focused the control and sent "@ + decimal(words(given(args.value)).len())
                + " keystroke(s): "@ + quoted(given(args.value));
            result.detail matches Some(text) && text.len() >= head.len() && text.take(
                head.len() as int,
            ) == head
        }),
{
    let a = begun(args, scope);
    if events.len() > 0 {
        let before = events.drop_last();
        lemma_told(a, before, key);
        lemma_remembers(a, before, key);
        let r = run(a, before, key)->0;
        let o = next(r.act, events.last().0, events.last().1, key)->0;
        assert(r.asks.push(o.1).last() == o.1);
        if args.action@ == "key"@ {
            let head = "focused the control and sent "@ + decimal(words(given(args.value)).len())
                + " keystroke(s): "@ + quoted(given(args.value));
            let rest = choose|rest: Seq<char>|
                r.act.detail == "focused the control and sent "@ + decimal(
                    words(r.act.value).len(),
                ) + " keystroke(s): "@ + quoted(r.act.value) + #[trigger] said(rest);
            assert((head + rest).take(head.len() as int) =~= head);
        }
    }
}

/// An action begins under the scope of its token: a token that was issued under
/// the key starts the action that was asked for until it runs out, and nothing
/// after that.
pub proof fn law_an_action_begins_under_its_scope<F: Fn(&[u8]) -> Result<Scope, String>>(
    args: ActArgs,
    key: &[u8],
    now: u64,
    read: F,
    scope: Scope,
    r: Result<(Act, Ask), LeaseError>,
)
    requires
        issued(args.scope@, scope, key@),
        call_ensures(Act::start::<F>, (args, key, now, read), r),
    ensures
        now <= scope.exp ==> (r matches Ok((act, ask)) && act@ == begun(args, scope) && ask@
            == (AskView::Exists { hwnd: scope.hwnd })),
        now > scope.exp ==> (r matches Err(LeaseError::Expired { ago }) && ago == now - scope.exp),
{
    lemma_written(scope);
    assert(opened(args.scope@, key@) == Ok::<Seq<u8>, LeaseError>(scope.payload()));
}

/// Each step of an action is a step of its run: an event that answers what was
/// asked leads on, and any other changes nothing.
pub proof fn law_an_action_goes_step_by_step(
    act: Act,
    event: Event,
    now: u64,
    key: &[u8],
    r: (Act, Option<Ask>),
)
    requires
        event.wf(),
        now + DEFAULT_TTL_SECS <= u64::MAX,
        call_ensures(Act::step, (act, event, now, key), r),
    ensures
        match r.1 {
            Some(ask) => next(act@, event, now, key@) == Some((r.0@, ask@)),
            None => next(act@, event, now, key@) is None && r.0@ == act@,
        },
{
}

// Selecting

/// A selector picks by what it says: an identifier is compared character for
/// character, a type without regard to ASCII case, and a name by the ladder of
/// labels; what is not said constrains nothing.
pub proof fn law_a_selector_picks_by_what_it_says(
    sel: Selector,
    name: &str,
    id: &str,
    kind: &str,
    r: Option<MatchTier>,
)
    requires
        call_ensures(Selector::matches, (&sel, name, id, kind), r),
    ensures
        r is Some ==> {
            &&& sel.automation_id matches Some(want) ==> want@ == id@
            &&& sel.control_type matches Some(want) ==> alike(want@, kind@)
            &&& sel.name is None ==> r == Some(MatchTier::Exact)
            &&& sel.name matches Some(want) ==> r == tier(name@, want@)
        },
        r is None ==> {
            ||| sel.automation_id matches Some(want) && want@ != id@
            ||| sel.control_type matches Some(want) && !alike(want@, kind@)
            ||| sel.name matches Some(want) && tier(name@, want@) is None
        },
{
    if sel.control_type is Some {
        lemma_alike((sel.control_type->0)@, kind@);
    }
}

/// Two texts that differ in nothing but the case of ASCII letters.
pub open spec fn alike(a: Seq<char>, b: Seq<char>) -> bool {
    a.len() == b.len() && forall|i: int|
        0 <= i < a.len() ==> #[trigger] a[i] == b[i] || 'A' <= a[i] <= 'Z' && b[i] as int == a[i]
            as int + 32 || 'A' <= b[i] <= 'Z' && a[i] as int == b[i] as int + 32
}

/// Lowering the ASCII letters makes two texts equal exactly when they are alike.
pub proof fn lemma_alike(a: Seq<char>, b: Seq<char>)
    ensures
        ascii_lowered(a) == ascii_lowered(b) <==> alike(a, b),
{
    let x = ascii_lowered(a);
    let y = ascii_lowered(b);
    assert(x.len() == a.len() && y.len() == b.len());
    if x == y {
        assert forall|i: int| 0 <= i < a.len() implies #[trigger] a[i] == b[i] || 'A' <= a[i]
            <= 'Z' && b[i] as int == a[i] as int + 32 || 'A' <= b[i] <= 'Z' && a[i] as int == b[i]
            as int + 32 by {
            assert(x[i] == y[i]);
            assert(x[i] == ascii_lower(a[i]) && y[i] == ascii_lower(b[i]));
        }
    }
    if alike(a, b) {
        assert forall|i: int| 0 <= i < a.len() implies x[i] == y[i] by {
            assert(a[i] == a[i]);
            assert(x[i] == ascii_lower(a[i]) && y[i] == ascii_lower(b[i]));
        }
        assert(x =~= y);
    }
}

proof fn lemma_hits(ps: Seq<Place>, sel: SelectorView) -> (at: Seq<int>)
    ensures
        at.len() == hits(ps, sel).len(),
        forall|k: int|
            0 <= k < at.len() ==> 0 <= #[trigger] at[k] < ps.len() && is_hit(
                hits(ps, sel)[k],
                ps[at[k]],
                sel,
            ),
        forall|i: int|
            0 <= i < ps.len() && selected((#[trigger] ps[i]).node, sel) is Some ==> at.contains(i),
    decreases ps.len(),
{
    if ps.len() == 0 {
        seq![]
    } else {
        let rest = ps.drop_last();
        let n = ps.len() - 1;
        let before = lemma_hits(rest, sel);
        let at = if selected(ps[n].node, sel) is Some {
            before.push(n)
        } else {
            before
        };
        assert forall|k: int| 0 <= k < at.len() implies 0 <= #[trigger] at[k] < ps.len() && is_hit(
            hits(ps, sel)[k],
            ps[at[k]],
            sel,
        ) by {
            if k < before.len() {
                assert(before[k] == at[k]);
                assert(rest[at[k]] == ps[at[k]]);
            }
        }
        assert forall|i: int|
            0 <= i < ps.len() && selected((#[trigger] ps[i]).node, sel) is Some implies at.contains(
            i,
        ) by {
            if i < n {
                assert(rest[i] == ps[i]);
                assert(before.contains(i));
                let k = choose|k: int| 0 <= k < before.len() && before[k] == i;
                assert(at[k] == i);
            } else {
                assert(at[before.len() as int] == i);
            }
        }
        at
    }
}

/// The hit is that element.
pub open spec fn is_hit(h: HitView, p: Place, sel: SelectorView) -> bool {
    h.path == p.path && h.name == p.node.name@ && selected(p.node, sel) == Some(h.tier)
}

/// A selector resolves to the elements that it fits best, and to all of those:
/// each hit is an element of the tree that the selector selects at that tier, no
/// element of the tree is selected at a tighter one, and every element that is
/// selected as tightly is among the hits. Of a tree in which more elements
/// answer than a search collects, this holds of those that it collects.
pub proof fn law_a_selector_resolves_to_the_best_fit(
    root: Node,
    sel: Selector,
    r: Vec<Hit>,
    path: Seq<u32>,
    node: Node,
    tier: MatchTier,
)
    requires
        root.wf(),
        call_ensures(resolve, (&root, &sel), r),
        hits(places(root, seq![]), sel@).len() <= 64,
        at_path(root, path) == Some(node),
        selected(node, sel@) == Some(tier),
    ensures
        r@.len() > 0,
        forall|k: int|
            0 <= k < r@.len() ==> (#[trigger] r@[k]).tier.rank() <= tier.rank() && (at_path(
                root,
                r@[k].path@,
            ) matches Some(hit) && selected(hit, sel@) == Some(r@[k].tier) && r@[k].name@
                == hit.name@),
        (exists|k: int|
            0 <= k < r@.len() && (#[trigger] r@[k]).path@ == path && r@[k].tier == tier) || (forall|
            k: int,
        |
            0 <= k < r@.len() ==> (#[trigger] r@[k]).tier.rank() < tier.rank()),
{
    let all = places(root, seq![]);
    let hs = hits(all, sel@);
    let tiers = hit_tiers(hs);
    assert(capped(hs, 64) == hs);
    let at = lemma_hits(all, sel@);
    law_every_path_has_its_place(root, path);
    let i = choose|i: int| 0 <= i < all.len() && all[i] == (Place { path, node });
    assert(selected(all[i].node, sel@) is Some);
    assert(at.contains(i));
    let k = choose|k: int| 0 <= k < at.len() && at[k] == i;
    assert(is_hit(hs[k], all[i], sel@));
    assert(tiers[k] == tier);
    law_the_best_hits_are_kept(hs, tiers);
    let best = best_of(hs, tiers);
    assert(hit_views(r@) == best);
    assert(best.len() == r@.len());
    assert forall|m: int| 0 <= m < r@.len() implies (#[trigger] r@[m]).tier.rank() <= tier.rank() && (
    at_path(root, r@[m].path@) matches Some(hit) && selected(hit, sel@) == Some(r@[m].tier)
        && r@[m].name@ == hit.name@) && r@[m].tier.rank() == best_rank(tiers) by {
        let h = best[m];
        assert(h == r@[m]@);
        assert(best.contains(h));
        let j = choose|j: int|
            0 <= j < hs.len() && hs[j] == h && (#[trigger] tiers[j]).rank() == best_rank(tiers);
        assert(tiers[j] == h.tier);
        assert(is_hit(hs[j], all[at[j]], sel@));
        law_a_path_leads_back(root, at[j]);
        assert(best_rank(tiers) <= tiers[k].rank());
    }
    if tier.rank() == best_rank(tiers) {
        assert(hs[k] == hs[k] && tiers[k].rank() == best_rank(tiers));
        assert(best.contains(hs[k]));
        let m = choose|m: int| 0 <= m < best.len() && best[m] == hs[k];
        assert(r@[m]@ == best[m]);
        assert(r@[m].path@ == path && r@[m].tier == tier);
    } else {
        assert(best_rank(tiers) < tier.rank());
    }
}

// Why an action was refused

/// A refusal says why, in words that name what is wrong: the number of elements
/// that answer, the step of the path that is not there, the action or the key
/// that is not known, and what the platform said. It names the window, or the
/// control once one was found.
pub proof fn law_a_refusal_says_why(
    args: ActArgs,
    scope: Scope,
    events: Seq<(Event, u64)>,
    key: Seq<u8>,
    result: ActResultView,
    text: Seq<char>,
)
    requires
        run(begun(args, scope), events, key) matches Some(r) && r.asks.len() > 0 && r.asks.last()
            == (AskView::Done { result }),
        result.detail == Some(text),
        !result.ok,
    ensures
        ({
            let steps = steps_taken((run(begun(args, scope), events.drop_last(), key)->0).asks);
            match events.last().0 {
                Event::Exists { .. } => text == "the window no longer exists"@,
                Event::Window { raw, tree } => {
                    let sel = (args.select->0)@;
                    let n = resolved(tree, sel).len();
                    &&& result.target == raw.name@
                    &&& result.status == Status::NotFound ==> text
                        == "nothing in this window matches "@ + sel.described()
                    &&& result.status == Status::Ambiguous ==> starts_with(
                        text,
                        decimal(n) + " elements match "@ + sel.described() + " at the "@ + resolved(
                            tree,
                            sel,
                        )[0].tier.label() + " tier ("@,
                    )
                },
                Event::Children { count } => {
                    &&& count is None ==> text == "path ran out of children at depth "@ + decimal(
                        steps.len(),
                    )
                    &&& count is Some ==> text == "path index "@ + decimal(
                        args.path@[steps.len() as int] as nat,
                    ) + " out of range at depth "@ + decimal(steps.len())
                },
                Event::State { name, enabled, offscreen } => {
                    &&& result.target == name@
                    &&& !enabled ==> text == "control is disabled"@
                    &&& enabled && offscreen ==> text == "control is offscreen"@
                    &&& enabled && !offscreen && args.action@ == "key"@ ==> complaint(
                        given(args.value),
                    ) == Some(text)
                    &&& enabled && !offscreen && args.action@ != "key"@ ==> text
                        == "unknown action '"@ + args.action@ + "'"@
                },
                Event::Focused { focus } => focus matches Err(e) && text
                    == "could not focus the control to type into it: "@ + e@,
                Event::Called { call } => match call {
                    Call::Absent => text == "control no longer supports '"@ + args.action@ + "'"@,
                    Call::Failed(e) => text == "pattern call failed: "@ + e@,
                    Call::Done => false,
                },
                _ => false,
            }
        }),
{
    let a = begun(args, scope);
    assert(a.path.len() == args.path.len());
    if events.len() > 0 {
        let before = events.drop_last();
        lemma_remembers(a, before, key);
        lemma_route(a, before, key);
        let r = run(a, before, key)->0;
        let o = next(r.act, events.last().0, events.last().1, key)->0;
        assert(r.asks.push(o.1).last() == o.1);
        if events.last().0 is Window && result.status == Status::Ambiguous {
            let tree = events.last().0->tree;
            let sel = (args.select->0)@;
            let hs = resolved(tree, sel);
            let head = decimal(hs.len()) + " elements match "@ + sel.described() + " at the "@
                + hs[0].tier.label() + " tier ("@;
            assert(text == ambiguity(hs, sel));
            assert(text.take(head.len() as int) =~= head);
        }
    }
}

/// The text begins with those words.
pub open spec fn starts_with(text: Seq<char>, head: Seq<char>) -> bool {
    text.len() >= head.len() && text.take(head.len() as int) == head
}

/// A selector is described by all that it says: its name, its identifier and its
/// type, each where there is one, with a comma between.
pub proof fn law_a_selector_is_described_in_full(sel: Selector, r: String)
    requires
        call_ensures(Selector::describe, (&sel,), r),
    ensures
        ({
            let name = match sel.name {
                Some(n) => seq!["name="@ + quoted(n@)],
                None => seq![],
            };
            let id = match sel.automation_id {
                Some(n) => seq!["automation_id="@ + quoted(n@)],
                None => seq![],
            };
            let kind = match sel.control_type {
                Some(n) => seq!["control_type="@ + quoted(n@)],
                None => seq![],
            };
            r@ == comma_list(name + id + kind)
        }),
{
    reveal_strlit("name=");
    reveal_strlit("automation_id=");
    reveal_strlit("control_type=");
    let name = match sel.name {
        Some(n) => seq!["name="@ + quoted(n@)],
        None => seq![],
    };
    let id = match sel.automation_id {
        Some(n) => seq!["automation_id="@ + quoted(n@)],
        None => seq![],
    };
    let kind = match sel.control_type {
        Some(n) => seq!["control_type="@ + quoted(n@)],
        None => seq![],
    };
    reveal_with_fuel(comma_list, 4);
    let all = name + id + kind;
    if all.len() == 3 {
        assert(all.drop_last() =~= name + id);
        assert((name + id).drop_last() =~= name);
    } else if all.len() == 2 {
        assert(all.drop_last() =~= seq![all[0]]);
    }
}

/// A control that was found and then refused is named with the tier at which it
/// was found.
pub proof fn law_a_refused_control_is_named(
    args: ActArgs,
    scope: Scope,
    events: Seq<(Event, u64)>,
    key: Seq<u8>,
    result: ActResultView,
)
    requires
        run(begun(args, scope), events, key) matches Some(r) && r.asks.len() > 0 && r.asks.last()
            == (AskView::Done { result }),
        events.last().0 is State || events.last().0 is Focused || events.last().0 is Called,
    ensures
        reported(events, |e: Event| names_target(e, result.target)),
        !by_selector(args.select) ==> result.matched_by is None,
        by_selector(args.select) ==> reported(
            events,
            |e: Event| shows_one(e, (args.select->0)@, result.matched_by),
        ),
{
    let a = begun(args, scope);
    assert(a.path.len() == args.path.len());
    if events.len() > 0 {
        let before = events.drop_last();
        lemma_heard(a, before, key);
        lemma_remembers(a, before, key);
        lemma_route(a, before, key);
        let r = run(a, before, key)->0;
        let o = next(r.act, events.last().0, events.last().1, key)->0;
        assert(r.asks.push(o.1).last() == o.1);
        lemma_reported_longer(before, events, |e: Event| names_target(e, result.target));
        lemma_reported_longer(
            before,
            events,
            |e: Event| shows_one(e, (args.select->0)@, result.matched_by),
        );
    }
}

/// An action that ends before a control was found names no tier, and the window
/// if there is one to name.
pub proof fn law_an_unfound_control_has_no_tier(
    args: ActArgs,
    scope: Scope,
    events: Seq<(Event, u64)>,
    key: Seq<u8>,
    result: ActResultView,
)
    requires
        run(begun(args, scope), events, key) matches Some(r) && r.asks.len() > 0 && r.asks.last()
            == (AskView::Done { result }),
        events.last().0 is Exists || events.last().0 is Window || events.last().0 is Children,
    ensures
        result.matched_by is None,
        events.last().0 is Exists ==> result.target.len() == 0,
        events.last().0 matches Event::Window { raw, .. } ==> result.target == raw.name@,
        events.last().0 is Children ==> reported(events, |e: Event| names_window(e, result.target)),
{
    let a = begun(args, scope);
    assert(a.path.len() == args.path.len());
    if events.len() > 0 {
        let before = events.drop_last();
        lemma_window_named(a, before, key);
        let r = run(a, before, key)->0;
        let o = next(r.act, events.last().0, events.last().1, key)->0;
        assert(r.asks.push(o.1).last() == o.1);
        lemma_reported_longer(before, events, |e: Event| names_window(e, result.target));
    }
}

/// The platform reported a window of that name.
pub open spec fn names_window(e: Event, name: Seq<char>) -> bool {
    e matches Event::Window { raw, .. } && raw.name@ == name
}

proof fn lemma_window_named(a: ActView, events: Seq<(Event, u64)>, key: Seq<u8>)
    requires
        a.stage == Stage::Exists,
        run(a, events, key) is Some,
    ensures
        ({
            let now = (run(a, events, key)->0).act;
            now.stage is Children || now.stage is Child ==> reported(
                events,
                |e: Event| names_window(e, now.window),
            )
        }),
    decreases events.len(),
{
    if events.len() > 0 {
        let before = events.drop_last();
        lemma_window_named(a, before, key);
        let r = run(a, before, key)->0;
        let o = next(r.act, events.last().0, events.last().1, key)->0;
        let now = o.0;
        assert((run(a, events, key)->0).act == now);
        lemma_reported_longer(before, events, |e: Event| names_window(e, now.window));
    }
}

/// A refusal for want of precision names the first elements that answer, up to
/// four, and says what would tell them apart.
pub proof fn law_an_ambiguity_names_the_first_four(
    args: ActArgs,
    scope: Scope,
    events: Seq<(Event, u64)>,
    key: Seq<u8>,
    result: ActResultView,
    names: Seq<Seq<char>>,
)
    requires
        run(begun(args, scope), events, key) matches Some(r) && r.asks.len() > 0 && r.asks.last()
            == (AskView::Done { result }),
        result.status == Status::Ambiguous,
        ({
            let hits = resolved(events.last().0->tree, (args.select->0)@);
            &&& names.len() == (if hits.len() < 4 {
                hits.len()
            } else {
                4
            })
            &&& forall|i: int| 0 <= i < names.len() ==> #[trigger] names[i] == hits[i].name
        }),
    ensures
        events.last().0 is Window,
        ({
            let sel = (args.select->0)@;
            let hits = resolved(events.last().0->tree, sel);
            result.detail == Some(
                decimal(hits.len()) + " elements match "@ + sel.described() + " at the "@
                    + hits[0].tier.label() + " tier ("@ + comma_list(names)
                    + "). Add automation_id or control_type."@,
            )
        }),
{
    let a = begun(args, scope);
    assert(a.path.len() == args.path.len());
    if events.len() > 0 {
        let before = events.drop_last();
        lemma_remembers(a, before, key);
        lemma_route(a, before, key);
        let r = run(a, before, key)->0;
        let o = next(r.act, events.last().0, events.last().1, key)->0;
        assert(r.asks.push(o.1).last() == o.1);
        let sel = (args.select->0)@;
        let hits = resolved(events.last().0->tree, sel);
        assert(first_names(hits) =~= names);
        assert(result.detail == Some(ambiguity(hits, sel)));
    }
}

/// A list of names is the names one after the other, with a comma and a space
/// between each and the next.
pub proof fn law_a_list_is_parted_by_commas(names: Seq<Seq<char>>, more: Seq<char>)
    ensures
        comma_list(seq![]).len() == 0,
        comma_list(seq![more]) == more,
        names.len() > 0 ==> comma_list(names.push(more)) == comma_list(names) + ", "@ + more,
{
    assert(names.push(more).drop_last() =~= names);
}

} // verus!
