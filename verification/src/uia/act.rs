//! Acting on one element.
//!
//! [`Act`] re-finds an element from a signed scope, verifies that the world
//! still looks the way it did at discovery, and then asks for one effect
//! through the control's pattern, or for keystrokes. It never touches the
//! platform: each [`Ask`] says what is to be done next, and the [`Event`]
//! handed back says what came of it.
//!
//! Patterns, not synthetic input: invoking one reaches a control without
//! stealing focus, moving the cursor or needing the window on top.

use vstd::prelude::*;
use vstd::string::*;
use vstd::utf8::*;
use crate::capture::ScreenChange;
use crate::chars::{decimal, optional, same_text, write_decimal};
use crate::foreign::{quoted, to_quoted};
use crate::input::{key_events, send_keys, KeyEvent};
use crate::keys::{chords_in, complaint, parse, Chord};
use crate::lease::{judged, opened, read_by, sealed, LeaseError, Scope, DEFAULT_TTL_SECS};
use crate::text::{words, MatchTier};
use super::tree::{hit_views, resolve, resolved, Hit, HitView, Node};
use super::{
    fresh_scope, generation, generation_of, scope_of, RawWindow, Selector, SelectorView,
    WindowInfo, WindowView,
};

verus! {

/// How an action ended.
#[derive(Debug, Clone, Copy, PartialEq, Eq, Structural)]
pub enum Status {
    /// The action was performed.
    Acted,
    /// The window is gone, or is not the one it was.
    IdentityChanged,
    /// The target is genuinely not there.
    NotFound,
    /// More than one element matches.
    Ambiguous,
    /// The control is disabled.
    Disabled,
    /// The control is offscreen.
    Moved,
    /// The control does not support the action.
    PatternGone,
    /// The emergency stop is engaged.
    Stopped,
    /// The attempt itself failed and says nothing about the target.
    Error,
}

impl Status {
    /// The name under which a status is reported.
    pub open spec fn label(self) -> Seq<char> {
        match self {
            Status::Acted => "ok"@,
            Status::IdentityChanged => "identity_changed"@,
            Status::NotFound => "not_found"@,
            Status::Ambiguous => "ambiguous"@,
            Status::Disabled => "disabled"@,
            Status::Moved => "moved"@,
            Status::PatternGone => "pattern_gone"@,
            Status::Stopped => "stopped"@,
            Status::Error => "error"@,
        }
    }

    /// The name under which a status is reported.
    pub fn as_str(self) -> (r: &'static str)
        ensures
            r@ == self.label(),
    {
        match self {
            Status::Acted => "ok",
            Status::IdentityChanged => "identity_changed",
            Status::NotFound => "not_found",
            Status::Ambiguous => "ambiguous",
            Status::Disabled => "disabled",
            Status::Moved => "moved",
            Status::PatternGone => "pattern_gone",
            Status::Stopped => "stopped",
            Status::Error => "error",
        }
    }
}

/// What led to the target.
#[derive(Debug, Clone, Copy, PartialEq, Eq, Structural)]
pub enum ResolvedBy {
    /// A child-index path: a contract with a control.
    Path,
    /// A selector: a contract with a control.
    Selector,
    /// Text read off the screen: a hope about geometry.
    Ocr,
}

impl ResolvedBy {
    /// The name under which it is reported.
    pub open spec fn label(self) -> Seq<char> {
        match self {
            ResolvedBy::Path => "path"@,
            ResolvedBy::Selector => "selector"@,
            ResolvedBy::Ocr => "ocr"@,
        }
    }

    /// The name under which it is reported.
    pub fn as_str(self) -> (r: &'static str)
        ensures
            r@ == self.label(),
    {
        match self {
            ResolvedBy::Path => "path",
            ResolvedBy::Selector => "selector",
            ResolvedBy::Ocr => "ocr",
        }
    }
}

/// What `act` did, and what it saw afterwards.
#[derive(Debug)]
pub struct ActResult {
    pub ok: bool,
    pub action: String,
    pub status: Status,
    pub target: String,
    pub resolved_by: ResolvedBy,
    /// How much leniency the name needed; `None` where no name took part.
    pub matched_by: Option<MatchTier>,
    /// A scope for the window as the action left it.
    pub next_scope: Option<String>,
    pub detail: Option<String>,
    /// Only for a click at a coordinate: what the screen did afterwards.
    pub screen_changed: Option<ScreenChange>,
}

/// What an [`ActResult`] says.
pub struct ActResultView {
    pub ok: bool,
    pub action: Seq<char>,
    pub status: Status,
    pub target: Seq<char>,
    pub resolved_by: ResolvedBy,
    pub matched_by: Option<MatchTier>,
    pub next_scope: Option<Seq<char>>,
    pub detail: Option<Seq<char>>,
    pub screen_changed: Option<ScreenChange>,
}

impl View for ActResult {
    type V = ActResultView;

    open spec fn view(&self) -> ActResultView {
        ActResultView {
            ok: self.ok,
            action: self.action@,
            status: self.status,
            target: self.target@,
            resolved_by: self.resolved_by,
            matched_by: self.matched_by,
            next_scope: optional(self.next_scope),
            detail: optional(self.detail),
            screen_changed: self.screen_changed,
        }
    }
}

/// What to act on, and how.
#[derive(Debug)]
pub struct ActArgs {
    pub scope: String,
    pub path: Vec<u32>,
    pub select: Option<Selector>,
    pub action: String,
    pub value: Option<String>,
}

/// A control pattern through which an action is performed.
#[derive(Debug, Clone, Copy, PartialEq, Eq, Structural)]
pub enum Pattern {
    Invoke,
    Value,
    Toggle,
    ExpandCollapse,
    SelectionItem,
}

/// The pattern that performs an action.
pub open spec fn pattern_for(action: Seq<char>) -> Option<Pattern> {
    if action == "click"@ {
        Some(Pattern::Invoke)
    } else if action == "type"@ {
        Some(Pattern::Value)
    } else if action == "toggle"@ {
        Some(Pattern::Toggle)
    } else if action == "expand"@ {
        Some(Pattern::ExpandCollapse)
    } else if action == "select"@ {
        Some(Pattern::SelectionItem)
    } else {
        None
    }
}

fn pattern_of(action: &str) -> (r: Option<Pattern>)
    ensures
        r == pattern_for(action@),
{
    if same_text(action, "click") {
        Some(Pattern::Invoke)
    } else if same_text(action, "type") {
        Some(Pattern::Value)
    } else if same_text(action, "toggle") {
        Some(Pattern::Toggle)
    } else if same_text(action, "expand") {
        Some(Pattern::ExpandCollapse)
    } else if same_text(action, "select") {
        Some(Pattern::SelectionItem)
    } else {
        None
    }
}

/// How far an action has come: what it is waiting to hear.
#[derive(Debug, Clone, Copy, PartialEq, Eq, Structural)]
pub enum Stage {
    /// Whether the window exists.
    Exists,
    /// What the window is.
    Window,
    /// How many children the element above step `at` of the path has.
    Children { at: usize },
    /// That step `at` of the path has been taken.
    Child { at: usize },
    /// That the element a selector resolved to has been reached.
    Element,
    /// What state the element is in.
    State,
    /// Whether the element took the focus.
    Focus,
    /// Whether the keystrokes were sent.
    Keys,
    /// What came of the pattern call.
    Pattern,
    /// What the window is after the action.
    Rescope,
    /// Nothing: the result has been given.
    Done,
}

/// What the platform is to do next.
#[derive(Debug)]
pub enum Ask {
    /// Say whether the window exists.
    Exists { hwnd: isize },
    /// Read the window: its whole subtree when a selector has to be searched
    /// for, else the element and its children.
    Window { hwnd: isize, subtree: bool },
    /// Count the children of the current element.
    Children,
    /// Move to a child of the current element. The last step caches its state
    /// and its patterns, every other step its children.
    Child { index: u32, leaf: bool },
    /// Move to the element at the end of the path and cache its state and its
    /// patterns.
    Element { path: Vec<u32> },
    /// Read the state of the current element.
    State,
    /// Focus the current element.
    Focus,
    /// Send keystrokes to whatever has the focus.
    Keys { events: Vec<KeyEvent> },
    /// Call a pattern of the current element.
    Pattern { pattern: Pattern, value: String },
    /// Read the window again.
    Rescope { hwnd: isize },
    /// Nothing more: this is the result.
    Done { result: ActResult },
    /// Nothing more: the attempt broke off after the focus was taken. There is
    /// no result, because a result other than success says that nothing
    /// happened.
    Failed { error: String },
}

/// What an [`Ask`] says.
pub enum AskView {
    Exists { hwnd: isize },
    Window { hwnd: isize, subtree: bool },
    Children,
    Child { index: u32, leaf: bool },
    Element { path: Seq<u32> },
    State,
    Focus,
    Keys { events: Seq<KeyEvent> },
    Pattern { pattern: Pattern, value: Seq<char> },
    Rescope { hwnd: isize },
    Done { result: ActResultView },
    Failed { error: Seq<char> },
}

impl View for Ask {
    type V = AskView;

    open spec fn view(&self) -> AskView {
        match *self {
            Ask::Exists { hwnd } => AskView::Exists { hwnd },
            Ask::Window { hwnd, subtree } => AskView::Window { hwnd, subtree },
            Ask::Children => AskView::Children,
            Ask::Child { index, leaf } => AskView::Child { index, leaf },
            Ask::Element { path } => AskView::Element { path: path@ },
            Ask::State => AskView::State,
            Ask::Focus => AskView::Focus,
            Ask::Keys { events } => AskView::Keys { events: events@ },
            Ask::Pattern { pattern, value } => AskView::Pattern { pattern, value: value@ },
            Ask::Rescope { hwnd } => AskView::Rescope { hwnd },
            Ask::Done { result } => AskView::Done { result: result@ },
            Ask::Failed { error } => AskView::Failed { error: error@ },
        }
    }
}

/// What came of a pattern call.
#[derive(Debug)]
pub enum Call {
    /// The control does not have the pattern.
    Absent,
    /// The call failed, for that reason.
    Failed(String),
    Done,
}

/// What the platform reports.
#[derive(Debug)]
pub enum Event {
    Exists { alive: bool },
    Window { raw: RawWindow, tree: Node },
    /// `None` when the element's children could not be had.
    Children { count: Option<u32> },
    Moved,
    State { name: String, enabled: bool, offscreen: bool },
    Focused { focus: Result<(), String> },
    Typed { typing: Result<(), String> },
    Called { call: Call },
    /// `None` when the window could not be read.
    Rescoped { window: Option<RawWindow> },
}

impl Event {
    /// Every rectangle in it has a size.
    pub open spec fn wf(self) -> bool {
        match self {
            Event::Window { raw, tree } => raw.rect.fits() && tree.wf(),
            Event::Rescoped { window } => window matches Some(w) ==> w.rect.fits(),
            _ => true,
        }
    }
}

/// An action under way.
#[derive(Debug)]
pub struct Act {
    scope: Scope,
    by: ResolvedBy,
    path: Vec<u32>,
    select: Option<Selector>,
    action: String,
    value: String,
    stage: Stage,
    window: String,
    target: String,
    matched: Option<MatchTier>,
    chords: Vec<Chord>,
    detail: String,
}

/// What an [`Act`] holds: what was asked for, and what is known so far.
pub struct ActView {
    pub scope: Scope,
    pub by: ResolvedBy,
    pub path: Seq<u32>,
    pub select: Option<SelectorView>,
    pub action: Seq<char>,
    pub value: Seq<char>,
    pub stage: Stage,
    pub window: Seq<char>,
    pub target: Seq<char>,
    pub matched: Option<MatchTier>,
    pub chords: Seq<Chord>,
    pub detail: Seq<char>,
}

/// What a selector that may be absent says.
pub open spec fn selector_view(s: Option<Selector>) -> Option<SelectorView> {
    match s {
        Some(sel) => Some(sel@),
        None => None,
    }
}

impl View for Act {
    type V = ActView;

    closed spec fn view(&self) -> ActView {
        ActView {
            scope: self.scope,
            by: self.by,
            path: self.path@,
            select: selector_view(self.select),
            action: self.action@,
            value: self.value@,
            stage: self.stage,
            window: self.window@,
            target: self.target@,
            matched: self.matched,
            chords: self.chords@,
            detail: self.detail@,
        }
    }
}

// What each event leads to

/// The result of an action that was not performed.
pub open spec fn refused(
    a: ActView,
    status: Status,
    target: Seq<char>,
    matched_by: Option<MatchTier>,
    detail: Seq<char>,
) -> (ActView, AskView) {
    (
        ActView { stage: Stage::Done, ..a },
        AskView::Done {
            result: ActResultView {
                ok: false,
                action: a.action,
                status,
                target,
                resolved_by: a.by,
                matched_by,
                next_scope: None,
                detail: Some(detail),
                screen_changed: None,
            },
        },
    )
}

/// Some names with a comma and a space between each and the next.
pub open spec fn comma_list(names: Seq<Seq<char>>) -> Seq<char>
    decreases names.len(),
{
    if names.len() == 0 {
        seq![]
    } else if names.len() == 1 {
        names[0]
    } else {
        comma_list(names.drop_last()) + ", "@ + names.last()
    }
}

/// The names of the first four hits.
pub open spec fn first_names(hits: Seq<HitView>) -> Seq<Seq<char>> {
    let few = if hits.len() > 4 {
        hits.take(4)
    } else {
        hits
    };
    few.map_values(|h: HitView| h.name)
}

/// Why a selector that matched several elements is refused: never guess. Two
/// matching buttons mean that the caller was not specific enough, and quietly
/// taking the first is how automation clicks the wrong thing.
pub open spec fn ambiguity(hits: Seq<HitView>, sel: SelectorView) -> Seq<char> {
    decimal(hits.len()) + " elements match "@ + sel.described() + " at the "@ + hits[0].tier.label()
        + " tier ("@ + comma_list(first_names(hits)) + "). Add automation_id or control_type."@
}

/// The window that the scope was issued for has been read.
pub open spec fn located(a: ActView, raw: RawWindow, tree: Node) -> (ActView, AskView) {
    let name = raw.name@;
    let seen = WindowView { hwnd: a.scope.hwnd, ..raw.described() };
    let b = ActView { window: name, ..a };
    if generation(seen) != a.scope.generation {
        refused(
            b,
            Status::IdentityChanged,
            name,
            None,
            "window was replaced, retitled or resized since discovery - re-discover"@,
        )
    } else if a.by == ResolvedBy::Selector {
        let sel = a.select->0;
        let hits = resolved(tree, sel);
        if hits.len() == 0 {
            refused(
                b,
                Status::NotFound,
                name,
                None,
                "nothing in this window matches "@ + sel.described(),
            )
        } else if hits.len() > 1 {
            refused(b, Status::Ambiguous, name, None, ambiguity(hits, sel))
        } else {
            (
                ActView { matched: Some(hits[0].tier), stage: Stage::Element, ..b },
                AskView::Element { path: hits[0].path },
            )
        }
    } else if a.path.len() == 0 {
        (ActView { stage: Stage::State, ..b }, AskView::State)
    } else {
        (ActView { stage: Stage::Children { at: 0 }, ..b }, AskView::Children)
    }
}

/// The children of the element above step `at` of the path have been counted.
pub open spec fn counted(a: ActView, at: usize, count: Option<u32>) -> (ActView, AskView) {
    match count {
        None => refused(
            a,
            Status::NotFound,
            a.window,
            None,
            "path ran out of children at depth "@ + decimal(at as nat),
        ),
        Some(n) => {
            let index = a.path[at as int];
            if index >= n {
                refused(
                    a,
                    Status::NotFound,
                    a.window,
                    None,
                    "path index "@ + decimal(index as nat) + " out of range at depth "@ + decimal(
                        at as nat,
                    ),
                )
            } else {
                (
                    ActView { stage: Stage::Child { at }, ..a },
                    AskView::Child { index, leaf: at + 1 == a.path.len() },
                )
            }
        },
    }
}

/// Step `at` of the path has been taken.
pub open spec fn descended(a: ActView, at: usize) -> (ActView, AskView) {
    if at + 1 < a.path.len() {
        (ActView { stage: Stage::Children { at: (at + 1) as usize }, ..a }, AskView::Children)
    } else {
        (ActView { stage: Stage::State, ..a }, AskView::State)
    }
}

/// The element has been reached and its state is known.
pub open spec fn inspected(a: ActView, name: Seq<char>, enabled: bool, offscreen: bool) -> (
    ActView,
    AskView,
) {
    let b = ActView { target: name, ..a };
    if !enabled {
        refused(b, Status::Disabled, name, a.matched, "control is disabled"@)
    } else if offscreen {
        refused(b, Status::Moved, name, a.matched, "control is offscreen"@)
    } else if a.action == "key"@ {
        match complaint(a.value) {
            Some(text) => refused(b, Status::PatternGone, name, a.matched, text),
            None => (
                ActView { chords: chords_in(words(a.value)), stage: Stage::Focus, ..b },
                AskView::Focus,
            ),
        }
    } else {
        match pattern_for(a.action) {
            None => refused(
                b,
                Status::PatternGone,
                name,
                a.matched,
                "unknown action '"@ + a.action + "'"@,
            ),
            Some(pattern) => (
                ActView { stage: Stage::Pattern, ..b },
                AskView::Pattern { pattern, value: a.value },
            ),
        }
    }
}

/// The element was asked to take the focus.
pub open spec fn focused(a: ActView, focus: Result<(), String>) -> (ActView, AskView) {
    match focus {
        Err(e) => refused(
            a,
            Status::PatternGone,
            a.target,
            a.matched,
            "could not focus the control to type into it: "@ + e@,
        ),
        Ok(_) => (
            ActView { stage: Stage::Keys, ..a },
            AskView::Keys { events: key_events(a.chords) },
        ),
    }
}

/// What is reported of keystrokes that were sent.
pub open spec fn keys_sent(chords: Seq<Chord>, value: Seq<char>) -> Seq<char> {
    "focused the control and sent "@ + decimal(chords.len()) + " keystroke(s): "@ + quoted(value)
        + ". Keyboard input goes to whatever holds focus, so this reports that the keys were sent, not that the control consumed them - and taking focus is a visible side effect."@
}

/// The keystrokes were to be sent. Taking the focus has happened by now, so a
/// failure is no refusal.
pub open spec fn typed(a: ActView, typing: Result<(), String>) -> (ActView, AskView) {
    match typing {
        Err(e) => (
            ActView { stage: Stage::Done, ..a },
            AskView::Failed { error: "focus was taken but the keystrokes failed: "@ + e@ },
        ),
        Ok(_) => (
            ActView { detail: keys_sent(a.chords, a.value), stage: Stage::Rescope, ..a },
            AskView::Rescope { hwnd: a.scope.hwnd },
        ),
    }
}

/// What is reported of a pattern that was called.
pub open spec fn effect_text(pattern: Pattern, value: Seq<char>) -> Seq<char> {
    match pattern {
        Pattern::Invoke => "invoked"@,
        Pattern::Value => "set "@ + decimal(encode_utf8(value).len()) + " chars"@,
        Pattern::Toggle => "toggled"@,
        Pattern::ExpandCollapse => "expanded"@,
        Pattern::SelectionItem => "selected"@,
    }
}

/// The pattern was to be called.
pub open spec fn called(a: ActView, call: Call) -> (ActView, AskView) {
    match call {
        Call::Absent => refused(
            a,
            Status::PatternGone,
            a.target,
            a.matched,
            "control no longer supports '"@ + a.action + "'"@,
        ),
        Call::Failed(e) => refused(
            a,
            Status::PatternGone,
            a.target,
            a.matched,
            "pattern call failed: "@ + e@,
        ),
        Call::Done => (
            ActView {
                detail: effect_text(pattern_for(a.action)->0, a.value),
                stage: Stage::Rescope,
                ..a
            },
            AskView::Rescope { hwnd: a.scope.hwnd },
        ),
    }
}

/// The action was performed, and the window has been read again.
pub open spec fn finished(a: ActView, window: Option<RawWindow>, now: u64, key: Seq<u8>) -> (
    ActView,
    AskView,
) {
    (
        ActView { stage: Stage::Done, ..a },
        AskView::Done {
            result: ActResultView {
                ok: true,
                action: a.action,
                status: Status::Acted,
                target: a.target,
                resolved_by: a.by,
                matched_by: a.matched,
                next_scope: match window {
                    Some(raw) => Some(
                        sealed(
                            scope_of(
                                WindowView { hwnd: a.scope.hwnd, ..raw.described() },
                                now,
                                DEFAULT_TTL_SECS,
                            ).payload(),
                            key,
                        ),
                    ),
                    None => None,
                },
                detail: Some(a.detail),
                screen_changed: None,
            },
        },
    )
}

/// What an event leads to; `None` for one that does not answer what was asked.
pub open spec fn next(a: ActView, event: Event, now: u64, key: Seq<u8>) -> Option<
    (ActView, AskView),
> {
    match (a.stage, event) {
        (Stage::Exists, Event::Exists { alive }) => Some(
            if alive {
                (
                    ActView { stage: Stage::Window, ..a },
                    AskView::Window {
                        hwnd: a.scope.hwnd,
                        subtree: a.by == ResolvedBy::Selector,
                    },
                )
            } else {
                refused(
                    a,
                    Status::IdentityChanged,
                    seq![],
                    None,
                    "the window no longer exists"@,
                )
            },
        ),
        (Stage::Window, Event::Window { raw, tree }) => Some(located(a, raw, tree)),
        (Stage::Children { at }, Event::Children { count }) => Some(counted(a, at, count)),
        (Stage::Child { at }, Event::Moved) => Some(descended(a, at)),
        (Stage::Element, Event::Moved) => Some((ActView { stage: Stage::State, ..a }, AskView::State)),
        (Stage::State, Event::State { name, enabled, offscreen }) => Some(
            inspected(a, name@, enabled, offscreen),
        ),
        (Stage::Focus, Event::Focused { focus }) => Some(focused(a, focus)),
        (Stage::Keys, Event::Typed { typing }) => Some(typed(a, typing)),
        (Stage::Pattern, Event::Called { call }) => Some(called(a, call)),
        (Stage::Rescope, Event::Rescoped { window }) => Some(finished(a, window, now, key)),
        _ => None,
    }
}

impl ActView {
    /// What every action under way keeps: the step of the path it is at exists,
    /// a selector is there when it is to be searched for, and a pattern when it
    /// is to be called.
    pub open spec fn wf(self) -> bool {
        &&& self.by != ResolvedBy::Ocr
        &&& self.by == ResolvedBy::Selector ==> self.select is Some
        &&& self.stage matches Stage::Children { at } ==> at < self.path.len()
        &&& self.stage matches Stage::Child { at } ==> at < self.path.len()
        &&& self.stage == Stage::Pattern ==> pattern_for(self.action) is Some
    }
}

/// An action before anything has been asked.
pub open spec fn begun(args: ActArgs, scope: Scope) -> ActView {
    let by = if args.select matches Some(s) && !s@.empty() {
        ResolvedBy::Selector
    } else {
        ResolvedBy::Path
    };
    ActView {
        scope,
        by,
        path: args.path@,
        select: selector_view(args.select),
        action: args.action@,
        value: match args.value {
            Some(v) => v@,
            None => seq![],
        },
        stage: Stage::Exists,
        window: seq![],
        target: seq![],
        matched: None,
        chords: seq![],
        detail: seq![],
    }
}

/// `head` followed by `tail`.
fn joined_text(head: &str, tail: &str) -> (r: String)
    ensures
        r@ == head@ + tail@,
{
    let mut out = String::from_str(head);
    out.append(tail);
    out
}

/// `text` between `head` and `tail`.
fn wrapped_text(head: &str, text: &str, tail: &str) -> (r: String)
    ensures
        r@ == head@ + text@ + tail@,
{
    let mut out = String::from_str(head);
    out.append(text);
    out.append(tail);
    out
}

/// Why a selector that matched several elements is refused.
fn ambiguity_text(hits: &[Hit], sel: &Selector) -> (r: String)
    requires
        hits@.len() > 0,
    ensures
        r@ == ambiguity(hit_views(hits@), sel@),
{
    let mut names = String::new();
    let few: usize = if hits.len() > 4 {
        4
    } else {
        hits.len()
    };
    let ghost all = first_names(hit_views(hits@));
    for i in 0..few
        invariant
            few == (if hits@.len() > 4 {
                4
            } else {
                hits@.len()
            }),
            all == first_names(hit_views(hits@)),
            names@ == comma_list(all.take(i as int)),
    {
        assert(all.take(i + 1).drop_last() =~= all.take(i as int));
        assert(all[i as int] == hits@[i as int].name@);
        if i > 0 {
            names.append(", ");
        }
        let ghost before = names@;
        names.append(hits[i].name.as_str());
        assert(i == 0 ==> before + hits@[i as int].name@ =~= hits@[i as int].name@);
    }
    assert(all.take(few as int) =~= all);
    let mut out = write_decimal(hits.len() as u64);
    out.append(" elements match ");
    let what = sel.describe();
    out.append(what.as_str());
    out.append(" at the ");
    out.append(hits[0].tier.as_str());
    out.append(" tier (");
    out.append(names.as_str());
    out.append("). Add automation_id or control_type.");
    out
}

fn keys_sent_text(count: usize, value: &str, Ghost(chords): Ghost<Seq<Chord>>) -> (r: String)
    requires
        count == chords.len(),
    ensures
        r@ == keys_sent(chords, value@),
{
    let mut out = String::from_str("focused the control and sent ");
    let n = write_decimal(count as u64);
    out.append(n.as_str());
    out.append(" keystroke(s): ");
    let q = to_quoted(value);
    out.append(q.as_str());
    out.append(
        ". Keyboard input goes to whatever holds focus, so this reports that the keys were sent, not that the control consumed them - and taking focus is a visible side effect.",
    );
    out
}

fn effect_words(pattern: Pattern, value: &str) -> (r: String)
    ensures
        r@ == effect_text(pattern, value@),
{
    match pattern {
        Pattern::Invoke => String::from_str("invoked"),
        Pattern::Value => {
            let n = write_decimal(value.as_bytes().len() as u64);
            wrapped_text("set ", n.as_str(), " chars")
        },
        Pattern::Toggle => String::from_str("toggled"),
        Pattern::ExpandCollapse => String::from_str("expanded"),
        Pattern::SelectionItem => String::from_str("selected"),
    }
}

/// `r` is the outcome `o`.
pub open spec fn is_outcome(r: (Act, Option<Ask>), o: (ActView, AskView)) -> bool {
    &&& r.0@ == o.0
    &&& r.1 matches Some(ask)
    &&& ask@ == o.1
}

impl Act {
    #[verifier::type_invariant]
    spec fn inv(self) -> bool {
        self@.wf()
    }

    /// An action on what a token gives authority over. `read` turns the signed
    /// bytes of the token into a scope, see [`Scope::decode_at`].
    pub fn start<F: Fn(&[u8]) -> Result<Scope, String>>(
        args: ActArgs,
        key: &[u8],
        now: u64,
        read: F,
    ) -> (r: Result<(Act, Ask), LeaseError>)
        requires
            forall|data: &[u8]| #[trigger] call_requires(read, (data,)),
        ensures
            match opened(args.scope@, key@) {
                Err(e) => r == Err::<(Act, Ask), LeaseError>(e),
                Ok(payload) => exists|out: Result<Scope, String>|
                    {
                        &&& #[trigger] read_by(read, payload, out)
                        &&& match judged(out, now) {
                            Err(e) => r == Err::<(Act, Ask), LeaseError>(e),
                            Ok(s) => r matches Ok((act, ask)) && act@ == begun(args, s) && ask@
                                == (AskView::Exists { hwnd: s.hwnd }),
                        }
                    },
            },
    {
        let scope = match Scope::decode_at(args.scope.as_str(), key, now, read) {
            Ok(s) => s,
            Err(e) => {
                return Err(e);
            },
        };
        let by = match &args.select {
            Some(s) => if s.is_empty() {
                ResolvedBy::Path
            } else {
                ResolvedBy::Selector
            },
            None => ResolvedBy::Path,
        };
        let value = match args.value {
            Some(v) => v,
            None => String::new(),
        };
        let act = Act {
            scope,
            by,
            path: args.path,
            select: args.select,
            action: args.action,
            value,
            stage: Stage::Exists,
            window: String::new(),
            target: String::new(),
            matched: None,
            chords: Vec::new(),
            detail: String::new(),
        };
        assert(act.window@ =~= seq![]);
        assert(act.target@ =~= seq![]);
        assert(act.detail@ =~= seq![]);
        assert(act.chords@ =~= seq![]);
        assert(args.value is None ==> act.value@ =~= seq![]);
        Ok((act, Ask::Exists { hwnd: scope.hwnd }))
    }

    fn refuse(
        self,
        status: Status,
        target: String,
        matched_by: Option<MatchTier>,
        detail: String,
    ) -> (r: (Act, Option<Ask>))
        ensures
            is_outcome(r, refused(self@, status, target@, matched_by, detail@)),
    {
        proof {
            use_type_invariant(&self);
        }
        let result = ActResult {
            ok: false,
            action: self.action.clone(),
            status,
            target,
            resolved_by: self.by,
            matched_by,
            next_scope: None,
            detail: Some(detail),
            screen_changed: None,
        };
        let act = Act { stage: Stage::Done, ..self };
        (act, Some(Ask::Done { result }))
    }

    fn locate(self, raw: RawWindow, tree: Node) -> (r: (Act, Option<Ask>))
        requires
            raw.rect.fits(),
            tree.wf(),
        ensures
            is_outcome(r, located(self@, raw, tree)),
    {
        proof {
            use_type_invariant(&self);
        }
        let seen = WindowInfo { hwnd: self.scope.hwnd, ..raw.info() };
        let name = raw.name;
        let act = Act { window: name.clone(), ..self };
        if generation_of(&seen) != act.scope.generation {
            return act.refuse(
                Status::IdentityChanged,
                name,
                None,
                String::from_str(
                    "window was replaced, retitled or resized since discovery - re-discover",
                ),
            );
        }
        if act.by == ResolvedBy::Selector {
            let (status, detail) = match &act.select {
                None => {
                    proof {
                        use_type_invariant(&act);
                    }
                    assert(false);
                    (Status::NotFound, String::new())
                },
                Some(sel) => {
                    let mut hits = resolve(&tree, sel);
                    let ghost found = resolved(tree, sel@);
                    assert(hits@.len() == found.len());
                    if hits.len() == 0 {
                        let what = sel.describe();
                        (
                            Status::NotFound,
                            joined_text("nothing in this window matches ", what.as_str()),
                        )
                    } else if hits.len() > 1 {
                        (Status::Ambiguous, ambiguity_text(hits.as_slice(), sel))
                    } else {
                        assert(found[0] == hits@[0]@);
                        let hit = hits.remove(0);
                        let there = Act {
                            matched: Some(hit.tier),
                            stage: Stage::Element,
                            ..act
                        };
                        return (there, Some(Ask::Element { path: hit.path }));
                    }
                },
            };
            return act.refuse(status, name, None, detail);
        }
        if act.path.len() == 0 {
            (Act { stage: Stage::State, ..act }, Some(Ask::State))
        } else {
            (Act { stage: Stage::Children { at: 0 }, ..act }, Some(Ask::Children))
        }
    }

    fn count(self, at: usize, count: Option<u32>) -> (r: (Act, Option<Ask>))
        requires
            at < self@.path.len(),
        ensures
            is_outcome(r, counted(self@, at, count)),
    {
        proof {
            use_type_invariant(&self);
        }
        let depth = write_decimal(at as u64);
        let window = self.window.clone();
        match count {
            None => self.refuse(
                Status::NotFound,
                window,
                None,
                joined_text("path ran out of children at depth ", depth.as_str()),
            ),
            Some(n) => {
                let index: u32 = self.path[at];
                if index >= n {
                    let number = write_decimal(index as u64);
                    let mut detail = wrapped_text(
                        "path index ",
                        number.as_str(),
                        " out of range at depth ",
                    );
                    detail.append(depth.as_str());
                    self.refuse(Status::NotFound, window, None, detail)
                } else {
                    let leaf: bool = at == self.path.len() - 1;
                    let act = Act { stage: Stage::Child { at }, ..self };
                    (act, Some(Ask::Child { index, leaf }))
                }
            },
        }
    }

    fn descend(self, at: usize) -> (r: (Act, Option<Ask>))
        requires
            at < self@.path.len(),
        ensures
            is_outcome(r, descended(self@, at)),
    {
        proof {
            use_type_invariant(&self);
        }
        if at < self.path.len() - 1 {
            (Act { stage: Stage::Children { at: at + 1 }, ..self }, Some(Ask::Children))
        } else {
            (Act { stage: Stage::State, ..self }, Some(Ask::State))
        }
    }

    fn inspect(self, name: String, enabled: bool, offscreen: bool) -> (r: (Act, Option<Ask>))
        ensures
            is_outcome(r, inspected(self@, name@, enabled, offscreen)),
    {
        proof {
            use_type_invariant(&self);
        }
        let matched = self.matched;
        let act = Act { target: name.clone(), ..self };
        if !enabled {
            return act.refuse(
                Status::Disabled,
                name,
                matched,
                String::from_str("control is disabled"),
            );
        }
        if offscreen {
            return act.refuse(
                Status::Moved,
                name,
                matched,
                String::from_str("control is offscreen"),
            );
        }
        if same_text(act.action.as_str(), "key") {
            return match parse(act.value.as_str()) {
                Err(e) => act.refuse(Status::PatternGone, name, matched, e.message()),
                Ok(chords) => (Act { chords, stage: Stage::Focus, ..act }, Some(Ask::Focus)),
            };
        }
        match pattern_of(act.action.as_str()) {
            None => {
                let detail = wrapped_text("unknown action '", act.action.as_str(), "'");
                act.refuse(Status::PatternGone, name, matched, detail)
            },
            Some(pattern) => {
                let value = act.value.clone();
                (Act { stage: Stage::Pattern, ..act }, Some(Ask::Pattern { pattern, value }))
            },
        }
    }

    fn focus(self, focus: Result<(), String>) -> (r: (Act, Option<Ask>))
        ensures
            is_outcome(r, focused(self@, focus)),
    {
        proof {
            use_type_invariant(&self);
        }
        match focus {
            Err(e) => {
                let target = self.target.clone();
                let matched = self.matched;
                self.refuse(
                    Status::PatternGone,
                    target,
                    matched,
                    joined_text("could not focus the control to type into it: ", e.as_str()),
                )
            },
            Ok(_) => {
                let events = send_keys(self.chords.as_slice());
                (Act { stage: Stage::Keys, ..self }, Some(Ask::Keys { events }))
            },
        }
    }

    fn finish_typing(self, typing: Result<(), String>) -> (r: (Act, Option<Ask>))
        ensures
            is_outcome(r, typed(self@, typing)),
    {
        proof {
            use_type_invariant(&self);
        }
        match typing {
            Err(e) => {
                let error = joined_text("focus was taken but the keystrokes failed: ", e.as_str());
                (Act { stage: Stage::Done, ..self }, Some(Ask::Failed { error }))
            },
            Ok(_) => {
                let detail = keys_sent_text(
                    self.chords.len(),
                    self.value.as_str(),
                    Ghost(self.chords@),
                );
                let hwnd: isize = self.scope.hwnd;
                (Act { detail, stage: Stage::Rescope, ..self }, Some(Ask::Rescope { hwnd }))
            },
        }
    }

    fn finish_call(self, call: Call) -> (r: (Act, Option<Ask>))
        requires
            pattern_for(self@.action) is Some,
        ensures
            is_outcome(r, called(self@, call)),
    {
        proof {
            use_type_invariant(&self);
        }
        let target = self.target.clone();
        let matched = self.matched;
        match call {
            Call::Absent => {
                let detail = wrapped_text(
                    "control no longer supports '",
                    self.action.as_str(),
                    "'",
                );
                self.refuse(Status::PatternGone, target, matched, detail)
            },
            Call::Failed(e) => self.refuse(
                Status::PatternGone,
                target,
                matched,
                joined_text("pattern call failed: ", e.as_str()),
            ),
            Call::Done => {
                let detail = match pattern_of(self.action.as_str()) {
                    Some(pattern) => effect_words(pattern, self.value.as_str()),
                    None => String::new(),
                };
                let hwnd: isize = self.scope.hwnd;
                (Act { detail, stage: Stage::Rescope, ..self }, Some(Ask::Rescope { hwnd }))
            },
        }
    }

    fn finish(self, window: Option<RawWindow>, now: u64, key: &[u8]) -> (r: (Act, Option<Ask>))
        requires
            window matches Some(raw) ==> raw.rect.fits(),
            now + DEFAULT_TTL_SECS <= u64::MAX,
        ensures
            is_outcome(r, finished(self@, window, now, key@)),
    {
        proof {
            use_type_invariant(&self);
        }
        let next_scope = match window {
            Some(raw) => {
                let seen = WindowInfo { hwnd: self.scope.hwnd, ..raw.info() };
                fresh_scope(&seen, now, DEFAULT_TTL_SECS, key)
            },
            None => None,
        };
        let result = ActResult {
            ok: true,
            action: self.action.clone(),
            status: Status::Acted,
            target: self.target.clone(),
            resolved_by: self.by,
            matched_by: self.matched,
            next_scope,
            detail: Some(self.detail.clone()),
            screen_changed: None,
        };
        let act = Act { stage: Stage::Done, ..self };
        (act, Some(Ask::Done { result }))
    }

    /// Takes in what the platform reports, and says what it is to do next. An
    /// event that does not answer what was asked changes nothing and leads to
    /// nothing.
    pub fn step(self, event: Event, now: u64, key: &[u8]) -> (r: (Act, Option<Ask>))
        requires
            event.wf(),
            now + DEFAULT_TTL_SECS <= u64::MAX,
        ensures
            match next(self@, event, now, key@) {
                Some(o) => is_outcome(r, o),
                None => r.0@ == self@ && r.1 is None,
            },
    {
        proof {
            use_type_invariant(&self);
        }
        match (self.stage, event) {
            (Stage::Exists, Event::Exists { alive }) => if alive {
                let hwnd: isize = self.scope.hwnd;
                let subtree: bool = self.by == ResolvedBy::Selector;
                (Act { stage: Stage::Window, ..self }, Some(Ask::Window { hwnd, subtree }))
            } else {
                let none = String::new();
                assert(none@ =~= seq![]);
                self.refuse(
                    Status::IdentityChanged,
                    none,
                    None,
                    String::from_str("the window no longer exists"),
                )
            },
            (Stage::Window, Event::Window { raw, tree }) => self.locate(raw, tree),
            (Stage::Children { at }, Event::Children { count }) => self.count(at, count),
            (Stage::Child { at }, Event::Moved) => self.descend(at),
            (Stage::Element, Event::Moved) => (
                Act { stage: Stage::State, ..self },
                Some(Ask::State),
            ),
            (Stage::State, Event::State { name, enabled, offscreen }) => self.inspect(
                name,
                enabled,
                offscreen,
            ),
            (Stage::Focus, Event::Focused { focus }) => self.focus(focus),
            (Stage::Keys, Event::Typed { typing }) => self.finish_typing(typing),
            (Stage::Pattern, Event::Called { call }) => self.finish_call(call),
            (Stage::Rescope, Event::Rescoped { window }) => self.finish(window, now, key),
            _ => (self, None),
        }
    }
}

} // verus!
