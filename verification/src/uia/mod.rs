//! UI Automation: windows, their element trees, and acting on an element.
//!
//! The platform is read elsewhere and handed in as plain values: a window as
//! [`RawWindow`], its cached subtree as [`tree::Node`]. What is decided from
//! them stands here.

use vstd::prelude::*;
use vstd::string::*;
use vstd::bytes::*;
use vstd::std_specs::hash::*;
use vstd::utf8::*;
use std::collections::hash_map::DefaultHasher;
use std::hash::Hasher;
use crate::chars::{
    ascii_lowered, ascii_lowered_text, optional, same_text, signed_decimal, views, write_signed,
};
use crate::foreign::{quoted, to_quoted};
use crate::lease::{issued, Scope};
use crate::text::{tier, tier_of, MatchTier};

pub mod act;
pub mod retry;
pub mod tree;

pub use act::{ActArgs, ActResult};

verus! {

/// A rectangle by its origin and its size.
#[derive(Debug, Clone, Copy, PartialEq, Eq, Structural)]
pub struct Bounds {
    pub x: i32,
    pub y: i32,
    pub w: i32,
    pub h: i32,
}

/// Half of `v`, rounded towards zero.
pub open spec fn half(v: int) -> int {
    if v >= 0 {
        v / 2
    } else {
        -((-v) / 2)
    }
}

/// Half of `v`, rounded towards zero.
pub fn half_of(v: i32) -> (r: i32)
    ensures
        r == half(v as int),
{
    if v >= 0 {
        v / 2
    } else {
        let m: i64 = -(v as i64);
        -((m / 2) as i32)
    }
}

/// A rectangle by its edges, as the platform reports it.
#[derive(Debug, Clone, Copy, PartialEq, Eq, Structural)]
pub struct Rect {
    pub left: i32,
    pub top: i32,
    pub right: i32,
    pub bottom: i32,
}

impl Rect {
    /// The width and the height are machine integers.
    pub open spec fn fits(self) -> bool {
        &&& i32::MIN <= self.right - self.left <= i32::MAX
        &&& i32::MIN <= self.bottom - self.top <= i32::MAX
    }

    /// The rectangle by origin and size.
    pub open spec fn area(self) -> Bounds {
        Bounds {
            x: self.left,
            y: self.top,
            w: (self.right - self.left) as i32,
            h: (self.bottom - self.top) as i32,
        }
    }

    /// Whether the width and the height are machine integers.
    pub fn has_size(&self) -> (r: bool)
        ensures
            r == self.fits(),
    {
        let w: i64 = self.right as i64 - self.left as i64;
        let h: i64 = self.bottom as i64 - self.top as i64;
        i32::MIN as i64 <= w && w <= i32::MAX as i64 && i32::MIN as i64 <= h && h <= i32::MAX as i64
    }

    /// The rectangle by origin and size.
    pub fn bounds(&self) -> (r: Bounds)
        requires
            self.fits(),
        ensures
            r == self.area(),
    {
        Bounds {
            x: self.left,
            y: self.top,
            w: self.right - self.left,
            h: self.bottom - self.top,
        }
    }
}

/// A top-level window as seen by UI Automation.
#[derive(Debug)]
pub struct WindowInfo {
    pub name: String,
    pub class_name: String,
    pub control_type: String,
    pub hwnd: isize,
    pub pid: i32,
    pub bounds: Bounds,
}

/// What a [`WindowInfo`] says.
pub struct WindowView {
    pub name: Seq<char>,
    pub class_name: Seq<char>,
    pub control_type: Seq<char>,
    pub hwnd: isize,
    pub pid: i32,
    pub bounds: Bounds,
}

impl View for WindowInfo {
    type V = WindowView;

    open spec fn view(&self) -> WindowView {
        WindowView {
            name: self.name@,
            class_name: self.class_name@,
            control_type: self.control_type@,
            hwnd: self.hwnd,
            pid: self.pid,
            bounds: self.bounds,
        }
    }
}

impl Clone for WindowInfo {
    /// A copy that says the same.
    fn clone(&self) -> (r: WindowInfo)
        ensures
            r@ == self@,
    {
        WindowInfo {
            name: self.name.clone(),
            class_name: self.class_name.clone(),
            control_type: self.control_type.clone(),
            hwnd: self.hwnd,
            pid: self.pid,
            bounds: self.bounds,
        }
    }
}

/// A top-level window as the platform reports it. A property that could not be
/// read is empty or zero.
#[derive(Debug)]
pub struct RawWindow {
    pub name: String,
    pub class_name: String,
    /// The identifier of the control type.
    pub control_type: i32,
    pub hwnd: isize,
    pub pid: i32,
    pub rect: Rect,
}

impl RawWindow {
    /// The window described for a caller.
    pub open spec fn described(self) -> WindowView {
        WindowView {
            name: self.name@,
            class_name: self.class_name@,
            control_type: type_label(self.control_type),
            hwnd: self.hwnd,
            pid: self.pid,
            bounds: self.rect.area(),
        }
    }

    /// Describes the window for a caller.
    pub fn info(&self) -> (r: WindowInfo)
        requires
            self.rect.fits(),
        ensures
            r@ == self.described(),
    {
        WindowInfo {
            name: self.name.clone(),
            class_name: self.class_name.clone(),
            control_type: control_type_name(self.control_type),
            hwnd: self.hwnd,
            pid: self.pid,
            bounds: self.rect.bounds(),
        }
    }
}

/// Describes the top-level windows, in the order reported.
pub fn list_windows(raw: &[RawWindow]) -> (r: Vec<WindowInfo>)
    requires
        forall|i: int| 0 <= i < raw@.len() ==> (#[trigger] raw@[i]).rect.fits(),
    ensures
        r@.len() == raw@.len(),
        forall|i: int| 0 <= i < raw@.len() ==> (#[trigger] r@[i])@ == raw@[i].described(),
{
    let mut out: Vec<WindowInfo> = Vec::new();
    for i in 0..raw.len()
        invariant
            forall|j: int| 0 <= j < raw@.len() ==> (#[trigger] raw@[j]).rect.fits(),
            out@.len() == i,
            forall|j: int| 0 <= j < i ==> (#[trigger] out@[j])@ == raw@[j].described(),
    {
        out.push(raw[i].info());
    }
    out
}

/// The name under which a control type is reported.
pub open spec fn type_label(id: i32) -> Seq<char> {
    if id == 50032 {
        "window"@
    } else if id == 50000 {
        "button"@
    } else if id == 50004 {
        "edit"@
    } else if id == 50010 {
        "menu bar"@
    } else if id == 50011 {
        "menu item"@
    } else if id == 50033 {
        "pane"@
    } else if id == 50020 {
        "text"@
    } else if id == 50008 {
        "list"@
    } else if id == 50019 {
        "tab item"@
    } else if id == 50021 {
        "tool bar"@
    } else if id == 50023 {
        "tree"@
    } else if id == 50026 {
        "group"@
    } else if id == 50024 {
        "tree item"@
    } else if id == 50006 {
        "image"@
    } else if id == 50002 {
        "checkbox"@
    } else if id == 50003 {
        "combobox"@
    } else if id == 50005 {
        "link"@
    } else if id == 50007 {
        "list item"@
    } else if id == 50013 {
        "radio"@
    } else if id == 50031 {
        "split button"@
    } else if id == 50018 {
        "tab"@
    } else if id == 50025 {
        "custom"@
    } else if id == 50030 {
        "document"@
    } else if id == 50037 {
        "title bar"@
    } else if id == 50017 {
        "status bar"@
    } else {
        "type#"@ + signed_decimal(id as int)
    }
}

/// The name of a UI Automation control type identifier; `type#N` for one that
/// has no name here.
pub fn control_type_name(id: i32) -> (r: String)
    ensures
        r@ == type_label(id),
{
    let s = match id {
        50032 => "window",
        50000 => "button",
        50004 => "edit",
        50010 => "menu bar",
        50011 => "menu item",
        50033 => "pane",
        50020 => "text",
        50008 => "list",
        50019 => "tab item",
        50021 => "tool bar",
        50023 => "tree",
        50026 => "group",
        50024 => "tree item",
        50006 => "image",
        50002 => "checkbox",
        50003 => "combobox",
        50005 => "link",
        50007 => "list item",
        50013 => "radio",
        50031 => "split button",
        50018 => "tab",
        50025 => "custom",
        50030 => "document",
        50037 => "title bar",
        50017 => "status bar",
        _ => {
            let mut out = String::from_str("type#");
            let n = write_signed(id as i64);
            out.append(n.as_str());
            return out;
        },
    };
    String::from_str(s)
}

/// One actionable element, with what is needed to find it again.
#[derive(Debug)]
pub struct Entity {
    pub name: String,
    pub control_type: String,
    pub automation_id: String,
    /// The full rectangle, in verbose mode only.
    pub bounds: Option<Bounds>,
    /// Centre point, so that callers never do coordinate arithmetic.
    pub click_at: (i32, i32),
    pub actions: Vec<String>,
    pub enabled: bool,
    /// Child-index chain from the window root, relative to the scope.
    pub path: Vec<u32>,
}

/// What an [`Entity`] says.
pub struct EntityView {
    pub name: Seq<char>,
    pub control_type: Seq<char>,
    pub automation_id: Seq<char>,
    pub bounds: Option<Bounds>,
    pub click_at: (i32, i32),
    pub actions: Seq<Seq<char>>,
    pub enabled: bool,
    pub path: Seq<u32>,
}

impl View for Entity {
    type V = EntityView;

    open spec fn view(&self) -> EntityView {
        EntityView {
            name: self.name@,
            control_type: self.control_type@,
            automation_id: self.automation_id@,
            bounds: self.bounds,
            click_at: self.click_at,
            actions: views(self.actions@),
            enabled: self.enabled,
            path: self.path@,
        }
    }
}

/// What some entities say.
pub open spec fn entity_views(es: Seq<Entity>) -> Seq<EntityView> {
    es.map_values(|e: Entity| e@)
}

impl Clone for Entity {
    /// A copy that says the same.
    fn clone(&self) -> (r: Entity)
        ensures
            r@ == self@,
    {
        let mut actions: Vec<String> = Vec::new();
        for i in 0..self.actions.len()
            invariant
                views(actions@) == views(self.actions@).take(i as int),
        {
            let ghost before = actions@;
            actions.push(self.actions[i].clone());
            assert(views(actions@) =~= views(before).push(self.actions@[i as int]@));
        }
        assert(views(actions@) =~= views(self.actions@));
        let mut path: Vec<u32> = Vec::new();
        for i in 0..self.path.len()
            invariant
                path@ == self.path@.take(i as int),
        {
            path.push(self.path[i]);
        }
        assert(path@ =~= self.path@);
        Entity {
            name: self.name.clone(),
            control_type: self.control_type.clone(),
            automation_id: self.automation_id.clone(),
            bounds: self.bounds,
            click_at: self.click_at,
            actions,
            enabled: self.enabled,
            path,
        }
    }
}

/// What a discovery returns.
#[derive(Debug)]
pub struct Discovery {
    pub window: WindowInfo,
    /// Signed, expiring authority over this window at this generation.
    pub scope: String,
    pub generation: u64,
    pub entities: Vec<Entity>,
    /// Set when a depth or count cap stopped the walk, so a caller is never
    /// silently handed a partial view.
    pub truncated: Option<String>,
}

/// What a caller wants back.
#[derive(Debug, Clone, Copy, PartialEq, Eq, Structural)]
pub enum Filter {
    /// Things that can be clicked, typed into, toggled, expanded or selected.
    Actionable,
    /// Everything that exposes at least one control pattern, containers and
    /// unnamed elements among them. Elements with no pattern at all are never
    /// returned: there is nothing to act on.
    All,
}

/// `r` is the filter named `s`, or the refusal of a name that no filter has.
pub open spec fn parses_to(s: Seq<char>, r: Result<Filter, String>) -> bool {
    match r {
        Ok(Filter::Actionable) => s == "actionable"@,
        Ok(Filter::All) => s == "all"@ && s != "actionable"@,
        Err(e) => {
            &&& s != "actionable"@
            &&& s != "all"@
            &&& e@ == "unknown filter '"@ + s + "' (actionable|all)"@
        },
    }
}

impl Filter {
    /// The filter of that name.
    pub fn parse(s: &str) -> (r: Result<Filter, String>)
        ensures
            parses_to(s@, r),
    {
        if same_text(s, "actionable") {
            Ok(Filter::Actionable)
        } else if same_text(s, "all") {
            Ok(Filter::All)
        } else {
            let mut out = String::from_str("unknown filter '");
            out.append(s);
            out.append("' (actionable|all)");
            Err(out)
        }
    }
}

impl std::str::FromStr for Filter {
    type Err = String;

    /// See [`Filter::parse`].
    fn from_str(s: &str) -> (r: Result<Filter, String>)
        ensures
            parses_to(s@, r),
    {
        Filter::parse(s)
    }
}

/// What to discover and how much of it.
#[derive(Debug, Clone, Copy, PartialEq, Eq)]
pub struct DiscoverArgs {
    pub hwnd: Option<isize>,
    pub max_depth: u32,
    pub max_elements: usize,
    pub ttl_secs: u64,
    pub filter: Filter,
    pub verbose: bool,
}

/// The secret that scopes are signed with.
pub struct EngineConfig {
    pub lease_key: Vec<u8>,
}

/// An element described by what it is rather than where it stands.
#[derive(Debug)]
pub struct Selector {
    /// The label, matched through the ladder of [`crate::text`].
    pub name: Option<String>,
    /// The automation identifier, compared character for character: it is an
    /// identifier, and stable across locales.
    pub automation_id: Option<String>,
    /// The control type, compared without regard to ASCII case.
    pub control_type: Option<String>,
}

/// What a [`Selector`] says.
pub struct SelectorView {
    pub name: Option<Seq<char>>,
    pub automation_id: Option<Seq<char>>,
    pub control_type: Option<Seq<char>>,
}

impl View for Selector {
    type V = SelectorView;

    open spec fn view(&self) -> SelectorView {
        SelectorView {
            name: optional(self.name),
            automation_id: optional(self.automation_id),
            control_type: optional(self.control_type),
        }
    }
}

/// `list` followed by `item`, with a comma between when there is something to
/// part.
pub open spec fn listed(list: Seq<char>, item: Seq<char>) -> Seq<char> {
    if list.len() == 0 {
        item
    } else {
        list + ", "@ + item
    }
}

impl SelectorView {
    /// It constrains nothing.
    pub open spec fn empty(self) -> bool {
        self.name is None && self.automation_id is None && self.control_type is None
    }

    /// The selector in words.
    pub open spec fn described(self) -> Seq<char> {
        let a = match self.name {
            Some(n) => "name="@ + quoted(n),
            None => seq![],
        };
        let b = match self.automation_id {
            Some(id) => listed(a, "automation_id="@ + quoted(id)),
            None => a,
        };
        match self.control_type {
            Some(ct) => listed(b, "control_type="@ + quoted(ct)),
            None => b,
        }
    }

    /// The tier at which an element with that label, identifier and type is
    /// selected. A selector without a name constrains none, so it contributes
    /// the tightest tier.
    pub open spec fn selects(
        self,
        name: Seq<char>,
        automation_id: Seq<char>,
        control_type: Seq<char>,
    ) -> Option<MatchTier> {
        let named = match self.name {
            None => Some(MatchTier::Exact),
            Some(n) => tier(name, n),
        };
        let same_id = self.automation_id is Some ==> self.automation_id->0 == automation_id;
        let same_type = self.control_type is Some ==> ascii_lowered(self.control_type->0)
            == ascii_lowered(control_type);
        if same_id && same_type {
            named
        } else {
            None
        }
    }
}

fn list_item(out: &mut String, item: &str)
    ensures
        final(out)@ == listed(old(out)@, item@),
{
    if !out.as_str().is_empty() {
        out.append(", ");
    }
    let ghost head = out@;
    out.append(item);
    assert(old(out)@.len() == 0 ==> head + item@ =~= item@);
}

fn labelled(label: &str, value: &str) -> (r: String)
    ensures
        r@ == label@ + quoted(value@),
{
    let mut out = String::from_str(label);
    let q = to_quoted(value);
    out.append(q.as_str());
    out
}

impl Selector {
    /// Whether the selector constrains nothing.
    pub fn is_empty(&self) -> (r: bool)
        ensures
            r == self@.empty(),
    {
        self.name.is_none() && self.automation_id.is_none() && self.control_type.is_none()
    }

    /// The selector in words.
    pub fn describe(&self) -> (r: String)
        ensures
            r@ == self@.described(),
    {
        let mut out = match &self.name {
            Some(n) => labelled("name=", n.as_str()),
            None => String::new(),
        };
        if let Some(id) = &self.automation_id {
            let item = labelled("automation_id=", id.as_str());
            list_item(&mut out, item.as_str());
        }
        if let Some(ct) = &self.control_type {
            let item = labelled("control_type=", ct.as_str());
            list_item(&mut out, item.as_str());
        }
        out
    }

    /// The tier at which an element with that label, identifier and type is
    /// selected.
    pub fn matches(&self, name: &str, automation_id: &str, control_type: &str) -> (r: Option<
        MatchTier,
    >)
        ensures
            r == self@.selects(name@, automation_id@, control_type@),
    {
        if let Some(id) = &self.automation_id {
            if !same_text(id.as_str(), automation_id) {
                return None;
            }
        }
        if let Some(ct) = &self.control_type {
            let a = ascii_lowered_text(ct.as_str());
            let b = ascii_lowered_text(control_type);
            if !same_text(a.as_str(), b.as_str()) {
                return None;
            }
        }
        match &self.name {
            None => Some(MatchTier::Exact),
            Some(n) => tier_of(name, n.as_str()),
        }
    }
}

/// The tier at which a discovered entity is selected: the same rule by which
/// an element of the tree is.
pub fn entity_matches(e: &Entity, sel: &Selector) -> (r: Option<MatchTier>)
    ensures
        r == sel@.selects(e@.name, e@.automation_id, e@.control_type),
{
    sel.matches(e.name.as_str(), e.automation_id.as_str(), e.control_type.as_str())
}

// The generation of a window

/// The bytes that identify a window, as they are fed to the hasher. The
/// position of the window is not among them, its size is.
pub open spec fn identity(w: WindowView) -> Seq<Seq<u8>> {
    seq![
        spec_u64_to_le_bytes(w.hwnd as u64),
        spec_u32_to_le_bytes(w.pid as u32),
        encode_utf8(w.class_name),
        seq![0xffu8],
        encode_utf8(w.name),
        seq![0xffu8],
        spec_u32_to_le_bytes(w.bounds.w as u32),
        spec_u32_to_le_bytes(w.bounds.h as u32),
    ]
}

/// The fingerprint of a window's identity.
pub open spec fn generation(w: WindowView) -> u64 {
    DefaultHasher::spec_finish(identity(w))
}

/// Cheap fingerprint of a window's identity. `act` compares this against the
/// scope, so a replaced, retitled or resized window is caught before input is
/// sent.
pub fn generation_of(w: &WindowInfo) -> (r: u64)
    ensures
        r == generation(w@),
{
    let mut h = DefaultHasher::new();
    let end: Vec<u8> = vec![0xffu8];
    let hwnd = u64_to_le_bytes(w.hwnd as u64);
    h.write(hwnd.as_slice());
    let pid = u32_to_le_bytes(w.pid as u32);
    h.write(pid.as_slice());
    h.write(w.class_name.as_str().as_bytes());
    h.write(end.as_slice());
    h.write(w.name.as_str().as_bytes());
    h.write(end.as_slice());
    let width = u32_to_le_bytes(w.bounds.w as u32);
    h.write(width.as_slice());
    let height = u32_to_le_bytes(w.bounds.h as u32);
    h.write(height.as_slice());
    assert(end@ =~= seq![0xffu8]);
    assert(h@ =~= identity(w@));
    h.finish()
}

/// The scope of a window as it stands: good for `ttl` seconds from `now`.
pub open spec fn scope_of(w: WindowView, now: u64, ttl: u64) -> Scope {
    Scope { hwnd: w.hwnd, generation: generation(w), exp: (now + ttl) as u64 }
}

/// Signs a scope for the window as it stands.
///
/// Acting often changes the very properties that the generation is made of
/// (typing into a document adds a modified marker to the title), so the scope
/// a caller just used is frequently stale the instant the action succeeds.
pub fn fresh_scope(w: &WindowInfo, now: u64, ttl: u64, key: &[u8]) -> (r: Option<String>)
    requires
        now + ttl <= u64::MAX,
    ensures
        r matches Some(token) && issued(token@, scope_of(w@, now, ttl), key@),
{
    let scope = Scope { hwnd: w.hwnd, generation: generation_of(w), exp: now + ttl };
    match scope.encode(key) {
        Ok(token) => Some(token),
        Err(_) => None,
    }
}

} // verus!
