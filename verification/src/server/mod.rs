//! The tool surface.
//!
//! Seven tools, and deliberately nothing that generalises. The process runs at
//! high integrity and is reachable over the network, so every tool is attack
//! surface: there is no shell, no registry, no filesystem, and no way to run an
//! arbitrary command. What a caller may ask for, and what is refused, is
//! decided here.

use vstd::prelude::*;
use vstd::string::*;
use std::sync::Arc;
use crate::chars::{decimal, optional, same_text, trim, trimmed_text, views, write_decimal};
use crate::foreign::{base64, base64_encode, lowercase, to_lowercase};
use crate::guard::{refusal, refusal_text};
use crate::lease::DEFAULT_TTL_SECS;
use crate::ocr::FindArgs;
use crate::uia::act::{selector_view, ActArgs, ActResult, Status};
use crate::uia::{DiscoverArgs, Filter, Selector, SelectorView};

pub mod fallback;
pub mod http;
pub mod wait;

pub use wait::{WaitForParams, WaitResult};

verus! {

/// How deep a discovery goes.
pub const MAX_DEPTH: u32 = 24;

/// How many entities a discovery returns unless a caller says otherwise.
pub const MAX_ELEMENTS: usize = 400;

/// How many matches a text search returns unless a caller says otherwise.
pub const MAX_MATCHES: usize = 50;

/// The width that a picture is reduced to unless a caller says otherwise.
pub const MAX_WIDTH: u32 = 1400;

/// Why a tool call was refused.
#[derive(Debug)]
pub enum Refusal {
    /// The call cannot be served now.
    Internal(String),
    /// The call asks for something that is not to be had.
    InvalidParams(String),
}

/// The server: what reaches the platform, and what may be launched.
pub struct Wincrust<E> {
    engine: E,
    allowlist: Arc<Vec<String>>,
}

impl<E> Wincrust<E> {
    /// What reaches the platform.
    pub closed spec fn reaches(&self) -> E {
        self.engine
    }

    /// The names that may be launched.
    pub closed spec fn launchable(&self) -> Seq<Seq<char>> {
        views((*self.allowlist)@)
    }

    /// The allowlist is loaded once by the caller and shared.
    pub fn new(engine: E, allowlist: Arc<Vec<String>>) -> (r: Wincrust<E>)
        ensures
            r.reaches() == engine,
            r.launchable() == views((*allowlist)@),
    {
        Wincrust { engine, allowlist }
    }

    /// What reaches the platform.
    pub fn engine(&self) -> (r: &E)
        ensures
            *r == self.reaches(),
    {
        &self.engine
    }

    /// Whether an application may be launched, `stopped` being whether the
    /// emergency stop is engaged. Only a name on the allowlist may, whatever its
    /// case and the white space around it.
    pub fn launch(&self, stopped: bool, p: &LaunchParams) -> (r: Result<(), Refusal>)
        ensures
            launch_outcome(self.launchable(), stopped, p.name@, lowercase(trim(p.name@)), r),
    {
        let bare = trimmed_text(p.name.as_str());
        let want = to_lowercase(bare.as_str());
        launch_decision(self.allowlist.as_slice(), stopped, p.name.as_str(), want.as_str())
    }
}

// Launching

/// Why a name that is not on the allowlist is refused.
pub open spec fn not_listed(name: Seq<char>, entries: nat) -> Seq<char> {
    "'"@ + name + "' is not in the launch allowlist ("@ + decimal(entries)
        + " entries). Add it to %LOCALAPPDATA%\\wincrust\\launch-allowlist.txt on the host."@
}

/// What becomes of a request to launch `name`, which reads `want` in the form
/// in which the allowlist is kept.
pub open spec fn launch_outcome(
    allowlist: Seq<Seq<char>>,
    stopped: bool,
    name: Seq<char>,
    want: Seq<char>,
    r: Result<(), Refusal>,
) -> bool {
    if stopped {
        r matches Err(Refusal::Internal(text)) && text@ == refusal_text()
    } else if allowlist.contains(want) {
        r is Ok
    } else {
        r matches Err(Refusal::InvalidParams(text)) && text@ == not_listed(name, allowlist.len())
    }
}

/// Whether `want` is one of `list`.
pub fn is_listed(list: &[String], want: &str) -> (r: bool)
    ensures
        r == views(list@).contains(want@),
{
    for i in 0..list.len()
        invariant
            forall|j: int| 0 <= j < i ==> (#[trigger] views(list@)[j]) != want@,
    {
        if same_text(list[i].as_str(), want) {
            assert(views(list@)[i as int] == want@);
            return true;
        }
    }
    false
}

/// Whether `name`, which reads `want` in the form in which the allowlist is
/// kept, may be launched.
pub fn launch_decision(allowlist: &[String], stopped: bool, name: &str, want: &str) -> (r: Result<
    (),
    Refusal,
>)
    ensures
        launch_outcome(views(allowlist@), stopped, name@, want@, r),
{
    if stopped {
        return Err(Refusal::Internal(refusal()));
    }
    if is_listed(allowlist, want) {
        return Ok(());
    }
    let mut text = String::from_str("'");
    text.append(name);
    text.append("' is not in the launch allowlist (");
    let n = write_decimal(allowlist.len() as u64);
    text.append(n.as_str());
    text.append(" entries). Add it to %LOCALAPPDATA%\\wincrust\\launch-allowlist.txt on the host.");
    Err(Refusal::InvalidParams(text))
}

/// Refuses input while the emergency stop is engaged.
pub fn check_stop(stopped: bool) -> (r: Result<(), Refusal>)
    ensures
        if stopped {
            r matches Err(Refusal::Internal(text)) && text@ == refusal_text()
        } else {
            r is Ok
        },
{
    if stopped {
        Err(Refusal::Internal(refusal()))
    } else {
        Ok(())
    }
}

// What callers ask for

/// What `launch` takes.
#[derive(Debug)]
pub struct LaunchParams {
    /// Must appear in the launch allowlist.
    pub name: String,
}

/// What `discover` takes.
#[derive(Debug)]
pub struct DiscoverParams {
    /// Window handle from `windows`. The foreground window when there is none.
    pub hwnd: Option<isize>,
    /// "actionable", or "all".
    pub filter: Option<String>,
    /// Cap on returned entities.
    pub max_elements: Option<usize>,
}

/// What a tool of the server discovers in a window.
pub open spec fn discovery_of(hwnd: Option<isize>, max_elements: usize, filter: Filter) -> DiscoverArgs {
    DiscoverArgs {
        hwnd,
        max_depth: MAX_DEPTH,
        max_elements,
        ttl_secs: DEFAULT_TTL_SECS,
        filter,
        verbose: false,
    }
}

/// What a tool of the server discovers in a window.
pub fn discover_args(hwnd: Option<isize>, max_elements: usize, filter: Filter) -> (r: DiscoverArgs)
    ensures
        r == discovery_of(hwnd, max_elements, filter),
{
    DiscoverArgs {
        hwnd,
        max_depth: MAX_DEPTH,
        max_elements,
        ttl_secs: DEFAULT_TTL_SECS,
        filter,
        verbose: false,
    }
}

impl DiscoverParams {
    /// What is to be discovered. Anything but "all" asks for what is
    /// actionable.
    pub fn args(&self) -> (r: DiscoverArgs)
        ensures
            r == discovery_of(
                self.hwnd,
                match self.max_elements {
                    Some(n) => n,
                    None => MAX_ELEMENTS,
                },
                if self.filter matches Some(f) && f@ == "all"@ {
                    Filter::All
                } else {
                    Filter::Actionable
                },
            ),
    {
        let filter = match &self.filter {
            Some(f) => if same_text(f.as_str(), "all") {
                Filter::All
            } else {
                Filter::Actionable
            },
            None => Filter::Actionable,
        };
        let max_elements: usize = match self.max_elements {
            Some(n) => n,
            None => MAX_ELEMENTS,
        };
        discover_args(self.hwnd, max_elements, filter)
    }
}

/// What `act` takes.
#[derive(Debug)]
pub struct ActParams {
    /// The scope of the discovery that produced the entity.
    pub scope: String,
    /// The entity's path. Fast and exact while the tree is unchanged.
    pub path: Vec<u32>,
    /// Resolves by identity instead of position, which survives a tree reshape
    /// that a path does not.
    pub select: Option<Selector>,
    /// Falls back to OCR when the selector finds nothing in the UI tree. An OCR
    /// hit is a rectangle, not a control, so this is off unless asked for.
    pub allow_ocr: bool,
    /// click | type | key | toggle | expand | select
    pub action: String,
    /// Text for `type`; a key specification for `key`.
    pub value: Option<String>,
}

/// A selector, unless it constrains nothing.
pub open spec fn constraining(s: Option<SelectorView>) -> Option<SelectorView> {
    match s {
        Some(sel) => if sel.empty() {
            None
        } else {
            Some(sel)
        },
        None => None,
    }
}

/// What to look for on the screen if the UI tree has no match.
pub open spec fn ocr_query(allow_ocr: bool, select: Option<SelectorView>) -> Option<Seq<char>> {
    match constraining(select) {
        Some(sel) => if allow_ocr {
            sel.name
        } else {
            None
        },
        None => None,
    }
}

impl ActParams {
    /// What to act on in the UI tree, and what to look for on the screen if the
    /// tree has no match.
    pub fn plan(self) -> (r: (ActArgs, Option<String>))
        ensures
            r.0.scope == self.scope,
            r.0.path == self.path,
            r.0.action == self.action,
            r.0.value == self.value,
            selector_view(r.0.select) == constraining(selector_view(self.select)),
            optional(r.1) == ocr_query(self.allow_ocr, selector_view(self.select)),
    {
        let select = match self.select {
            Some(s) => if s.is_empty() {
                None
            } else {
                Some(s)
            },
            None => None,
        };
        let query = if self.allow_ocr {
            match &select {
                Some(s) => match &s.name {
                    Some(n) => Some(n.clone()),
                    None => None,
                },
                None => None,
            }
        } else {
            None
        };
        (
            ActArgs {
                scope: self.scope,
                path: self.path,
                select,
                action: self.action,
                value: self.value,
            },
            query,
        )
    }
}

/// Whether the screen is to be read after what became of the UI tree. Only an
/// absent target falls through: several matches mean that the caller must
/// narrow, and a changed window that a fresh discovery is the right answer.
pub fn falls_back(query: &Option<String>, r: &ActResult) -> (b: bool)
    ensures
        b == (query is Some && r.status == Status::NotFound),
{
    query.is_some() && r.status == Status::NotFound
}

/// What `observe` takes.
#[derive(Debug)]
pub struct ObserveParams {
    /// "text", "image", or "diff".
    pub detail: Option<String>,
    /// Downscale width before encoding; zero for native.
    pub max_width: Option<u32>,
}

/// What is to be observed.
#[derive(Debug, Clone, Copy, PartialEq, Eq, Structural)]
pub enum Look {
    /// The windows and the focused elements, in words.
    Text,
    /// The whole screen, or only what changed.
    Screen { diff: bool, max_width: u32 },
}

impl ObserveParams {
    /// What is to be observed: the whole screen unless the caller says "text"
    /// or "diff".
    pub fn look(&self) -> (r: Look)
        ensures
            r == (if self.detail matches Some(d) && d@ == "text"@ {
                Look::Text
            } else {
                Look::Screen {
                    diff: self.detail matches Some(d) && d@ == "diff"@,
                    max_width: match self.max_width {
                        Some(w) => w,
                        None => MAX_WIDTH,
                    },
                }
            }),
    {
        let max_width: u32 = match self.max_width {
            Some(w) => w,
            None => MAX_WIDTH,
        };
        match &self.detail {
            Some(d) => if same_text(d.as_str(), "text") {
                Look::Text
            } else {
                Look::Screen { diff: same_text(d.as_str(), "diff"), max_width }
            },
            None => Look::Screen { diff: false, max_width },
        }
    }
}

/// The text under which a picture is attached to an answer. Nothing is attached
/// when there are no bytes: nothing changed, or the words say more, and the
/// report tells which.
pub fn attached_picture(png: &[u8]) -> (r: Option<String>)
    requires
        png@.len() <= isize::MAX / 2,
    ensures
        match r {
            Some(text) => png@.len() > 0 && text@ == base64(png@),
            None => png@.len() == 0,
        },
{
    if png.len() == 0 {
        None
    } else {
        Some(base64_encode(png))
    }
}

/// What `find_text` takes.
#[derive(Debug)]
pub struct FindTextParams {
    /// Substring to look for; every line on the screen when there is none.
    pub query: Option<String>,
    /// Cap on returned matches.
    pub max_matches: Option<usize>,
    /// Restricts the reading to one window.
    pub hwnd: Option<isize>,
    /// Recogniser language, e.g. `ja` or `de-DE`.
    pub lang: Option<String>,
}

impl FindTextParams {
    /// What is to be read.
    pub fn args(&self) -> (r: FindArgs<'_>)
        ensures
            crate::ocr::query_view(r.query) == optional(self.query),
            crate::ocr::query_view(r.lang) == optional(self.lang),
            r.hwnd == self.hwnd,
            r.image is None,
            r.max_matches == (match self.max_matches {
                Some(n) => n,
                None => MAX_MATCHES,
            }),
    {
        let max_matches: usize = match self.max_matches {
            Some(n) => n,
            None => MAX_MATCHES,
        };
        FindArgs {
            query: match &self.query {
                Some(q) => Some(q.as_str()),
                None => None,
            },
            max_matches,
            hwnd: self.hwnd,
            image: None,
            lang: match &self.lang {
                Some(l) => Some(l.as_str()),
                None => None,
            },
        }
    }
}

} // verus!
