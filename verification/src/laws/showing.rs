//! What is said of a value is what it holds.
//!
//! Contracts and laws speak of what values say. These laws tie that to what
//! callers see: every field, as it is.

use vstd::prelude::*;
use crate::ocr::TextMatch;
use crate::server::fallback::{Move, MoveView};
use crate::server::wait::WaitResult;
use crate::uia::act::{ActResult, Ask, AskView};
use crate::uia::tree::Hit;
use crate::uia::{Entity, Selector, WindowInfo};

verus! {

/// The text of a value that may be absent is the value's.
pub open spec fn same_option(shown: Option<Seq<char>>, held: Option<String>) -> bool {
    match held {
        Some(s) => shown == Some(s@),
        None => shown is None,
    }
}

/// The result of an action says what it holds.
pub proof fn law_an_action_result_says_what_it_holds(r: ActResult)
    ensures
        r@.ok == r.ok,
        r@.action == r.action@,
        r@.status == r.status,
        r@.target == r.target@,
        r@.resolved_by == r.resolved_by,
        r@.matched_by == r.matched_by,
        same_option(r@.next_scope, r.next_scope),
        same_option(r@.detail, r.detail),
        r@.screen_changed == r.screen_changed,
{
}

/// The result of a wait says what it holds.
pub proof fn law_a_wait_result_says_what_it_holds(r: WaitResult)
    ensures
        r@.ok == r.ok,
        r@.status == r.status,
        r@.until == r.until,
        r@.polls == r.polls,
        same_option(r@.scope, r.scope),
        r@.matched is Some == r.matched is Some,
        r.matched matches Some(e) ==> r@.matched == Some(e@),
        r@.matched_by == r.matched_by,
        same_option(r@.detail, r.detail),
{
}

/// An entity says what it holds.
pub proof fn law_an_entity_says_what_it_holds(e: Entity, i: int)
    ensures
        e@.name == e.name@,
        e@.control_type == e.control_type@,
        e@.automation_id == e.automation_id@,
        e@.bounds == e.bounds,
        e@.click_at == e.click_at,
        e@.enabled == e.enabled,
        e@.path == e.path@,
        e@.actions.len() == e.actions@.len(),
        0 <= i < e.actions@.len() ==> e@.actions[i] == e.actions@[i]@,
{
}

/// A window, a selector, a hit and a match say what they hold.
pub proof fn law_descriptions_say_what_they_hold(
    w: WindowInfo,
    sel: Selector,
    h: Hit,
    m: TextMatch,
)
    ensures
        w@.name == w.name@ && w@.class_name == w.class_name@ && w@.control_type == w.control_type@,
        w@.hwnd == w.hwnd && w@.pid == w.pid && w@.bounds == w.bounds,
        same_option(sel@.name, sel.name),
        same_option(sel@.automation_id, sel.automation_id),
        same_option(sel@.control_type, sel.control_type),
        h@.path == h.path@ && h@.name == h.name@ && h@.tier == h.tier,
        m@.text == m.text@ && m@.click_at == m.click_at && m@.x == m.x && m@.y == m.y,
        m@.w == m.w && m@.h == m.h && m@.granularity == m.granularity@ && m@.matched_by
            == m.matched_by,
{
}

/// A request says what it holds.
pub proof fn law_a_request_says_what_it_holds(ask: Ask)
    ensures
        match ask {
            Ask::Exists { hwnd } => ask@ == (AskView::Exists { hwnd }),
            Ask::Window { hwnd, subtree } => ask@ == (AskView::Window { hwnd, subtree }),
            Ask::Children => ask@ == AskView::Children,
            Ask::Child { index, leaf } => ask@ == (AskView::Child { index, leaf }),
            Ask::Element { path } => ask@ == (AskView::Element { path: path@ }),
            Ask::State => ask@ == AskView::State,
            Ask::Focus => ask@ == AskView::Focus,
            Ask::Keys { events } => ask@ == (AskView::Keys { events: events@ }),
            Ask::Pattern { pattern, value } => ask@ == (AskView::Pattern { pattern, value: value@ }),
            Ask::Rescope { hwnd } => ask@ == (AskView::Rescope { hwnd }),
            Ask::Done { result } => ask@ == (AskView::Done { result: result@ }),
            Ask::Failed { error } => ask@ == (AskView::Failed { error: error@ }),
        },
{
}

/// A move says what it holds.
pub proof fn law_a_move_says_what_it_holds(m: Move)
    ensures
        match m {
            Move::Read { query, max_matches } => m@ == (MoveView::Read {
                query: query@,
                max_matches,
            }),
            Move::CheckStop => m@ == MoveView::CheckStop,
            Move::Baseline => m@ == MoveView::Baseline,
            Move::Click { x, y } => m@ == (MoveView::Click { x, y }),
            Move::Settle { ms } => m@ == (MoveView::Settle { ms }),
            Move::Done { result } => m@ == (MoveView::Done { result: result@ }),
        },
{
}

} // verus!
