//! A window's element tree, and what of it is worth acting on.

use vstd::prelude::*;
use vstd::string::*;
use crate::chars::{decimal, same_text, trim, trimmed_text, views, write_decimal};
use crate::lease::{issued, LeaseError, Scope};
use crate::text::{at_rank, best_of, best_rank, capped, keep_best, tiers_of, MatchTier};
use super::{
    control_type_name, entity_views, generation, generation_of, half, half_of, scope_of, type_label,
    DiscoverArgs, Discovery, Entity, EntityView, Filter, RawWindow, Rect, Selector, SelectorView,
};

verus! {

/// Which control patterns an element exposes.
#[derive(Debug, Clone, Copy, PartialEq, Eq, Structural)]
pub struct Patterns {
    pub invoke: bool,
    pub value: bool,
    pub toggle: bool,
    pub expand: bool,
    pub select: bool,
    pub scroll: bool,
}

/// An element with everything below it, as cached in one call. A property that
/// could not be read has its default: no name, enabled, on screen.
#[derive(Debug)]
pub struct Node {
    pub name: String,
    pub automation_id: String,
    /// The identifier of the control type.
    pub control_type: i32,
    pub rect: Rect,
    pub enabled: bool,
    pub offscreen: bool,
    pub patterns: Patterns,
    pub children: Vec<Node>,
}

impl Node {
    /// Every rectangle has a size, and every child an index.
    pub open spec fn wf(self) -> bool
        decreases self,
    {
        &&& self.rect.fits()
        &&& self.children@.len() <= i32::MAX
        &&& forall|i: int| 0 <= i < self.children@.len() ==> (#[trigger] self.children@[i]).wf()
    }

    /// Whether every rectangle has a size, and every child an index.
    pub fn is_wf(&self) -> (r: bool)
        ensures
            r == self.wf(),
        decreases self,
    {
        if !self.rect.has_size() || self.children.len() > i32::MAX as usize {
            return false;
        }
        for i in 0..self.children.len()
            invariant
                forall|j: int| 0 <= j < i ==> (#[trigger] self.children@[j]).wf(),
        {
            assert(decreases_to!(self => self.children@[i as int]));
            if !self.children[i].is_wf() {
                return false;
            }
        }
        true
    }
}

/// An element and the child-index chain that leads to it.
pub struct Place {
    pub path: Seq<u32>,
    pub node: Node,
}

/// The element at the end of `path` and everything below it, parents before
/// children and children in order.
pub open spec fn places(node: Node, path: Seq<u32>) -> Seq<Place>
    decreases node,
{
    seq![Place { path, node }] + places_below(node.children@, path)
}

/// Everything in the trees `kids`, which are the first children of the element
/// at the end of `path`.
pub open spec fn places_below(kids: Seq<Node>, path: Seq<u32>) -> Seq<Place>
    decreases kids,
{
    if kids.len() == 0 {
        seq![]
    } else {
        places_below(kids.drop_last(), path) + places(
            kids.last(),
            path.push((kids.len() - 1) as u32),
        )
    }
}

// One element

/// One name, if there is a reason for it.
pub open spec fn named(on: bool, name: Seq<char>) -> Seq<Seq<char>> {
    if on {
        seq![name]
    } else {
        seq![]
    }
}

/// The actions that an element offers. That it can be scrolled into view is
/// named only when everything is asked for: it holds of nearly every list row.
pub open spec fn actions(p: Patterns, filter: Filter) -> Seq<Seq<char>> {
    named(p.invoke, "click"@) + named(p.value, "type"@) + named(p.toggle, "toggle"@) + named(
        p.expand,
        "expand"@,
    ) + named(p.select, "select"@) + named(
        filter == Filter::All && p.scroll,
        "scroll_into_view"@,
    )
}

/// A group, a pane or a custom control that can neither be clicked nor typed
/// into: layout, not a target.
pub open spec fn bare_container(node: Node) -> bool {
    &&& type_label(node.control_type) == "group"@ || type_label(node.control_type) == "pane"@
        || type_label(node.control_type) == "custom"@
    &&& !node.patterns.invoke
    &&& !node.patterns.value
}

/// The element is worth telling a caller about. When everything is asked for,
/// a control pattern is all it takes.
pub open spec fn worth(node: Node, filter: Filter) -> bool {
    let area = node.rect.area();
    &&& actions(node.patterns, filter).len() > 0
    &&& filter == Filter::Actionable ==> area.w > 0 && area.h > 0 && !bare_container(node) && (
    trim(node.name@).len() > 0 || node.automation_id@.len() > 0)
}

/// The element described for a caller.
pub open spec fn described(node: Node, path: Seq<u32>, filter: Filter, verbose: bool) -> EntityView {
    let area = node.rect.area();
    EntityView {
        name: node.name@,
        control_type: type_label(node.control_type),
        automation_id: node.automation_id@,
        bounds: if verbose {
            Some(area)
        } else {
            None
        },
        click_at: (
            (area.x + half(area.w as int)) as i32,
            (area.y + half(area.h as int)) as i32,
        ),
        actions: actions(node.patterns, filter),
        enabled: node.enabled,
        path,
    }
}

fn add_action(out: &mut Vec<String>, on: bool, name: &str)
    ensures
        views(final(out)@) == views(old(out)@) + named(on, name@),
{
    if on {
        out.push(String::from_str(name));
    }
    assert(views(out@) =~= views(old(out)@) + named(on, name@));
}

/// The actions that an element offers.
pub fn actions_of(p: Patterns, filter: Filter) -> (r: Vec<String>)
    ensures
        views(r@) == actions(p, filter),
{
    let mut out: Vec<String> = Vec::new();
    add_action(&mut out, p.invoke, "click");
    add_action(&mut out, p.value, "type");
    add_action(&mut out, p.toggle, "toggle");
    add_action(&mut out, p.expand, "expand");
    add_action(&mut out, p.select, "select");
    add_action(&mut out, filter == Filter::All && p.scroll, "scroll_into_view");
    assert(views(out@) =~= actions(p, filter));
    out
}

fn copy_path(path: &[u32]) -> (r: Vec<u32>)
    ensures
        r@ == path@,
{
    let mut out: Vec<u32> = Vec::new();
    for i in 0..path.len()
        invariant
            out@ == path@.take(i as int),
    {
        out.push(path[i]);
    }
    assert(out@ =~= path@);
    out
}

/// What a caller is told of an element; `None` when it is not worth telling.
///
/// Decoration without a pattern is left out. Unless everything is asked for, so
/// are layout containers, elements without an area, and elements that have
/// neither a name nor an identifier to refer to them by.
pub fn to_entity(el: &Node, path: &[u32], args: &DiscoverArgs) -> (r: Option<Entity>)
    requires
        el.rect.fits(),
    ensures
        match r {
            Some(e) => worth(*el, args.filter) && e@ == described(
                *el,
                path@,
                args.filter,
                args.verbose,
            ),
            None => !worth(*el, args.filter),
        },
{
    let actions = actions_of(el.patterns, args.filter);
    assert(actions@.len() == views(actions@).len());
    if actions.len() == 0 {
        return None;
    }
    let control_type = control_type_name(el.control_type);
    let bounds = el.rect.bounds();
    if args.filter == Filter::Actionable {
        if bounds.w <= 0 || bounds.h <= 0 {
            return None;
        }
        let container = same_text(control_type.as_str(), "group") || same_text(
            control_type.as_str(),
            "pane",
        ) || same_text(control_type.as_str(), "custom");
        if container && !el.patterns.invoke && !el.patterns.value {
            return None;
        }
        let label = trimmed_text(el.name.as_str());
        if label.as_str().is_empty() && el.automation_id.as_str().is_empty() {
            return None;
        }
    }
    Some(
        Entity {
            name: el.name.clone(),
            control_type,
            automation_id: el.automation_id.clone(),
            bounds: if args.verbose {
                Some(bounds)
            } else {
                None
            },
            click_at: (bounds.x + half_of(bounds.w), bounds.y + half_of(bounds.h)),
            actions,
            enabled: el.enabled,
            path: copy_path(path),
        },
    )
}

// The walk

/// Which cap stopped a walk.
#[derive(Debug, Clone, Copy, PartialEq, Eq, Structural)]
pub enum Cap {
    /// There was more to see when the last entity that was asked for had been
    /// found.
    Elements,
    /// Something lies deeper than was asked for.
    Depth,
}

/// The element is within the depth asked for, below the root, on screen and
/// worth telling. Offscreen elements are real, but surfacing them invites a
/// caller to aim at something the user cannot see.
pub open spec fn shown(p: Place, args: DiscoverArgs) -> bool {
    &&& 0 < p.path.len() <= args.max_depth
    &&& !p.node.offscreen
    &&& worth(p.node, args.filter)
}

/// What a caller is told of the elements `ps` when nothing limits the count.
pub open spec fn found(ps: Seq<Place>, args: DiscoverArgs) -> Seq<EntityView>
    decreases ps.len(),
{
    if ps.len() == 0 {
        seq![]
    } else {
        let rest = found(ps.drop_last(), args);
        let p = ps.last();
        if shown(p, args) {
            rest.push(described(p.node, p.path, args.filter, args.verbose))
        } else {
            rest
        }
    }
}

/// The cap, if any, that keeps a walk over `ps` from telling everything. The
/// count cap is reported over the depth cap.
pub open spec fn stopped(ps: Seq<Place>, args: DiscoverArgs) -> Option<Cap>
    decreases ps.len(),
{
    if ps.len() == 0 {
        None
    } else {
        let before = stopped(ps.drop_last(), args);
        let depth = ps.last().path.len();
        if depth <= args.max_depth + 1 && found(ps.drop_last(), args).len() >= args.max_elements {
            Some(Cap::Elements)
        } else if depth > args.max_depth && before is None {
            Some(Cap::Depth)
        } else {
            before
        }
    }
}

/// The cap in words.
pub open spec fn cap_text(cap: Cap, args: DiscoverArgs) -> Seq<char> {
    match cap {
        Cap::Elements => "element cap "@ + decimal(args.max_elements as nat) + " reached"@,
        Cap::Depth => "depth cap "@ + decimal(args.max_depth as nat) + " reached"@,
    }
}

/// Telling two runs of elements is telling the one and the other.
pub proof fn lemma_found_append(a: Seq<Place>, b: Seq<Place>, args: DiscoverArgs)
    ensures
        found(a + b, args) == found(a, args) + found(b, args),
    decreases b.len(),
{
    if b.len() == 0 {
        assert(a + b =~= a);
        assert(found(a, args) + found(b, args) =~= found(a, args));
    } else {
        lemma_found_append(a, b.drop_last(), args);
        assert((a + b).drop_last() =~= a + b.drop_last());
        assert(found(a + b, args) =~= found(a, args) + found(b, args));
    }
}

/// The places of a subtree all lie below its root, which comes first.
pub proof fn lemma_places_below(node: Node, path: Seq<u32>)
    ensures
        places(node, path).len() > 0,
        places(node, path)[0].path == path,
        forall|i: int| 1 <= i < places(node, path).len() ==> (#[trigger] places(node, path)[i]).path.len()
            > path.len(),
    decreases node, node.children@.len() + 1,
{
    assert(node.children@.take(node.children@.len() as int) =~= node.children@);
    lemma_kids_below(node, node.children@, path);
    assert forall|i: int| 1 <= i < places(node, path).len() implies (#[trigger] places(
        node,
        path,
    )[i]).path.len() > path.len() by {
        assert(places(node, path)[i] == places_below(node.children@, path)[i - 1]);
    }
}

proof fn lemma_kids_below(node: Node, kids: Seq<Node>, path: Seq<u32>)
    requires
        kids.len() <= node.children@.len(),
        kids == node.children@.take(kids.len() as int),
    ensures
        forall|i: int| 0 <= i < places_below(kids, path).len() ==> (#[trigger] places_below(
            kids,
            path,
        )[i]).path.len() > path.len(),
    decreases node, kids.len(),
{
    if kids.len() > 0 {
        let k = kids.len() - 1;
        assert(kids.drop_last() =~= node.children@.take(k));
        lemma_kids_below(node, kids.drop_last(), path);
        assert(kids.last() == node.children@[k]);
        assert(decreases_to!(node => node.children@[k]));
        let below = path.push(k as u32);
        lemma_places_below(kids.last(), below);
        let earlier = places_below(kids.drop_last(), path);
        assert forall|i: int| 0 <= i < places_below(kids, path).len() implies (
        #[trigger] places_below(kids, path)[i]).path.len() > path.len() by {
            if i < earlier.len() {
                assert(places_below(kids, path)[i] == earlier[i]);
            } else {
                assert(places_below(kids, path)[i] == places(kids.last(), below)[i - earlier.len()]);
            }
        }
    }
}

proof fn lemma_elements_means_full(ps: Seq<Place>, args: DiscoverArgs)
    ensures
        stopped(ps, args) == Some(Cap::Elements) ==> found(ps, args).len() >= args.max_elements,
    decreases ps.len(),
{
    if ps.len() > 0 {
        lemma_elements_means_full(ps.drop_last(), args);
    }
}

proof fn lemma_full(done: Seq<Place>, more: Seq<Place>, args: DiscoverArgs)
    requires
        found(done, args).len() >= args.max_elements,
        more.len() > 0,
        more[0].path.len() <= args.max_depth + 1,
    ensures
        capped(found(done + more, args), args.max_elements as nat) == capped(
            found(done, args),
            args.max_elements as nat,
        ),
        stopped(done + more, args) == Some(Cap::Elements),
    decreases more.len(),
{
    lemma_found_append(done, more, args);
    assert(capped(found(done + more, args), args.max_elements as nat) =~= capped(
        found(done, args),
        args.max_elements as nat,
    ));
    assert((done + more).drop_last() =~= done + more.drop_last());
    lemma_found_append(done, more.drop_last(), args);
    if more.len() > 1 {
        lemma_full(done, more.drop_last(), args);
    }
}

proof fn lemma_deep(done: Seq<Place>, more: Seq<Place>, args: DiscoverArgs)
    requires
        found(done, args).len() < args.max_elements,
        more.len() > 0,
        forall|i: int| 0 <= i < more.len() ==> (#[trigger] more[i]).path.len() > args.max_depth,
    ensures
        found(done + more, args) == found(done, args),
        stopped(done + more, args) == Some(Cap::Depth),
    decreases more.len(),
{
    assert((done + more).drop_last() =~= done + more.drop_last());
    assert((done + more).last() == more[more.len() - 1]);
    lemma_elements_means_full(done, args);
    if more.len() > 1 {
        lemma_deep(done, more.drop_last(), args);
    } else {
        assert(done + more.drop_last() =~= done);
    }
}

fn walk(
    el: &Node,
    path: &mut Vec<u32>,
    args: &DiscoverArgs,
    out: &mut Vec<Entity>,
    stop: &mut Option<Cap>,
    Ghost(done): Ghost<Seq<Place>>,
)
    requires
        el.wf(),
        old(path)@.len() <= args.max_depth + 1,
        entity_views(old(out)@) == capped(found(done, *args), args.max_elements as nat),
        *old(stop) == stopped(done, *args),
    ensures
        final(path)@ == old(path)@,
        entity_views(final(out)@) == capped(
            found(done + places(*el, old(path)@), *args),
            args.max_elements as nat,
        ),
        *final(stop) == stopped(done + places(*el, old(path)@), *args),
    decreases el,
{
    let ghost here = path@;
    let ghost ps = places(*el, here);
    assert(entity_views(out@).len() == out@.len());
    proof {
        lemma_places_below(*el, here);
    }
    if out.len() >= args.max_elements {
        *stop = Some(Cap::Elements);
        proof {
            lemma_full(done, ps, *args);
        }
        return;
    }
    if path.len() > args.max_depth as usize {
        *stop = Some(Cap::Depth);
        proof {
            lemma_deep(done, ps, *args);
        }
        return;
    }
    let ghost me = Place { path: here, node: *el };
    let ghost mut seen = done.push(me);
    assert(seen.drop_last() =~= done);
    if path.len() > 0 && !el.offscreen {
        if let Some(e) = to_entity(el, path, args) {
            let ghost before = out@;
            out.push(e);
            assert(entity_views(out@) =~= entity_views(before).push(e@));
        }
    }
    assert(entity_views(out@) == capped(found(seen, *args), args.max_elements as nat));
    let n: usize = el.children.len();
    assert(el.children@.take(0) =~= Seq::<Node>::empty());
    assert(seen =~= done.push(me) + places_below(el.children@.take(0), here));
    for i in 0..n
        invariant
            n == el.children@.len() <= i32::MAX,
            el.wf(),
            path@ == here,
            here.len() <= args.max_depth,
            seen == done.push(me) + places_below(el.children@.take(i as int), here),
            entity_views(out@) == capped(found(seen, *args), args.max_elements as nat),
            *stop == stopped(seen, *args),
    {
        let ghost kids = el.children@.take(i + 1);
        assert(kids.drop_last() =~= el.children@.take(i as int));
        assert(kids.last() == el.children@[i as int]);
        path.push(i as u32);
        assert(decreases_to!(el => el.children@[i as int]));
        walk(&el.children[i], path, args, out, stop, Ghost(seen));
        let ghost below = here.push(i as u32);
        let _ = path.pop();
        proof {
            assert(path@ =~= here);
            assert(seen + places(el.children@[i as int], below) =~= done.push(me) + places_below(
                kids,
                here,
            ));
            seen = seen + places(el.children@[i as int], below);
        }
    }
    assert(el.children@.take(n as int) =~= el.children@);
    assert(seen =~= done + ps);
}

/// The entities of a window's tree, at most as many as asked for and none
/// deeper, and the cap that kept anything back.
pub fn survey(root: &Node, args: &DiscoverArgs) -> (r: (Vec<Entity>, Option<Cap>))
    requires
        root.wf(),
    ensures
        entity_views(r.0@) == capped(found(places(*root, seq![]), *args), args.max_elements as nat),
        r.1 == stopped(places(*root, seq![]), *args),
{
    let mut path: Vec<u32> = Vec::new();
    let mut out: Vec<Entity> = Vec::new();
    let mut stop: Option<Cap> = None;
    let ghost none = Seq::<Place>::empty();
    assert(path@ =~= seq![]);
    assert(entity_views(out@) =~= capped(found(none, *args), args.max_elements as nat));
    walk(root, &mut path, args, &mut out, &mut stop, Ghost(none));
    assert(none + places(*root, seq![]) =~= places(*root, seq![]));
    (out, stop)
}

impl Cap {
    /// The cap in words.
    pub fn message(&self, args: &DiscoverArgs) -> (r: String)
        ensures
            r@ == cap_text(*self, *args),
    {
        let (head, n): (&str, u64) = match self {
            Cap::Elements => ("element cap ", args.max_elements as u64),
            Cap::Depth => ("depth cap ", args.max_depth as u64),
        };
        let mut out = String::from_str(head);
        let number = write_decimal(n);
        out.append(number.as_str());
        out.append(" reached");
        out
    }
}

// Discovery

/// Why there is nothing to discover.
#[derive(Debug, Clone, Copy, PartialEq, Eq, Structural)]
pub enum TargetError {
    /// No window was named and none has the focus.
    NoWindow,
}

impl TargetError {
    /// The error in words.
    pub fn message(&self) -> (r: String)
        ensures
            r@ == "no target window (nothing focused?)"@,
    {
        String::from_str("no target window (nothing focused?)")
    }
}

/// The window to discover: the one named, else the one in the foreground. A
/// null handle is no window.
pub fn target_window(hwnd: Option<isize>, foreground: isize) -> (r: Result<isize, TargetError>)
    ensures
        ({
            let chosen = match hwnd {
                Some(h) => h,
                None => foreground,
            };
            r == (if chosen == 0 {
                Err::<isize, TargetError>(TargetError::NoWindow)
            } else {
                Ok::<isize, TargetError>(chosen)
            })
        }),
{
    let chosen: isize = match hwnd {
        Some(h) => h,
        None => foreground,
    };
    if chosen == 0 {
        Err(TargetError::NoWindow)
    } else {
        Ok(chosen)
    }
}

/// What discovering the window `raw` with the tree `root` at the moment `now`
/// returns.
pub open spec fn discovered(
    d: Discovery,
    raw: RawWindow,
    root: Node,
    args: DiscoverArgs,
    now: u64,
    key: Seq<u8>,
) -> bool {
    let all = places(root, seq![]);
    &&& d.window@ == raw.described()
    &&& d.generation == generation(raw.described())
    &&& issued(d.scope@, scope_of(raw.described(), now, args.ttl_secs), key)
    &&& entity_views(d.entities@) == capped(found(all, args), args.max_elements as nat)
    &&& match stopped(all, args) {
        Some(cap) => d.truncated matches Some(text) && text@ == cap_text(cap, args),
        None => d.truncated is None,
    }
}

/// Everything in one window worth acting on, with a scope to act under.
pub fn discover(
    raw: &RawWindow,
    root: &Node,
    args: &DiscoverArgs,
    now: u64,
    key: &[u8],
) -> (r: Result<Discovery, LeaseError>)
    requires
        raw.rect.fits(),
        root.wf(),
        now + args.ttl_secs <= u64::MAX,
    ensures
        r matches Ok(d) && discovered(d, *raw, *root, *args, now, key@),
{
    let window = raw.info();
    let generation = generation_of(&window);
    let scope = Scope { hwnd: window.hwnd, generation, exp: now + args.ttl_secs };
    let token = match scope.encode(key) {
        Ok(t) => t,
        Err(e) => {
            return Err(e);
        },
    };
    let (entities, stop) = survey(root, args);
    let truncated = match stop {
        Some(cap) => Some(cap.message(args)),
        None => None,
    };
    Ok(Discovery { window, scope: token, generation, entities, truncated })
}

// Search

/// How many matches a search collects at most. A runaway tree degrades into
/// an ambiguous answer rather than a minute spent proving it.
pub const MAX_HITS: usize = 64;

/// An element that a selector matched.
#[derive(Debug)]
pub struct Hit {
    /// The child-index chain that leads to it.
    pub path: Vec<u32>,
    pub name: String,
    pub tier: MatchTier,
}

/// What a [`Hit`] says.
pub struct HitView {
    pub path: Seq<u32>,
    pub name: Seq<char>,
    pub tier: MatchTier,
}

impl View for Hit {
    type V = HitView;

    open spec fn view(&self) -> HitView {
        HitView { path: self.path@, name: self.name@, tier: self.tier }
    }
}

/// What some hits say.
pub open spec fn hit_views(hs: Seq<Hit>) -> Seq<HitView> {
    hs.map_values(|h: Hit| h@)
}

/// The tier at which a selector matches an element.
pub open spec fn selected(node: Node, sel: SelectorView) -> Option<MatchTier> {
    sel.selects(node.name@, node.automation_id@, type_label(node.control_type))
}

/// Every element of `ps` that the selector matches, in order.
pub open spec fn hits(ps: Seq<Place>, sel: SelectorView) -> Seq<HitView>
    decreases ps.len(),
{
    if ps.len() == 0 {
        seq![]
    } else {
        let rest = hits(ps.drop_last(), sel);
        let p = ps.last();
        match selected(p.node, sel) {
            Some(t) => rest.push(HitView { path: p.path, name: p.node.name@, tier: t }),
            None => rest,
        }
    }
}

/// Searching two runs of elements is searching the one and the other.
pub proof fn lemma_hits_append(a: Seq<Place>, b: Seq<Place>, sel: SelectorView)
    ensures
        hits(a + b, sel) == hits(a, sel) + hits(b, sel),
    decreases b.len(),
{
    if b.len() == 0 {
        assert(a + b =~= a);
        assert(hits(a, sel) + hits(b, sel) =~= hits(a, sel));
    } else {
        lemma_hits_append(a, b.drop_last(), sel);
        assert((a + b).drop_last() =~= a + b.drop_last());
        assert(hits(a + b, sel) =~= hits(a, sel) + hits(b, sel));
    }
}

fn collect(
    el: &Node,
    path: &mut Vec<u32>,
    sel: &Selector,
    out: &mut Vec<Hit>,
    Ghost(done): Ghost<Seq<Place>>,
)
    requires
        el.wf(),
        hit_views(old(out)@) == capped(hits(done, sel@), MAX_HITS as nat),
    ensures
        final(path)@ == old(path)@,
        hit_views(final(out)@) == capped(hits(done + places(*el, old(path)@), sel@), MAX_HITS as nat),
    decreases el,
{
    let ghost here = path@;
    let ghost ps = places(*el, here);
    assert(hit_views(out@).len() == out@.len());
    if out.len() >= MAX_HITS {
        proof {
            lemma_hits_append(done, ps, sel@);
            assert(capped(hits(done + ps, sel@), MAX_HITS as nat) =~= capped(
                hits(done, sel@),
                MAX_HITS as nat,
            ));
        }
        return;
    }
    let ghost me = Place { path: here, node: *el };
    let ghost mut seen = done.push(me);
    assert(seen.drop_last() =~= done);
    let control_type = control_type_name(el.control_type);
    if let Some(tier) = sel.matches(
        el.name.as_str(),
        el.automation_id.as_str(),
        control_type.as_str(),
    ) {
        let ghost before = out@;
        let hit = Hit { path: copy_path(path), name: el.name.clone(), tier };
        let ghost said = hit@;
        out.push(hit);
        assert(hit_views(out@) =~= hit_views(before).push(said));
    }
    let n: usize = el.children.len();
    assert(el.children@.take(0) =~= Seq::<Node>::empty());
    assert(seen =~= done.push(me) + places_below(el.children@.take(0), here));
    for i in 0..n
        invariant
            n == el.children@.len() <= i32::MAX,
            el.wf(),
            path@ == here,
            seen == done.push(me) + places_below(el.children@.take(i as int), here),
            hit_views(out@) == capped(hits(seen, sel@), MAX_HITS as nat),
    {
        let ghost kids = el.children@.take(i + 1);
        assert(kids.drop_last() =~= el.children@.take(i as int));
        assert(kids.last() == el.children@[i as int]);
        path.push(i as u32);
        assert(decreases_to!(el => el.children@[i as int]));
        collect(&el.children[i], path, sel, out, Ghost(seen));
        let ghost below = here.push(i as u32);
        let _ = path.pop();
        proof {
            assert(path@ =~= here);
            assert(seen + places(el.children@[i as int], below) =~= done.push(me) + places_below(
                kids,
                here,
            ));
            seen = seen + places(el.children@[i as int], below);
        }
    }
    assert(el.children@.take(n as int) =~= el.children@);
    assert(seen =~= done + ps);
}

/// Every element matching a selector, parents before children.
///
/// All matches rather than the first, because the count is the interesting
/// part: one is a hit, several mean that the caller must be more specific.
pub fn collect_matches(root: &Node, sel: &Selector) -> (r: Vec<Hit>)
    requires
        root.wf(),
    ensures
        hit_views(r@) == capped(hits(places(*root, seq![]), sel@), MAX_HITS as nat),
{
    let mut path: Vec<u32> = Vec::new();
    let mut out: Vec<Hit> = Vec::new();
    let ghost none = Seq::<Place>::empty();
    assert(path@ =~= seq![]);
    assert(hit_views(out@) =~= capped(hits(none, sel@), MAX_HITS as nat));
    collect(root, &mut path, sel, &mut out, Ghost(none));
    assert(none + places(*root, seq![]) =~= places(*root, seq![]));
    out
}

/// The tiers of some hits.
pub open spec fn hit_tiers(hs: Seq<HitView>) -> Seq<MatchTier> {
    hs.map_values(|h: HitView| h.tier)
}

/// The elements that a selector resolves to: those collected that no other
/// matches more tightly.
pub open spec fn resolved(root: Node, sel: SelectorView) -> Seq<HitView> {
    let hs = capped(hits(places(root, seq![]), sel), MAX_HITS as nat);
    best_of(hs, hit_tiers(hs))
}

proof fn lemma_rank_of_views(hs: Seq<Hit>, tiers: Seq<MatchTier>, rank: nat)
    ensures
        hit_views(at_rank(hs, tiers, rank)) == at_rank(hit_views(hs), tiers, rank),
    decreases hs.len(),
{
    if hs.len() > 0 {
        lemma_rank_of_views(hs.drop_last(), tiers, rank);
        assert(hit_views(hs).drop_last() =~= hit_views(hs.drop_last()));
        assert(hit_views(at_rank(hs, tiers, rank)) =~= at_rank(hit_views(hs), tiers, rank));
    } else {
        assert(hit_views(at_rank(hs, tiers, rank)) =~= at_rank(hit_views(hs), tiers, rank));
    }
}

/// The elements that a selector resolves to. Only the tightest tier that
/// matched anything is kept, so a looser sibling does not make a selector
/// ambiguous.
pub fn resolve(root: &Node, sel: &Selector) -> (r: Vec<Hit>)
    requires
        root.wf(),
    ensures
        hit_views(r@) == resolved(*root, sel@),
{
    let mut found = collect_matches(root, sel);
    let ghost before = found@;
    let tier = |h: &Hit| -> (t: MatchTier)
        ensures
            t == h.tier,
        { h.tier };
    keep_best(&mut found, tier);
    proof {
        let tiers = choose|tiers: Seq<MatchTier>|
            tiers_of(tier, before, tiers) && found@ == best_of(before, tiers);
        assert(tiers =~= hit_tiers(hit_views(before)));
        lemma_rank_of_views(before, tiers, best_rank(tiers));
    }
    found
}

} // verus!
