//! Discovering what a window holds, and finding it again.

use vstd::prelude::*;
use vstd::bytes::*;
use vstd::utf8::*;
use vstd::std_specs::hash::*;
use std::collections::hash_map::DefaultHasher;
use crate::chars::{decimal, trim, trim_end, trim_start, views, white};
use crate::lease::{issued, LeaseError, Scope};
use crate::laws::acting::{alike, lemma_alike};
use crate::text::{capped, tier, MatchTier};
use crate::uia::retry::{is_transient, Attempts, Verdict, ATTEMPTS};
use crate::uia::tree::{
    actions, actions_of, collect_matches, described, discover, found, hit_views, hits, named,
    places, places_below, selected, shown, stopped, survey, target_window, to_entity, worth, Cap,
    Hit, Node, Patterns, Place, TargetError,
};
use crate::uia::{
    entity_matches, entity_views, generation, generation_of, identity, list_windows, scope_of,
    type_label, Bounds, DiscoverArgs, Discovery, Entity, EntityView, Filter, RawWindow, Rect,
    Selector, SelectorView, WindowInfo, WindowView,
};

verus! {

// Paths

/// The element that a child-index chain leads to.
pub open spec fn at_path(node: Node, path: Seq<u32>) -> Option<Node>
    decreases path.len(),
{
    if path.len() == 0 {
        Some(node)
    } else if path[0] < node.children@.len() {
        at_path(node.children@[path[0] as int], path.skip(1))
    } else {
        None
    }
}

/// The places of a subtree reached by `base` have paths that start with `base`
/// and lead on to them.
spec fn leads(node: Node, base: Seq<u32>, p: Place) -> bool {
    &&& p.path.len() >= base.len()
    &&& p.path.take(base.len() as int) == base
    &&& at_path(node, p.path.skip(base.len() as int)) == Some(p.node)
}

proof fn lemma_child_leads(node: Node, k: int, base: Seq<u32>, p: Place)
    requires
        0 <= k < node.children@.len(),
        node.children@.len() <= i32::MAX,
        leads(node.children@[k], base.push(k as u32), p),
    ensures
        leads(node, base, p),
{
    let below = base.push(k as u32);
    let rest = p.path.skip(base.len() as int);
    assert(p.path.take(below.len() as int) == below);
    assert(p.path[base.len() as int] == below[base.len() as int]) by {
        assert(p.path.take(below.len() as int)[base.len() as int] == p.path[base.len() as int]);
    }
    assert(rest[0] == k as u32);
    assert(rest.skip(1) =~= p.path.skip(below.len() as int));
    assert(p.path.take(base.len() as int) =~= below.take(base.len() as int)) by {
        assert(p.path.take(below.len() as int).take(base.len() as int) =~= p.path.take(
            base.len() as int,
        ));
    }
    assert(below.take(base.len() as int) =~= base);
}

proof fn lemma_places_lead(node: Node, base: Seq<u32>)
    requires
        node.wf(),
    ensures
        forall|i: int| 0 <= i < places(node, base).len() ==> leads(node, base, #[trigger] places(node, base)[i]),
    decreases node, node.children@.len() + 1,
{
    assert(node.children@.take(node.children@.len() as int) =~= node.children@);
    lemma_kids_lead(node, node.children@, base);
    let all = places(node, base);
    assert forall|i: int| 0 <= i < all.len() implies leads(node, base, #[trigger] all[i]) by {
        if i == 0 {
            assert(all[0].path.take(base.len() as int) =~= base);
            assert(all[0].path.skip(base.len() as int) =~= Seq::<u32>::empty());
        } else {
            assert(all[i] == places_below(node.children@, base)[i - 1]);
        }
    }
}

proof fn lemma_kids_lead(node: Node, kids: Seq<Node>, base: Seq<u32>)
    requires
        node.wf(),
        kids.len() <= node.children@.len(),
        kids == node.children@.take(kids.len() as int),
    ensures
        forall|i: int|
            0 <= i < places_below(kids, base).len() ==> leads(
                node,
                base,
                #[trigger] places_below(kids, base)[i],
            ),
    decreases node, kids.len(),
{
    if kids.len() > 0 {
        let k = kids.len() - 1;
        assert(kids.drop_last() =~= node.children@.take(k));
        lemma_kids_lead(node, kids.drop_last(), base);
        assert(kids.last() == node.children@[k]);
        assert(decreases_to!(node => node.children@[k]));
        let below = base.push(k as u32);
        assert(node.children@[k].wf());
        lemma_places_lead(node.children@[k], below);
        let earlier = places_below(kids.drop_last(), base);
        let all = places_below(kids, base);
        assert forall|i: int| 0 <= i < all.len() implies leads(node, base, #[trigger] all[i]) by {
            if i < earlier.len() {
                assert(all[i] == earlier[i]);
            } else {
                let p = places(kids.last(), below)[i - earlier.len()];
                assert(all[i] == p);
                lemma_child_leads(node, k, base, p);
            }
        }
    }
}

/// A path leads back: every element of a tree is found again by walking the
/// child-index chain that it was reported under.
pub proof fn law_a_path_leads_back(root: Node, i: int)
    requires
        root.wf(),
        0 <= i < places(root, seq![]).len(),
    ensures
        at_path(root, places(root, seq![])[i].path) == Some(places(root, seq![])[i].node),
{
    lemma_places_lead(root, seq![]);
    let p = places(root, seq![])[i];
    assert(leads(root, seq![], p));
    assert(p.path.skip(0) =~= p.path);
}

proof fn lemma_kid_places(kids: Seq<Node>, base: Seq<u32>, k: int, p: Place)
    requires
        0 <= k < kids.len() <= i32::MAX,
        places(kids[k], base.push(k as u32)).contains(p),
    ensures
        places_below(kids, base).contains(p),
    decreases kids.len(),
{
    let earlier = places_below(kids.drop_last(), base);
    let here = places(kids.last(), base.push((kids.len() - 1) as u32));
    let all = places_below(kids, base);
    assert(all == earlier + here);
    if k < kids.len() - 1 {
        assert(kids.drop_last()[k] == kids[k]);
        lemma_kid_places(kids.drop_last(), base, k, p);
        let i = choose|i: int| 0 <= i < earlier.len() && earlier[i] == p;
        assert(all[i] == p);
    } else {
        let i = choose|i: int| 0 <= i < here.len() && here[i] == p;
        assert(all[earlier.len() + i] == p);
    }
}

proof fn lemma_path_has_place(node: Node, base: Seq<u32>, path: Seq<u32>)
    requires
        node.wf(),
        at_path(node, path) is Some,
    ensures
        places(node, base).contains(Place { path: base + path, node: at_path(node, path)->0 }),
    decreases path.len(),
{
    let all = places(node, base);
    if path.len() == 0 {
        assert(base + path =~= base);
        assert(all[0] == (Place { path: base, node }));
    } else {
        let k = path[0] as int;
        let p = Place { path: base + path, node: at_path(node, path)->0 };
        assert(node.children@[k].wf());
        lemma_path_has_place(node.children@[k], base.push(k as u32), path.skip(1));
        assert(base.push(k as u32) + path.skip(1) =~= base + path);
        lemma_kid_places(node.children@, base, k, p);
        let i = choose|i: int|
            0 <= i < places_below(node.children@, base).len() && places_below(
                node.children@,
                base,
            )[i] == p;
        assert(all[i + 1] == p);
    }
}

/// Nothing is passed over: every element that a child-index chain leads to is
/// among the elements of the tree, under that chain.
pub proof fn law_every_path_has_its_place(root: Node, path: Seq<u32>)
    requires
        root.wf(),
        at_path(root, path) is Some,
    ensures
        places(root, seq![]).contains(Place { path, node: at_path(root, path)->0 }),
{
    lemma_path_has_place(root, seq![], path);
    assert(Seq::<u32>::empty() + path =~= path);
}

// The order of the walk

/// `a` comes before `b` when a tree is walked with parents before children and
/// children in order.
pub open spec fn walked_before(a: Seq<u32>, b: Seq<u32>) -> bool
    decreases a.len(),
{
    if a.len() == 0 || b.len() == 0 {
        a.len() == 0 && b.len() > 0
    } else {
        a[0] < b[0] || a[0] == b[0] && walked_before(a.skip(1), b.skip(1))
    }
}

proof fn lemma_walked_common(base: Seq<u32>, a: Seq<u32>, b: Seq<u32>)
    requires
        walked_before(a, b),
    ensures
        walked_before(base + a, base + b),
    decreases base.len(),
{
    if base.len() == 0 {
        assert(base + a =~= a);
        assert(base + b =~= b);
    } else {
        lemma_walked_common(base.skip(1), a, b);
        assert((base + a).skip(1) =~= base.skip(1) + a);
        assert((base + b).skip(1) =~= base.skip(1) + b);
    }
}

/// A chain that leads on from `base` through a child before the `n`th.
spec fn under(base: Seq<u32>, n: int, path: Seq<u32>) -> bool {
    &&& path.len() > base.len()
    &&& path.take(base.len() as int) == base
    &&& path[base.len() as int] < n
}

proof fn lemma_under(node: Node, base: Seq<u32>)
    requires
        node.wf(),
    ensures
        forall|i: int|
            0 <= i < places(node, base).len() ==> (#[trigger] places(node, base)[i]).path.len()
                >= base.len() && places(node, base)[i].path.take(base.len() as int) == base,
{
    lemma_places_lead(node, base);
    let all = places(node, base);
    assert forall|i: int| 0 <= i < all.len() implies (#[trigger] all[i]).path.len() >= base.len()
        && all[i].path.take(base.len() as int) == base by {
        assert(leads(node, base, all[i]));
    }
}

proof fn lemma_walk_order(node: Node, base: Seq<u32>)
    requires
        node.wf(),
    ensures
        forall|i: int, j: int|
            0 <= i < j < places(node, base).len() ==> walked_before(
                (#[trigger] places(node, base)[i]).path,
                (#[trigger] places(node, base)[j]).path,
            ),
    decreases node, node.children@.len() + 1,
{
    assert(node.children@.take(node.children@.len() as int) =~= node.children@);
    lemma_kids_order(node, node.children@, base);
    let all = places(node, base);
    let below = places_below(node.children@, base);
    assert forall|i: int, j: int| 0 <= i < j < all.len() implies walked_before(
        (#[trigger] all[i]).path,
        (#[trigger] all[j]).path,
    ) by {
        assert(all[j] == below[j - 1]);
        if i == 0 {
            let p = below[j - 1].path;
            assert(p =~= base + p.skip(base.len() as int));
            assert(base + Seq::<u32>::empty() =~= base);
            lemma_walked_common(base, seq![], p.skip(base.len() as int));
        } else {
            assert(all[i] == below[i - 1]);
        }
    }
}

proof fn lemma_kids_order(node: Node, kids: Seq<Node>, base: Seq<u32>)
    requires
        node.wf(),
        kids.len() <= node.children@.len(),
        kids == node.children@.take(kids.len() as int),
    ensures
        forall|i: int|
            0 <= i < places_below(kids, base).len() ==> under(
                base,
                kids.len() as int,
                (#[trigger] places_below(kids, base)[i]).path,
            ),
        forall|i: int, j: int|
            0 <= i < j < places_below(kids, base).len() ==> walked_before(
                (#[trigger] places_below(kids, base)[i]).path,
                (#[trigger] places_below(kids, base)[j]).path,
            ),
    decreases node, kids.len(),
{
    if kids.len() > 0 {
        let n = kids.len() - 1;
        let less = kids.drop_last();
        assert(less =~= node.children@.take(n));
        lemma_kids_order(node, less, base);
        assert(kids.last() == node.children@[n]);
        assert(decreases_to!(node => node.children@[n]));
        assert(node.children@[n].wf());
        let sub = base.push(n as u32);
        lemma_walk_order(node.children@[n], sub);
        lemma_under(node.children@[n], sub);
        let earlier = places_below(less, base);
        let here = places(kids.last(), sub);
        let all = places_below(kids, base);
        assert(all == earlier + here);
        assert forall|i: int| 0 <= i < here.len() implies under(
            base,
            n + 1,
            (#[trigger] here[i]).path,
        ) && here[i].path[base.len() as int] == n by {
            let p = here[i].path;
            assert(p.take(sub.len() as int) == sub);
            assert(p.take(sub.len() as int)[base.len() as int] == p[base.len() as int]);
            assert(p.take(base.len() as int) =~= sub.take(base.len() as int)) by {
                assert(p.take(sub.len() as int).take(base.len() as int) =~= p.take(
                    base.len() as int,
                ));
            }
            assert(sub.take(base.len() as int) =~= base);
        }
        assert forall|i: int| 0 <= i < all.len() implies under(
            base,
            kids.len() as int,
            (#[trigger] all[i]).path,
        ) by {
            if i < earlier.len() {
                assert(all[i] == earlier[i]);
            } else {
                assert(all[i] == here[i - earlier.len()]);
            }
        }
        assert forall|i: int, j: int| 0 <= i < j < all.len() implies walked_before(
            (#[trigger] all[i]).path,
            (#[trigger] all[j]).path,
        ) by {
            if j < earlier.len() {
                assert(all[i] == earlier[i] && all[j] == earlier[j]);
            } else if i >= earlier.len() {
                assert(all[i] == here[i - earlier.len()]);
                assert(all[j] == here[j - earlier.len()]);
            } else {
                assert(all[i] == earlier[i]);
                assert(all[j] == here[j - earlier.len()]);
                let a = all[i].path;
                let b = all[j].path;
                let x = a.skip(base.len() as int);
                let y = b.skip(base.len() as int);
                assert(a =~= base + x);
                assert(b =~= base + y);
                assert(x[0] < n && y[0] == n);
                lemma_walked_common(base, x, y);
            }
        }
    }
}

/// The elements of a tree come parents before children and children in order,
/// and none comes twice.
pub proof fn law_the_tree_is_walked_in_order(root: Node, i: int, j: int)
    requires
        root.wf(),
        0 <= i < j < places(root, seq![]).len(),
    ensures
        walked_before(places(root, seq![])[i].path, places(root, seq![])[j].path),
        places(root, seq![])[i].path != places(root, seq![])[j].path,
{
    lemma_walk_order(root, seq![]);
    lemma_not_before_itself(places(root, seq![])[i].path);
}

proof fn lemma_not_before_itself(p: Seq<u32>)
    ensures
        !walked_before(p, p),
    decreases p.len(),
{
    if p.len() > 0 {
        lemma_not_before_itself(p.skip(1));
    }
}

// Completeness

/// An entity tells of an element that a discovery is to show.
pub open spec fn tells(e: EntityView, p: Place, args: DiscoverArgs) -> bool {
    shown(p, args) && e == described(p.node, p.path, args.filter, args.verbose)
}

proof fn lemma_found_tells(ps: Seq<Place>, args: DiscoverArgs)
    ensures
        found(ps, args).len() <= ps.len(),
        forall|k: int|
            0 <= k < found(ps, args).len() ==> exists|i: int|
                0 <= i < ps.len() && tells(#[trigger] found(ps, args)[k], #[trigger] ps[i], args),
        forall|i: int|
            0 <= i < ps.len() && shown(#[trigger] ps[i], args) ==> found(ps, args).contains(
                described(ps[i].node, ps[i].path, args.filter, args.verbose),
            ),
    decreases ps.len(),
{
    if ps.len() > 0 {
        let rest = ps.drop_last();
        let last = ps.len() - 1;
        let before = found(rest, args);
        let all = found(ps, args);
        lemma_found_tells(rest, args);
        assert forall|k: int| 0 <= k < all.len() implies exists|i: int|
            0 <= i < ps.len() && tells(#[trigger] all[k], #[trigger] ps[i], args) by {
            if k < before.len() {
                assert(all[k] == before[k]);
                let i = choose|i: int|
                    0 <= i < rest.len() && tells(before[k], #[trigger] rest[i], args);
                assert(tells(all[k], ps[i], args));
            } else {
                assert(tells(all[k], ps[last], args));
            }
        }
        assert forall|i: int| 0 <= i < ps.len() && shown(#[trigger] ps[i], args) implies all.contains(
            described(ps[i].node, ps[i].path, args.filter, args.verbose),
        ) by {
            let e = described(ps[i].node, ps[i].path, args.filter, args.verbose);
            if i < last {
                assert(rest[i] == ps[i]);
                assert(before.contains(e));
                let k = choose|k: int| 0 <= k < before.len() && before[k] == e;
                assert(all[k] == e);
            } else {
                assert(all[all.len() - 1] == e);
            }
        }
    }
}

/// Nothing is invented: whatever a discovery tells of is an element of the
/// tree, on screen, within the depth asked for and worth telling, and the path
/// it is told under leads to it.
pub proof fn law_every_entity_is_an_element(root: Node, args: DiscoverArgs, k: int)
    requires
        root.wf(),
        0 <= k < capped(found(places(root, seq![]), args), args.max_elements as nat).len(),
    ensures
        ({
            let e = capped(found(places(root, seq![]), args), args.max_elements as nat)[k];
            at_path(root, e.path) matches Some(node) && tells(e, (Place { path: e.path, node }), args)
        }),
{
    let all = places(root, seq![]);
    lemma_found_tells(all, args);
    let e = found(all, args)[k];
    assert(capped(found(all, args), args.max_elements as nat)[k] == e);
    let i = choose|i: int| 0 <= i < all.len() && tells(e, #[trigger] all[i], args);
    law_a_path_leads_back(root, i);
}

/// No more entities come back than were asked for.
pub proof fn law_the_element_cap_holds(root: Node, args: DiscoverArgs)
    ensures
        capped(found(places(root, seq![]), args), args.max_elements as nat).len()
            <= args.max_elements,
{
}

proof fn lemma_not_stopped(ps: Seq<Place>, args: DiscoverArgs)
    requires
        stopped(ps, args) is None,
    ensures
        found(ps, args).len() <= args.max_elements,
        forall|i: int| 0 <= i < ps.len() ==> (#[trigger] ps[i]).path.len() <= args.max_depth,
    decreases ps.len(),
{
    if ps.len() > 0 {
        let rest = ps.drop_last();
        lemma_not_stopped(rest, args);
        assert forall|i: int| 0 <= i < ps.len() implies (#[trigger] ps[i]).path.len()
            <= args.max_depth by {
            if i < rest.len() {
                assert(rest[i] == ps[i]);
            }
        }
    }
}

/// A caller is never silently handed a partial view: when no cap is reported,
/// no element lies deeper than the walk went, and every element that is on
/// screen and worth telling has been told of.
pub proof fn law_an_untruncated_discovery_is_complete(root: Node, args: DiscoverArgs, i: int)
    requires
        stopped(places(root, seq![]), args) is None,
        0 <= i < places(root, seq![]).len(),
    ensures
        places(root, seq![])[i].path.len() <= args.max_depth,
        shown(places(root, seq![])[i], args) ==> capped(
            found(places(root, seq![]), args),
            args.max_elements as nat,
        ).contains(
            described(
                places(root, seq![])[i].node,
                places(root, seq![])[i].path,
                args.filter,
                args.verbose,
            ),
        ),
{
    let all = places(root, seq![]);
    lemma_not_stopped(all, args);
    lemma_found_tells(all, args);
    assert(all[i].path.len() <= args.max_depth);
}

// What a caller is told

proof fn lemma_named(list: Seq<Seq<char>>, on: bool, name: Seq<char>, a: Seq<char>)
    ensures
        (list + named(on, name)).contains(a) <==> list.contains(a) || on && a == name,
{
    let all = list + named(on, name);
    if list.contains(a) {
        let i = choose|i: int| 0 <= i < list.len() && list[i] == a;
        assert(all[i] == a);
    }
    if on && a == name {
        assert(all[list.len() as int] == a);
    }
    if all.contains(a) {
        let i = choose|i: int| 0 <= i < all.len() && all[i] == a;
        if i < list.len() {
            assert(list[i] == a);
        }
    }
}

proof fn lemma_actions(p: Patterns, filter: Filter, a: Seq<char>)
    ensures
        actions(p, filter).contains(a) <==> p.invoke && a == "click"@ || p.value && a == "type"@
            || p.toggle && a == "toggle"@ || p.expand && a == "expand"@ || p.select && a
            == "select"@ || filter == Filter::All && p.scroll && a == "scroll_into_view"@,
{
    let one = named(p.invoke, "click"@);
    let two = one + named(p.value, "type"@);
    let three = two + named(p.toggle, "toggle"@);
    let four = three + named(p.expand, "expand"@);
    let five = four + named(p.select, "select"@);
    assert(Seq::<Seq<char>>::empty() + one =~= one);
    lemma_named(seq![], p.invoke, "click"@, a);
    lemma_named(one, p.value, "type"@, a);
    lemma_named(two, p.toggle, "toggle"@, a);
    lemma_named(three, p.expand, "expand"@, a);
    lemma_named(four, p.select, "select"@, a);
    lemma_named(five, filter == Filter::All && p.scroll, "scroll_into_view"@, a);
}

/// Something can be seen of a text: it is not all white space.
pub open spec fn has_ink(s: Seq<char>) -> bool {
    exists|i: int| 0 <= i < s.len() && !white(#[trigger] s[i])
}

/// A text is empty once trimmed exactly when nothing can be seen of it.
pub proof fn lemma_ink(s: Seq<char>)
    ensures
        trim(s).len() > 0 <==> has_ink(s),
{
    lemma_ink_start(s);
    let t = trim_start(s);
    if t.len() > 0 {
        lemma_ink_end(t);
        assert(!white(t[0]));
    }
}

proof fn lemma_ink_start(s: Seq<char>)
    ensures
        trim_start(s).len() > 0 <==> has_ink(s),
        trim_start(s).len() > 0 ==> !white(trim_start(s)[0]),
    decreases s.len(),
{
    if s.len() > 0 && white(s.first()) {
        let r = s.drop_first();
        lemma_ink_start(r);
        if has_ink(r) {
            let i = choose|i: int| 0 <= i < r.len() && !white(#[trigger] r[i]);
            assert(s[i + 1] == r[i]);
        }
        if has_ink(s) {
            let i = choose|i: int| 0 <= i < s.len() && !white(#[trigger] s[i]);
            assert(r[i - 1] == s[i]);
        }
    } else if s.len() > 0 {
        assert(!white(s[0]));
    }
}

proof fn lemma_ink_end(s: Seq<char>)
    requires
        s.len() > 0,
        !white(s[0]),
    ensures
        trim_end(s).len() > 0,
    decreases s.len(),
{
    if white(s.last()) {
        lemma_ink_end(s.drop_last());
    }
}

/// `m` is the middle between two edges, or half a pixel from it on the side of
/// the first.
pub open spec fn is_middle(m: int, from: int, to: int) -> bool {
    if from <= to {
        0 <= from + to - 2 * m <= 1
    } else {
        0 <= 2 * m - from - to <= 1
    }
}

/// What a discovery lists of an element is what the element is: its path leads
/// to it, and name, identifier, type and state are those that the platform
/// reported; the click point is the middle of its rectangle; an action is listed
/// exactly when the element exposes the pattern for it; and the rectangle comes
/// along in verbose mode only.
pub proof fn law_an_entity_says_what_its_element_is(
    raw: RawWindow,
    root: Node,
    args: DiscoverArgs,
    now: u64,
    key: &[u8],
    d: Discovery,
    k: int,
    action: Seq<char>,
)
    requires
        root.wf(),
        call_ensures(discover, (&raw, &root, &args, now, key), Ok::<Discovery, LeaseError>(d)),
        0 <= k < d.entities@.len(),
    ensures
        at_path(root, d.entities@[k].path@) matches Some(node) && ({
            let e = d.entities@[k];
            &&& e.name@ == node.name@
            &&& e.automation_id@ == node.automation_id@
            &&& e.control_type@ == type_label(node.control_type)
            &&& e.enabled == node.enabled
            &&& views(e.actions@).contains(action) <==> {
                ||| action == "click"@ && node.patterns.invoke
                ||| action == "type"@ && node.patterns.value
                ||| action == "toggle"@ && node.patterns.toggle
                ||| action == "expand"@ && node.patterns.expand
                ||| action == "select"@ && node.patterns.select
                ||| action == "scroll_into_view"@ && node.patterns.scroll && args.filter
                    == Filter::All
            }
            &&& is_middle(e.click_at.0 as int, node.rect.left as int, node.rect.right as int)
            &&& is_middle(e.click_at.1 as int, node.rect.top as int, node.rect.bottom as int)
            &&& !args.verbose ==> e.bounds is None
            &&& args.verbose ==> (e.bounds matches Some(b) && b.x == node.rect.left && b.y
                == node.rect.top && b.x + b.w == node.rect.right && b.y + b.h == node.rect.bottom)
        }),
{
    let all = places(root, seq![]);
    let e = d.entities@[k];
    assert(entity_views(d.entities@)[k] == e@);
    law_every_entity_is_an_element(root, args, k);
    let node = at_path(root, e.path@)->0;
    lemma_actions(node.patterns, args.filter, action);
    lemma_path_wf(root, e.path@);
}

proof fn lemma_path_wf(node: Node, path: Seq<u32>)
    requires
        node.wf(),
        at_path(node, path) is Some,
    ensures
        (at_path(node, path)->0).wf(),
    decreases path.len(),
{
    if path.len() > 0 {
        assert(node.children@[path[0] as int].wf());
        lemma_path_wf(node.children@[path[0] as int], path.skip(1));
    }
}

/// The element exposes a pattern that the filter counts.
pub open spec fn can_be_acted_on(node: Node, filter: Filter) -> bool {
    ||| node.patterns.invoke
    ||| node.patterns.value
    ||| node.patterns.toggle
    ||| node.patterns.expand
    ||| node.patterns.select
    ||| filter == Filter::All && node.patterns.scroll
}

/// The element is a target rather than layout: it has an area, something to
/// refer to it by, and it is no container that can neither be clicked nor typed
/// into.
pub open spec fn is_target(node: Node) -> bool {
    &&& node.rect.left < node.rect.right
    &&& node.rect.top < node.rect.bottom
    &&& has_ink(node.name@) || node.automation_id@.len() > 0
    &&& node.patterns.invoke || node.patterns.value || !(type_label(node.control_type) == "group"@
        || type_label(node.control_type) == "pane"@ || type_label(node.control_type) == "custom"@)
}

proof fn lemma_worth(node: Node, filter: Filter)
    requires
        node.rect.fits(),
    ensures
        worth(node, filter) <==> can_be_acted_on(node, filter) && (filter == Filter::All
            || is_target(node)),
{
    lemma_ink(node.name@);
}

/// Only what can be used is listed: an element below the root, within the depth
/// asked for, on screen, with a pattern to act through, and under the stricter
/// filter a target rather than layout.
pub proof fn law_only_what_can_be_used_is_listed(
    raw: RawWindow,
    root: Node,
    args: DiscoverArgs,
    now: u64,
    key: &[u8],
    d: Discovery,
    k: int,
)
    requires
        root.wf(),
        call_ensures(discover, (&raw, &root, &args, now, key), Ok::<Discovery, LeaseError>(d)),
        0 <= k < d.entities@.len(),
    ensures
        d.entities@.len() <= args.max_elements,
        0 < d.entities@[k].path@.len() <= args.max_depth,
        at_path(root, d.entities@[k].path@) matches Some(node) && !node.offscreen && can_be_acted_on(
            node,
            args.filter,
        ) && (args.filter == Filter::All || is_target(node)),
{
    let e = d.entities@[k];
    assert(entity_views(d.entities@).len() == d.entities@.len());
    assert(entity_views(d.entities@)[k] == e@);
    law_every_entity_is_an_element(root, args, k);
    lemma_path_wf(root, e.path@);
    lemma_worth(at_path(root, e.path@)->0, args.filter);
}

/// Everything that can be used is listed, unless the discovery says that it was
/// cut short; and if it does not say so, nothing lies deeper than it looked.
pub proof fn law_everything_that_can_be_used_is_listed(
    raw: RawWindow,
    root: Node,
    args: DiscoverArgs,
    now: u64,
    key: &[u8],
    d: Discovery,
    path: Seq<u32>,
    node: Node,
)
    requires
        root.wf(),
        call_ensures(discover, (&raw, &root, &args, now, key), Ok::<Discovery, LeaseError>(d)),
        d.truncated is None,
        path.len() > 0,
        at_path(root, path) == Some(node),
    ensures
        path.len() <= args.max_depth,
        !node.offscreen && can_be_acted_on(node, args.filter) && (args.filter == Filter::All
            || is_target(node)) ==> exists|k: int|
            0 <= k < d.entities@.len() && (#[trigger] d.entities@[k]).path@ == path,
{
    let all = places(root, seq![]);
    let p = Place { path, node };
    law_every_path_has_its_place(root, path);
    let i = choose|i: int| 0 <= i < all.len() && all[i] == p;
    law_an_untruncated_discovery_is_complete(root, args, i);
    lemma_path_wf(root, path);
    lemma_worth(node, args.filter);
    if shown(p, args) {
        let e = described(node, path, args.filter, args.verbose);
        let es = entity_views(d.entities@);
        assert(es.contains(e));
        let k = choose|k: int| 0 <= k < es.len() && es[k] == e;
        assert(d.entities@[k].path@ == path);
    }
}

proof fn lemma_stopped_for(ps: Seq<Place>, args: DiscoverArgs)
    ensures
        stopped(ps, args) == Some(Cap::Elements) ==> found(ps, args).len() >= args.max_elements,
        stopped(ps, args) == Some(Cap::Depth) ==> exists|i: int|
            0 <= i < ps.len() && (#[trigger] ps[i]).path.len() > args.max_depth,
    decreases ps.len(),
{
    if ps.len() > 0 {
        let rest = ps.drop_last();
        lemma_stopped_for(rest, args);
        if stopped(ps, args) == Some(Cap::Depth) {
            if ps.last().path.len() > args.max_depth {
                assert(ps[ps.len() - 1].path.len() > args.max_depth);
            } else {
                let i = choose|i: int|
                    0 <= i < rest.len() && (#[trigger] rest[i]).path.len() > args.max_depth;
                assert(ps[i] == rest[i]);
            }
        }
    }
}

/// A discovery says that it was cut short only if it was: as many entities came
/// back as were asked for, or something lies deeper than it was to look. It says
/// which.
pub proof fn law_a_discovery_is_cut_short_for_a_reason(
    raw: RawWindow,
    root: Node,
    args: DiscoverArgs,
    now: u64,
    key: &[u8],
    d: Discovery,
    text: String,
)
    requires
        root.wf(),
        call_ensures(discover, (&raw, &root, &args, now, key), Ok::<Discovery, LeaseError>(d)),
        d.truncated == Some(text),
    ensures
        ({
            ||| d.entities@.len() == args.max_elements && text@ == "element cap "@ + decimal(
                args.max_elements as nat,
            ) + " reached"@
            ||| (exists|path: Seq<u32>|
                at_path(root, path) is Some && #[trigger] path.len() > args.max_depth) && text@
                == "depth cap "@ + decimal(args.max_depth as nat) + " reached"@
        }),
{
    let all = places(root, seq![]);
    lemma_stopped_for(all, args);
    assert(entity_views(d.entities@).len() == d.entities@.len());
    if stopped(all, args) == Some(Cap::Depth) {
        let i = choose|i: int| 0 <= i < all.len() && (#[trigger] all[i]).path.len() > args.max_depth;
        law_a_path_leads_back(root, i);
        let path = all[i].path;
        assert(at_path(root, path) is Some && path.len() > args.max_depth);
    }
}

proof fn lemma_found_in_order(ps: Seq<Place>, args: DiscoverArgs)
    requires
        forall|i: int, j: int|
            0 <= i < j < ps.len() ==> walked_before(
                (#[trigger] ps[i]).path,
                (#[trigger] ps[j]).path,
            ),
    ensures
        forall|i: int, j: int|
            0 <= i < j < found(ps, args).len() ==> walked_before(
                (#[trigger] found(ps, args)[i]).path,
                (#[trigger] found(ps, args)[j]).path,
            ),
    decreases ps.len(),
{
    if ps.len() > 0 {
        let rest = ps.drop_last();
        assert forall|i: int, j: int| 0 <= i < j < rest.len() implies walked_before(
            (#[trigger] rest[i]).path,
            (#[trigger] rest[j]).path,
        ) by {
            assert(rest[i] == ps[i] && rest[j] == ps[j]);
        }
        lemma_found_in_order(rest, args);
        lemma_found_tells(rest, args);
        let before = found(rest, args);
        let all = found(ps, args);
        assert forall|i: int, j: int| 0 <= i < j < all.len() implies walked_before(
            (#[trigger] all[i]).path,
            (#[trigger] all[j]).path,
        ) by {
            assert(all[i] == before[i]);
            if j < before.len() {
                assert(all[j] == before[j]);
            } else {
                let m = choose|m: int|
                    0 <= m < rest.len() && tells(before[i], #[trigger] rest[m], args);
                assert(rest[m] == ps[m]);
                assert(walked_before(ps[m].path, ps[ps.len() - 1].path));
            }
        }
    }
}

/// Entities come in the order of the tree, parents before children, and none
/// comes twice.
pub proof fn law_entities_come_in_order(
    raw: RawWindow,
    root: Node,
    args: DiscoverArgs,
    now: u64,
    key: &[u8],
    d: Discovery,
    i: int,
    j: int,
)
    requires
        root.wf(),
        call_ensures(discover, (&raw, &root, &args, now, key), Ok::<Discovery, LeaseError>(d)),
        0 <= i < j < d.entities@.len(),
    ensures
        walked_before(d.entities@[i].path@, d.entities@[j].path@),
        d.entities@[i].path@ != d.entities@[j].path@,
{
    let all = places(root, seq![]);
    lemma_walk_order(root, seq![]);
    lemma_found_in_order(all, args);
    let es = entity_views(d.entities@);
    assert(es.len() == d.entities@.len());
    assert(es == capped(found(all, args), args.max_elements as nat));
    assert(es[i] == d.entities@[i]@ && es[j] == d.entities@[j]@);
    assert(es[i] == found(all, args)[i] && es[j] == found(all, args)[j]);
    lemma_not_before_itself(d.entities@[i].path@);
}

/// A discovery gives authority over the window that was looked at, as it stands,
/// for as long as was asked for, and describes that window.
pub proof fn law_a_discovery_is_for_its_window(
    raw: RawWindow,
    root: Node,
    args: DiscoverArgs,
    now: u64,
    key: &[u8],
    r: Result<Discovery, LeaseError>,
)
    requires
        now + args.ttl_secs <= u64::MAX,
        raw.rect.fits(),
        call_ensures(discover, (&raw, &root, &args, now, key), r),
    ensures
        r matches Ok(d) && ({
            &&& d.window.hwnd == raw.hwnd
            &&& d.window.name@ == raw.name@
            &&& d.window.class_name@ == raw.class_name@
            &&& d.window.control_type@ == type_label(raw.control_type)
            &&& d.window.pid == raw.pid
            &&& d.window.bounds.x == raw.rect.left && d.window.bounds.y == raw.rect.top
            &&& d.window.bounds.x + d.window.bounds.w == raw.rect.right
            &&& d.window.bounds.y + d.window.bounds.h == raw.rect.bottom
            &&& d.generation == generation(d.window@)
            &&& exists|scope: Scope| #[trigger]
                issued(d.scope@, scope, key@) && scope.hwnd == raw.hwnd && scope.generation
                    == d.generation && scope.exp == now + args.ttl_secs
        }),
{
    let d = r->Ok_0;
    let scope = scope_of(raw.described(), now, args.ttl_secs);
    assert(issued(d.scope@, scope, key@));
}

/// Windows are listed as they are reported: each with its handle, process,
/// class, title, type and rectangle, in order.
pub proof fn law_windows_are_listed_as_reported(raw: &[RawWindow], r: Vec<WindowInfo>, i: int)
    requires
        forall|j: int| 0 <= j < raw@.len() ==> (#[trigger] raw@[j]).rect.fits(),
        call_ensures(list_windows, (raw,), r),
        0 <= i < raw@.len(),
    ensures
        r@.len() == raw@.len(),
        r@[i].hwnd == raw@[i].hwnd,
        r@[i].pid == raw@[i].pid,
        r@[i].name@ == raw@[i].name@,
        r@[i].class_name@ == raw@[i].class_name@,
        r@[i].control_type@ == type_label(raw@[i].control_type),
        r@[i].bounds.x == raw@[i].rect.left,
        r@[i].bounds.y == raw@[i].rect.top,
        r@[i].bounds.x + r@[i].bounds.w == raw@[i].rect.right,
        r@[i].bounds.y + r@[i].bounds.h == raw@[i].rect.bottom,
{
    assert(r@[i]@ == raw@[i].described());
    assert(raw@[i].rect.fits());
}

/// Clicking where an entity says hits its element, if it has an area: the centre
/// lies inside the rectangle that was reported.
pub proof fn law_the_click_point_lies_on_the_element(
    node: Node,
    path: Seq<u32>,
    filter: Filter,
    verbose: bool,
)
    requires
        node.rect.fits(),
        node.rect.left < node.rect.right,
        node.rect.top < node.rect.bottom,
    ensures
        ({
            let at = described(node, path, filter, verbose).click_at;
            node.rect.left <= at.0 < node.rect.right && node.rect.top <= at.1 < node.rect.bottom
        }),
{
}

/// `all` means all: whatever the stricter filter tells of, the other tells of
/// too.
pub proof fn law_all_includes_what_is_actionable(node: Node)
    requires
        worth(node, Filter::Actionable),
    ensures
        worth(node, Filter::All),
{
    let strict = crate::uia::tree::actions(node.patterns, Filter::Actionable);
    let wide = crate::uia::tree::actions(node.patterns, Filter::All);
    assert(strict.len() <= wide.len());
}

/// Whoever asks for everything is told of every element with a control pattern,
/// with a label or without, with an area or without.
pub proof fn law_all_leaves_no_pattern_out(node: Node)
    requires
        node.patterns.invoke || node.patterns.value || node.patterns.toggle || node.patterns.expand
            || node.patterns.select || node.patterns.scroll,
    ensures
        worth(node, Filter::All),
{
}

/// What the stricter filter tells of can be aimed at: it has an area.
pub proof fn law_what_is_actionable_has_an_area(node: Node)
    requires
        node.rect.fits(),
        worth(node, Filter::Actionable),
    ensures
        node.rect.left < node.rect.right,
        node.rect.top < node.rect.bottom,
{
}

/// What can be waited for can be acted on: a selector matches an entity as
/// reported exactly as it matches the element itself.
pub proof fn law_an_entity_is_matched_as_its_element(
    node: Node,
    path: Seq<u32>,
    filter: Filter,
    verbose: bool,
    sel: SelectorView,
)
    ensures
        ({
            let e = described(node, path, filter, verbose);
            sel.selects(e.name, e.automation_id, e.control_type) == selected(node, sel)
        }),
{
}

// The generation

/// A window that only moved is the same window.
pub proof fn law_moving_a_window_keeps_its_generation(w: WindowView, x: i32, y: i32)
    ensures
        generation(WindowView { bounds: Bounds { x, y, ..w.bounds }, ..w }) == generation(w),
{
    assert(identity(WindowView { bounds: Bounds { x, y, ..w.bounds }, ..w }) =~= identity(w));
}

proof fn lemma_u32_of_i32(a: i32, b: i32)
    requires
        spec_u32_to_le_bytes(a as u32) == spec_u32_to_le_bytes(b as u32),
    ensures
        a == b,
{
    lemma_auto_spec_u32_to_from_le_bytes();
    let x = a as u32;
    let y = b as u32;
    assert(spec_u32_to_le_bytes(x).len() == 4);
    assert(spec_u32_to_le_bytes(y).len() == 4);
    assert(a as u32 == b as u32 ==> a == b) by (bit_vector);
}

proof fn lemma_u64_of_isize(a: isize, b: isize)
    requires
        spec_u64_to_le_bytes(a as u64) == spec_u64_to_le_bytes(b as u64),
    ensures
        a == b,
{
    lemma_auto_spec_u64_to_from_le_bytes();
    let x = a as u64;
    let y = b as u64;
    assert(spec_u64_to_le_bytes(x).len() == 8);
    assert(spec_u64_to_le_bytes(y).len() == 8);
    assert(a as u64 == b as u64 ==> a == b) by (bit_vector);
}

/// What is fingerprinted tells windows apart: two windows are fed to the hasher
/// alike only if they agree in handle, process, class, title and size.
pub proof fn law_the_identity_tells_windows_apart(v: WindowView, w: WindowView)
    requires
        identity(v) == identity(w),
    ensures
        v.hwnd == w.hwnd,
        v.pid == w.pid,
        v.class_name == w.class_name,
        v.name == w.name,
        v.bounds.w == w.bounds.w,
        v.bounds.h == w.bounds.h,
{
    let a = identity(v);
    let b = identity(w);
    assert(a[0] == b[0] && a[1] == b[1] && a[2] == b[2] && a[4] == b[4] && a[6] == b[6] && a[7]
        == b[7]);
    lemma_u64_of_isize(v.hwnd, w.hwnd);
    lemma_u32_of_i32(v.pid, w.pid);
    lemma_u32_of_i32(v.bounds.w, w.bounds.w);
    lemma_u32_of_i32(v.bounds.h, w.bounds.h);
    encode_utf8_decode_utf8(v.class_name);
    encode_utf8_decode_utf8(w.class_name);
    encode_utf8_decode_utf8(v.name);
    encode_utf8_decode_utf8(w.name);
}

// Retrying

/// A read is tried three times at the most: once two attempts have failed,
/// another failure is reported, whatever it was.
pub proof fn law_a_read_is_tried_three_times_at_most(a: Attempts, code: Option<u32>)
    requires
        a.failed + 1 >= ATTEMPTS,
    ensures
        a.verdict(code) == Verdict::Report,
        ATTEMPTS == 3,
{
}

/// A failure that is not transient is reported at once.
pub proof fn law_a_real_fault_is_not_hidden(a: Attempts, code: Option<u32>)
    requires
        code matches Some(c) ==> !crate::uia::retry::transient(c),
    ensures
        a.verdict(code) == Verdict::Report,
{
}

/// A read is tried again exactly after a failure that means so and while there is
/// an attempt left, after 120 milliseconds.
pub proof fn law_a_transient_failure_is_tried_again(
    a: &mut Attempts,
    code: Option<u32>,
    r: Verdict,
)
    requires
        old(a).open(),
        call_ensures(Attempts::fail, (a, code), r),
    ensures
        final(a).failed == old(a).failed + 1,
        r == (Verdict::Again { pause_ms: 120 }) <==> old(a).failed + 1 < 3 && (code == Some(
            0x8004_0201u32,
        ) || code == Some(0x8001_010au32) || code == Some(0x8001_0001u32) || code == Some(
            0x8004_0200u32,
        )),
        r is Again ==> r == (Verdict::Again { pause_ms: 120 }),
{
}

/// The fingerprint of a window is made of its whole identity.
pub proof fn law_a_fingerprint_is_made_of_the_whole_identity(w: WindowInfo, r: u64)
    requires
        call_ensures(generation_of, (&w,), r),
    ensures
        r == DefaultHasher::spec_finish(identity(w@)),
        r == generation(w@),
{
}

/// The window that is named is taken, the one in the foreground only if none is
/// named, and a null handle is no window.
pub proof fn law_the_named_window_is_taken(
    hwnd: Option<isize>,
    foreground: isize,
    r: Result<isize, TargetError>,
)
    requires
        call_ensures(target_window, (hwnd, foreground), r),
    ensures
        hwnd matches Some(h) ==> h != 0 ==> r == Ok::<isize, TargetError>(h),
        hwnd is None ==> foreground != 0 ==> r == Ok::<isize, TargetError>(foreground),
        hwnd matches Some(h) ==> h == 0 ==> r is Err,
        hwnd is None ==> foreground == 0 ==> r is Err,
{
}

/// An element becomes an entity exactly when it can be used, and the entity says
/// what the element is.
pub proof fn law_what_can_be_used_becomes_an_entity(
    node: Node,
    path: &[u32],
    args: DiscoverArgs,
    r: Option<Entity>,
)
    requires
        node.rect.fits(),
        call_ensures(to_entity, (&node, path, &args), r),
    ensures
        r is Some <==> can_be_acted_on(node, args.filter) && (args.filter == Filter::All
            || is_target(node)),
        r matches Some(e) ==> {
            &&& e.path@ == path@
            &&& e.name@ == node.name@
            &&& e.automation_id@ == node.automation_id@
            &&& e.control_type@ == type_label(node.control_type)
            &&& e.enabled == node.enabled
            &&& is_middle(e.click_at.0 as int, node.rect.left as int, node.rect.right as int)
            &&& is_middle(e.click_at.1 as int, node.rect.top as int, node.rect.bottom as int)
            &&& e.bounds is Some <==> args.verbose
        },
{
    lemma_worth(node, args.filter);
    if r is Some {
        let e = r->0;
        assert(e@ == described(node, path@, args.filter, args.verbose));
    }
}

/// An element offers an action exactly when it has the pattern, in the order of
/// clicking, typing, toggling, expanding, selecting and scrolling.
pub proof fn law_actions_are_offered_by_pattern(p: Patterns, filter: Filter, r: Vec<String>)
    requires
        call_ensures(actions_of, (p, filter), r),
    ensures
        views(r@) == one_if(p.invoke, "click"@) + one_if(p.value, "type"@) + one_if(
            p.toggle,
            "toggle"@,
        ) + one_if(p.expand, "expand"@) + one_if(p.select, "select"@) + one_if(
            p.scroll && filter == Filter::All,
            "scroll_into_view"@,
        ),
{
}

/// One name, or none.
pub open spec fn one_if(on: bool, name: Seq<char>) -> Seq<Seq<char>> {
    if on {
        seq![name]
    } else {
        seq![]
    }
}

/// A rectangle is measured from edge to edge, and can be if its sides are machine
/// integers.
pub proof fn law_a_rectangle_is_measured_from_edge_to_edge(rect: Rect, ok: bool, b: Bounds)
    requires
        call_ensures(Rect::has_size, (&rect,), ok),
        call_ensures(Rect::bounds, (&rect,), b),
    ensures
        ok <==> i32::MIN <= rect.right - rect.left <= i32::MAX && i32::MIN <= rect.bottom
            - rect.top <= i32::MAX,
        ok ==> b.x == rect.left && b.y == rect.top && b.x + b.w == rect.right && b.y + b.h
            == rect.bottom,
{
}

/// A window is described by what is reported of it.
pub proof fn law_a_window_is_described_as_reported(raw: RawWindow, w: WindowInfo)
    requires
        raw.rect.fits(),
        call_ensures(RawWindow::info, (&raw,), w),
    ensures
        w.hwnd == raw.hwnd,
        w.name@ == raw.name@,
        w.control_type@ == type_label(raw.control_type),
        w.bounds.x == raw.rect.left,
        w.bounds.y == raw.rect.top,
        w.bounds.x + w.bounds.w == raw.rect.right,
        w.bounds.y + w.bounds.h == raw.rect.bottom,
        w@ == raw.described(),
{
    assert(w@.name == w.name@);
}

/// A survey lists what a discovery lists, and says what it was cut short by.
pub proof fn law_a_survey_is_what_is_discovered(
    raw: RawWindow,
    root: Node,
    args: DiscoverArgs,
    now: u64,
    key: &[u8],
    d: Discovery,
    r: (Vec<Entity>, Option<Cap>),
    text: String,
)
    requires
        root.wf(),
        call_ensures(discover, (&raw, &root, &args, now, key), Ok::<Discovery, LeaseError>(d)),
        call_ensures(survey, (&root, &args), r),
        r.1 matches Some(cap) ==> call_ensures(Cap::message, (&cap, &args), text),
    ensures
        entity_views(r.0@) == entity_views(d.entities@),
        r.1 is None <==> d.truncated is None,
        d.truncated matches Some(t) ==> t@ == text@,
{
}

/// A failure means that the read is to be tried again exactly if it is one of
/// four, and there is an attempt left until the third failure.
pub proof fn law_four_failures_are_transient(code: u32, r: bool, a: Attempts, left: bool)
    requires
        call_ensures(is_transient, (code,), r),
        call_ensures(Attempts::is_open, (&a,), left),
    ensures
        r <==> code == 0x8004_0201u32 || code == 0x8001_010au32 || code == 0x8001_0001u32 || code
            == 0x8004_0200u32,
        left <==> a.failed < 3,
{
}

/// An empty selector constrains nothing, and only that is one.
pub proof fn law_an_empty_selector_says_nothing(sel: Selector, r: bool)
    requires
        call_ensures(Selector::is_empty, (&sel,), r),
    ensures
        r <==> sel.name is None && sel.automation_id is None && sel.control_type is None,
{
}

/// An entity is matched by the name, identifier and type that it shows.
pub proof fn law_an_entity_is_matched_by_what_it_shows(
    e: Entity,
    sel: Selector,
    r: Option<MatchTier>,
)
    requires
        call_ensures(entity_matches, (&e, &sel), r),
    ensures
        r is Some ==> {
            &&& sel.automation_id matches Some(want) ==> want@ == e.automation_id@
            &&& sel.control_type matches Some(want) ==> alike(want@, e.control_type@)
            &&& sel.name is None ==> r == Some(MatchTier::Exact)
            &&& sel.name matches Some(want) ==> r == tier(e.name@, want@)
        },
        r is None ==> {
            ||| sel.automation_id matches Some(want) && want@ != e.automation_id@
            ||| sel.control_type matches Some(want) && !alike(want@, e.control_type@)
            ||| sel.name matches Some(want) && tier(e.name@, want@) is None
        },
{
    if sel.control_type is Some {
        lemma_alike((sel.control_type->0)@, e.control_type@);
    }
}

/// Of the elements that a selector picks, the first 64 are collected.
pub proof fn law_the_first_hits_are_collected(root: Node, sel: Selector, r: Vec<Hit>, k: int)
    requires
        root.wf(),
        call_ensures(collect_matches, (&root, &sel), r),
        0 <= k < r@.len(),
    ensures
        r@.len() <= 64,
        r@.len() < 64 ==> r@.len() == hits(places(root, seq![]), sel@).len(),
        r@[k]@ == hits(places(root, seq![]), sel@)[k],
{
    let all = hits(places(root, seq![]), sel@);
    assert(hit_views(r@)[k] == r@[k]@);
    assert(hit_views(r@).len() == r@.len());
}

/// An element that is still to be looked at comes after as many entities as were
/// asked for.
pub open spec fn full_at(ps: Seq<Place>, args: DiscoverArgs, i: int) -> bool {
    &&& 0 <= i < ps.len()
    &&& ps[i].path.len() <= args.max_depth + 1
    &&& found(ps.take(i), args).len() >= args.max_elements
}

/// An element lies deeper than is to be looked.
pub open spec fn deep_at(ps: Seq<Place>, args: DiscoverArgs, i: int) -> bool {
    0 <= i < ps.len() && ps[i].path.len() > args.max_depth
}

/// A discovery is cut short by the number of entities exactly when an element that
/// would have been looked at next comes after as many as were asked for; otherwise
/// by the depth exactly when something lies deeper.
pub proof fn law_the_number_cuts_short_before_the_depth(
    root: Node,
    args: DiscoverArgs,
    r: (Vec<Entity>, Option<Cap>),
)
    requires
        root.wf(),
        call_ensures(survey, (&root, &args), r),
    ensures
        ({
            let all = places(root, seq![]);
            let full = exists|i: int| full_at(all, args, i);
            let deep = exists|i: int| deep_at(all, args, i);
            &&& r.1 == Some(Cap::Elements) <==> full
            &&& r.1 == Some(Cap::Depth) <==> !full && deep
            &&& r.1 is None <==> !full && !deep
        }),
{
    let all = places(root, seq![]);
    lemma_stopped_when(all, args);
    assert(r.1 == stopped(all, args));
    match r.1 {
        Some(Cap::Elements) => {},
        Some(Cap::Depth) => {},
        None => {},
    }
}

proof fn lemma_full_at(ps: Seq<Place>, args: DiscoverArgs, i: int)
    requires
        ps.len() > 0,
    ensures
        i != ps.len() - 1 ==> full_at(ps, args, i) == full_at(ps.drop_last(), args, i) && deep_at(
            ps,
            args,
            i,
        ) == deep_at(ps.drop_last(), args, i),
{
    let rest = ps.drop_last();
    if 0 <= i < rest.len() {
        assert(rest.take(i) =~= ps.take(i));
        assert(rest[i] == ps[i]);
    }
}

proof fn lemma_stopped_when(ps: Seq<Place>, args: DiscoverArgs)
    ensures
        stopped(ps, args) == Some(Cap::Elements) <==> exists|i: int| full_at(ps, args, i),
        stopped(ps, args) is Some <==> (exists|i: int| full_at(ps, args, i)) || exists|i: int|
            deep_at(ps, args, i),
    decreases ps.len(),
{
    if ps.len() > 0 {
        let rest = ps.drop_last();
        let last = ps.len() - 1;
        lemma_stopped_when(rest, args);
        assert(ps.take(last) =~= rest);
        assert(full_at(ps, args, last) <==> ps.last().path.len() <= args.max_depth + 1 && found(
            rest,
            args,
        ).len() >= args.max_elements);
        assert(deep_at(ps, args, last) <==> ps.last().path.len() > args.max_depth);
        assert((exists|i: int| full_at(ps, args, i)) <==> full_at(ps, args, last) || exists|i: int|
            full_at(rest, args, i)) by {
            if exists|i: int| full_at(rest, args, i) {
                lemma_full_at(ps, args, choose|i: int| full_at(rest, args, i));
            }
            if exists|i: int| full_at(ps, args, i) {
                lemma_full_at(ps, args, choose|i: int| full_at(ps, args, i));
            }
        }
        assert((exists|i: int| deep_at(ps, args, i)) <==> deep_at(ps, args, last) || exists|i: int|
            deep_at(rest, args, i)) by {
            if exists|i: int| deep_at(rest, args, i) {
                lemma_full_at(ps, args, choose|i: int| deep_at(rest, args, i));
            }
            if exists|i: int| deep_at(ps, args, i) {
                lemma_full_at(ps, args, choose|i: int| deep_at(ps, args, i));
            }
        }
    }
}

} // verus!
