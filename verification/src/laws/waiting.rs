//! Waiting for a control.

use vstd::prelude::*;
use crate::chars::decimal;
use crate::server::wait::{
    best_sightings, sightings, wait_ambiguity, Sighting, Until, Wait, WaitForParams, WaitNext,
    WaitStatus,
};
use crate::server::Refusal;
use crate::text::MatchTier;
use crate::uia::{entity_views, DiscoverArgs, Discovery, Entity, EntityView, Filter, SelectorView};
use super::acting::{alike, lemma_alike, starts_with};
use super::labels::law_the_best_hits_keep_their_order;

verus! {

/// A wait is begun as it was asked for: on that window, for that selector, for
/// the time that was given up to two minutes, with looks as far apart as was
/// asked for but not less than 50 milliseconds. Ten seconds and a quarter of a
/// second stand for what was not said.
pub proof fn law_a_wait_is_begun_as_asked(p: WaitForParams, r: Result<Wait, Refusal>, w: Wait)
    requires
        call_ensures(Wait::begin, (p,), r),
        r == Ok::<Wait, Refusal>(w),
    ensures
        w.hwnd == p.hwnd,
        w.select@ == p.select@,
        w.polls == 0,
        p.timeout_ms is None ==> w.timeout_ms == 10_000,
        forall|t: u64| p.timeout_ms == Some(t) && t <= 120_000 ==> w.timeout_ms == t,
        forall|t: u64| p.timeout_ms == Some(t) && t > 120_000 ==> w.timeout_ms == 120_000,
        p.poll_ms is None ==> w.poll_ms == 250,
        forall|t: u64| p.poll_ms == Some(t) && t >= 50 ==> w.poll_ms == t,
        forall|t: u64| p.poll_ms == Some(t) && t < 50 ==> w.poll_ms == 50,
        p.until is None ==> w.until == Until::Appears,
        p.until matches Some(u) ==> match w.until {
            Until::Appears => alike(u@, "appears"@),
            Until::Disappears => alike(u@, "disappears"@),
            Until::Enabled => alike(u@, "enabled"@),
        },
{
    lemma_names();
    if p.until is Some {
        let u = (p.until->0)@;
        lemma_alike(u, "appears"@);
        lemma_alike(u, "disappears"@);
        lemma_alike(u, "enabled"@);
    }
}

proof fn lemma_names()
    ensures
        crate::chars::ascii_lowered("appears"@) == "appears"@,
        crate::chars::ascii_lowered("disappears"@) == "disappears"@,
        crate::chars::ascii_lowered("enabled"@) == "enabled"@,
        "appears"@ != "enabled"@,
        "appears"@.len() == 7,
        "disappears"@.len() == 10,
        "enabled"@.len() == 7,
{
    reveal_strlit("appears");
    reveal_strlit("disappears");
    reveal_strlit("enabled");
    assert("appears"@[0] == 'a' && "enabled"@[0] == 'e');
    assert(crate::chars::ascii_lowered("appears"@) =~= "appears"@);
    assert(crate::chars::ascii_lowered("disappears"@) =~= "disappears"@);
    assert(crate::chars::ascii_lowered("enabled"@) =~= "enabled"@);
}

/// A wait is begun for whatever can be waited for: a selector that constrains
/// something, and a condition that is not said or is one of the three, in
/// whatever case.
pub proof fn law_what_can_be_waited_for_is(p: WaitForParams, r: Result<Wait, Refusal>)
    requires
        call_ensures(Wait::begin, (p,), r),
    ensures
        r is Ok <==> (p.select.name is Some || p.select.automation_id is Some
            || p.select.control_type is Some) && (p.until matches Some(u) ==> alike(u@, "appears"@)
            || alike(u@, "disappears"@) || alike(u@, "enabled"@)),
        r is Err ==> r->Err_0 is InvalidParams,
{
    lemma_names();
    if p.until is Some {
        let u = (p.until->0)@;
        lemma_alike(u, "appears"@);
        lemma_alike(u, "disappears"@);
        lemma_alike(u, "enabled"@);
    }
}

/// Each look of a wait is at the window that is waited on, at everything in it.
pub proof fn law_a_wait_looks_at_everything(w: Wait, r: DiscoverArgs)
    requires
        call_ensures(Wait::args, (&w,), r),
    ensures
        r.hwnd == Some(w.hwnd),
        r.filter == Filter::All,
        r.max_elements == 400,
        r.max_depth == 24,
        r.ttl_secs == 300,
{
}

// What a look leads to

/// The tier at which an entity answers to a selector.
pub open spec fn fit(e: Entity, sel: SelectorView) -> Option<MatchTier> {
    sel.selects(e.name@, e.automation_id@, e.control_type@)
}

/// Entity `k` answers to the selector, and no other does so more tightly.
pub open spec fn fits_best(d: Discovery, sel: SelectorView, k: int) -> bool {
    &&& 0 <= k < d.entities@.len()
    &&& fit(d.entities@[k], sel) is Some
    &&& forall|j: int|
        0 <= j < d.entities@.len() && fit(#[trigger] d.entities@[j], sel) is Some ==> (fit(
            d.entities@[k],
            sel,
        )->0).rank() <= (fit(d.entities@[j], sel)->0).rank()
}

/// No entity answers to the selector.
pub open spec fn fits_nothing(d: Discovery, sel: SelectorView) -> bool {
    forall|j: int| 0 <= j < d.entities@.len() ==> fit(#[trigger] d.entities@[j], sel) is None
}

proof fn lemma_seen(es: Seq<EntityView>, sel: SelectorView) -> (at: Seq<int>)
    ensures
        at.len() == sightings(es, sel).len(),
        forall|k: int|
            0 <= k < at.len() ==> 0 <= #[trigger] at[k] < es.len() && sightings(es, sel)[k].entity
                == es[at[k]] && sel.selects(
                es[at[k]].name,
                es[at[k]].automation_id,
                es[at[k]].control_type,
            ) == Some(sightings(es, sel)[k].tier),
        forall|k: int, m: int| 0 <= k < m < at.len() ==> #[trigger] at[k] < #[trigger] at[m],
        forall|i: int|
            0 <= i < es.len() && sel.selects(
                (#[trigger] es[i]).name,
                es[i].automation_id,
                es[i].control_type,
            ) is Some ==> at.contains(i),
    decreases es.len(),
{
    if es.len() == 0 {
        seq![]
    } else {
        let n = es.len() - 1;
        let rest = es.drop_last();
        let before = lemma_seen(rest, sel);
        let e = es.last();
        assert(forall|i: int| 0 <= i < n ==> #[trigger] rest[i] == es[i]);
        if sel.selects(e.name, e.automation_id, e.control_type) is Some {
            let at = before.push(n);
            assert forall|i: int|
                0 <= i < es.len() && sel.selects(
                    (#[trigger] es[i]).name,
                    es[i].automation_id,
                    es[i].control_type,
                ) is Some implies at.contains(i) by {
                if i < n {
                    assert(rest[i] == es[i]);
                    assert(before.contains(i));
                    let k = choose|k: int| 0 <= k < before.len() && before[k] == i;
                    assert(at[k] == i);
                } else {
                    assert(at[before.len() as int] == i);
                }
            }
            at
        } else {
            assert forall|i: int|
                0 <= i < es.len() && sel.selects(
                    (#[trigger] es[i]).name,
                    es[i].automation_id,
                    es[i].control_type,
                ) is Some implies before.contains(i) by {
                assert(rest[i] == es[i]);
            }
            before
        }
    }
}

/// The places of the best sightings among the entities.
proof fn lemma_best_seen(d: Discovery, sel: SelectorView) -> (at: Seq<int>)
    ensures
        ({
            let best = best_sightings(entity_views(d.entities@), sel);
            &&& at.len() == best.len()
            &&& fits_nothing(d, sel) <==> best.len() == 0
            &&& forall|k: int|
                0 <= k < at.len() ==> fits_best(d, sel, #[trigger] at[k]) && best[k].entity
                    == d.entities@[at[k]]@ && fit(d.entities@[at[k]], sel) == Some(best[k].tier)
            &&& forall|k: int, m: int| 0 <= k < m < at.len() ==> #[trigger] at[k] < #[trigger] at[m]
            &&& forall|i: int| #[trigger] fits_best(d, sel, i) ==> at.contains(i)
        }),
{
    let es = entity_views(d.entities@);
    let all = sightings(es, sel);
    let tiers = all.map_values(|s: Sighting| s.tier);
    let place = lemma_seen(es, sel);
    assert(forall|i: int| 0 <= i < es.len() ==> #[trigger] es[i] == d.entities@[i]@);
    assert forall|j: int| 0 <= j < d.entities@.len() && fit(#[trigger] d.entities@[j], sel)
        is Some implies place.contains(j) by {
        assert(es[j] == d.entities@[j]@);
    }
    if all.len() == 0 {
        assert forall|j: int| 0 <= j < d.entities@.len() implies fit(
            #[trigger] d.entities@[j],
            sel,
        ) is None by {
            if fit(d.entities@[j], sel) is Some {
                assert(place.contains(j));
            }
        }
        assert(best_sightings(es, sel).len() == 0);
        Seq::<int>::empty()
    } else {
        let picked = law_the_best_hits_keep_their_order(all, tiers);
        let best = best_sightings(es, sel);
        let at = Seq::new(picked.len(), |k: int| place[picked[k]]);
        assert(fit(d.entities@[place[0]], sel) is Some) by {
            assert(es[place[0]] == d.entities@[place[0]]@);
        }
        assert(!fits_nothing(d, sel));
        assert forall|k: int| 0 <= k < at.len() implies fits_best(d, sel, #[trigger] at[k])
            && best[k].entity == d.entities@[at[k]]@ && fit(d.entities@[at[k]], sel) == Some(
            best[k].tier,
        ) by {
            let i = picked[k];
            assert(best[k] == all[i]);
            assert(es[place[i]] == d.entities@[at[k]]@);
            assert(picked.contains(i));
            assert forall|j: int|
                0 <= j < d.entities@.len() && fit(#[trigger] d.entities@[j], sel)
                    is Some implies (fit(d.entities@[at[k]], sel)->0).rank() <= (fit(
                d.entities@[j],
                sel,
            )->0).rank() by {
                assert(place.contains(j));
                let m = choose|m: int| 0 <= m < place.len() && place[m] == j;
                assert(es[place[m]] == d.entities@[j]@);
                assert(tiers[i].rank() <= tiers[m].rank());
            }
        }
        assert forall|i: int| #[trigger] fits_best(d, sel, i) implies at.contains(i) by {
            assert(place.contains(i));
            let m = choose|m: int| 0 <= m < place.len() && place[m] == i;
            assert(es[place[m]] == d.entities@[i]@);
            assert forall|j: int| 0 <= j < all.len() implies (#[trigger] tiers[m]).rank() <= (
            #[trigger] tiers[j]).rank() by {
                assert(es[place[j]] == d.entities@[place[j]]@);
                assert(fit(d.entities@[place[j]], sel) is Some);
            }
            assert(picked.contains(m));
            let k = choose|k: int| 0 <= k < picked.len() && picked[k] == m;
            assert(at[k] == i);
        }
        at
    }
}

/// The wait is not over: it sleeps as long as was asked for while there is time,
/// and gives up when there is none.
pub open spec fn goes_on(w: Wait, elapsed_ms: u64, r: WaitNext) -> bool {
    &&& elapsed_ms < w.timeout_ms ==> r == (WaitNext::Sleep { ms: w.poll_ms })
    &&& elapsed_ms >= w.timeout_ms ==> (r matches WaitNext::Done { result } && !result.ok
        && result.status == WaitStatus::TimedOut && result.scope is None && result.matched is None
        && result.until == w.until)
}

/// A look changes nothing of a wait but the number of looks.
pub proof fn law_a_look_is_counted(
    w: &mut Wait,
    walk: Result<Discovery, String>,
    elapsed_ms: u64,
    r: WaitNext,
)
    requires
        old(w).polls < u32::MAX,
        call_ensures(Wait::step, (w, walk, elapsed_ms), r),
    ensures
        final(w).polls == old(w).polls + 1,
        final(w).hwnd == old(w).hwnd,
        final(w).select == old(w).select,
        final(w).until == old(w).until,
        final(w).timeout_ms == old(w).timeout_ms,
        final(w).poll_ms == old(w).poll_ms,
        r matches WaitNext::Done { result } ==> result.polls == old(w).polls + 1 && result.until
            == old(w).until,
{
}

/// A wait goes on until its time is up while what is waited for is not the case:
/// while something that is to disappear is there, while nothing answers to the
/// selector, and while the one control that answers best is not enabled.
pub proof fn law_a_wait_goes_on_until_its_time_is_up(
    w: &mut Wait,
    d: Discovery,
    elapsed_ms: u64,
    r: WaitNext,
    k: int,
)
    requires
        old(w).polls < u32::MAX,
        call_ensures(Wait::step, (w, Ok::<Discovery, String>(d), elapsed_ms), r),
        ({
            ||| old(w).until == Until::Disappears && !fits_nothing(d, old(w).select@)
            ||| old(w).until != Until::Disappears && fits_nothing(d, old(w).select@)
            ||| old(w).until == Until::Enabled && fits_best(d, old(w).select@, k)
                && !d.entities@[k].enabled && forall|j: int| #[trigger]
                fits_best(d, old(w).select@, j) ==> j == k
        }),
    ensures
        goes_on(*old(w), elapsed_ms, r),
{
    let at = lemma_best_seen(d, old(w).select@);
    if at.len() > 1 {
        assert(at[0] < at[1]);
        assert(fits_best(d, old(w).select@, at[0]) && fits_best(d, old(w).select@, at[1]));
    }
    if at.len() > 0 {
        assert(fits_best(d, old(w).select@, at[0]));
    }
}

/// A wait ends with the control that it waited for: when one entity answers best
/// and, where that was waited for, is enabled, that entity comes back, with its
/// tier and the scope of the look; and a wait for a disappearance ends when
/// nothing answers.
pub proof fn law_a_wait_ends_when_it_is_met(
    w: &mut Wait,
    d: Discovery,
    elapsed_ms: u64,
    r: WaitNext,
    k: int,
)
    requires
        old(w).polls < u32::MAX,
        call_ensures(Wait::step, (w, Ok::<Discovery, String>(d), elapsed_ms), r),
    ensures
        old(w).until == Until::Disappears && fits_nothing(d, old(w).select@) ==> (r
            matches WaitNext::Done { result } && result.ok && result.status == WaitStatus::Met
            && result.scope is None && result.matched is None),
        old(w).until != Until::Disappears && fits_best(d, old(w).select@, k) && (old(w).until
            == Until::Enabled ==> d.entities@[k].enabled) && (forall|j: int| #[trigger]
            fits_best(d, old(w).select@, j) ==> j == k) ==> (r matches WaitNext::Done { result }
            && result.ok && result.status == WaitStatus::Met && (result.scope matches Some(token)
            && token@ == d.scope@) && (result.matched matches Some(e) && e@ == d.entities@[k]@)
            && result.matched_by == fit(d.entities@[k], old(w).select@)),
{
    let at = lemma_best_seen(d, old(w).select@);
    if at.len() > 1 {
        assert(at[0] < at[1]);
        assert(fits_best(d, old(w).select@, at[0]) && fits_best(d, old(w).select@, at[1]));
    }
    if at.len() > 0 {
        assert(fits_best(d, old(w).select@, at[0]));
    }
}

/// A wait never picks one of several: when two entities answer equally well and
/// none better, it ends at once and says so.
pub proof fn law_a_wait_refuses_several(
    w: &mut Wait,
    d: Discovery,
    elapsed_ms: u64,
    r: WaitNext,
    j: int,
    k: int,
)
    requires
        old(w).polls < u32::MAX,
        call_ensures(Wait::step, (w, Ok::<Discovery, String>(d), elapsed_ms), r),
        old(w).until != Until::Disappears,
        j != k,
        fits_best(d, old(w).select@, j),
        fits_best(d, old(w).select@, k),
    ensures
        r matches WaitNext::Done { result } && !result.ok && result.status == WaitStatus::Ambiguous
            && result.scope is None && result.matched is None,
{
    let at = lemma_best_seen(d, old(w).select@);
    assert(at.contains(j) && at.contains(k));
}

/// A look that fails ends a wait: well, if a disappearance was waited for, since
/// a window that is gone shows nothing, and as a failure otherwise.
pub proof fn law_a_failed_look_ends_a_wait(
    w: &mut Wait,
    e: String,
    elapsed_ms: u64,
    r: WaitNext,
)
    requires
        old(w).polls < u32::MAX,
        call_ensures(Wait::step, (w, Err::<Discovery, String>(e), elapsed_ms), r),
    ensures
        r matches WaitNext::Done { result } && result.ok == (old(w).until == Until::Disappears)
            && result.status == (if old(w).until == Until::Disappears {
            WaitStatus::Met
        } else {
            WaitStatus::Failed
        }) && result.scope is None && result.matched is None,
{
}

/// A wait that ends without its control says why: what was waited for and for
/// how long, how many controls answer, or what the look failed of.
pub proof fn law_a_wait_says_why_it_ended(
    w: &mut Wait,
    walk: Result<Discovery, String>,
    elapsed_ms: u64,
    r: WaitNext,
    text: Seq<char>,
)
    requires
        old(w).polls < u32::MAX,
        call_ensures(Wait::step, (w, walk, elapsed_ms), r),
        r matches WaitNext::Done { result } && !result.ok && (result.detail matches Some(d) && d@
            == text),
    ensures
        r matches WaitNext::Done { result } && match result.status {
            WaitStatus::TimedOut => text == "nothing satisfied `"@ + old(w).until.label() + "` for "@
                + old(w).select@.described() + " within "@ + decimal(old(w).timeout_ms as nat)
                + " ms"@,
            WaitStatus::Failed => walk matches Err(e) && text == "the window could not be walked: "@
                + e@,
            WaitStatus::Ambiguous => walk matches Ok(d) && starts_with(
                text,
                decimal(best_sightings(entity_views(d.entities@), old(w).select@).len())
                    + " elements match "@ + old(w).select@.described(),
            ),
            WaitStatus::Met => false,
        },
{
    if walk is Ok {
        let best = best_sightings(entity_views((walk->Ok_0).entities@), old(w).select@);
        if best.len() > 1 && old(w).until != Until::Disappears {
            let head = decimal(best.len()) + " elements match "@ + old(w).select@.described();
            assert(text == wait_ambiguity(best.len(), old(w).select@, best[0].tier));
            assert(text.take(head.len() as int) =~= head);
        }
    }
}

} // verus!
