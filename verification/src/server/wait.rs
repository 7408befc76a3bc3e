//! Waiting for a control to appear, disappear or become enabled.
//!
//! [`Wait`] decides after every look at the window whether the wait is over.
//! Looking and sleeping are the caller's.

use vstd::prelude::*;
use vstd::string::*;
use crate::chars::{
    ascii_lowered, ascii_lowered_text, decimal, optional, same_text, write_decimal,
};
use crate::foreign::{quoted, to_quoted};
use crate::text::{at_rank, best_of, best_rank, keep_best, tiers_of, MatchTier};
use crate::uia::{
    entity_matches, entity_views, DiscoverArgs, Discovery, Entity, EntityView, Filter, Selector,
    SelectorView,
};
use super::{discover_args, discovery_of, Refusal, MAX_ELEMENTS};

verus! {

/// How long a wait lasts unless the caller says otherwise, in milliseconds.
pub const DEFAULT_TIMEOUT_MS: u64 = 10_000;

/// The longest wait. One that outlives the caller's patience is a hang, not a
/// wait.
pub const MAX_TIMEOUT_MS: u64 = 120_000;

/// The gap between two looks unless the caller says otherwise.
pub const DEFAULT_POLL_MS: u64 = 250;

/// The shortest gap between two looks. Each is a full window walk.
pub const MIN_POLL_MS: u64 = 50;

/// What is waited for.
#[derive(Debug, Clone, Copy, PartialEq, Eq, Structural)]
pub enum Until {
    Appears,
    Disappears,
    Enabled,
}

impl Until {
    /// The name under which it is asked for and reported.
    pub open spec fn label(self) -> Seq<char> {
        match self {
            Until::Appears => "appears"@,
            Until::Disappears => "disappears"@,
            Until::Enabled => "enabled"@,
        }
    }

    /// The name under which it is asked for and reported.
    pub fn as_str(self) -> (r: &'static str)
        ensures
            r@ == self.label(),
    {
        match self {
            Until::Appears => "appears",
            Until::Disappears => "disappears",
            Until::Enabled => "enabled",
        }
    }
}

/// How a wait ended.
#[derive(Debug, Clone, Copy, PartialEq, Eq, Structural)]
pub enum WaitStatus {
    /// The condition holds.
    Met,
    /// It never held. That says nothing about why: the target may be absent, or
    /// merely slow.
    TimedOut,
    /// More than one control matches.
    Ambiguous,
    /// A look at the window failed.
    Failed,
}

impl WaitStatus {
    /// The name under which it is reported.
    pub open spec fn label(self) -> Seq<char> {
        match self {
            WaitStatus::Met => "ok"@,
            WaitStatus::TimedOut => "timeout"@,
            WaitStatus::Ambiguous => "ambiguous"@,
            WaitStatus::Failed => "error"@,
        }
    }

    /// The name under which it is reported.
    pub fn as_str(self) -> (r: &'static str)
        ensures
            r@ == self.label(),
    {
        match self {
            WaitStatus::Met => "ok",
            WaitStatus::TimedOut => "timeout",
            WaitStatus::Ambiguous => "ambiguous",
            WaitStatus::Failed => "error",
        }
    }
}

/// What `wait_for` takes.
#[derive(Debug)]
pub struct WaitForParams {
    /// Window to watch, from `windows`.
    pub hwnd: isize,
    /// What to wait for. Matched as `act` matches, so a control that was waited
    /// for is a control that `act` can find.
    pub select: Selector,
    /// `appears`, `disappears` or `enabled`.
    pub until: Option<String>,
    /// Give up after this long.
    pub timeout_ms: Option<u64>,
    /// Gap between looks.
    pub poll_ms: Option<u64>,
}

/// What `wait_for` observed.
#[derive(Debug)]
pub struct WaitResult {
    pub ok: bool,
    pub status: WaitStatus,
    /// The condition that was waited on.
    pub until: Until,
    /// How often the window was looked at. One means that the condition held
    /// already and nothing was waited for.
    pub polls: u32,
    /// The scope to act under, when a control was waited for.
    pub scope: Option<String>,
    pub matched: Option<Entity>,
    pub matched_by: Option<MatchTier>,
    pub detail: Option<String>,
}

/// What a [`WaitResult`] says.
pub struct WaitResultView {
    pub ok: bool,
    pub status: WaitStatus,
    pub until: Until,
    pub polls: u32,
    pub scope: Option<Seq<char>>,
    pub matched: Option<EntityView>,
    pub matched_by: Option<MatchTier>,
    pub detail: Option<Seq<char>>,
}

impl View for WaitResult {
    type V = WaitResultView;

    open spec fn view(&self) -> WaitResultView {
        WaitResultView {
            ok: self.ok,
            status: self.status,
            until: self.until,
            polls: self.polls,
            scope: optional(self.scope),
            matched: match self.matched {
                Some(e) => Some(e@),
                None => None,
            },
            matched_by: self.matched_by,
            detail: optional(self.detail),
        }
    }
}

/// What to do after a look at the window.
#[derive(Debug)]
pub enum WaitNext {
    /// Look again after so many milliseconds.
    Sleep { ms: u64 },
    /// The wait is over.
    Done { result: WaitResult },
}

/// A wait under way.
#[derive(Debug)]
pub struct Wait {
    pub hwnd: isize,
    pub select: Selector,
    pub until: Until,
    pub timeout_ms: u64,
    pub poll_ms: u64,
    /// How often the window was looked at.
    pub polls: u32,
}

// Beginning

/// What is waited for, given how it was asked for in lower case.
pub open spec fn until_of(name: Seq<char>) -> Option<Until> {
    if name == "appears"@ {
        Some(Until::Appears)
    } else if name == "disappears"@ {
        Some(Until::Disappears)
    } else if name == "enabled"@ {
        Some(Until::Enabled)
    } else {
        None
    }
}

fn read_until(name: &str) -> (r: Option<Until>)
    ensures
        r == until_of(name@),
{
    if same_text(name, "appears") {
        Some(Until::Appears)
    } else if same_text(name, "disappears") {
        Some(Until::Disappears)
    } else if same_text(name, "enabled") {
        Some(Until::Enabled)
    } else {
        None
    }
}

/// How the condition was asked for: `appears` unless the caller says otherwise,
/// and in lower case.
pub open spec fn asked_until(until: Option<Seq<char>>) -> Seq<char> {
    match until {
        Some(u) => ascii_lowered(u),
        None => "appears"@,
    }
}

/// How long to wait, in milliseconds.
pub open spec fn timeout_of(timeout_ms: Option<u64>) -> u64 {
    match timeout_ms {
        Some(t) => if t > MAX_TIMEOUT_MS {
            MAX_TIMEOUT_MS
        } else {
            t
        },
        None => DEFAULT_TIMEOUT_MS,
    }
}

/// The gap between two looks, in milliseconds.
pub open spec fn poll_of(poll_ms: Option<u64>) -> u64 {
    match poll_ms {
        Some(t) => if t < MIN_POLL_MS {
            MIN_POLL_MS
        } else {
            t
        },
        None => DEFAULT_POLL_MS,
    }
}

impl Wait {
    /// A wait for what was asked. A condition that is not known is refused, and
    /// so is an empty selector, which every element would match at once.
    pub fn begin(p: WaitForParams) -> (r: Result<Wait, Refusal>)
        ensures
            ({
                let asked = asked_until(optional(p.until));
                match until_of(asked) {
                    None => r matches Err(Refusal::InvalidParams(text)) && text@
                        == "unknown `until` value "@ + quoted(asked)
                        + " (appears|disappears|enabled)"@,
                    Some(until) => if p.select@.empty() {
                        r matches Err(Refusal::InvalidParams(text)) && text@
                            == "`select` is empty - it would match every element and return instantly"@
                    } else {
                        r matches Ok(w) && {
                            &&& w.hwnd == p.hwnd
                            &&& w.select == p.select
                            &&& w.until == until
                            &&& w.timeout_ms == timeout_of(p.timeout_ms)
                            &&& w.poll_ms == poll_of(p.poll_ms)
                            &&& w.polls == 0
                        }
                    },
                }
            }),
    {
        let asked = match &p.until {
            Some(u) => ascii_lowered_text(u.as_str()),
            None => String::from_str("appears"),
        };
        let until = match read_until(asked.as_str()) {
            Some(u) => u,
            None => {
                let mut text = String::from_str("unknown `until` value ");
                let q = to_quoted(asked.as_str());
                text.append(q.as_str());
                text.append(" (appears|disappears|enabled)");
                return Err(Refusal::InvalidParams(text));
            },
        };
        if p.select.is_empty() {
            return Err(
                Refusal::InvalidParams(
                    String::from_str(
                        "`select` is empty - it would match every element and return instantly",
                    ),
                ),
            );
        }
        let timeout_ms: u64 = match p.timeout_ms {
            Some(t) => if t > MAX_TIMEOUT_MS {
                MAX_TIMEOUT_MS
            } else {
                t
            },
            None => DEFAULT_TIMEOUT_MS,
        };
        let poll_ms: u64 = match p.poll_ms {
            Some(t) => if t < MIN_POLL_MS {
                MIN_POLL_MS
            } else {
                t
            },
            None => DEFAULT_POLL_MS,
        };
        Ok(Wait { hwnd: p.hwnd, select: p.select, until, timeout_ms, poll_ms, polls: 0 })
    }

    /// What each look discovers: everything in the window.
    pub fn args(&self) -> (r: DiscoverArgs)
        ensures
            r == discovery_of(Some(self.hwnd), MAX_ELEMENTS, Filter::All),
    {
        discover_args(Some(self.hwnd), MAX_ELEMENTS, Filter::All)
    }
}

// Looking

/// An entity that the selector matched, and how tightly.
pub struct Sighting {
    pub entity: EntityView,
    pub tier: MatchTier,
}

/// The entities that the selector matches, in order.
pub open spec fn sightings(es: Seq<EntityView>, sel: SelectorView) -> Seq<Sighting>
    decreases es.len(),
{
    if es.len() == 0 {
        seq![]
    } else {
        let rest = sightings(es.drop_last(), sel);
        let e = es.last();
        match sel.selects(e.name, e.automation_id, e.control_type) {
            Some(tier) => rest.push(Sighting { entity: e, tier }),
            None => rest,
        }
    }
}

/// The entities that the selector resolves to: those that no other matches
/// more tightly.
pub open spec fn best_sightings(es: Seq<EntityView>, sel: SelectorView) -> Seq<Sighting> {
    let all = sightings(es, sel);
    best_of(all, all.map_values(|s: Sighting| s.tier))
}

/// What (entity, tier) pairs say.
spec fn pair_views(v: Seq<(Entity, MatchTier)>) -> Seq<Sighting> {
    v.map_values(|p: (Entity, MatchTier)| Sighting { entity: p.0@, tier: p.1 })
}

proof fn lemma_rank_of_pairs(v: Seq<(Entity, MatchTier)>, tiers: Seq<MatchTier>, rank: nat)
    ensures
        pair_views(at_rank(v, tiers, rank)) == at_rank(pair_views(v), tiers, rank),
    decreases v.len(),
{
    if v.len() > 0 {
        lemma_rank_of_pairs(v.drop_last(), tiers, rank);
        assert(pair_views(v).drop_last() =~= pair_views(v.drop_last()));
    }
    assert(pair_views(at_rank(v, tiers, rank)) =~= at_rank(pair_views(v), tiers, rank));
}

fn resolve_entities(es: &[Entity], sel: &Selector) -> (r: Vec<(Entity, MatchTier)>)
    ensures
        pair_views(r@) == best_sightings(entity_views(es@), sel@),
{
    let mut found: Vec<(Entity, MatchTier)> = Vec::new();
    let ghost all = entity_views(es@);
    assert(pair_views(found@) =~= sightings(all.take(0), sel@));
    for i in 0..es.len()
        invariant
            all == entity_views(es@),
            pair_views(found@) == sightings(all.take(i as int), sel@),
    {
        assert(all.take(i + 1).drop_last() =~= all.take(i as int));
        assert(all.take(i + 1).last() == es@[i as int]@);
        if let Some(tier) = entity_matches(&es[i], sel) {
            let ghost before = found@;
            let e = es[i].clone();
            let ghost said = Sighting { entity: e@, tier };
            found.push((e, tier));
            assert(pair_views(found@) =~= pair_views(before).push(said));
        }
    }
    assert(all.take(es@.len() as int) =~= all);
    let ghost before = found@;
    let tier = |p: &(Entity, MatchTier)| -> (t: MatchTier)
        ensures
            t == p.1,
        { p.1 };
    keep_best(&mut found, tier);
    proof {
        let tiers = choose|tiers: Seq<MatchTier>|
            tiers_of(tier, before, tiers) && found@ == best_of(before, tiers);
        assert(tiers =~= pair_views(before).map_values(|s: Sighting| s.tier));
        lemma_rank_of_pairs(before, tiers, best_rank(tiers));
    }
    found
}

/// The result of a wait that ends without a control.
pub open spec fn ended(w: Wait, ok: bool, status: WaitStatus, detail: Option<Seq<char>>) -> WaitResultView {
    WaitResultView {
        ok,
        status,
        until: w.until,
        polls: w.polls,
        scope: None,
        matched: None,
        matched_by: None,
        detail,
    }
}

/// The result of a wait that found the control it waited for.
pub open spec fn reached(w: Wait, scope: Seq<char>, s: Sighting) -> WaitResultView {
    WaitResultView {
        ok: true,
        status: WaitStatus::Met,
        until: w.until,
        polls: w.polls,
        scope: Some(scope),
        matched: Some(s.entity),
        matched_by: Some(s.tier),
        detail: None,
    }
}

/// Why a wait for one of several matching controls is refused.
pub open spec fn wait_ambiguity(count: nat, sel: SelectorView, tier: MatchTier) -> Seq<char> {
    decimal(count) + " elements match "@ + sel.described() + " at the "@ + tier.label()
        + " tier. Add automation_id or control_type."@
}

/// What is reported when the time is up.
pub open spec fn timeout_text(w: Wait) -> Seq<char> {
    "nothing satisfied `"@ + w.until.label() + "` for "@ + w.select@.described() + " within "@
        + decimal(w.timeout_ms as nat) + " ms"@
}

/// What a look at the window leads to; `None` when the condition does not hold
/// yet. `w` counts the look already.
///
/// A window that vanishes is a legitimate way for `disappears` to be satisfied,
/// so a failed look ends that wait successfully, and is fatal everywhere else.
pub open spec fn judged(w: Wait, walk: Result<Discovery, String>) -> Option<WaitResultView> {
    match walk {
        Err(e) => if w.until == Until::Disappears {
            Some(
                ended(
                    w,
                    true,
                    WaitStatus::Met,
                    Some(
                        "the window is no longer reachable, which satisfies `disappears`: "@ + e@,
                    ),
                ),
            )
        } else {
            Some(
                ended(
                    w,
                    false,
                    WaitStatus::Failed,
                    Some("the window could not be walked: "@ + e@),
                ),
            )
        },
        Ok(d) => {
            let best = best_sightings(entity_views(d.entities@), w.select@);
            if w.until == Until::Disappears {
                if best.len() == 0 {
                    Some(ended(w, true, WaitStatus::Met, None))
                } else {
                    None
                }
            } else if best.len() > 1 {
                Some(
                    ended(
                        w,
                        false,
                        WaitStatus::Ambiguous,
                        Some(wait_ambiguity(best.len(), w.select@, best[0].tier)),
                    ),
                )
            } else if best.len() == 1 && (w.until == Until::Appears || best[0].entity.enabled) {
                Some(reached(w, d.scope@, best[0]))
            } else {
                None
            }
        },
    }
}

/// What to do after a look at the window, so many milliseconds after the wait
/// began.
pub open spec fn waited(w: Wait, walk: Result<Discovery, String>, elapsed_ms: u64, r: WaitNext) -> bool {
    match judged(w, walk) {
        Some(view) => r matches WaitNext::Done { result } && result@ == view,
        None => if elapsed_ms >= w.timeout_ms {
            r matches WaitNext::Done { result } && result@ == ended(
                w,
                false,
                WaitStatus::TimedOut,
                Some(timeout_text(w)),
            )
        } else {
            r == (WaitNext::Sleep { ms: w.poll_ms })
        },
    }
}

impl Wait {
    fn end(&self, ok: bool, status: WaitStatus, detail: Option<String>) -> (r: WaitNext)
        ensures
            r matches WaitNext::Done { result } && result@ == ended(
                *self,
                ok,
                status,
                optional(detail),
            ),
    {
        WaitNext::Done {
            result: WaitResult {
                ok,
                status,
                until: self.until,
                polls: self.polls,
                scope: None,
                matched: None,
                matched_by: None,
                detail,
            },
        }
    }

    fn ambiguity_words(&self, count: usize, tier: MatchTier) -> (r: String)
        ensures
            r@ == wait_ambiguity(count as nat, self.select@, tier),
    {
        let mut out = write_decimal(count as u64);
        out.append(" elements match ");
        let what = self.select.describe();
        out.append(what.as_str());
        out.append(" at the ");
        out.append(tier.as_str());
        out.append(" tier. Add automation_id or control_type.");
        out
    }

    fn timeout_words(&self) -> (r: String)
        ensures
            r@ == timeout_text(*self),
    {
        let mut out = String::from_str("nothing satisfied `");
        out.append(self.until.as_str());
        out.append("` for ");
        let what = self.select.describe();
        out.append(what.as_str());
        out.append(" within ");
        let n = write_decimal(self.timeout_ms);
        out.append(n.as_str());
        out.append(" ms");
        out
    }

    /// Takes in a look at the window, so many milliseconds after the wait
    /// began, and says what to do.
    pub fn step(&mut self, walk: Result<Discovery, String>, elapsed_ms: u64) -> (r: WaitNext)
        requires
            old(self).polls < u32::MAX,
        ensures
            *final(self) == (Wait { polls: (old(self).polls + 1) as u32, ..*old(self) }),
            waited(*final(self), walk, elapsed_ms, r),
    {
        self.polls += 1;
        match walk {
            Err(e) => {
                if self.until == Until::Disappears {
                    let mut text = String::from_str(
                        "the window is no longer reachable, which satisfies `disappears`: ",
                    );
                    text.append(e.as_str());
                    return self.end(true, WaitStatus::Met, Some(text));
                }
                let mut text = String::from_str("the window could not be walked: ");
                text.append(e.as_str());
                return self.end(false, WaitStatus::Failed, Some(text));
            },
            Ok(d) => {
                let mut best = resolve_entities(d.entities.as_slice(), &self.select);
                let ghost seen = best_sightings(entity_views(d.entities@), self.select@);
                assert(pair_views(best@).len() == best@.len());
                let n: usize = best.len();
                if self.until == Until::Disappears {
                    if n == 0 {
                        return self.end(true, WaitStatus::Met, None);
                    }
                } else if n > 1 {
                    assert(seen[0].tier == best@[0].1);
                    let text = self.ambiguity_words(n, best[0].1);
                    return self.end(false, WaitStatus::Ambiguous, Some(text));
                } else if n == 1 && (self.until == Until::Appears || best[0].0.enabled) {
                    assert(seen[0] == (Sighting { entity: best@[0].0@, tier: best@[0].1 }));
                    let (entity, tier) = best.remove(0);
                    return WaitNext::Done {
                        result: WaitResult {
                            ok: true,
                            status: WaitStatus::Met,
                            until: self.until,
                            polls: self.polls,
                            scope: Some(d.scope),
                            matched: Some(entity),
                            matched_by: Some(tier),
                            detail: None,
                        },
                    };
                } else {
                    assert(n == 1 ==> seen[0].entity == best@[0].0@);
                }
            },
        }
        if elapsed_ms >= self.timeout_ms {
            let text = self.timeout_words();
            return self.end(false, WaitStatus::TimedOut, Some(text));
        }
        WaitNext::Sleep { ms: self.poll_ms }
    }
}

} // verus!
