//! A second attempt for an application that exposes no UI tree: read the
//! screen, and click what was read.
//!
//! Kept apart from acting on a control on purpose: folding it in would blur the
//! line between "acted on a control" and "clicked a pixel", a distinction that
//! the caller has to be able to see in the result.
//!
//! [`Fallback`] decides; each [`Move`] says what is to be done next, and the
//! [`Report`] handed back says what came of it.

use vstd::prelude::*;
use vstd::string::*;
use crate::capture::ScreenChange;
use crate::chars::{decimal, same_text, signed_decimal, write_decimal, write_signed};
use crate::foreign::{quoted, to_quoted};
use crate::guard::{refusal, refusal_text};
use crate::ocr::{match_views, TextMatch, TextMatchView, TextResult};
use crate::text::{at_rank, best_of, best_rank, keep_best, tiers_of, MatchTier};
use crate::uia::act::{ActResult, ActResultView, ResolvedBy, Status};

verus! {

/// How many matches are read at most.
pub const MAX_READ: usize = 8;

/// How long to wait between a click at a coordinate and the picture that
/// confirms it: long enough for a repaint, short enough not to catch an
/// unrelated animation.
pub const SETTLE_MS: u64 = 250;

/// What is to be done next.
#[derive(Debug)]
pub enum Move {
    /// Read the query off the whole screen.
    Read { query: String, max_matches: usize },
    /// Say whether the emergency stop is engaged. Asked immediately before the
    /// input and not only at entry: reading takes long enough for someone to
    /// reach for the corner.
    CheckStop,
    /// Take a picture of the screen to compare with, as late as possible.
    Baseline,
    /// Click at a screen coordinate.
    Click { x: i32, y: i32 },
    /// Wait so many milliseconds, and compare the screen with the picture.
    Settle { ms: u64 },
    /// Nothing more.
    Done { result: ActResult },
}

/// What a [`Move`] says.
pub enum MoveView {
    Read { query: Seq<char>, max_matches: usize },
    CheckStop,
    Baseline,
    Click { x: i32, y: i32 },
    Settle { ms: u64 },
    Done { result: ActResultView },
}

impl View for Move {
    type V = MoveView;

    open spec fn view(&self) -> MoveView {
        match *self {
            Move::Read { query, max_matches } => MoveView::Read { query: query@, max_matches },
            Move::CheckStop => MoveView::CheckStop,
            Move::Baseline => MoveView::Baseline,
            Move::Click { x, y } => MoveView::Click { x, y },
            Move::Settle { ms } => MoveView::Settle { ms },
            Move::Done { result } => MoveView::Done { result: result@ },
        }
    }
}

/// What came of reading the screen.
#[derive(Debug)]
pub enum Reading {
    Text(TextResult),
    /// The recogniser failed, for that reason.
    Failed(String),
    /// The task that ran it failed, for that reason.
    Lost(String),
}

/// What is reported back.
#[derive(Debug)]
pub enum Report {
    Read { reading: Reading },
    Stop { engaged: bool },
    /// A picture was taken, or could not be.
    Baseline,
    Clicked { click: Result<(), String> },
    /// What the screen did; `None` when it did not change, or when there is
    /// nothing to compare.
    Settled {
        changed: Option<ScreenChange>,
        /// The share of the screen that changed, in percent with two decimals.
        share: String,
    },
}

/// How far it has come: what it is waiting to hear.
#[derive(Debug, Clone, Copy, PartialEq, Eq, Structural)]
pub enum Phase {
    Read,
    Stop,
    Baseline,
    Click,
    Settle,
    Done,
}

/// A second attempt under way.
#[derive(Debug)]
pub struct Fallback {
    query: String,
    action: String,
    /// What the first attempt aimed at.
    target: String,
    phase: Phase,
    /// What was read, and where.
    text: String,
    at: (i32, i32),
    tier: MatchTier,
}

/// What a [`Fallback`] holds.
pub struct FallbackView {
    pub query: Seq<char>,
    pub action: Seq<char>,
    pub target: Seq<char>,
    pub phase: Phase,
    pub text: Seq<char>,
    pub at: (i32, i32),
    pub tier: MatchTier,
}

impl View for Fallback {
    type V = FallbackView;

    closed spec fn view(&self) -> FallbackView {
        FallbackView {
            query: self.query@,
            action: self.action@,
            target: self.target@,
            phase: self.phase,
            text: self.text@,
            at: self.at,
            tier: self.tier,
        }
    }
}

// What each report leads to

/// The result of an attempt that did not click.
pub open spec fn failed(f: FallbackView, status: Status, detail: Seq<char>) -> (
    FallbackView,
    MoveView,
) {
    (
        FallbackView { phase: Phase::Done, ..f },
        MoveView::Done {
            result: ActResultView {
                ok: false,
                action: f.action,
                status,
                target: f.target,
                resolved_by: ResolvedBy::Ocr,
                matched_by: None,
                next_scope: None,
                detail: Some(detail),
                screen_changed: None,
            },
        },
    )
}

/// The matches that no other beats. This needs exactly one target, so a clean
/// read outranks one that survived only by folding glyphs.
pub open spec fn best_matches(ms: Seq<TextMatchView>) -> Seq<TextMatchView> {
    best_of(ms, ms.map_values(|m: TextMatchView| m.matched_by))
}

/// A point of the screen in words.
pub open spec fn point_text(x: i32, y: i32) -> Seq<char> {
    "("@ + signed_decimal(x as int) + ","@ + signed_decimal(y as int) + ")"@
}

/// The screen has been read. A reading that failed says nothing about the
/// target, so it is not reported as an absent one.
pub open spec fn after_reading(f: FallbackView, reading: Reading) -> (FallbackView, MoveView) {
    match reading {
        Reading::Failed(e) => failed(
            f,
            Status::Error,
            "not in the UI tree, and OCR failed: "@ + e@,
        ),
        Reading::Lost(e) => failed(f, Status::Error, "OCR task failed: "@ + e@),
        Reading::Text(res) => {
            let best = best_matches(match_views(res.matches@));
            if best.len() == 0 {
                failed(
                    f,
                    Status::NotFound,
                    quoted(f.query) + " is neither in the UI tree nor on screen ("@ + decimal(
                        res.lines_seen as nat,
                    ) + " lines read)"@,
                )
            } else if best.len() > 1 {
                failed(
                    f,
                    Status::Ambiguous,
                    quoted(f.query) + " appears "@ + decimal(best.len())
                        + " times on screen. OCR cannot disambiguate by role - narrow the query or use a UI-tree selector."@,
                )
            } else if f.action != "click"@ {
                failed(
                    f,
                    Status::PatternGone,
                    "OCR found "@ + quoted(f.query)
                        + " but only \"click\" is possible on a screen-read target - there is no control pattern to perform "@
                        + quoted(f.action),
                )
            } else {
                (
                    FallbackView {
                        phase: Phase::Stop,
                        text: best[0].text,
                        at: best[0].click_at,
                        tier: best[0].matched_by,
                        ..f
                    },
                    MoveView::CheckStop,
                )
            }
        },
    }
}

/// The click was sent, or was not.
pub open spec fn after_click(f: FallbackView, click: Result<(), String>) -> (
    FallbackView,
    MoveView,
) {
    match click {
        Err(e) => failed(
            f,
            Status::Error,
            "OCR found "@ + quoted(f.query) + " at "@ + point_text(f.at.0, f.at.1)
                + " but the click failed: "@ + e@,
        ),
        Ok(_) => (FallbackView { phase: Phase::Settle, ..f }, MoveView::Settle { ms: SETTLE_MS }),
    }
}

/// A loose read is worth saying out loud: the caller asked for one string, and
/// a different one, judged equivalent, was clicked.
pub open spec fn loose_text(tier: MatchTier) -> Seq<char> {
    if tier == MatchTier::Exact || tier == MatchTier::Case {
        seq![]
    } else {
        " The text was matched at the "@ + tier.label() + " tier rather than read back verbatim,"@
    }
}

/// What the screen did after the click.
pub open spec fn change_text(changed: Option<ScreenChange>, share: Seq<char>) -> Seq<char> {
    match changed {
        Some(c) => "the screen then changed over "@ + share + "% of its area at "@ + point_text(c.x, c.y) + " "@ + decimal(c.w as nat) + "x"@
            + decimal(c.h as nat),
        None => "the screen did NOT change afterwards - the click most likely missed, though a control already in the requested state would look the same"@,
    }
}

/// The click was sent and the screen has been compared.
pub open spec fn after_settling(
    f: FallbackView,
    changed: Option<ScreenChange>,
    share: Seq<char>,
) -> (FallbackView, MoveView) {
    (
        FallbackView { phase: Phase::Done, ..f },
        MoveView::Done {
            result: ActResultView {
                ok: true,
                action: f.action,
                status: Status::Acted,
                target: f.text,
                resolved_by: ResolvedBy::Ocr,
                matched_by: Some(f.tier),
                next_scope: None,
                detail: Some(
                    "not in the UI tree; clicked the screen at "@ + point_text(f.at.0, f.at.1)
                        + " where OCR read "@ + quoted(f.text)
                        + ". No control pattern was involved, so this reports that the click was sent, not that the application handled it -"@
                        + loose_text(f.tier) + " "@ + change_text(changed, share) + "."@,
                ),
                screen_changed: changed,
            },
        },
    )
}

/// What a report leads to; `None` for one that does not answer what was asked.
pub open spec fn next_move(f: FallbackView, report: Report) -> Option<(FallbackView, MoveView)> {
    match (f.phase, report) {
        (Phase::Read, Report::Read { reading }) => Some(after_reading(f, reading)),
        (Phase::Stop, Report::Stop { engaged }) => Some(
            if engaged {
                failed(f, Status::Stopped, refusal_text())
            } else {
                (FallbackView { phase: Phase::Baseline, ..f }, MoveView::Baseline)
            },
        ),
        (Phase::Baseline, Report::Baseline) => Some(
            (
                FallbackView { phase: Phase::Click, ..f },
                MoveView::Click { x: f.at.0, y: f.at.1 },
            ),
        ),
        (Phase::Click, Report::Clicked { click }) => Some(after_click(f, click)),
        (Phase::Settle, Report::Settled { changed, share }) => Some(
            after_settling(f, changed, share@),
        ),
        _ => None,
    }
}

/// `r` is the outcome `o`.
pub open spec fn is_move(r: (Fallback, Option<Move>), o: (FallbackView, MoveView)) -> bool {
    &&& r.0@ == o.0
    &&& r.1 matches Some(m)
    &&& m@ == o.1
}

proof fn lemma_rank_of_matches(v: Seq<TextMatch>, tiers: Seq<MatchTier>, rank: nat)
    ensures
        match_views(at_rank(v, tiers, rank)) == at_rank(match_views(v), tiers, rank),
    decreases v.len(),
{
    if v.len() > 0 {
        lemma_rank_of_matches(v.drop_last(), tiers, rank);
        assert(match_views(v).drop_last() =~= match_views(v.drop_last()));
    }
    assert(match_views(at_rank(v, tiers, rank)) =~= at_rank(match_views(v), tiers, rank));
}

fn keep_best_matches(matches: &mut Vec<TextMatch>)
    ensures
        match_views(final(matches)@) == best_matches(match_views(old(matches)@)),
{
    let ghost before = matches@;
    let tier = |m: &TextMatch| -> (t: MatchTier)
        ensures
            t == m.matched_by,
        { m.matched_by };
    keep_best(matches, tier);
    proof {
        let tiers = choose|tiers: Seq<MatchTier>|
            tiers_of(tier, before, tiers) && matches@ == best_of(before, tiers);
        assert(tiers =~= match_views(before).map_values(|m: TextMatchView| m.matched_by));
        lemma_rank_of_matches(before, tiers, best_rank(tiers));
    }
}

fn append_point(out: &mut String, x: i32, y: i32)
    ensures
        final(out)@ == old(out)@ + point_text(x, y),
{
    let ghost head = out@;
    out.append("(");
    let a = write_signed(x as i64);
    out.append(a.as_str());
    out.append(",");
    let b = write_signed(y as i64);
    out.append(b.as_str());
    out.append(")");
    assert(out@ =~= head + point_text(x, y));
}

fn append_loose(out: &mut String, tier: MatchTier)
    ensures
        final(out)@ == old(out)@ + loose_text(tier),
{
    let ghost head = out@;
    if tier != MatchTier::Exact && tier != MatchTier::Case {
        out.append(" The text was matched at the ");
        out.append(tier.as_str());
        out.append(" tier rather than read back verbatim,");
    }
    assert(out@ =~= head + loose_text(tier));
}

fn append_change(out: &mut String, changed: Option<ScreenChange>, share: &str)
    ensures
        final(out)@ == old(out)@ + change_text(changed, share@),
{
    let ghost head = out@;
    match changed {
        Some(c) => {
            out.append("the screen then changed over ");
            out.append(share);
            out.append("% of its area at ");
            append_point(out, c.x, c.y);
            out.append(" ");
            let w = write_decimal(c.w as u64);
            out.append(w.as_str());
            out.append("x");
            let h = write_decimal(c.h as u64);
            out.append(h.as_str());
        },
        None => {
            out.append(
                "the screen did NOT change afterwards - the click most likely missed, though a control already in the requested state would look the same",
            );
        },
    }
    assert(out@ =~= head + change_text(changed, share@));
}

impl Fallback {
    /// A second attempt at an action whose target was not in the UI tree, by
    /// the text `query` on the screen.
    pub fn start(query: String, first: &ActResult) -> (r: (Fallback, Move))
        ensures
            r.0@.query == query@,
            r.0@.action == first@.action,
            r.0@.target == first@.target,
            r.0@.phase == Phase::Read,
            r.1@ == (MoveView::Read { query: query@, max_matches: MAX_READ }),
    {
        let read = Move::Read { query: query.clone(), max_matches: MAX_READ };
        let f = Fallback {
            query,
            action: first.action.clone(),
            target: first.target.clone(),
            phase: Phase::Read,
            text: String::new(),
            at: (0, 0),
            tier: MatchTier::Confusable,
        };
        (f, read)
    }

    fn fail(self, status: Status, detail: String) -> (r: (Fallback, Option<Move>))
        ensures
            is_move(r, failed(self@, status, detail@)),
    {
        let result = ActResult {
            ok: false,
            action: self.action.clone(),
            status,
            target: self.target.clone(),
            resolved_by: ResolvedBy::Ocr,
            matched_by: None,
            next_scope: None,
            detail: Some(detail),
            screen_changed: None,
        };
        (Fallback { phase: Phase::Done, ..self }, Some(Move::Done { result }))
    }

    fn take_reading(self, reading: Reading) -> (r: (Fallback, Option<Move>))
        ensures
            is_move(r, after_reading(self@, reading)),
    {
        let res = match reading {
            Reading::Failed(e) => {
                let mut text = String::from_str("not in the UI tree, and OCR failed: ");
                text.append(e.as_str());
                return self.fail(Status::Error, text);
            },
            Reading::Lost(e) => {
                let mut text = String::from_str("OCR task failed: ");
                text.append(e.as_str());
                return self.fail(Status::Error, text);
            },
            Reading::Text(res) => res,
        };
        let mut matches = res.matches;
        keep_best_matches(&mut matches);
        let ghost best = best_matches(match_views(res.matches@));
        assert(match_views(matches@).len() == matches@.len());
        let n: usize = matches.len();
        let q = to_quoted(self.query.as_str());
        if n == 0 {
            let mut text = q;
            text.append(" is neither in the UI tree nor on screen (");
            let lines = write_decimal(res.lines_seen as u64);
            text.append(lines.as_str());
            text.append(" lines read)");
            return self.fail(Status::NotFound, text);
        }
        if n > 1 {
            let mut text = q;
            text.append(" appears ");
            let count = write_decimal(n as u64);
            text.append(count.as_str());
            text.append(
                " times on screen. OCR cannot disambiguate by role - narrow the query or use a UI-tree selector.",
            );
            return self.fail(Status::Ambiguous, text);
        }
        if !same_text(self.action.as_str(), "click") {
            let mut text = String::from_str("OCR found ");
            text.append(q.as_str());
            text.append(
                " but only \"click\" is possible on a screen-read target - there is no control pattern to perform ",
            );
            let what = to_quoted(self.action.as_str());
            text.append(what.as_str());
            return self.fail(Status::PatternGone, text);
        }
        assert(best[0] == matches@[0]@);
        let m = matches.remove(0);
        (
            Fallback {
                phase: Phase::Stop,
                text: m.text,
                at: m.click_at,
                tier: m.matched_by,
                ..self
            },
            Some(Move::CheckStop),
        )
    }

    fn take_click(self, click: Result<(), String>) -> (r: (Fallback, Option<Move>))
        ensures
            is_move(r, after_click(self@, click)),
    {
        match click {
            Err(e) => {
                let mut text = String::from_str("OCR found ");
                let q = to_quoted(self.query.as_str());
                text.append(q.as_str());
                text.append(" at ");
                append_point(&mut text, self.at.0, self.at.1);
                text.append(" but the click failed: ");
                text.append(e.as_str());
                self.fail(Status::Error, text)
            },
            Ok(_) => (
                Fallback { phase: Phase::Settle, ..self },
                Some(Move::Settle { ms: SETTLE_MS }),
            ),
        }
    }

    fn settle(self, changed: Option<ScreenChange>, share: String) -> (r: (Fallback, Option<Move>))
        ensures
            is_move(r, after_settling(self@, changed, share@)),
    {
        let mut detail = String::from_str("not in the UI tree; clicked the screen at ");
        append_point(&mut detail, self.at.0, self.at.1);
        detail.append(" where OCR read ");
        let q = to_quoted(self.text.as_str());
        detail.append(q.as_str());
        detail.append(
            ". No control pattern was involved, so this reports that the click was sent, not that the application handled it -",
        );
        append_loose(&mut detail, self.tier);
        detail.append(" ");
        append_change(&mut detail, changed, share.as_str());
        detail.append(".");
        let result = ActResult {
            ok: true,
            action: self.action.clone(),
            status: Status::Acted,
            target: self.text.clone(),
            resolved_by: ResolvedBy::Ocr,
            matched_by: Some(self.tier),
            next_scope: None,
            detail: Some(detail),
            screen_changed: changed,
        };
        (Fallback { phase: Phase::Done, ..self }, Some(Move::Done { result }))
    }

    /// Takes in a report, and says what is to be done next. A report that does
    /// not answer what was asked changes nothing and leads to nothing.
    pub fn step(self, report: Report) -> (r: (Fallback, Option<Move>))
        ensures
            match next_move(self@, report) {
                Some(o) => is_move(r, o),
                None => r.0@ == self@ && r.1 is None,
            },
    {
        match (self.phase, report) {
            (Phase::Read, Report::Read { reading }) => self.take_reading(reading),
            (Phase::Stop, Report::Stop { engaged }) => if engaged {
                self.fail(Status::Stopped, refusal())
            } else {
                (Fallback { phase: Phase::Baseline, ..self }, Some(Move::Baseline))
            },
            (Phase::Baseline, Report::Baseline) => {
                let (x, y) = self.at;
                (Fallback { phase: Phase::Click, ..self }, Some(Move::Click { x, y }))
            },
            (Phase::Click, Report::Clicked { click }) => self.take_click(click),
            (Phase::Settle, Report::Settled { changed, share }) => self.settle(changed, share),
            _ => (self, None),
        }
    }
}

} // verus!
