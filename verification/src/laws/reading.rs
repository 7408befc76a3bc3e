//! Reading the screen, and clicking what was read.

use vstd::prelude::*;
use crate::capture::ScreenChange;
use crate::chars::{decimal, occurs, occurs_at, signed_decimal, trim, white};
use crate::foreign::{lowercase, nfkc, quoted};
use crate::guard::refusal_text;
use crate::ocr::{
    all_answers, answers, box_placed, extent, find_text, fold_confusables, from_line, from_lines,
    gather, glyph, glyphs, hull, line_match, marked_words, match_at, match_views, matches_text,
    query_view, read_tier, reads, reads_as, region_of_interest, words_reading, FindArgs, Marks,
    OcrError, OcrLine, TextMatch, TextMatchView, TextResult,
};
use crate::server::fallback::{
    after_settling, best_matches, change_text, loose_text, next_move, point_text, Fallback,
    FallbackView, Move, MoveView, Phase, Reading, Report,
};
use crate::text::{
    capped, collapsed, fragment_tier, lemma_word_len, word_len, words, MatchTier,
};
use crate::uia::act::{ActResult, ActResultView, ResolvedBy, Status};
use crate::uia::{half_of, Bounds};
use super::discovery::{has_ink, is_middle, lemma_ink};
use super::labels::law_the_best_hits_keep_their_order;

verus! {

/// Folding is done once and for all.
pub proof fn law_folding_glyphs_is_idempotent(s: Seq<char>)
    ensures
        glyphs(glyphs(s)) == glyphs(s),
{
    assert forall|i: int| 0 <= i < s.len() implies glyph(glyph(#[trigger] s[i])) == glyph(
        s[i],
    ) by {
        lemma_glyph(s[i]);
    }
    assert(glyphs(glyphs(s)) =~= glyphs(s));
}

proof fn lemma_glyph(c: char)
    ensures
        glyph(glyph(c)) == glyph(c),
{
    let g = glyph(c);
    assert(!('A' <= g <= 'Z'));
}

/// What is on screen can be asked for as it is: a text that differs from the
/// query, in lower case, only in glyphs that OCR cannot tell apart is found.
pub proof fn law_confusable_text_is_found(haystack: Seq<char>, query: Seq<char>)
    requires
        glyphs(haystack) == glyphs(lowercase(trim(query))),
    ensures
        read_tier(haystack, query) is Some,
{
    let h = glyphs(haystack);
    assert(h.subrange(0, h.len() as int) =~= h);
    assert(occurs_at(h, h, 0));
}

/// Matching ignores case: needles that agree in lower case find the same texts,
/// and a text is found by any needle that agrees with it in lower case.
pub proof fn law_matching_ignores_case(haystack: Seq<char>, a: Seq<char>, b: Seq<char>)
    requires
        lowercase(a) == lowercase(b),
    ensures
        reads_as(haystack, lowercase(haystack), lowercase(a)) == reads_as(
            haystack,
            lowercase(haystack),
            lowercase(b),
        ),
        reads_as(a, lowercase(a), lowercase(b)),
{
    let l = lowercase(a);
    assert(l.subrange(0, l.len() as int) =~= l);
    assert(occurs_at(l, l, 0));
}

/// Reading is restricted to the window: a pixel of the picture is in the region
/// exactly when it is in the window, also where the window reaches over an edge
/// of the picture.
pub proof fn law_the_region_is_the_window(offset: int, size: int, picture: int, at: int)
    ensures
        ({
            let (start, len) = extent(offset, size, picture);
            start <= at < start + len <==> 0 <= at < picture && offset <= at < offset + size
        }),
{
}

/// A clean read is never called a confused one: the loosest tier is reported
/// only where the ladder of labels finds nothing.
pub proof fn law_a_clean_read_is_reported_as_one(haystack: Seq<char>, query: Seq<char>)
    ensures
        fragment_tier(haystack, query) is Some ==> read_tier(haystack, query) == fragment_tier(
            haystack,
            query,
        ),
        read_tier(haystack, query) == Some(MatchTier::Confusable) ==> fragment_tier(
            haystack,
            query,
        ) is None && reads_as(haystack, lowercase(haystack), lowercase(trim(query))),
{
}

/// Without a query every line that holds a word comes back, as one match.
pub proof fn law_without_a_query_every_line_answers(line: OcrLine, origin: (i32, i32))
    requires
        line.words@.len() > 0,
    ensures
        answers(line, None, origin).len() == 1,
        answers(line, None, origin) == line_match(line, origin, MatchTier::Exact),
        answers(line, None, origin)[0].text == line.text@,
{
}

/// No more matches come back than were asked for.
pub proof fn law_the_match_cap_holds(
    lines: Seq<OcrLine>,
    query: Option<Seq<char>>,
    origin: (i32, i32),
    max: nat,
)
    ensures
        capped(all_answers(lines, query, origin), max).len() <= max,
        all_answers(lines, query, origin).len() <= max ==> capped(
            all_answers(lines, query, origin),
            max,
        ) == all_answers(lines, query, origin),
{
}

/// Clicking where a match says hits its text: the centre lies inside the box
/// that was read.
pub proof fn law_the_click_point_lies_on_the_text(
    text: Seq<char>,
    b: Bounds,
    origin: (i32, i32),
    granularity: Seq<char>,
    tier: MatchTier,
)
    requires
        box_placed(b, origin),
        b.w > 0,
        b.h > 0,
    ensures
        ({
            let m = match_at(text, b, origin, granularity, tier);
            &&& m.x == origin.0 + b.x && m.y == origin.1 + b.y
            &&& m.x <= m.click_at.0 < m.x + b.w
            &&& m.y <= m.click_at.1 < m.y + b.h
        }),
{
}

// Clicking what was read

/// An attempt, and the moves it has made.
pub struct Attempt {
    pub state: FallbackView,
    pub moves: Seq<MoveView>,
}

/// An attempt taken through some reports; `None` when one of them does not
/// answer what was asked.
pub open spec fn attempt(f: FallbackView, reports: Seq<Report>) -> Option<Attempt>
    decreases reports.len(),
{
    if reports.len() == 0 {
        Some(Attempt { state: f, moves: seq![] })
    } else {
        match attempt(f, reports.drop_last()) {
            None => None,
            Some(a) => match next_move(a.state, reports.last()) {
                None => None,
                Some(o) => Some(Attempt { state: o.0, moves: a.moves.push(o.1) }),
            },
        }
    }
}

/// How many of the moves are clicks.
pub open spec fn clicks(moves: Seq<MoveView>) -> nat
    decreases moves.len(),
{
    if moves.len() == 0 {
        0
    } else {
        clicks(moves.drop_last()) + (if moves.last() is Click {
            1nat
        } else {
            0
        })
    }
}

spec fn tallied(a: Attempt) -> bool {
    let p = a.state.phase;
    &&& p == Phase::Read || p == Phase::Stop || p == Phase::Baseline ==> clicks(a.moves) == 0
    &&& p == Phase::Click || p == Phase::Settle ==> clicks(a.moves) == 1
    &&& p == Phase::Done ==> a.moves.len() > 0 && (a.moves.last() matches MoveView::Done { result } && {
        &&& clicks(a.moves) <= 1
        &&& result.ok == (result.status == Status::Acted)
        &&& result.ok ==> clicks(a.moves) == 1
        &&& !result.ok && result.status != Status::Error ==> clicks(a.moves) == 0
    })
}

proof fn lemma_tallied(f: FallbackView, reports: Seq<Report>)
    requires
        f.phase == Phase::Read,
        attempt(f, reports) is Some,
    ensures
        tallied(attempt(f, reports)->0),
    decreases reports.len(),
{
    if reports.len() > 0 {
        lemma_tallied(f, reports.drop_last());
        let a = attempt(f, reports.drop_last())->0;
        let o = next_move(a.state, reports.last())->0;
        assert(a.moves.push(o.1).drop_last() =~= a.moves);
        assert(a.moves.push(o.1).last() == o.1);
    }
}

/// The screen is clicked once at the most.
pub proof fn law_the_screen_is_clicked_at_most_once(f: FallbackView, reports: Seq<Report>)
    requires
        f.phase == Phase::Read,
        attempt(f, reports) is Some,
    ensures
        clicks((attempt(f, reports)->0).moves) <= 1,
{
    lemma_tallied(f, reports);
}

/// Success means that a click was sent; absent, ambiguous, unsupported and
/// stopped mean that none was.
pub proof fn law_a_refused_reading_clicks_nothing(
    f: FallbackView,
    reports: Seq<Report>,
    result: ActResultView,
)
    requires
        f.phase == Phase::Read,
        attempt(f, reports) matches Some(a) && a.moves.len() > 0 && a.moves.last()
            == (MoveView::Done { result }),
    ensures
        ({
            let moves = (attempt(f, reports)->0).moves;
            &&& result.ok == (result.status == Status::Acted)
            &&& result.ok ==> clicks(moves) == 1
            &&& !result.ok && result.status != Status::Error ==> clicks(moves) == 0
        }),
{
    lemma_tallied(f, reports);
    if reports.len() > 0 {
        let a = attempt(f, reports.drop_last())->0;
        let o = next_move(a.state, reports.last())->0;
        assert(a.moves.push(o.1).last() == o.1);
    }
}

/// What an attempt knows before it clicks: it read one piece of text that no
/// other beats, and remembers where.
spec fn aimed(f: FallbackView, state: FallbackView, reports: Seq<Report>) -> bool {
    &&& state.action == f.action
    &&& state.phase == Phase::Stop || state.phase == Phase::Baseline || state.phase == Phase::Click ==> {
        &&& f.action == "click"@
        &&& exists|i: int|
            0 <= i < reports.len() && #[trigger] aims(reports[i], state.at)
    }
    &&& state.phase == Phase::Baseline || state.phase == Phase::Click ==> reports.contains(
        (Report::Stop { engaged: false }),
    )
}

/// A reading with one best match, at that point.
pub open spec fn aims(report: Report, at: (i32, i32)) -> bool {
    report matches Report::Read { reading: Reading::Text(res) } && {
        let best = best_matches(crate::ocr::match_views(res.matches@));
        best.len() == 1 && best[0].click_at == at
    }
}

proof fn lemma_aimed(f: FallbackView, reports: Seq<Report>)
    requires
        f.phase == Phase::Read,
        attempt(f, reports) is Some,
    ensures
        aimed(f, (attempt(f, reports)->0).state, reports),
    decreases reports.len(),
{
    if reports.len() > 0 {
        let before = reports.drop_last();
        lemma_aimed(f, before);
        let a = attempt(f, before)->0;
        let last = reports.last();
        let o = next_move(a.state, last)->0;
        let now = (attempt(f, reports)->0).state;
        assert(now == o.0);
        let n = reports.len() - 1;
        assert(reports[n] == last);
        if a.state.phase == Phase::Stop || a.state.phase == Phase::Baseline || a.state.phase
            == Phase::Click {
            let i = choose|i: int| 0 <= i < before.len() && #[trigger] aims(before[i], a.state.at);
            assert(before[i] == reports[i]);
            assert(aims(reports[i], now.at));
        } else if a.state.phase == Phase::Read && o.0.phase == Phase::Stop {
            assert(aims(reports[n], now.at));
        }
        if a.state.phase == Phase::Stop && o.0.phase == Phase::Baseline {
            assert(last == (Report::Stop { engaged: false }));
        }
        if before.contains((Report::Stop { engaged: false })) {
            let i = choose|i: int|
                0 <= i < before.len() && before[i] == (Report::Stop { engaged: false });
            assert(reports[i] == before[i]);
        }
    }
}

/// A click goes where one piece of text was read, asked for as a click, and
/// only after the emergency stop was found not to be engaged.
pub proof fn law_a_click_is_aimed_and_not_stopped(
    f: FallbackView,
    reports: Seq<Report>,
    x: i32,
    y: i32,
)
    requires
        f.phase == Phase::Read,
        attempt(f, reports) matches Some(a) && a.moves.len() > 0 && a.moves.last()
            == (MoveView::Click { x, y }),
    ensures
        f.action == "click"@,
        reports.contains((Report::Stop { engaged: false })),
        exists|i: int| 0 <= i < reports.len() && #[trigger] aims(reports[i], (x, y)),
{
    lemma_aimed(f, reports);
    if reports.len() > 0 {
        let a = attempt(f, reports.drop_last())->0;
        let o = next_move(a.state, reports.last())->0;
        assert(a.moves.push(o.1).last() == o.1);
    }
}

// What a query finds

proof fn lemma_words_need_ink(s: Seq<char>)
    ensures
        words(s).len() > 0 <==> has_ink(s),
    decreases s.len(),
{
    if s.len() > 0 {
        if white(s.first()) {
            let r = s.drop_first();
            lemma_words_need_ink(r);
            if has_ink(r) {
                let i = choose|i: int| 0 <= i < r.len() && !white(#[trigger] r[i]);
                assert(s[i + 1] == r[i]);
            }
            if has_ink(s) {
                let i = choose|i: int| 0 <= i < s.len() && !white(#[trigger] s[i]);
                assert(r[i - 1] == s[i]);
            }
        } else {
            lemma_word_len(s);
            assert(!white(s[0]));
        }
    }
}

/// White space stands between two characters that are none.
pub open spec fn is_phrase(s: Seq<char>) -> bool {
    exists|i: int, j: int, k: int|
        0 <= i < j < k < s.len() && !white(#[trigger] s[i]) && white(#[trigger] s[j]) && !white(
            #[trigger] s[k],
        )
}

proof fn lemma_phrase(s: Seq<char>)
    ensures
        words(s).len() > 1 <==> is_phrase(s),
    decreases s.len(),
{
    if s.len() > 0 {
        if white(s.first()) {
            let r = s.drop_first();
            lemma_phrase(r);
            if is_phrase(r) {
                let (i, j, k) = choose|i: int, j: int, k: int|
                    0 <= i < j < k < r.len() && !white(#[trigger] r[i]) && white(#[trigger] r[j])
                        && !white(#[trigger] r[k]);
                assert(!white(s[i + 1]) && white(s[j + 1]) && !white(s[k + 1]));
            }
            if is_phrase(s) {
                let (i, j, k) = choose|i: int, j: int, k: int|
                    0 <= i < j < k < s.len() && !white(#[trigger] s[i]) && white(#[trigger] s[j])
                        && !white(#[trigger] s[k]);
                assert(!white(r[i - 1]) && white(r[j - 1]) && !white(r[k - 1]));
            }
        } else {
            lemma_word_len(s);
            let n = word_len(s) as int;
            let rest = s.skip(n);
            lemma_words_need_ink(rest);
            if has_ink(rest) {
                let k = choose|k: int| 0 <= k < rest.len() && !white(#[trigger] rest[k]);
                assert(rest[k] == s[n + k]);
                assert(white(s[n]));
                assert(k > 0);
                assert(!white(s[0]) && white(s[n]) && !white(s[n + k]));
            }
            if is_phrase(s) {
                let (i, j, k) = choose|i: int, j: int, k: int|
                    0 <= i < j < k < s.len() && !white(#[trigger] s[i]) && white(#[trigger] s[j])
                        && !white(#[trigger] s[k]);
                assert(n <= j);
                assert(rest[k - n] == s[k]);
            }
        }
    }
}

/// A match says that text, in that box of a picture that starts at `origin`: its
/// corner in screen coordinates, its size, and the middle to click at.
pub open spec fn says(
    m: TextMatchView,
    text: Seq<char>,
    b: Bounds,
    origin: (i32, i32),
    granularity: Seq<char>,
    tier: MatchTier,
) -> bool {
    &&& m.text == text
    &&& m.granularity == granularity
    &&& m.matched_by == tier
    &&& m.x == origin.0 + b.x && m.y == origin.1 + b.y
    &&& m.w == b.w && m.h == b.h
    &&& is_middle(m.click_at.0 as int, m.x as int, m.x + b.w)
    &&& is_middle(m.click_at.1 as int, m.y as int, m.y + b.h)
}

/// The box of a line: it starts where the first word does and is as wide as the
/// line; its top is the higher, and its height the greater, of those of the
/// first word and the last.
pub open spec fn is_line_box(b: Bounds, line: OcrLine) -> bool {
    let first = line.words@.first().bounds;
    let last = line.words@.last().bounds;
    &&& b.x == first.x && b.w == line.span
    &&& b.y <= first.y && b.y <= last.y && (b.y == first.y || b.y == last.y)
    &&& b.h >= first.h && b.h >= last.h && (b.h == first.h || b.h == last.h)
}

/// A phrase is found in its line, however many words it has: where the trimmed
/// query stands in the text of a line as it is, that line answers with one exact
/// match, which is the line with the box of the line.
pub proof fn law_a_phrase_is_found_in_its_line(
    line: OcrLine,
    query: Seq<char>,
    origin: (i32, i32),
)
    requires
        line.wf(origin),
        line.words@.len() > 0,
        is_phrase(lowercase(trim(query))),
        has_ink(query),
        occurs(line.text@, trim(query)),
    ensures
        answers(line, Some(query), origin).len() == 1,
        exists|b: Bounds| #[trigger]
            is_line_box(b, line) && says(
                answers(line, Some(query), origin)[0],
                line.text@,
                b,
                origin,
                "line"@,
                MatchTier::Exact,
            ),
{
    lemma_phrase(lowercase(trim(query)));
    lemma_ink(query);
    assert(is_line_box(hull(line), line));
}

/// A phrase that cannot be read in a line finds nothing there, and one that can
/// be read finds the line, once, at the tier at which it reads.
pub proof fn law_a_phrase_finds_the_line_or_nothing(
    line: OcrLine,
    query: Seq<char>,
    origin: (i32, i32),
)
    requires
        line.wf(origin),
        is_phrase(lowercase(trim(query))),
    ensures
        line.words@.len() == 0 || read_tier(line.text@, query) is None ==> answers(
            line,
            Some(query),
            origin,
        ).len() == 0,
        line.words@.len() > 0 && read_tier(line.text@, query) is Some ==> answers(
            line,
            Some(query),
            origin,
        ).len() == 1 && exists|b: Bounds| #[trigger]
            is_line_box(b, line) && says(
                answers(line, Some(query), origin)[0],
                line.text@,
                b,
                origin,
                "line"@,
                read_tier(line.text@, query)->0,
            ),
{
    lemma_phrase(lowercase(trim(query)));
    let (i, j, k) = choose|i: int, j: int, k: int|
        0 <= i < j < k < lowercase(trim(query)).len() && !white(
            #[trigger] lowercase(trim(query))[i],
        ) && white(#[trigger] lowercase(trim(query))[j]) && !white(
            #[trigger] lowercase(trim(query))[k],
        );
    if line.words@.len() > 0 {
        assert(is_line_box(hull(line), line));
    }
}

/// Match `m` is word `j` of the line, at the tier at which the query reads in it.
pub open spec fn is_word_match(
    m: TextMatchView,
    line: OcrLine,
    j: int,
    query: Seq<char>,
    origin: (i32, i32),
) -> bool {
    &&& 0 <= j < line.words@.len()
    &&& read_tier(line.words@[j].text@, query) matches Some(t) && says(
        m,
        line.words@[j].text@,
        line.words@[j].bounds,
        origin,
        "word"@,
        t,
    )
}

proof fn lemma_word_matches(line: OcrLine, query: Seq<char>, origin: (i32, i32), n: nat) -> (at: Seq<
    int,
>)
    requires
        line.wf(origin),
        n <= line.words@.len(),
    ensures
        at.len() == words_reading(line, query, origin, n).len(),
        forall|k: int|
            0 <= k < at.len() ==> 0 <= #[trigger] at[k] < n && is_word_match(
                words_reading(line, query, origin, n)[k],
                line,
                at[k],
                query,
                origin,
            ),
        forall|k: int, m: int| 0 <= k < m < at.len() ==> #[trigger] at[k] < #[trigger] at[m],
        forall|j: int|
            0 <= j < n && read_tier((#[trigger] line.words@[j]).text@, query) is Some
                ==> at.contains(j),
    decreases n,
{
    if n == 0 {
        seq![]
    } else {
        let less = (n - 1) as nat;
        let before = lemma_word_matches(line, query, origin, less);
        let all = words_reading(line, query, origin, n);
        let word = line.words@[n - 1];
        assert(box_placed(word.bounds, origin));
        if read_tier(word.text@, query) is Some {
            let at = before.push(n - 1);
            assert forall|j: int|
                0 <= j < n && read_tier((#[trigger] line.words@[j]).text@, query) is Some implies at.contains(
                j,
            ) by {
                if j < less {
                    assert(before.contains(j));
                    let k = choose|k: int| 0 <= k < before.len() && before[k] == j;
                    assert(at[k] == j);
                } else {
                    assert(at[before.len() as int] == j);
                }
            }
            at
        } else {
            before
        }
    }
}

/// A single word is looked for in the words of a line: the answers are exactly
/// the words in which it reads, in order, each with its own box.
pub proof fn law_a_word_is_found_in_the_words(
    line: OcrLine,
    query: Seq<char>,
    origin: (i32, i32),
) -> (at: Seq<int>)
    requires
        line.wf(origin),
        lowercase(trim(query)).len() > 0,
        !is_phrase(lowercase(trim(query))),
    ensures
        at.len() == answers(line, Some(query), origin).len(),
        forall|k: int|
            0 <= k < at.len() ==> is_word_match(
                answers(line, Some(query), origin)[k],
                line,
                #[trigger] at[k],
                query,
                origin,
            ),
        forall|k: int, m: int| 0 <= k < m < at.len() ==> #[trigger] at[k] < #[trigger] at[m],
        forall|j: int|
            0 <= j < line.words@.len() && read_tier((#[trigger] line.words@[j]).text@, query)
                is Some ==> at.contains(j),
{
    lemma_phrase(lowercase(trim(query)));
    lemma_word_matches(line, query, origin, line.words@.len())
}

/// Without a query, or with one of nothing but white space that stays empty in
/// lower case, every line that holds a word answers as a whole.
pub proof fn law_an_empty_query_lists_the_lines(
    line: OcrLine,
    query: Option<Seq<char>>,
    origin: (i32, i32),
)
    requires
        line.wf(origin),
        query matches Some(q) ==> lowercase(trim(q)).len() == 0,
    ensures
        line.words@.len() == 0 ==> answers(line, query, origin).len() == 0,
        line.words@.len() > 0 ==> answers(line, query, origin).len() == 1 && exists|b: Bounds|
            #[trigger] is_line_box(b, line) && says(
                answers(line, query, origin)[0],
                line.text@,
                b,
                origin,
                "line"@,
                MatchTier::Exact,
            ),
{
    if line.words@.len() > 0 {
        assert(is_line_box(hull(line), line));
    }
}

/// Lines answer one after the other: what some lines and then some more have to
/// say is what the ones say and then what the others do.
pub proof fn law_lines_answer_one_after_the_other(
    a: Seq<OcrLine>,
    b: Seq<OcrLine>,
    line: OcrLine,
    query: Option<Seq<char>>,
    origin: (i32, i32),
)
    ensures
        all_answers(a + b, query, origin) == all_answers(a, query, origin) + all_answers(
            b,
            query,
            origin,
        ),
        all_answers(seq![line], query, origin) == answers(line, query, origin),
    decreases b.len(),
{
    assert(seq![line].drop_last() =~= seq![]);
    assert(all_answers(seq![line].drop_last(), query, origin) =~= seq![]);
    assert(all_answers(seq![line], query, origin) =~= answers(line, query, origin));
    if b.len() == 0 {
        assert(a + b =~= a);
        assert(all_answers(a, query, origin) + all_answers(b, query, origin) =~= all_answers(
            a,
            query,
            origin,
        ));
    } else {
        law_lines_answer_one_after_the_other(a, b.drop_last(), line, query, origin);
        assert((a + b).drop_last() =~= a + b.drop_last());
        assert(all_answers(a + b, query, origin) =~= all_answers(a, query, origin) + all_answers(
            b,
            query,
            origin,
        ));
    }
}

/// A search returns the first answers, as many as were asked for and there are,
/// and reports how many lines there were and in which language they were read.
pub proof fn law_a_search_returns_the_first_answers(
    lines: &[OcrLine],
    origin: (i32, i32),
    language: String,
    available: Vec<String>,
    args: FindArgs<'_>,
    r: TextResult,
)
    requires
        call_ensures(find_text, (lines, origin, language, available, &args), r),
    ensures
        ({
            let query = match args.query {
                Some(q) => Some(q@),
                None => None,
            };
            let all = all_answers(lines@, query, origin);
            &&& r.matches@.len() <= args.max_matches && r.matches@.len() <= all.len()
            &&& r.matches@.len() == args.max_matches || r.matches@.len() == all.len()
            &&& forall|k: int| 0 <= k < r.matches@.len() ==> (#[trigger] r.matches@[k])@ == all[k]
            &&& r.lines_seen == lines@.len()
            &&& r.language == language
            &&& r.available_languages == available
        }),
{
    let vs = match_views(r.matches@);
    assert(vs.len() == r.matches@.len());
    assert forall|k: int| 0 <= k < r.matches@.len() implies (#[trigger] r.matches@[k])@
        == all_answers(lines@, query_view(args.query), origin)[k] by {
        assert(vs[k] == r.matches@[k]@);
    }
}

/// How much leniency a reading takes. It is exact where the trimmed query stands
/// in the text as it is; it takes case where it stands in the lowered text only,
/// and normalising where it stands in the normal form only; below that the
/// glyphs that a reader confuses are taken for each other.
pub proof fn law_a_reading_takes_no_more_leniency_than_it_needs(h: Seq<char>, q: Seq<char>)
    ensures
        ({
            let exact = has_ink(q) && occurs(h, trim(q));
            let case = has_ink(q) && occurs(lowercase(trim(h)), lowercase(trim(q)));
            let normal = has_ink(q) && occurs(
                lowercase(collapsed(nfkc(h))),
                lowercase(collapsed(nfkc(q))),
            );
            let confused = occurs(lowercase(h), lowercase(trim(q))) || occurs(
                glyphs(h),
                glyphs(lowercase(trim(q))),
            );
            read_tier(h, q) == (if exact {
                Some(MatchTier::Exact)
            } else if case {
                Some(MatchTier::Case)
            } else if normal {
                Some(MatchTier::Normalized)
            } else if confused {
                Some(MatchTier::Confusable)
            } else {
                None
            })
        }),
{
    lemma_ink(q);
}

/// The characters of one group of glyphs that a reader takes for each other.
pub open spec fn one_group(c: char, d: char, group: Seq<char>) -> bool {
    group.contains(c) && group.contains(d)
}

/// Two characters that a reader takes for each other: the same letter in either
/// case, or two of `i l 1 |`, of `o 0`, of `s 5`, of `b 8`, of `z 2` or of `g 9`.
pub open spec fn confused(c: char, d: char) -> bool {
    ||| c == d
    ||| 'A' <= c <= 'Z' && d as int == c as int + 32
    ||| 'A' <= d <= 'Z' && c as int == d as int + 32
    ||| one_group(c, d, seq!['i', 'I', 'l', 'L', '1', '|'])
    ||| one_group(c, d, seq!['o', 'O', '0'])
    ||| one_group(c, d, seq!['s', 'S', '5'])
    ||| one_group(c, d, seq!['b', 'B', '8'])
    ||| one_group(c, d, seq!['z', 'Z', '2'])
    ||| one_group(c, d, seq!['g', 'G', '9'])
}

proof fn lemma_six(c: char, a: Seq<char>)
    requires
        a.len() == 6,
    ensures
        a.contains(c) <==> c == a[0] || c == a[1] || c == a[2] || c == a[3] || c == a[4] || c
            == a[5],
{
    if a.contains(c) {
        let i = choose|i: int| 0 <= i < a.len() && a[i] == c;
        assert(i == 0 || i == 1 || i == 2 || i == 3 || i == 4 || i == 5);
    }
}

proof fn lemma_three(c: char, a: Seq<char>)
    requires
        a.len() == 3,
    ensures
        a.contains(c) <==> c == a[0] || c == a[1] || c == a[2],
{
    if a.contains(c) {
        let i = choose|i: int| 0 <= i < a.len() && a[i] == c;
        assert(i == 0 || i == 1 || i == 2);
    }
}

proof fn lemma_groups(c: char)
    ensures
        seq!['i', 'I', 'l', 'L', '1', '|'].contains(c) <==> glyph(c) == '1',
        seq!['o', 'O', '0'].contains(c) <==> glyph(c) == '0',
        seq!['s', 'S', '5'].contains(c) <==> glyph(c) == '5',
        seq!['b', 'B', '8'].contains(c) <==> glyph(c) == '8',
        seq!['z', 'Z', '2'].contains(c) <==> glyph(c) == '2',
        seq!['g', 'G', '9'].contains(c) <==> glyph(c) == '9',
{
    lemma_six(c, seq!['i', 'I', 'l', 'L', '1', '|']);
    lemma_three(c, seq!['o', 'O', '0']);
    lemma_three(c, seq!['s', 'S', '5']);
    lemma_three(c, seq!['b', 'B', '8']);
    lemma_three(c, seq!['z', 'Z', '2']);
    lemma_three(c, seq!['g', 'G', '9']);
}

/// Two texts fold to the same glyphs exactly when they differ only in characters
/// that a reader takes for each other.
pub proof fn law_only_confusable_glyphs_are_folded(a: Seq<char>, b: Seq<char>)
    ensures
        glyphs(a) == glyphs(b) <==> a.len() == b.len() && forall|i: int|
            0 <= i < a.len() ==> confused(#[trigger] a[i], b[i]),
{
    let x = glyphs(a);
    let y = glyphs(b);
    assert(x.len() == a.len() && y.len() == b.len());
    assert forall|i: int| 0 <= i < a.len() && 0 <= i < b.len() implies (x[i] == y[i] <==> confused(
        #[trigger] a[i],
        b[i],
    )) by {
        assert(x[i] == glyph(a[i]) && y[i] == glyph(b[i]));
        lemma_groups(a[i]);
        lemma_groups(b[i]);
    }
    if x == y {
        assert forall|i: int| 0 <= i < a.len() implies confused(#[trigger] a[i], b[i]) by {
            assert(x[i] == y[i]);
        }
    }
    if a.len() == b.len() && forall|i: int| 0 <= i < a.len() ==> confused(#[trigger] a[i], b[i]) {
        assert forall|i: int| 0 <= i < a.len() implies x[i] == y[i] by {
            assert(confused(a[i], b[i]));
        }
        assert(x =~= y);
    }
}

/// Reading is restricted to the window: a pixel of the picture is read exactly
/// when it lies in the rectangle of the window, and a window none of whose
/// pixels is in the picture is refused.
pub proof fn law_a_region_holds_the_pixels_of_its_window(
    hwnd: isize,
    b: Bounds,
    origin: (i32, i32),
    picture: (u32, u32),
    r: Result<(u32, u32, u32, u32), OcrError>,
    px: int,
    py: int,
)
    requires
        call_ensures(region_of_interest, (hwnd, b, origin, picture), r),
    ensures
        ({
            let inside = 0 <= px < picture.0 && 0 <= py < picture.1 && b.x <= origin.0 + px < b.x
                + b.w && b.y <= origin.1 + py < b.y + b.h;
            match r {
                Ok((x, y, w, h)) => inside <==> x <= px < x + w && y <= py < y + h,
                Err(e) => !inside && e == (OcrError::NoArea { hwnd }),
            }
        }),
{
}

// The second attempt

/// A second attempt begins with what the first one aimed at and how, and reads
/// the screen for the query, for eight matches at the most.
pub proof fn law_a_second_attempt_reads_for_the_query(
    query: String,
    first: ActResult,
    r: (Fallback, Move),
)
    requires
        call_ensures(Fallback::start, (query, &first), r),
    ensures
        r.0@.query == query@,
        r.0@.action == first.action@,
        r.0@.target == first.target@,
        r.0@.phase == Phase::Read,
        r.1@ == (MoveView::Read { query: query@, max_matches: 8 }),
{
}

/// Each step of an attempt is a step of its course: a report that answers what
/// was asked leads on, and any other changes nothing.
pub proof fn law_an_attempt_goes_step_by_step(f: Fallback, report: Report, r: (Fallback, Option<Move>))
    requires
        call_ensures(Fallback::step, (f, report), r),
    ensures
        match r.1 {
            Some(m) => next_move(f@, report) == Some((r.0@, m@)),
            None => next_move(f@, report) is None && r.0@ == f@,
        },
{
}

/// Match `k` of what was read is matched as tightly as any.
pub open spec fn reads_best(res: TextResult, k: int) -> bool {
    &&& 0 <= k < res.matches@.len()
    &&& forall|j: int|
        0 <= j < res.matches@.len() ==> res.matches@[k].matched_by.rank() <= (
        #[trigger] res.matches@[j]).matched_by.rank()
}

proof fn lemma_reads_best(res: TextResult) -> (at: Seq<int>)
    ensures
        ({
            let best = best_matches(match_views(res.matches@));
            &&& at.len() == best.len()
            &&& best.len() == 0 <==> res.matches@.len() == 0
            &&& forall|k: int|
                0 <= k < at.len() ==> reads_best(res, #[trigger] at[k]) && best[k]
                    == res.matches@[at[k]]@
            &&& forall|k: int, m: int| 0 <= k < m < at.len() ==> #[trigger] at[k] < #[trigger] at[m]
            &&& forall|i: int| #[trigger] reads_best(res, i) ==> at.contains(i)
        }),
{
    let ms = match_views(res.matches@);
    let tiers = ms.map_values(|m: TextMatchView| m.matched_by);
    assert(forall|i: int| 0 <= i < ms.len() ==> #[trigger] ms[i] == res.matches@[i]@);
    if ms.len() == 0 {
        assert(best_matches(ms).len() == 0);
        Seq::<int>::empty()
    } else {
        let at = law_the_best_hits_keep_their_order(ms, tiers);
        assert forall|i: int| 0 <= i < ms.len() implies (reads_best(res, i) <==> at.contains(i)) by {
            if at.contains(i) {
                assert forall|j: int|
                    0 <= j < res.matches@.len() implies res.matches@[i].matched_by.rank() <= (
                #[trigger] res.matches@[j]).matched_by.rank() by {
                    assert(tiers[i].rank() <= tiers[j].rank());
                    assert(ms[i] == res.matches@[i]@ && ms[j] == res.matches@[j]@);
                }
            }
            if reads_best(res, i) {
                assert forall|j: int| 0 <= j < ms.len() implies (#[trigger] tiers[i]).rank() <= (
                #[trigger] tiers[j]).rank() by {
                    assert(ms[i] == res.matches@[i]@ && ms[j] == res.matches@[j]@);
                    assert(res.matches@[j].matched_by.rank() >= res.matches@[i].matched_by.rank());
                }
            }
        }
        assert forall|k: int| 0 <= k < at.len() implies reads_best(res, #[trigger] at[k])
            && best_matches(ms)[k] == res.matches@[at[k]]@ by {
            assert(at.contains(at[k]));
            assert(ms[at[k]] == res.matches@[at[k]]@);
        }
        at
    }
}

/// The attempt ended without success, and says so under that status.
pub open spec fn gave_up(m: MoveView, f: FallbackView, status: Status) -> bool {
    m matches MoveView::Done { result } && !result.ok && result.status == status && result.action
        == f.action && result.target == f.target && result.resolved_by == ResolvedBy::Ocr
        && result.matched_by is None && result.screen_changed is None && result.next_scope is None
}

/// Exactly one match was read best.
pub open spec fn reads_one(res: TextResult, k: int) -> bool {
    reads_best(res, k) && forall|j: int| #[trigger] reads_best(res, j) ==> j == k
}

/// Before a second attempt clicks, everything that speaks against it ends it: a
/// reading that failed, nothing read, several matches that are as good, an action
/// other than a click, and the emergency stop. Nothing else does.
pub proof fn law_each_report_has_its_consequence(f: FallbackView, reports: Seq<Report>, k: int)
    requires
        f.phase == Phase::Read,
        attempt(f, reports) is Some,
        reports.len() > 0,
    ensures
        ({
            let m = (attempt(f, reports)->0).moves.last();
            match reports.last() {
                Report::Read { reading } => match reading {
                    Reading::Failed(_) => gave_up(m, f, Status::Error),
                    Reading::Lost(_) => gave_up(m, f, Status::Error),
                    Reading::Text(res) => {
                        &&& res.matches@.len() == 0 ==> gave_up(m, f, Status::NotFound)
                        &&& reads_best(res, k) && !reads_one(res, k) ==> gave_up(
                            m,
                            f,
                            Status::Ambiguous,
                        )
                        &&& reads_one(res, k) && f.action != "click"@ ==> gave_up(
                            m,
                            f,
                            Status::PatternGone,
                        )
                        &&& reads_one(res, k) && f.action == "click"@ ==> m is CheckStop
                    },
                },
                Report::Stop { engaged } => {
                    &&& engaged ==> gave_up(m, f, Status::Stopped)
                    &&& !engaged ==> m is Baseline
                },
                Report::Baseline => m is Click,
                Report::Clicked { click } => {
                    &&& click is Ok ==> m == (MoveView::Settle { ms: 250 })
                    &&& click is Err ==> gave_up(m, f, Status::Error)
                },
                Report::Settled { changed, .. } => m matches MoveView::Done { result } && result.ok
                    && result.status == Status::Acted && result.action == f.action
                    && result.resolved_by == ResolvedBy::Ocr && result.screen_changed == changed
                    && result.matched_by is Some && result.detail is Some && result.next_scope
                    is None,
            }
        }),
{
    let before = reports.drop_last();
    lemma_keeps(f, before);
    let a = attempt(f, before)->0;
    let o = next_move(a.state, reports.last())->0;
    assert(a.moves.push(o.1).last() == o.1);
    if reports.last() is Read && reports.last()->reading is Text {
        let res = reports.last()->reading->Text_0;
        let at = lemma_reads_best(res);
        if at.len() > 1 {
            assert(at[0] < at[1]);
            assert(reads_best(res, at[0]) && reads_best(res, at[1]));
        }
        if at.len() == 1 {
            assert(reads_best(res, at[0]));
            assert forall|j: int| #[trigger] reads_best(res, j) implies j == at[0] by {
                assert(at.contains(j));
            }
        }
        if reads_best(res, k) {
            assert(at.contains(k));
        }
    }
}

proof fn lemma_keeps(f: FallbackView, reports: Seq<Report>)
    requires
        attempt(f, reports) is Some,
    ensures
        (attempt(f, reports)->0).state.action == f.action,
        (attempt(f, reports)->0).state.target == f.target,
        (attempt(f, reports)->0).state.query == f.query,
    decreases reports.len(),
{
    if reports.len() > 0 {
        lemma_keeps(f, reports.drop_last());
    }
}

/// What was read, and where, is what an attempt goes by from then on.
spec fn holds_what_was_read(state: FallbackView, reports: Seq<Report>) -> bool {
    state.phase == Phase::Stop || state.phase == Phase::Baseline || state.phase == Phase::Click
        || state.phase == Phase::Settle ==> exists|i: int|
        0 <= i < reports.len() && #[trigger] gave(reports[i], state.text, state.at, state.tier)
}

/// The report is a reading in which one match was best: that text, to be clicked
/// there, at that tier.
pub open spec fn gave(report: Report, text: Seq<char>, at: (i32, i32), tier: MatchTier) -> bool {
    report matches Report::Read { reading: Reading::Text(res) } && exists|k: int| #[trigger]
        reads_one(res, k) && res.matches@[k].text@ == text && res.matches@[k].click_at == at
            && res.matches@[k].matched_by == tier
}

proof fn lemma_holds(f: FallbackView, reports: Seq<Report>)
    requires
        f.phase == Phase::Read,
        attempt(f, reports) is Some,
    ensures
        holds_what_was_read((attempt(f, reports)->0).state, reports),
    decreases reports.len(),
{
    if reports.len() > 0 {
        let before = reports.drop_last();
        lemma_holds(f, before);
        let a = attempt(f, before)->0;
        let o = next_move(a.state, reports.last())->0;
        let now = (attempt(f, reports)->0).state;
        assert(now == o.0);
        let n = reports.len() - 1;
        assert(reports[n] == reports.last());
        if a.state.phase == Phase::Read && now.phase == Phase::Stop {
            let res = reports.last()->reading->Text_0;
            let at = lemma_reads_best(res);
            assert(at.len() == 1);
            assert(reads_best(res, at[0]));
            assert forall|j: int| #[trigger] reads_best(res, j) implies j == at[0] by {
                assert(at.contains(j));
            }
            assert(reads_one(res, at[0]));
            assert(gave(reports[n], now.text, now.at, now.tier));
        } else if a.state.phase == Phase::Stop || a.state.phase == Phase::Baseline || a.state.phase
            == Phase::Click || a.state.phase == Phase::Settle {
            let i = choose|i: int|
                0 <= i < before.len() && #[trigger] gave(
                    before[i],
                    a.state.text,
                    a.state.at,
                    a.state.tier,
                );
            assert(reports[i] == before[i]);
            assert(gave(reports[i], now.text, now.at, now.tier));
        }
    }
}

/// Some reading gave that point for its one best match.
pub open spec fn was_read_at(reports: Seq<Report>, at: (i32, i32)) -> bool {
    exists|i: int, k: int|
        0 <= i < reports.len() && is_best_of(#[trigger] reports[i], k) && #[trigger] read_match(
            reports[i],
            k,
        ).click_at == at
}

/// Some reading gave that text for its one best match, at that tier.
pub open spec fn was_read_as(reports: Seq<Report>, text: Seq<char>, tier: MatchTier) -> bool {
    exists|i: int, k: int|
        0 <= i < reports.len() && is_best_of(#[trigger] reports[i], k) && #[trigger] read_match(
            reports[i],
            k,
        ).text == text && read_match(reports[i], k).matched_by == tier
}

/// The report is a reading whose one best match is number `k`.
pub open spec fn is_best_of(report: Report, k: int) -> bool {
    report matches Report::Read { reading: Reading::Text(res) } && reads_one(res, k)
}

/// Match `k` of a reading.
pub open spec fn read_match(report: Report, k: int) -> TextMatchView {
    (report->reading->Text_0).matches@[k]@
}

/// What is clicked is the one best match that was read, at the point that came
/// with it; and a success names that text and that tier.
pub proof fn law_what_was_read_is_what_is_clicked(f: FallbackView, reports: Seq<Report>)
    requires
        f.phase == Phase::Read,
        attempt(f, reports) is Some,
        reports.len() > 0,
    ensures
        (attempt(f, reports)->0).moves.last() matches MoveView::Click { x, y } ==> was_read_at(
            reports,
            (x, y),
        ),
        (attempt(f, reports)->0).moves.last() matches MoveView::Done { result } ==> result.ok
            ==> result.matched_by is Some && was_read_as(
            reports,
            result.target,
            result.matched_by->0,
        ),
{
    let before = reports.drop_last();
    lemma_holds(f, before);
    let a = attempt(f, before)->0;
    let o = next_move(a.state, reports.last())->0;
    assert(a.moves.push(o.1).last() == o.1);
    if a.state.phase == Phase::Baseline || a.state.phase == Phase::Settle {
        let i = choose|i: int|
            0 <= i < before.len() && #[trigger] gave(
                before[i],
                a.state.text,
                a.state.at,
                a.state.tier,
            );
        assert(reports[i] == before[i]);
        let res = reports[i]->reading->Text_0;
        let k = choose|k: int| #[trigger]
            reads_one(res, k) && res.matches@[k].text@ == a.state.text && res.matches@[k].click_at
                == a.state.at && res.matches@[k].matched_by == a.state.tier;
        assert(is_best_of(reports[i], k));
        assert(read_match(reports[i], k).click_at == a.state.at);
        assert(was_read_at(reports, a.state.at));
        assert(read_match(reports[i], k).text == a.state.text);
        assert(was_read_as(reports, a.state.text, a.state.tier));
    }
}

/// Matching part of a text ignores case and the glyphs that a reader confuses,
/// and nothing else.
pub proof fn law_part_of_a_text_is_matched(haystack: &str, needle: &str, r: bool)
    requires
        call_ensures(matches_text, (haystack, needle), r),
    ensures
        r <==> occurs(lowercase(haystack@), lowercase(needle@)) || occurs(
            glyphs(haystack@),
            glyphs(lowercase(needle@)),
        ),
{
}

/// A success says where was clicked and what was read there, whether the reading
/// took leniency, and what the screen did afterwards.
pub proof fn law_a_clicked_reading_says_so(
    f: FallbackView,
    changed: Option<ScreenChange>,
    share: Seq<char>,
)
    ensures
        after_settling(f, changed, share).1 matches MoveView::Done { result } && result.detail
            == Some(
            "not in the UI tree; clicked the screen at ("@ + signed_decimal(f.at.0 as int) + ","@
                + signed_decimal(f.at.1 as int) + ")"@ + " where OCR read "@ + quoted(f.text)
                + ". No control pattern was involved, so this reports that the click was sent, not that the application handled it -"@
                + (if f.tier.rank() <= 1 {
                seq![]
            } else {
                " The text was matched at the "@ + f.tier.label()
                    + " tier rather than read back verbatim,"@
            }) + " "@ + (match changed {
                Some(c) => "the screen then changed over "@ + share + "% of its area at ("@
                    + signed_decimal(c.x as int) + ","@ + signed_decimal(c.y as int) + ") "@
                    + decimal(c.w as nat) + "x"@ + decimal(c.h as nat),
                None => "the screen did NOT change afterwards - the click most likely missed, though a control already in the requested state would look the same"@,
            }) + "."@,
        ),
{
    let head = "not in the UI tree; clicked the screen at "@;
    reveal_strlit("not in the UI tree; clicked the screen at ");
    reveal_strlit("not in the UI tree; clicked the screen at (");
    reveal_strlit("(");
    reveal_strlit(")");
    reveal_strlit(") ");
    reveal_strlit(" ");
    reveal_strlit("% of its area at ");
    reveal_strlit("% of its area at (");
    assert("not in the UI tree; clicked the screen at ("@ =~= head + "("@);
    assert("% of its area at ("@ =~= "% of its area at "@ + "("@);
    assert(") "@ =~= ")"@ + " "@);
    let said = after_settling(f, changed, share).1->result.detail->0;
    let point = point_text(f.at.0, f.at.1);
    let loose = if f.tier.rank() <= 1 {
        seq![]
    } else {
        " The text was matched at the "@ + f.tier.label()
            + " tier rather than read back verbatim,"@
    };
    assert(loose == loose_text(f.tier));
    match changed {
        Some(c) => {
            let one = "the screen then changed over "@ + share + "% of its area at ("@
                + signed_decimal(c.x as int) + ","@ + signed_decimal(c.y as int) + ") "@ + decimal(
                c.w as nat,
            ) + "x"@ + decimal(c.h as nat);
            assert(one =~= change_text(changed, share));
        },
        None => {},
    }
    let whole = "not in the UI tree; clicked the screen at ("@ + signed_decimal(f.at.0 as int) + ","@
        + signed_decimal(f.at.1 as int) + ")"@ + " where OCR read "@ + quoted(f.text)
        + ". No control pattern was involved, so this reports that the click was sent, not that the application handled it -"@
        + loose + " "@ + change_text(changed, share) + "."@;
    assert(whole =~= said);
}

/// An attempt that is given up says why: what was looked for, how often it was
/// read or in how many lines it was not, what is possible on text that was read,
/// and what failed.
pub proof fn law_an_attempt_that_is_given_up_says_why(
    f: FallbackView,
    reports: Seq<Report>,
    result: ActResultView,
    text: Seq<char>,
)
    requires
        f.phase == Phase::Read,
        attempt(f, reports) is Some,
        reports.len() > 0,
        (attempt(f, reports)->0).moves.last() == (MoveView::Done { result }),
        !result.ok,
        result.detail == Some(text),
    ensures
        match reports.last() {
            Report::Read { reading } => match reading {
                Reading::Failed(e) => text == "not in the UI tree, and OCR failed: "@ + e@,
                Reading::Lost(e) => text == "OCR task failed: "@ + e@,
                Reading::Text(res) => {
                    let n = best_matches(match_views(res.matches@)).len();
                    &&& n == 0 ==> text == quoted(f.query)
                        + " is neither in the UI tree nor on screen ("@ + decimal(
                        res.lines_seen as nat,
                    ) + " lines read)"@
                    &&& n > 1 ==> text == quoted(f.query) + " appears "@ + decimal(n)
                        + " times on screen. OCR cannot disambiguate by role - narrow the query or use a UI-tree selector."@
                    &&& n == 1 ==> text == "OCR found "@ + quoted(f.query)
                        + " but only \"click\" is possible on a screen-read target - there is no control pattern to perform "@
                        + quoted(f.action)
                },
            },
            Report::Stop { .. } => text == refusal_text(),
            Report::Clicked { click } => click matches Err(e) && (exists|at: (i32, i32)|
                #[trigger] was_read_at(reports, at) && text == "OCR found "@ + quoted(f.query)
                    + " at "@ + point_text(at.0, at.1) + " but the click failed: "@ + e@),
            _ => false,
        },
{
    let before = reports.drop_last();
    lemma_keeps(f, before);
    lemma_holds(f, before);
    let a = attempt(f, before)->0;
    let o = next_move(a.state, reports.last())->0;
    assert(a.moves.push(o.1).last() == o.1);
    if a.state.phase == Phase::Click {
        let i = choose|i: int|
            0 <= i < before.len() && #[trigger] gave(
                before[i],
                a.state.text,
                a.state.at,
                a.state.tier,
            );
        assert(reports[i] == before[i]);
        let res = reports[i]->reading->Text_0;
        let k = choose|k: int| #[trigger]
            reads_one(res, k) && res.matches@[k].text@ == a.state.text && res.matches@[k].click_at
                == a.state.at && res.matches@[k].matched_by == a.state.tier;
        assert(is_best_of(reports[i], k));
        assert(read_match(reports[i], k).click_at == a.state.at);
        assert(was_read_at(reports, a.state.at));
    }
}

/// Half of a number is rounded towards zero.
pub proof fn law_half_is_rounded_towards_zero(v: i32, r: i32)
    requires
        call_ensures(half_of, (v,), r),
    ensures
        v >= 0 ==> 2 * r <= v < 2 * r + 2,
        v < 0 ==> 2 * r - 2 < v <= 2 * r,
{
}

/// What is marked is gathered line by line, the line before its words and the
/// words in order, up to the number asked for.
pub proof fn law_what_is_marked_is_gathered(
    lines: &[OcrLine],
    marks: &[Marks],
    origin: (i32, i32),
    max: usize,
    r: Vec<TextMatch>,
    k: int,
)
    requires
        call_ensures(gather, (lines, marks, origin, max), r),
        0 <= k < r@.len(),
    ensures
        r@.len() <= max,
        r@.len() < max ==> r@.len() == from_lines(lines@, marks@, origin).len(),
        r@[k]@ == from_lines(lines@, marks@, origin)[k],
{
    assert(match_views(r@)[k] == r@[k]@);
    assert(match_views(r@).len() == r@.len());
}

/// A marked line that holds a word contributes itself first, and then each of its
/// marked words where it stands.
pub proof fn law_a_marked_line_comes_before_its_words(
    line: OcrLine,
    marks: Marks,
    origin: (i32, i32),
    n: nat,
)
    requires
        line.wf(origin),
        0 < n <= marks.words@.len() <= line.words@.len(),
    ensures
        ({
            let all = from_line(line, marks, origin);
            let own: int = if marks.line is Some {
                1
            } else {
                0
            };
            &&& all.skip(own) == marked_words(line, marks, origin, marks.words@.len())
            &&& marks.line matches Some(t) ==> all.len() > 0 && exists|b: Bounds| #[trigger]
                is_line_box(b, line) && says(all[0], line.text@, b, origin, "line"@, t)
        }),
        ({
            let upto = marked_words(line, marks, origin, n);
            let before = marked_words(line, marks, origin, (n - 1) as nat);
            match marks.words@[n - 1] {
                Some(t) => upto.len() == before.len() + 1 && upto.drop_last() == before && says(
                    upto.last(),
                    line.words@[n - 1].text@,
                    line.words@[n - 1].bounds,
                    origin,
                    "word"@,
                    t,
                ),
                None => upto == before,
            }
        }),
        marked_words(line, marks, origin, 0).len() == 0,
{
    let all = from_line(line, marks, origin);
    let ws = marked_words(line, marks, origin, marks.words@.len());
    if marks.line is Some {
        assert(all.skip(1) =~= ws);
        assert(is_line_box(hull(line), line));
    } else {
        assert(all.skip(0) =~= ws);
    }
    let upto = marked_words(line, marks, origin, n);
    let before = marked_words(line, marks, origin, (n - 1) as nat);
    assert(box_placed(line.words@[n - 1].bounds, origin));
    if marks.words@[n - 1] is Some {
        assert(upto.drop_last() =~= before);
    }
}

/// Lines contribute one after the other.
pub proof fn law_marked_lines_come_in_order(
    lines: Seq<OcrLine>,
    marks: Seq<Marks>,
    origin: (i32, i32),
    line: OcrLine,
)
    requires
        lines.len() < marks.len(),
    ensures
        from_lines(lines.push(line), marks, origin) == from_lines(lines, marks, origin)
            + from_line(line, marks[lines.len() as int], origin),
        from_lines(seq![], marks, origin).len() == 0,
{
    assert(lines.push(line).drop_last() =~= lines);
}

/// Glyphs are folded one by one, and a fragment is part of a text if it is part of
/// it in lower case or once the glyphs of both are folded.
pub proof fn law_glyphs_are_folded_one_by_one(
    s: &str,
    folded: String,
    lowered: &str,
    needle: &str,
    r: bool,
    i: int,
)
    requires
        call_ensures(fold_confusables, (s,), folded),
        call_ensures(reads, (s, lowered, needle), r),
        0 <= i < s@.len(),
    ensures
        folded@.len() == s@.len(),
        folded@[i] == glyph(s@[i]),
        r <==> occurs(lowered@, needle@) || occurs(folded@, glyphs(needle@)),
{
}

} // verus!
