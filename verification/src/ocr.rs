//! Text on screen, for applications that expose no UI tree.
//!
//! The recogniser is the operating system's; it hands over lines of words with
//! their boxes, brought back to the scale of the screen. Which of them answer a
//! query, and where to click, is decided here.

use vstd::prelude::*;
use vstd::string::*;
use crate::chars::{
    ascii_lower, contains_text, occurs, signed_decimal, to_ascii_lower, to_chars, trim,
    trimmed_text, write_signed,
};
use crate::foreign::{lowercase, to_lowercase};
use crate::text::{capped, contains_tier, fragment_tier, split_words, words, MatchTier};
use crate::uia::{half, half_of, Bounds};

verus! {

// Glyphs

/// Glyphs that OCR cannot reliably tell apart in UI fonts, folded to one
/// representative each.
pub open spec fn glyph(c: char) -> char {
    let l = ascii_lower(c);
    if l == 'i' || l == 'l' || l == '1' || l == '|' {
        '1'
    } else if l == 'o' || l == '0' {
        '0'
    } else if l == 's' || l == '5' {
        '5'
    } else if l == 'b' || l == '8' {
        '8'
    } else if l == 'z' || l == '2' {
        '2'
    } else if l == 'g' || l == '9' {
        '9'
    } else {
        l
    }
}

/// `s` with every glyph folded.
pub open spec fn glyphs(s: Seq<char>) -> Seq<char> {
    s.map_values(|c: char| glyph(c))
}

fn fold_glyph(c: char) -> (r: char)
    ensures
        r == glyph(c),
{
    let l = to_ascii_lower(c);
    match l {
        'i' | 'l' | '1' | '|' => '1',
        'o' | '0' => '0',
        's' | '5' => '5',
        'b' | '8' => '8',
        'z' | '2' => '2',
        'g' | '9' => '9',
        _ => l,
    }
}

/// Folds the glyphs that OCR cannot reliably tell apart.
///
/// This is a matching fix, not a recognition one: `1` and `I` are genuinely
/// near-identical in most UI typefaces, so `Steps (1)` comes back as
/// `Steps (I)` some of the time. Folding both sides means that a caller can ask
/// for what is on screen and still get a hit.
pub fn fold_confusables(s: &str) -> (r: String)
    ensures
        r@ == glyphs(s@),
{
    let v = to_chars(s);
    let mut out = String::new();
    for i in 0..v.len()
        invariant
            v@ == s@,
            out@ == glyphs(s@).take(i as int),
    {
        out.push(fold_glyph(v[i]));
    }
    assert(out@ =~= glyphs(s@));
    out
}

/// `needle` is part of the text, given the text in lower case, or is part of it
/// once the glyphs of both are folded.
pub open spec fn reads_as(haystack: Seq<char>, lowered: Seq<char>, needle: Seq<char>) -> bool {
    occurs(lowered, needle) || occurs(glyphs(haystack), glyphs(needle))
}

/// Whether `needle` is part of a text, given the text in lower case, tolerant of
/// the glyph confusions above.
pub fn reads(haystack: &str, lowered: &str, needle: &str) -> (r: bool)
    ensures
        r == reads_as(haystack@, lowered@, needle@),
{
    if contains_text(lowered, needle) {
        return true;
    }
    let h = fold_confusables(haystack);
    let n = fold_confusables(needle);
    contains_text(h.as_str(), n.as_str())
}

/// Case-insensitive substring, tolerant of the glyph confusions above.
pub fn matches_text(haystack: &str, needle: &str) -> (r: bool)
    ensures
        r == reads_as(haystack@, lowercase(haystack@), lowercase(needle@)),
{
    let lowered = to_lowercase(haystack);
    let wanted = to_lowercase(needle);
    reads(haystack, lowered.as_str(), wanted.as_str())
}

/// How much leniency it takes to read `query` in a text: the ladder of labels,
/// and below it the confusion of glyphs.
pub open spec fn read_tier(haystack: Seq<char>, query: Seq<char>) -> Option<MatchTier> {
    match fragment_tier(haystack, query) {
        Some(t) => Some(t),
        None => if reads_as(haystack, lowercase(haystack), lowercase(trim(query))) {
            Some(MatchTier::Confusable)
        } else {
            None
        },
    }
}

/// How much leniency it takes to read `query` in a text. `bare` is the query
/// trimmed.
fn tier_in(haystack: &str, query: &str, bare: &str) -> (r: Option<MatchTier>)
    requires
        bare@ == trim(query@),
    ensures
        r == read_tier(haystack@, query@),
{
    match contains_tier(haystack, query) {
        Some(t) => Some(t),
        None => if matches_text(haystack, bare) {
            Some(MatchTier::Confusable)
        } else {
            None
        },
    }
}

// What the recogniser hands over

/// A word and its box within the picture, in pixels of the screen.
#[derive(Debug)]
pub struct OcrWord {
    pub text: String,
    pub bounds: Bounds,
}

/// A line of words.
#[derive(Debug)]
pub struct OcrLine {
    pub text: String,
    pub words: Vec<OcrWord>,
    /// How far it is from the left edge of the first word to the right edge of
    /// the last one, in pixels of the screen.
    pub span: i32,
}

/// A box that starts at `start` and is `size` long has its start and its centre
/// on the screen when the picture starts at `origin`.
pub open spec fn placed(origin: int, start: int, size: int) -> bool {
    &&& i32::MIN <= origin + start <= i32::MAX
    &&& i32::MIN <= origin + start + half(size) <= i32::MAX
}

/// A box has its corner and its centre on the screen.
pub open spec fn box_placed(b: Bounds, origin: (i32, i32)) -> bool {
    placed(origin.0 as int, b.x as int, b.w as int) && placed(
        origin.1 as int,
        b.y as int,
        b.h as int,
    )
}

/// The box of a line: from its first word to its last, the higher top and the
/// greater height of the two.
pub open spec fn hull(line: OcrLine) -> Bounds {
    let a = line.words@[0].bounds;
    let b = line.words@[line.words@.len() - 1].bounds;
    Bounds {
        x: a.x,
        y: if b.y < a.y {
            b.y
        } else {
            a.y
        },
        w: line.span,
        h: if b.h > a.h {
            b.h
        } else {
            a.h
        },
    }
}

impl OcrLine {
    /// Every box of the line has its corner and its centre on the screen.
    pub open spec fn wf(self, origin: (i32, i32)) -> bool {
        &&& self.words@.len() > 0 ==> box_placed(hull(self), origin)
        &&& forall|i: int|
            0 <= i < self.words@.len() ==> box_placed((#[trigger] self.words@[i]).bounds, origin)
    }

    /// Whether every box of the line has its corner and its centre on the
    /// screen.
    pub fn is_wf(&self, origin: (i32, i32)) -> (r: bool)
        ensures
            r == self.wf(origin),
    {
        if self.words.len() > 0 && !is_placed(&line_box(self), origin) {
            return false;
        }
        for i in 0..self.words.len()
            invariant
                forall|j: int|
                    0 <= j < i ==> box_placed((#[trigger] self.words@[j]).bounds, origin),
        {
            if !is_placed(&self.words[i].bounds, origin) {
                return false;
            }
        }
        true
    }
}

fn line_box(line: &OcrLine) -> (r: Bounds)
    requires
        line.words@.len() > 0,
    ensures
        r == hull(*line),
{
    let a = line.words[0].bounds;
    let b = line.words[line.words.len() - 1].bounds;
    Bounds {
        x: a.x,
        y: if b.y < a.y {
            b.y
        } else {
            a.y
        },
        w: line.span,
        h: if b.h > a.h {
            b.h
        } else {
            a.h
        },
    }
}

fn is_on_axis(origin: i32, start: i32, size: i32) -> (r: bool)
    ensures
        r == placed(origin as int, start as int, size as int),
{
    let s: i64 = origin as i64 + start as i64;
    let c: i64 = s + half_of(size) as i64;
    i32::MIN as i64 <= s && s <= i32::MAX as i64 && i32::MIN as i64 <= c && c <= i32::MAX as i64
}

fn is_placed(b: &Bounds, origin: (i32, i32)) -> (r: bool)
    ensures
        r == box_placed(*b, origin),
{
    is_on_axis(origin.0, b.x, b.w) && is_on_axis(origin.1, b.y, b.h)
}

// Matches

/// A piece of text on the screen.
#[derive(Debug)]
pub struct TextMatch {
    pub text: String,
    /// Screen coordinates, directly usable as a click target.
    pub click_at: (i32, i32),
    pub x: i32,
    pub y: i32,
    pub w: i32,
    pub h: i32,
    /// "word" when a single token matched, "line" when the query spans words.
    pub granularity: String,
    /// How much leniency the match needed.
    pub matched_by: MatchTier,
}

/// What a [`TextMatch`] says.
pub struct TextMatchView {
    pub text: Seq<char>,
    pub click_at: (i32, i32),
    pub x: i32,
    pub y: i32,
    pub w: i32,
    pub h: i32,
    pub granularity: Seq<char>,
    pub matched_by: MatchTier,
}

impl View for TextMatch {
    type V = TextMatchView;

    open spec fn view(&self) -> TextMatchView {
        TextMatchView {
            text: self.text@,
            click_at: self.click_at,
            x: self.x,
            y: self.y,
            w: self.w,
            h: self.h,
            granularity: self.granularity@,
            matched_by: self.matched_by,
        }
    }
}

/// What some matches say.
pub open spec fn match_views(ms: Seq<TextMatch>) -> Seq<TextMatchView> {
    ms.map_values(|m: TextMatch| m@)
}

/// The text `text` in the box `b` of a picture that starts at `origin`.
pub open spec fn match_at(
    text: Seq<char>,
    b: Bounds,
    origin: (i32, i32),
    granularity: Seq<char>,
    tier: MatchTier,
) -> TextMatchView {
    TextMatchView {
        text,
        click_at: (
            (origin.0 + b.x + half(b.w as int)) as i32,
            (origin.1 + b.y + half(b.h as int)) as i32,
        ),
        x: (origin.0 + b.x) as i32,
        y: (origin.1 + b.y) as i32,
        w: b.w,
        h: b.h,
        granularity,
        matched_by: tier,
    }
}

fn make_match(text: &str, b: Bounds, origin: (i32, i32), granularity: &str, tier: MatchTier) -> (r:
    TextMatch)
    requires
        box_placed(b, origin),
    ensures
        r@ == match_at(text@, b, origin, granularity@, tier),
{
    let x: i32 = origin.0 + b.x;
    let y: i32 = origin.1 + b.y;
    TextMatch {
        text: String::from_str(text),
        click_at: (x + half_of(b.w), y + half_of(b.h)),
        x,
        y,
        w: b.w,
        h: b.h,
        granularity: String::from_str(granularity),
        matched_by: tier,
    }
}

/// At which tier each word of a line, and the line as a whole, answers a query.
#[derive(Debug)]
pub struct Marks {
    pub line: Option<MatchTier>,
    pub words: Vec<Option<MatchTier>>,
}

/// The first `n` words of a line that are marked.
pub open spec fn marked_words(line: OcrLine, marks: Marks, origin: (i32, i32), n: nat) -> Seq<
    TextMatchView,
>
    decreases n,
{
    if n == 0 {
        seq![]
    } else {
        let rest = marked_words(line, marks, origin, (n - 1) as nat);
        match marks.words@[n - 1] {
            Some(t) => rest.push(
                match_at(
                    line.words@[n - 1].text@,
                    line.words@[n - 1].bounds,
                    origin,
                    "word"@,
                    t,
                ),
            ),
            None => rest,
        }
    }
}

/// What a line contributes: itself, when it is marked and holds a word; and
/// each of its marked words.
pub open spec fn from_line(line: OcrLine, marks: Marks, origin: (i32, i32)) -> Seq<TextMatchView> {
    let whole = match marks.line {
        Some(t) if line.words@.len() > 0 => seq![
            match_at(line.text@, hull(line), origin, "line"@, t),
        ],
        _ => seq![],
    };
    whole + marked_words(line, marks, origin, marks.words@.len())
}

/// What the lines contribute, in order.
pub open spec fn from_lines(lines: Seq<OcrLine>, marks: Seq<Marks>, origin: (i32, i32)) -> Seq<
    TextMatchView,
>
    decreases lines.len(),
{
    if lines.len() == 0 {
        seq![]
    } else {
        from_lines(lines.drop_last(), marks, origin) + from_line(
            lines.last(),
            marks[lines.len() - 1],
            origin,
        )
    }
}

proof fn lemma_capped_prefix<T>(a: Seq<T>, b: Seq<T>, max: nat)
    requires
        a.len() >= max,
    ensures
        capped(a + b, max) == capped(a, max),
{
    assert(capped(a + b, max) =~= capped(a, max));
}

/// The text that is marked, at most `max` pieces of it, in reading order.
pub fn gather(lines: &[OcrLine], marks: &[Marks], origin: (i32, i32), max: usize) -> (r: Vec<
    TextMatch,
>)
    requires
        marks@.len() == lines@.len(),
        forall|i: int|
            #![trigger lines@[i]]
            #![trigger marks@[i]]
            0 <= i < lines@.len() ==> lines@[i].wf(origin) && marks@[i].words@.len()
                <= lines@[i].words@.len(),
    ensures
        match_views(r@) == capped(from_lines(lines@, marks@, origin), max as nat),
{
    let mut out: Vec<TextMatch> = Vec::new();
    let ghost all = from_lines(lines@, marks@, origin);
    assert(lines@.take(0) =~= Seq::<OcrLine>::empty());
    assert(match_views(out@) =~= capped(
        from_lines(lines@.take(0), marks@, origin),
        max as nat,
    ));
    for i in 0..lines.len()
        invariant
            marks@.len() == lines@.len(),
            forall|k: int|
                #![trigger lines@[k]]
                #![trigger marks@[k]]
                0 <= k < lines@.len() ==> lines@[k].wf(origin) && marks@[k].words@.len()
                    <= lines@[k].words@.len(),
            match_views(out@) == capped(
                from_lines(lines@.take(i as int), marks@, origin),
                max as nat,
            ),
    {
        let ghost before = from_lines(lines@.take(i as int), marks@, origin);
        let line = &lines[i];
        let mark = &marks[i];
        proof {
            assert(lines@.take(i + 1).drop_last() =~= lines@.take(i as int));
            assert(lines@.take(i + 1).last() == lines@[i as int]);
            if before.len() >= max {
                lemma_capped_prefix(before, from_line(*line, *mark, origin), max as nat);
            }
        }
        assert(match_views(out@).len() == out@.len());
        if out.len() < max {
            let ghost mut part: Seq<TextMatchView> = seq![];
            assert(before + part =~= before);
            if let Some(t) = mark.line {
                if line.words.len() > 0 {
                    let ghost earlier = out@;
                    let m = make_match(line.text.as_str(), line_box(line), origin, "line", t);
                    let ghost said = m@;
                    out.push(m);
                    proof {
                        part = seq![said];
                        assert(match_views(out@) =~= before + part);
                    }
                }
            }
            assert(match_views(out@) =~= capped(before + part, max as nat));
            let ghost whole = part;
            assert(whole + marked_words(*line, *mark, origin, 0) =~= part);
            for j in 0..mark.words.len()
                invariant
                    lines@[i as int] == *line,
                    line.wf(origin),
                    mark.words@.len() <= line.words@.len(),
                    part == whole + marked_words(*line, *mark, origin, j as nat),
                    match_views(out@) == capped(before + part, max as nat),
            {
                assert(match_views(out@).len() == out@.len());
                let ghost earlier = out@;
                let ghost was = part;
                if let Some(t) = mark.words[j] {
                    let ghost said = match_at(
                        line.words@[j as int].text@,
                        line.words@[j as int].bounds,
                        origin,
                        "word"@,
                        t,
                    );
                    proof {
                        part = part.push(said);
                        assert(before + part =~= (before + was).push(said));
                        assert(part =~= whole + marked_words(
                            *line,
                            *mark,
                            origin,
                            (j + 1) as nat,
                        ));
                    }
                    if out.len() < max {
                        let word = &line.words[j];
                        out.push(make_match(word.text.as_str(), word.bounds, origin, "word", t));
                        assert(match_views(out@) =~= match_views(earlier).push(said));
                    } else {
                        assert(capped(before + part, max as nat) =~= capped(
                            before + was,
                            max as nat,
                        ));
                    }
                }
            }
            assert(part == from_line(*line, *mark, origin));
        }
    }
    assert(lines@.take(lines@.len() as int) =~= lines@);
    out
}

// Queries

/// What is looked for: the query, trimmed and in lower case. Nothing stands for
/// everything.
pub open spec fn wanted(query: Option<Seq<char>>) -> Seq<char> {
    match query {
        Some(q) => lowercase(trim(q)),
        None => seq![],
    }
}

/// The first `n` words of a line in which the query can be read.
pub open spec fn words_reading(line: OcrLine, query: Seq<char>, origin: (i32, i32), n: nat) -> Seq<
    TextMatchView,
>
    decreases n,
{
    if n == 0 {
        seq![]
    } else {
        let rest = words_reading(line, query, origin, (n - 1) as nat);
        let word = line.words@[n - 1];
        match read_tier(word.text@, query) {
            Some(t) => rest.push(match_at(word.text@, word.bounds, origin, "word"@, t)),
            None => rest,
        }
    }
}

/// The line as one match, when it holds a word.
pub open spec fn line_match(line: OcrLine, origin: (i32, i32), tier: MatchTier) -> Seq<
    TextMatchView,
> {
    if line.words@.len() > 0 {
        seq![match_at(line.text@, hull(line), origin, "line"@, tier)]
    } else {
        seq![]
    }
}

/// What a line has to say to a query. Without a query every line answers. A
/// query of several words is matched against the line, because word boxes
/// cannot express a phrase. A single token is matched per word, which gives a
/// far tighter click target than the whole line.
pub open spec fn answers(line: OcrLine, query: Option<Seq<char>>, origin: (i32, i32)) -> Seq<
    TextMatchView,
> {
    if wanted(query).len() == 0 {
        line_match(line, origin, MatchTier::Exact)
    } else if words(wanted(query)).len() > 1 {
        match read_tier(line.text@, query->0) {
            Some(t) => line_match(line, origin, t),
            None => seq![],
        }
    } else {
        words_reading(line, query->0, origin, line.words@.len())
    }
}

/// What the lines have to say to a query, in reading order.
pub open spec fn all_answers(lines: Seq<OcrLine>, query: Option<Seq<char>>, origin: (i32, i32)) -> Seq<
    TextMatchView,
>
    decreases lines.len(),
{
    if lines.len() == 0 {
        seq![]
    } else {
        all_answers(lines.drop_last(), query, origin) + answers(lines.last(), query, origin)
    }
}

/// The marks of a line say at which tier it answers the query.
spec fn marked(line: OcrLine, marks: Marks, query: Option<Seq<char>>) -> bool {
    if wanted(query).len() == 0 {
        marks.line == Some(MatchTier::Exact) && marks.words@.len() == 0
    } else if words(wanted(query)).len() > 1 {
        marks.line == read_tier(line.text@, query->0) && marks.words@.len() == 0
    } else {
        &&& marks.line is None
        &&& marks.words@.len() == line.words@.len()
        &&& forall|i: int|
            0 <= i < line.words@.len() ==> #[trigger] marks.words@[i] == read_tier(
                line.words@[i].text@,
                query->0,
            )
    }
}

proof fn lemma_marked_words(
    line: OcrLine,
    marks: Marks,
    query: Seq<char>,
    origin: (i32, i32),
    n: nat,
)
    requires
        n <= line.words@.len(),
        marks.words@.len() == line.words@.len(),
        forall|i: int|
            0 <= i < line.words@.len() ==> #[trigger] marks.words@[i] == read_tier(
                line.words@[i].text@,
                query,
            ),
    ensures
        marked_words(line, marks, origin, n) == words_reading(line, query, origin, n),
    decreases n,
{
    if n > 0 {
        lemma_marked_words(line, marks, query, origin, (n - 1) as nat);
        assert(marks.words@[n - 1] == read_tier(line.words@[n - 1].text@, query));
    }
}

proof fn lemma_marked_line(
    line: OcrLine,
    marks: Marks,
    query: Option<Seq<char>>,
    origin: (i32, i32),
)
    requires
        marked(line, marks, query),
    ensures
        from_line(line, marks, origin) == answers(line, query, origin),
{
    if wanted(query).len() > 0 && words(wanted(query)).len() <= 1 {
        lemma_marked_words(line, marks, query->0, origin, line.words@.len());
    }
    assert(from_line(line, marks, origin) =~= answers(line, query, origin));
}

proof fn lemma_marked_lines(
    lines: Seq<OcrLine>,
    marks: Seq<Marks>,
    query: Option<Seq<char>>,
    origin: (i32, i32),
)
    requires
        lines.len() <= marks.len(),
        forall|i: int| 0 <= i < lines.len() ==> marked(#[trigger] lines[i], marks[i], query),
    ensures
        from_lines(lines, marks, origin) == all_answers(lines, query, origin),
    decreases lines.len(),
{
    if lines.len() > 0 {
        let last = lines.len() - 1;
        assert forall|i: int| 0 <= i < last implies marked(
            #[trigger] lines.drop_last()[i],
            marks[i],
            query,
        ) by {
            assert(lines.drop_last()[i] == lines[i]);
        }
        lemma_marked_lines(lines.drop_last(), marks, query, origin);
        assert(marked(lines[last], marks[last], query));
        lemma_marked_line(lines[last], marks[last], query, origin);
    }
}

/// What was read off the screen.
#[derive(Debug)]
pub struct TextResult {
    /// The recogniser language that was used. Its quality depends on which
    /// language packs are installed, so a caller should be able to see it.
    pub language: String,
    pub matches: Vec<TextMatch>,
    /// How many lines were recognised, so that an empty match set can be told
    /// apart from an empty screen.
    pub lines_seen: usize,
    /// The languages that can be asked for.
    pub available_languages: Vec<String>,
}

/// What to read, and where.
#[derive(Debug)]
pub struct FindArgs<'a> {
    pub query: Option<&'a str>,
    pub max_matches: usize,
    /// Restricts the reading to one window's rectangle.
    pub hwnd: Option<isize>,
    /// The PNG file that is read instead of the screen. It makes accuracy
    /// measurable against a fixed picture.
    pub image: Option<&'a str>,
    /// The recogniser language; the profile's when there is none.
    pub lang: Option<&'a str>,
}

/// What a query that may be absent says.
pub open spec fn query_view(query: Option<&str>) -> Option<Seq<char>> {
    match query {
        Some(q) => Some(q@),
        None => None,
    }
}

fn mark_line(line: &OcrLine, query: Option<&str>, needle: &str, phrase: bool) -> (r: Marks)
    requires
        needle@ == wanted(query_view(query)),
        phrase == (words(needle@).len() > 1),
    ensures
        marked(*line, r, query_view(query)),
{
    let mut marks: Vec<Option<MatchTier>> = Vec::new();
    if needle.is_empty() {
        return Marks { line: Some(MatchTier::Exact), words: marks };
    }
    let q = match query {
        Some(q) => q,
        None => {
            return Marks { line: None, words: marks };
        },
    };
    let bare = trimmed_text(q);
    if phrase {
        return Marks { line: tier_in(line.text.as_str(), q, bare.as_str()), words: marks };
    }
    for i in 0..line.words.len()
        invariant
            query == Some(q),
            bare@ == trim(q@),
            marks@.len() == i,
            forall|j: int|
                0 <= j < i ==> #[trigger] marks@[j] == read_tier(line.words@[j].text@, q@),
    {
        marks.push(tier_in(line.words[i].text.as_str(), q, bare.as_str()));
    }
    Marks { line: None, words: marks }
}

/// The pieces of text in `lines` that answer the query, at most as many as
/// asked for, in reading order and in the coordinates of the screen.
pub fn find_text(
    lines: &[OcrLine],
    origin: (i32, i32),
    language: String,
    available_languages: Vec<String>,
    args: &FindArgs<'_>,
) -> (r: TextResult)
    requires
        forall|i: int| 0 <= i < lines@.len() ==> (#[trigger] lines@[i]).wf(origin),
    ensures
        match_views(r.matches@) == capped(
            all_answers(lines@, query_view(args.query), origin),
            args.max_matches as nat,
        ),
        r.lines_seen == lines@.len(),
        r.language == language,
        r.available_languages == available_languages,
{
    let needle = match args.query {
        Some(q) => {
            let t = trimmed_text(q);
            to_lowercase(t.as_str())
        },
        None => String::new(),
    };
    assert(args.query is None ==> needle@ =~= seq![]);
    let needle_chars = to_chars(needle.as_str());
    let parts = split_words(&needle_chars);
    assert(parts@.len() == words(needle@).len());
    let phrase: bool = parts.len() > 1;
    let mut marks: Vec<Marks> = Vec::new();
    for i in 0..lines.len()
        invariant
            needle@ == wanted(query_view(args.query)),
            phrase == (words(needle@).len() > 1),
            marks@.len() == i,
            forall|j: int|
                0 <= j < i ==> marked(#[trigger] lines@[j], marks@[j], query_view(args.query)),
    {
        marks.push(mark_line(&lines[i], args.query, needle.as_str(), phrase));
    }
    proof {
        lemma_marked_lines(lines@, marks@, query_view(args.query), origin);
        assert forall|i: int|
            #![trigger lines@[i]]
            #![trigger marks@[i]]
            0 <= i < lines@.len() implies lines@[i].wf(origin) && marks@[i].words@.len()
            <= lines@[i].words@.len() by {
            assert(marked(lines@[i], marks@[i], query_view(args.query)));
        }
    }
    let matches = gather(lines, marks.as_slice(), origin, args.max_matches);
    TextResult { language, matches, lines_seen: lines.len(), available_languages }
}

// The region of interest

/// Why nothing was read.
#[derive(Debug, Clone, Copy, PartialEq, Eq, Structural)]
pub enum OcrError {
    /// A window and a picture were both named.
    Exclusive,
    /// The window has no area on the screen.
    NoArea { hwnd: isize },
}

impl OcrError {
    /// The sentence that `message` returns.
    pub open spec fn text(self) -> Seq<char> {
        match self {
            OcrError::Exclusive => "--hwnd and --image are mutually exclusive"@,
            OcrError::NoArea { hwnd } => "window "@ + signed_decimal(hwnd as int)
                + " has no on-screen area (minimised?)"@,
        }
    }

    /// The error in words.
    pub fn message(&self) -> (r: String)
        ensures
            r@ == self.text(),
    {
        match self {
            OcrError::Exclusive => String::from_str("--hwnd and --image are mutually exclusive"),
            OcrError::NoArea { hwnd } => {
                let mut out = String::from_str("window ");
                let n = write_signed(*hwnd as i64);
                out.append(n.as_str());
                out.append(" has no on-screen area (minimised?)");
                out
            },
        }
    }
}

impl<'a> FindArgs<'a> {
    /// Whether what is to be read is well defined.
    pub fn check(&self) -> (r: Result<(), OcrError>)
        ensures
            r == (if self.hwnd is Some && self.image is Some {
                Err::<(), OcrError>(OcrError::Exclusive)
            } else {
                Ok::<(), OcrError>(())
            }),
    {
        if self.hwnd.is_some() && self.image.is_some() {
            Err(OcrError::Exclusive)
        } else {
            Ok(())
        }
    }
}

/// The part of an axis that a window takes of a picture, as start and length:
/// what lies both in the window, which starts `offset` after the picture does,
/// and in the picture.
pub open spec fn extent(offset: int, size: int, picture: int) -> (int, int) {
    let start = if offset > 0 {
        offset
    } else {
        0
    };
    let end = if offset + size < picture {
        offset + size
    } else {
        picture
    };
    (
        start,
        if end > start {
            end - start
        } else {
            0
        },
    )
}

fn extent_of(offset: i64, size: i32, picture: u32) -> (r: (u32, u32))
    requires
        i32::MIN - i32::MAX <= offset <= u32::MAX,
    ensures
        (r.0 as int, r.1 as int) == extent(offset as int, size as int, picture as int),
{
    let start: i64 = if offset > 0 {
        offset
    } else {
        0
    };
    let reach: i64 = offset + size as i64;
    let end: i64 = if reach < picture as i64 {
        reach
    } else {
        picture as i64
    };
    let taken: u32 = if end > start {
        (end - start) as u32
    } else {
        0
    };
    (start as u32, taken)
}

/// The rectangle `(x, y, w, h)` of a picture, which starts at `origin` and has
/// the size `picture`, that the window `hwnd` with the bounds `b` takes.
pub fn region_of_interest(
    hwnd: isize,
    b: Bounds,
    origin: (i32, i32),
    picture: (u32, u32),
) -> (r: Result<(u32, u32, u32, u32), OcrError>)
    ensures
        ({
            let across = extent(b.x - origin.0, b.w as int, picture.0 as int);
            let down = extent(b.y - origin.1, b.h as int, picture.1 as int);
            if across.1 == 0 || down.1 == 0 {
                r == Err::<(u32, u32, u32, u32), OcrError>(OcrError::NoArea { hwnd })
            } else {
                r == Ok::<(u32, u32, u32, u32), OcrError>(
                    (across.0 as u32, down.0 as u32, across.1 as u32, down.1 as u32),
                )
            }
        }),
        r matches Ok((x, y, w, h)) ==> w > 0 && h > 0 && x + w <= picture.0 && y + h <= picture.1,
{
    let (x, w) = extent_of(b.x as i64 - origin.0 as i64, b.w, picture.0);
    let (y, h) = extent_of(b.y as i64 - origin.1 as i64, b.h, picture.1);
    if w == 0 || h == 0 {
        Err(OcrError::NoArea { hwnd })
    } else {
        Ok((x, y, w, h))
    }
}

} // verus!
