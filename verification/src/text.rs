//! Locale-aware matching for UI labels.
//!
//! A label that a caller typed and the same label as Windows reports it can
//! differ in four ordinary ways: case outside ASCII, Unicode composition
//! (macOS emits NFD, Windows reports NFC), full-width forms, and access-key
//! decoration such as the `(F)` of a localised menu.
//!
//! Matching is a ladder of tiers, tightest first, and a search keeps only its
//! best tier ([`keep_best`]). If any element matches exactly, the lenient
//! matches are discarded before anybody counts them, so leniency can only
//! recover labels that strictness did not find.

use vstd::prelude::*;
use crate::chars::{
    contains_text, copy_range, from_chars, is_white, occurs, same_chars, to_chars, trim,
    trim_end, trimmed_end, trimmed_text, white,
};
use crate::foreign::{lowercase, nfkc, to_lowercase, to_nfkc};

verus! {

/// How much leniency a match required, from the tightest to the loosest.
#[derive(Debug, Clone, Copy, PartialEq, Eq, PartialOrd, Ord, Structural)]
pub enum MatchTier {
    /// Identical once surrounding white space is trimmed.
    Exact,
    /// Equal under Unicode lowercasing.
    Case,
    /// Equal under NFKC, white-space collapsing and lowercasing. This is the
    /// tier that recovers NFD against NFC and full width against half width.
    Normalized,
    /// Equal only after removing access-key markers, a trailing mnemonic such
    /// as `(F)`, and a trailing ellipsis.
    Affix,
    /// Equal only after folding characters the OCR recogniser confuses. It is
    /// a property of reading pixels, not of language; [`keep_best`] ranks it
    /// below every real match.
    Confusable,
}

impl MatchTier {
    /// The position on the ladder: smaller is tighter.
    pub open spec fn rank(self) -> nat {
        match self {
            MatchTier::Exact => 0,
            MatchTier::Case => 1,
            MatchTier::Normalized => 2,
            MatchTier::Affix => 3,
            MatchTier::Confusable => 4,
        }
    }

    /// The name under which a tier is reported.
    pub open spec fn label(self) -> Seq<char> {
        match self {
            MatchTier::Exact => "exact"@,
            MatchTier::Case => "case"@,
            MatchTier::Normalized => "normalized"@,
            MatchTier::Affix => "affix"@,
            MatchTier::Confusable => "confusable"@,
        }
    }

    /// The name under which a tier is reported.
    pub fn as_str(self) -> (r: &'static str)
        ensures
            r@ == self.label(),
    {
        match self {
            MatchTier::Exact => "exact",
            MatchTier::Case => "case",
            MatchTier::Normalized => "normalized",
            MatchTier::Affix => "affix",
            MatchTier::Confusable => "confusable",
        }
    }

    /// The position on the ladder, as a number.
    pub fn level(self) -> (r: u8)
        ensures
            r == self.rank(),
    {
        match self {
            MatchTier::Exact => 0,
            MatchTier::Case => 1,
            MatchTier::Normalized => 2,
            MatchTier::Affix => 3,
            MatchTier::Confusable => 4,
        }
    }
}

// Case

/// `s` trimmed and lowered.
pub open spec fn folded(s: Seq<char>) -> Seq<char> {
    lowercase(trim(s))
}

/// Unicode lowercase, trimmed.
///
/// This is lowercasing, not case folding: the Turkish dotted and dotless I do
/// not meet here the way a Turkish reader expects.
pub fn fold_case(s: &str) -> (r: String)
    ensures
        r@ == folded(s@),
{
    let t = trimmed_text(s);
    to_lowercase(t.as_str())
}

// Normalisation

/// Characters that occupy no width and carry no meaning in a label.
pub open spec fn zero_width(c: char) -> bool {
    c == '\u{200b}' || c == '\u{200c}' || c == '\u{200d}' || c == '\u{feff}'
}

/// `s` without its zero-width characters.
pub open spec fn visible(s: Seq<char>) -> Seq<char>
    decreases s.len(),
{
    if s.len() == 0 {
        s
    } else if zero_width(s.last()) {
        visible(s.drop_last())
    } else {
        visible(s.drop_last()).push(s.last())
    }
}

/// How many characters stand before the first white space of `s`.
pub open spec fn word_len(s: Seq<char>) -> nat
    decreases s.len(),
{
    if s.len() == 0 || white(s.first()) {
        0
    } else {
        1 + word_len(s.drop_first())
    }
}

/// The runs of `s` between its white space.
pub open spec fn words(s: Seq<char>) -> Seq<Seq<char>>
    decreases s.len(),
{
    if s.len() == 0 {
        seq![]
    } else if white(s.first()) {
        words(s.drop_first())
    } else if word_len(s) <= s.len() {
        seq![s.take(word_len(s) as int)] + words(s.skip(word_len(s) as int))
    } else {
        seq![]
    }
}

/// `ws` with one space between each word and the next.
pub open spec fn joined(ws: Seq<Seq<char>>) -> Seq<char>
    decreases ws.len(),
{
    if ws.len() == 0 {
        seq![]
    } else if ws.len() == 1 {
        ws[0]
    } else {
        joined(ws.drop_last()).push(' ') + ws.last()
    }
}

/// `s` without zero-width characters and with every run of white space as
/// one space, none at either end.
pub open spec fn collapsed(s: Seq<char>) -> Seq<char> {
    joined(words(visible(s)))
}

/// The form in which [`MatchTier::Normalized`] compares.
pub open spec fn normalized(s: Seq<char>) -> Seq<char> {
    lowercase(collapsed(nfkc(s)))
}

/// A word ends at the first white space, or at the end.
pub proof fn lemma_word_len(s: Seq<char>)
    ensures
        word_len(s) <= s.len(),
        forall|i: int| 0 <= i < word_len(s) ==> !white(#[trigger] s[i]),
        word_len(s) < s.len() ==> white(s[word_len(s) as int]),
    decreases s.len(),
{
    if s.len() > 0 && !white(s.first()) {
        lemma_word_len(s.drop_first());
        assert forall|i: int| 0 <= i < word_len(s) implies !white(#[trigger] s[i]) by {
            if i > 0 {
                assert(s[i] == s.drop_first()[i - 1]);
            }
        }
        if word_len(s) < s.len() {
            assert(s[word_len(s) as int] == s.drop_first()[word_len(s) - 1]);
        }
    }
}

/// The characters of `v` that have a width.
fn visible_chars(v: &[char]) -> (r: Vec<char>)
    ensures
        r@ == visible(v@),
{
    let mut out: Vec<char> = Vec::new();
    for i in 0..v.len()
        invariant
            out@ == visible(v@.take(i as int)),
    {
        assert(v@.take(i + 1).drop_last() =~= v@.take(i as int));
        let c = v[i];
        if !(c == '\u{200b}' || c == '\u{200c}' || c == '\u{200d}' || c == '\u{feff}') {
            out.push(c);
        }
    }
    assert(v@.take(v@.len() as int) =~= v@);
    out
}

/// The sequences that the vectors of `v` hold.
pub open spec fn views_of(v: Seq<Vec<char>>) -> Seq<Seq<char>> {
    v.map_values(|w: Vec<char>| w@)
}

/// The runs of `v` between its white space.
pub fn split_words(v: &[char]) -> (r: Vec<Vec<char>>)
    ensures
        views_of(r@) == words(v@),
{
    let mut out: Vec<Vec<char>> = Vec::new();
    let mut i: usize = 0;
    assert(v@.skip(0) =~= v@);
    assert(views_of(out@) + words(v@) =~= words(v@));
    while i < v.len()
        invariant
            i <= v@.len(),
            words(v@) == views_of(out@) + words(v@.skip(i as int)),
        decreases v@.len() - i,
    {
        let ghost rest = v@.skip(i as int);
        assert(rest.first() == v@[i as int]);
        if is_white(v[i]) {
            assert(rest.drop_first() =~= v@.skip(i + 1));
            i += 1;
        } else {
            let start: usize = i;
            let ghost n = word_len(rest);
            proof {
                lemma_word_len(rest);
            }
            while i < v.len() && !is_white(v[i])
                invariant
                    start <= i <= v@.len(),
                    rest == v@.skip(start as int),
                    n <= rest.len(),
                    i - start <= n,
                    forall|k: int| 0 <= k < n ==> !white(#[trigger] rest[k]),
                    n < rest.len() ==> white(rest[n as int]),
                decreases v@.len() - i,
            {
                assert(v@[i as int] == rest[i - start]);
                i += 1;
            }
            let ghost before = out@;
            out.push(copy_range(v, start, i));
            proof {
                if i < v@.len() {
                    assert(v@[i as int] == rest[i - start]);
                }
                assert(i - start == n);
                assert(rest.take(n as int) =~= v@.subrange(start as int, i as int));
                assert(rest.skip(n as int) =~= v@.skip(i as int));
                assert(views_of(out@) =~= views_of(before).push(rest.take(n as int)));
                assert(views_of(out@) + words(v@.skip(i as int)) =~= views_of(before) + words(
                    rest,
                ));
            }
        }
    }
    assert(views_of(out@) + words(v@.skip(i as int)) =~= views_of(out@));
    out
}

/// Drops zero-width characters and collapses every run of white space to one
/// space, none at either end.
pub fn collapse(s: &str) -> (r: String)
    ensures
        r@ == collapsed(s@),
{
    let all = to_chars(s);
    let v = visible_chars(&all);
    let mut out = String::new();
    let mut i: usize = 0;
    let mut first: bool = true;
    let ghost mut done: Seq<Seq<char>> = seq![];
    assert(v@.skip(0) =~= v@);
    assert(done + words(v@) =~= words(v@));
    while i < v.len()
        invariant
            i <= v@.len(),
            words(v@) == done + words(v@.skip(i as int)),
            out@ == joined(done),
            first == (done.len() == 0),
        decreases v@.len() - i,
    {
        let ghost rest = v@.skip(i as int);
        assert(rest.first() == v@[i as int]);
        if is_white(v[i]) {
            assert(rest.drop_first() =~= v@.skip(i + 1));
            i += 1;
        } else {
            let start: usize = i;
            proof {
                lemma_word_len(rest);
            }
            if !first {
                out.push(' ');
            }
            first = false;
            let ghost head = out@;
            let ghost n = word_len(rest);
            while i < v.len() && !is_white(v[i])
                invariant
                    start <= i <= v@.len(),
                    rest == v@.skip(start as int),
                    n == word_len(rest),
                    n <= rest.len(),
                    i - start <= n,
                    forall|k: int| 0 <= k < n ==> !white(#[trigger] rest[k]),
                    n < rest.len() ==> white(rest[n as int]),
                    out@ == head + v@.subrange(start as int, i as int),
                decreases v@.len() - i,
            {
                assert(v@[i as int] == rest[i - start]);
                out.push(v[i]);
                i += 1;
                assert(v@.subrange(start as int, i as int) =~= v@.subrange(
                    start as int,
                    i - 1,
                ).push(v@[i - 1]));
            }
            proof {
                if i < v@.len() {
                    assert(v@[i as int] == rest[i - start]);
                }
                assert(i - start == n);
                let word = rest.take(n as int);
                assert(word =~= v@.subrange(start as int, i as int));
                assert(rest.skip(n as int) =~= v@.skip(i as int));
                assert(done.push(word).drop_last() =~= done);
                assert(done.push(word) + words(v@.skip(i as int)) =~= done + words(rest));
                done = done.push(word);
            }
        }
    }
    assert(done + words(v@.skip(i as int)) =~= done);
    out
}

/// NFKC, then every run of white space as one space, then lowercase.
///
/// NFKC rather than NFC because compatibility composition is what folds
/// full-width Latin onto ASCII. Zero-width characters are dropped outright.
pub fn normalize(s: &str) -> (r: String)
    ensures
        r@ == normalized(s@),
{
    let composed = to_nfkc(s);
    let spaced = collapse(composed.as_str());
    to_lowercase(spaced.as_str())
}

// Decoration

/// `s` without access-key markers: a single `&` goes, a doubled one is a
/// literal ampersand.
pub open spec fn without_access_keys(s: Seq<char>) -> Seq<char>
    decreases s.len(),
{
    if s.len() == 0 {
        s
    } else if s[0] != '&' {
        seq![s[0]] + without_access_keys(s.skip(1))
    } else if s.len() >= 2 && s[1] == '&' {
        seq!['&'] + without_access_keys(s.skip(2))
    } else {
        without_access_keys(s.skip(1))
    }
}

/// Removes Win32 access-key markers: `&File` is `File`, `E&xit` is `Exit`,
/// and a doubled `&&` is a literal ampersand.
pub fn strip_access_keys(s: &str) -> (r: String)
    ensures
        r@ == without_access_keys(s@),
{
    let v = to_chars(s);
    let mut out = String::new();
    let mut i: usize = 0;
    assert(v@.skip(0) =~= v@);
    while i < v.len()
        invariant
            i <= v@.len(),
            without_access_keys(v@) == out@ + without_access_keys(v@.skip(i as int)),
        decreases v@.len() - i,
    {
        let ghost rest = v@.skip(i as int);
        let ghost before = out@;
        assert(rest[0] == v@[i as int]);
        assert(rest.skip(1) =~= v@.skip(i + 1));
        if v[i] != '&' {
            out.push(v[i]);
            i += 1;
            assert(before + (seq![rest[0]] + without_access_keys(rest.skip(1))) =~= out@
                + without_access_keys(v@.skip(i as int)));
        } else if v.len() - i >= 2 && v[i + 1] == '&' {
            assert(rest[1] == v@[i + 1]);
            assert(rest.skip(2) =~= v@.skip(i + 2));
            out.push('&');
            i += 2;
            assert(before + (seq!['&'] + without_access_keys(rest.skip(2))) =~= out@
                + without_access_keys(v@.skip(i as int)));
        } else {
            assert(rest.len() >= 2 ==> rest[1] == v@[i + 1]);
            i += 1;
        }
    }
    assert(out@ + without_access_keys(v@.skip(i as int)) =~= out@);
    out
}

/// An ASCII letter.
pub open spec fn ascii_letter(c: char) -> bool {
    'a' <= c <= 'z' || 'A' <= c <= 'Z'
}

/// `s` ends in a parenthesised ASCII letter that follows something else.
pub open spec fn has_mnemonic(s: Seq<char>) -> bool {
    &&& s.len() >= 4
    &&& s[s.len() - 1] == ')'
    &&& ascii_letter(s[s.len() - 2])
    &&& s[s.len() - 3] == '('
}

/// `s` without a trailing mnemonic such as the `(f)` in `datei(f)`. A
/// parenthesised digit is content and stays.
pub open spec fn without_mnemonic(s: Seq<char>) -> Seq<char> {
    let t = trim_end(s);
    if has_mnemonic(t) {
        trim_end(t.take(t.len() - 3))
    } else {
        s
    }
}

/// How many characters of ellipsis `s` ends in: one for `…`, three for `...`.
pub open spec fn ellipsis_len(s: Seq<char>) -> nat {
    if s.len() >= 1 && s[s.len() - 1] == '\u{2026}' {
        1
    } else if s.len() >= 3 && s[s.len() - 1] == '.' && s[s.len() - 2] == '.' && s[s.len() - 3]
        == '.' {
        3
    } else {
        0
    }
}

/// `s` without a trailing ellipsis.
pub open spec fn without_ellipsis(s: Seq<char>) -> Seq<char> {
    let t = trim_end(s);
    if ellipsis_len(t) > 0 {
        trim_end(t.take(t.len() - ellipsis_len(t)))
    } else {
        s
    }
}

/// `s` after one attempt at removing a mnemonic and then an ellipsis.
pub open spec fn peeled_once(s: Seq<char>) -> Seq<char> {
    without_ellipsis(without_mnemonic(s))
}

/// `s` peeled until nothing more comes off.
pub open spec fn peeled(s: Seq<char>) -> Seq<char>
    decreases s.len(),
{
    if peeled_once(s).len() < s.len() {
        peeled(peeled_once(s))
    } else {
        s
    }
}

/// The form in which [`MatchTier::Affix`] compares.
pub open spec fn stripped(s: Seq<char>) -> Seq<char> {
    peeled(normalized(without_access_keys(s)))
}

proof fn lemma_trim_end_shortens(s: Seq<char>)
    ensures
        trim_end(s).len() <= s.len(),
        trim_end(s) == s.take(trim_end(s).len() as int),
        trim_end(s).len() > 0 ==> !white(trim_end(s).last()),
    decreases s.len(),
{
    if s.len() > 0 && white(s.last()) {
        lemma_trim_end_shortens(s.drop_last());
        assert(s.drop_last().take(trim_end(s).len() as int) =~= s.take(trim_end(s).len() as int));
    } else {
        assert(s.take(s.len() as int) =~= s);
    }
}

proof fn lemma_mnemonic_shortens(s: Seq<char>)
    ensures
        without_mnemonic(s) == s || without_mnemonic(s).len() < s.len(),
{
    let t = trim_end(s);
    lemma_trim_end_shortens(s);
    if has_mnemonic(t) {
        lemma_trim_end_shortens(t.take(t.len() - 3));
    }
}

proof fn lemma_ellipsis_shortens(s: Seq<char>)
    ensures
        without_ellipsis(s) == s || without_ellipsis(s).len() < s.len(),
{
    let t = trim_end(s);
    lemma_trim_end_shortens(s);
    if ellipsis_len(t) > 0 {
        lemma_trim_end_shortens(t.take(t.len() - ellipsis_len(t)));
    }
}

proof fn lemma_peel_shortens(s: Seq<char>)
    ensures
        peeled_once(s) == s || peeled_once(s).len() < s.len(),
{
    lemma_mnemonic_shortens(s);
    lemma_ellipsis_shortens(without_mnemonic(s));
}

fn is_ascii_letter(c: char) -> (r: bool)
    ensures
        r == ascii_letter(c),
{
    ('a' <= c && c <= 'z') || ('A' <= c && c <= 'Z')
}

/// Removes a trailing localised mnemonic such as the `(f)` in `datei(f)`.
///
/// Restricted to a single ASCII letter on purpose. `Step (1)` and `Model (2)`
/// are real labels whose parenthesised digit is content.
pub fn strip_mnemonic_suffix(s: &[char]) -> (r: Vec<char>)
    ensures
        r@ == without_mnemonic(s@),
{
    let t = trimmed_end(s);
    let n: usize = t.len();
    if n >= 4 && t[n - 1] == ')' && is_ascii_letter(t[n - 2]) && t[n - 3] == '(' {
        let head = copy_range(&t, 0, n - 3);
        assert(head@ =~= t@.take(n - 3));
        trimmed_end(&head)
    } else {
        let all = copy_range(s, 0, s.len());
        assert(all@ =~= s@);
        all
    }
}

/// Removes a trailing ellipsis, one character or three dots.
pub fn strip_trailing_ellipsis(s: &[char]) -> (r: Vec<char>)
    ensures
        r@ == without_ellipsis(s@),
{
    let t = trimmed_end(s);
    let n: usize = t.len();
    let cut: usize = if n >= 1 && t[n - 1] == '\u{2026}' {
        1
    } else if n >= 3 && t[n - 1] == '.' && t[n - 2] == '.' && t[n - 3] == '.' {
        3
    } else {
        0
    };
    if cut > 0 {
        let head = copy_range(&t, 0, n - cut);
        assert(head@ =~= t@.take(n - cut));
        trimmed_end(&head)
    } else {
        let all = copy_range(s, 0, s.len());
        assert(all@ =~= s@);
        all
    }
}

/// Peels decoration off the end of a normalised label until nothing more
/// comes off. Iterated because `save as...(a)` carries two layers.
pub fn peel(s: &str) -> (r: String)
    ensures
        r@ == peeled(s@),
{
    let mut cur = to_chars(s);
    loop
        invariant
            peeled(s@) == peeled(cur@),
        decreases cur@.len(),
    {
        let bare = strip_mnemonic_suffix(&cur);
        let next = strip_trailing_ellipsis(&bare);
        proof {
            lemma_peel_shortens(cur@);
        }
        if same_chars(&next, &cur) {
            return from_chars(&cur);
        }
        cur = next;
    }
}

/// [`normalize`] without access keys, then [`peel`].
pub fn strip_affixes(s: &str) -> (r: String)
    ensures
        r@ == stripped(s@),
{
    let bare = strip_access_keys(s);
    let plain = normalize(bare.as_str());
    peel(plain.as_str())
}

// The ladder

/// The four forms in which a label is compared, tightest first.
pub struct Forms {
    pub trimmed: String,
    pub folded: String,
    pub normalized: String,
    pub stripped: String,
}

/// The tightest tier at which two labels agree, given what each reduces to.
pub open spec fn tier_of_forms(a: Forms, b: Forms) -> Option<MatchTier> {
    if a.trimmed@ == b.trimmed@ {
        Some(MatchTier::Exact)
    } else if a.folded@ == b.folded@ {
        Some(MatchTier::Case)
    } else if a.normalized@ == b.normalized@ {
        Some(MatchTier::Normalized)
    } else if a.stripped@.len() > 0 && a.stripped@ == b.stripped@ {
        Some(MatchTier::Affix)
    } else {
        None
    }
}

/// The tightest tier at which `candidate` equals `wanted`.
pub open spec fn tier(candidate: Seq<char>, wanted: Seq<char>) -> Option<MatchTier> {
    if trim(candidate) == trim(wanted) {
        Some(MatchTier::Exact)
    } else if folded(candidate) == folded(wanted) {
        Some(MatchTier::Case)
    } else if normalized(candidate) == normalized(wanted) {
        Some(MatchTier::Normalized)
    } else if stripped(candidate).len() > 0 && stripped(candidate) == stripped(wanted) {
        Some(MatchTier::Affix)
    } else {
        None
    }
}

impl Forms {
    /// The forms of `s`.
    pub fn of(s: &str) -> (r: Forms)
        ensures
            r.trimmed@ == trim(s@),
            r.folded@ == folded(s@),
            r.normalized@ == normalized(s@),
            r.stripped@ == stripped(s@),
    {
        Forms {
            trimmed: trimmed_text(s),
            folded: fold_case(s),
            normalized: normalize(s),
            stripped: strip_affixes(s),
        }
    }

    /// The tightest tier at which two labels agree.
    pub fn tier(&self, other: &Forms) -> (r: Option<MatchTier>)
        ensures
            r == tier_of_forms(*self, *other),
    {
        if self.trimmed == other.trimmed {
            Some(MatchTier::Exact)
        } else if self.folded == other.folded {
            Some(MatchTier::Case)
        } else if self.normalized == other.normalized {
            Some(MatchTier::Normalized)
        } else if !self.stripped.as_str().is_empty() && self.stripped == other.stripped {
            // A non-empty guard, so two labels that reduce to nothing are not
            // "equal".
            Some(MatchTier::Affix)
        } else {
            None
        }
    }
}

/// The tightest tier at which `candidate` equals `wanted`, or `None`.
pub fn tier_of(candidate: &str, wanted: &str) -> (r: Option<MatchTier>)
    ensures
        r == tier(candidate@, wanted@),
{
    let a = Forms::of(candidate);
    let b = Forms::of(wanted);
    a.tier(&b)
}

/// The tightest tier at which `haystack` contains `needle`.
pub open spec fn fragment_tier(haystack: Seq<char>, needle: Seq<char>) -> Option<MatchTier> {
    if trim(needle).len() == 0 {
        None
    } else if occurs(haystack, trim(needle)) {
        Some(MatchTier::Exact)
    } else if occurs(folded(haystack), folded(needle)) {
        Some(MatchTier::Case)
    } else if occurs(normalized(haystack), normalized(needle)) {
        Some(MatchTier::Normalized)
    } else {
        None
    }
}

/// The tightest tier at which a text contains a fragment, given what each
/// reduces to.
pub open spec fn fragment_tier_of_forms(haystack: Seq<char>, hay: Forms, needle: Forms) -> Option<
    MatchTier,
> {
    if needle.trimmed@.len() == 0 {
        None
    } else if occurs(haystack, needle.trimmed@) {
        Some(MatchTier::Exact)
    } else if occurs(hay.folded@, needle.folded@) {
        Some(MatchTier::Case)
    } else if occurs(hay.normalized@, needle.normalized@) {
        Some(MatchTier::Normalized)
    } else {
        None
    }
}

impl Forms {
    /// The tightest tier at which `haystack`, whose forms are `self`, contains
    /// the fragment with the forms `needle`.
    pub fn fragment_tier(&self, haystack: &str, needle: &Forms) -> (r: Option<MatchTier>)
        ensures
            r == fragment_tier_of_forms(haystack@, *self, *needle),
    {
        if needle.trimmed.as_str().is_empty() {
            None
        } else if contains_text(haystack, needle.trimmed.as_str()) {
            Some(MatchTier::Exact)
        } else if contains_text(self.folded.as_str(), needle.folded.as_str()) {
            Some(MatchTier::Case)
        } else if contains_text(self.normalized.as_str(), needle.normalized.as_str()) {
            Some(MatchTier::Normalized)
        } else {
            None
        }
    }
}

/// The substring counterpart of [`tier_of`], for OCR, where the caller
/// supplies a fragment of a line rather than a whole label.
///
/// There is no affix tier here: stripping a trailing mnemonic cannot help a
/// search that may already match part of the string.
pub fn contains_tier(haystack: &str, needle: &str) -> (r: Option<MatchTier>)
    ensures
        r == fragment_tier(haystack@, needle@),
{
    let h = Forms::of(haystack);
    let n = Forms::of(needle);
    h.fragment_tier(haystack, &n)
}

// Keeping the best tier

/// The first `max` elements of `s`, or all of them.
pub open spec fn capped<T>(s: Seq<T>, max: nat) -> Seq<T> {
    if s.len() > max {
        s.take(max as int)
    } else {
        s
    }
}

/// The smallest rank in `tiers`.
pub open spec fn best_rank(tiers: Seq<MatchTier>) -> nat
    decreases tiers.len(),
{
    if tiers.len() <= 1 {
        tiers[0].rank()
    } else {
        let rest = best_rank(tiers.drop_last());
        if tiers.last().rank() < rest {
            tiers.last().rank()
        } else {
            rest
        }
    }
}

/// The elements of `hits` whose tier has the rank `rank`, in order.
pub open spec fn at_rank<T>(hits: Seq<T>, tiers: Seq<MatchTier>, rank: nat) -> Seq<T>
    decreases hits.len(),
{
    if hits.len() == 0 {
        seq![]
    } else if tiers[hits.len() - 1].rank() == rank {
        at_rank(hits.drop_last(), tiers, rank).push(hits.last())
    } else {
        at_rank(hits.drop_last(), tiers, rank)
    }
}

/// The elements of `hits` that no other element beats, in order.
pub open spec fn best_of<T>(hits: Seq<T>, tiers: Seq<MatchTier>) -> Seq<T> {
    at_rank(hits, tiers, best_rank(tiers))
}

/// `tiers` is what the function `tier` returned for `hits`, one by one.
pub open spec fn tiers_of<T, F: Fn(&T) -> MatchTier>(
    tier: F,
    hits: Seq<T>,
    tiers: Seq<MatchTier>,
) -> bool {
    &&& tiers.len() == hits.len()
    &&& forall|i: int| 0 <= i < hits.len() ==> call_ensures(tier, (&hits[i],), #[trigger] tiers[i])
}

/// Discards every hit looser than the best tier present.
///
/// This is what stops added leniency from breaking working selectors: an exact
/// match anywhere in the result set removes the lenient ones before the caller
/// counts them for ambiguity.
pub fn keep_best<T, F: Fn(&T) -> MatchTier>(hits: &mut Vec<T>, tier: F)
    requires
        forall|i: int|
            0 <= i < old(hits)@.len() ==> call_requires(tier, (&#[trigger] old(hits)@[i],)),
    ensures
        exists|tiers: Seq<MatchTier>|
            tiers_of(tier, old(hits)@, tiers) && final(hits)@ == best_of(old(hits)@, tiers),
{
    let ghost before = hits@;
    let n: usize = hits.len();
    if n == 0 {
        proof {
            let none = Seq::<MatchTier>::empty();
            assert(tiers_of(tier, before, none));
            assert(hits@ =~= best_of(before, none));
        }
        return;
    }
    let mut tiers: Vec<MatchTier> = Vec::new();
    let first = tier(&hits[0]);
    tiers.push(first);
    let mut best: u8 = first.level();
    assert(best_rank(tiers@) == best);
    for i in 1..n
        invariant
            1 <= i <= n == hits@.len(),
            hits@ == before,
            forall|j: int| 0 <= j < before.len() ==> call_requires(tier, (&#[trigger] before[j],)),
            tiers@.len() == i,
            forall|j: int| 0 <= j < i ==> call_ensures(tier, (&before[j],), #[trigger] tiers@[j]),
            best == best_rank(tiers@),
    {
        let t = tier(&hits[i]);
        let ghost earlier = tiers@;
        tiers.push(t);
        assert(tiers@.drop_last() =~= earlier);
        if t.level() < best {
            best = t.level();
        }
    }
    let mut k: usize = 0;
    let mut at: usize = 0;
    assert(before.take(0) =~= Seq::<T>::empty());
    assert(hits@ =~= at_rank(before.take(0), tiers@, best as nat) + before.skip(0));
    while k < n
        invariant
            k <= n == before.len() == tiers@.len(),
            hits@ == at_rank(before.take(k as int), tiers@, best as nat) + before.skip(k as int),
            at == at_rank(before.take(k as int), tiers@, best as nat).len(),
            at <= k,
        decreases n - k,
    {
        let ghost kept = at_rank(before.take(k as int), tiers@, best as nat);
        assert(before.take(k + 1).drop_last() =~= before.take(k as int));
        assert(hits@[at as int] == before[k as int]);
        if tiers[k].level() == best {
            assert(kept.push(before[k as int]) + before.skip(k + 1) =~= kept + before.skip(
                k as int,
            ));
            at += 1;
        } else {
            let _ = hits.remove(at);
            assert(hits@ =~= kept + before.skip(k + 1));
        }
        k += 1;
    }
    proof {
        assert(before.take(n as int) =~= before);
        assert(hits@ =~= best_of(before, tiers@));
        assert(tiers_of(tier, before, tiers@));
    }
}

} // verus!
