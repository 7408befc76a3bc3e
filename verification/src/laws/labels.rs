//! Matching labels.

use vstd::prelude::*;
use crate::chars::{ascii_lowered, occurs, trim, trim_end, trim_start, white};
use crate::foreign::{lowercase, nfkc};
use crate::text::{
    at_rank, best_of, best_rank, capped, collapse, collapsed, contains_tier, fold_case, folded,
    fragment_tier, joined, lemma_word_len, normalize, normalized, peel, peeled, peeled_once,
    strip_access_keys, strip_affixes, strip_mnemonic_suffix, strip_trailing_ellipsis, stripped,
    tier, tier_of, visible, without_access_keys, without_ellipsis, without_mnemonic, word_len,
    words, zero_width, MatchTier,
};

verus! {

/// A label matches itself, whatever white space surrounds it, at the tightest
/// tier.
pub proof fn law_white_space_around_a_label_does_not_matter(a: Seq<char>, b: Seq<char>)
    requires
        trim(a) == trim(b),
    ensures
        tier(a, b) == Some(MatchTier::Exact),
{
}

/// It does not matter which of two labels was typed and which was reported.
pub proof fn law_matching_is_symmetric(a: Seq<char>, b: Seq<char>)
    ensures
        tier(a, b) == tier(b, a),
{
}

/// Decoration alone matches nothing: two labels that meet only without their
/// decoration have something besides it.
pub proof fn law_decoration_alone_does_not_match(a: Seq<char>, b: Seq<char>)
    requires
        tier(a, b) == Some(MatchTier::Affix),
    ensures
        stripped(a).len() > 0,
        stripped(a) == stripped(b),
{
}

/// A fragment of nothing but white space is found nowhere.
pub proof fn law_an_empty_fragment_is_found_nowhere(haystack: Seq<char>, needle: Seq<char>)
    requires
        trim(needle).len() == 0,
    ensures
        fragment_tier(haystack, needle) is None,
{
}

/// A parenthesised character that is not an ASCII letter is content, not a
/// mnemonic: `step (1)` and `step (2)` stay apart.
pub proof fn law_a_parenthesised_digit_is_content(s: Seq<char>)
    requires
        trim_end(s).len() >= 2,
        '0' <= trim_end(s)[trim_end(s).len() - 2] <= '9',
    ensures
        without_mnemonic(s) == s,
{
}

proof fn lemma_peeled_shortens(s: Seq<char>)
    ensures
        peeled(s).len() <= s.len(),
        !(peeled_once(peeled(s)).len() < peeled(s).len()),
    decreases s.len(),
{
    if peeled_once(s).len() < s.len() {
        lemma_peeled_shortens(peeled_once(s));
    }
}

/// Peeling is complete: of a peeled label nothing more comes off.
pub proof fn law_peeling_is_complete(s: Seq<char>)
    ensures
        peeled(peeled(s)) == peeled(s),
{
    lemma_peeled_shortens(s);
}

/// `s` with every ampersand doubled.
pub open spec fn doubled(s: Seq<char>) -> Seq<char>
    decreases s.len(),
{
    if s.len() == 0 {
        s
    } else if s[0] == '&' {
        seq!['&', '&'] + doubled(s.skip(1))
    } else {
        seq![s[0]] + doubled(s.skip(1))
    }
}

/// Doubling its ampersands is how a label says that they are literal: removing
/// the access keys gives the label back.
pub proof fn law_doubled_ampersands_are_literal(s: Seq<char>)
    ensures
        without_access_keys(doubled(s)) == s,
    decreases s.len(),
{
    if s.len() > 0 {
        let d = doubled(s);
        law_doubled_ampersands_are_literal(s.skip(1));
        if s[0] == '&' {
            assert(d.skip(2) =~= doubled(s.skip(1)));
        } else {
            assert(d.skip(1) =~= doubled(s.skip(1)));
        }
        assert(seq![s[0]] + s.skip(1) =~= s);
    }
}

// Keeping the best tier

proof fn lemma_best_rank_is_least(tiers: Seq<MatchTier>)
    requires
        tiers.len() > 0,
    ensures
        forall|i: int| 0 <= i < tiers.len() ==> best_rank(tiers) <= (#[trigger] tiers[i]).rank(),
        exists|i: int| 0 <= i < tiers.len() && best_rank(tiers) == (#[trigger] tiers[i]).rank(),
    decreases tiers.len(),
{
    if tiers.len() == 1 {
        assert(tiers[0].rank() == best_rank(tiers));
    } else {
        let rest = tiers.drop_last();
        lemma_best_rank_is_least(rest);
        let k = choose|i: int|
            0 <= i < rest.len() && best_rank(rest) == (#[trigger] rest[i]).rank();
        assert(tiers[k] == rest[k]);
        assert forall|i: int| 0 <= i < tiers.len() implies best_rank(tiers)
            <= (#[trigger] tiers[i]).rank() by {
            if i < rest.len() {
                assert(tiers[i] == rest[i]);
            }
        }
        assert(tiers[tiers.len() - 1].rank() == best_rank(tiers) || tiers[k].rank() == best_rank(
            tiers,
        ));
    }
}

proof fn lemma_at_rank_keeps<T>(hits: Seq<T>, tiers: Seq<MatchTier>, rank: nat)
    requires
        hits.len() <= tiers.len(),
    ensures
        at_rank(hits, tiers, rank).len() <= hits.len(),
        forall|h: T| #[trigger]
            at_rank(hits, tiers, rank).contains(h) <==> exists|i: int|
                0 <= i < hits.len() && hits[i] == h && (#[trigger] tiers[i]).rank() == rank,
    decreases hits.len(),
{
    if hits.len() > 0 {
        let last = hits.len() - 1;
        let rest = hits.drop_last();
        lemma_at_rank_keeps(rest, tiers, rank);
        let kept = at_rank(rest, tiers, rank);
        assert forall|h: T| #[trigger]
            at_rank(hits, tiers, rank).contains(h) <==> exists|i: int|
                0 <= i < hits.len() && hits[i] == h && (#[trigger] tiers[i]).rank() == rank by {
            if at_rank(hits, tiers, rank).contains(h) {
                let j = choose|j: int|
                    0 <= j < at_rank(hits, tiers, rank).len() && at_rank(hits, tiers, rank)[j] == h;
                if j < kept.len() {
                    assert(kept[j] == h);
                    assert(kept.contains(h));
                    let i = choose|i: int|
                        0 <= i < rest.len() && rest[i] == h && (#[trigger] tiers[i]).rank() == rank;
                    assert(hits[i] == h && tiers[i].rank() == rank);
                } else {
                    assert(hits[last] == h && tiers[last].rank() == rank);
                }
            }
            if exists|i: int|
                0 <= i < hits.len() && hits[i] == h && (#[trigger] tiers[i]).rank() == rank {
                let i = choose|i: int|
                    0 <= i < hits.len() && hits[i] == h && (#[trigger] tiers[i]).rank() == rank;
                if i < last {
                    assert(rest[i] == h && tiers[i].rank() == rank);
                    assert(kept.contains(h));
                    let j = choose|j: int| 0 <= j < kept.len() && kept[j] == h;
                    assert(at_rank(hits, tiers, rank)[j] == h);
                } else {
                    assert(at_rank(hits, tiers, rank)[kept.len() as int] == h);
                }
            }
        }
    }
}

/// A search keeps something whenever it found something, and what it keeps are
/// the hits that no other hit beats: all of those, and only those.
pub proof fn law_the_best_hits_are_kept<T>(hits: Seq<T>, tiers: Seq<MatchTier>)
    requires
        hits.len() == tiers.len(),
        hits.len() > 0,
    ensures
        best_of(hits, tiers).len() > 0,
        forall|h: T| #[trigger]
            best_of(hits, tiers).contains(h) <==> exists|i: int|
                0 <= i < hits.len() && hits[i] == h && (#[trigger] tiers[i]).rank() == best_rank(
                    tiers,
                ),
        forall|i: int| 0 <= i < tiers.len() ==> best_rank(tiers) <= (#[trigger] tiers[i]).rank(),
{
    lemma_best_rank_is_least(tiers);
    lemma_at_rank_keeps(hits, tiers, best_rank(tiers));
    let k = choose|i: int|
        0 <= i < tiers.len() && best_rank(tiers) == (#[trigger] tiers[i]).rank();
    assert(hits[k] == hits[k] && tiers[k].rank() == best_rank(tiers));
    assert(best_of(hits, tiers).contains(hits[k]));
}

/// An exact match suppresses every lenient one.
pub proof fn law_an_exact_match_suppresses_lenient_ones<T>(
    hits: Seq<T>,
    tiers: Seq<MatchTier>,
    at: int,
)
    requires
        hits.len() == tiers.len(),
        0 <= at < hits.len(),
        tiers[at] == MatchTier::Exact,
    ensures
        forall|h: T| #[trigger]
            best_of(hits, tiers).contains(h) <==> exists|i: int|
                0 <= i < hits.len() && hits[i] == h && (#[trigger] tiers[i]) == MatchTier::Exact,
{
    law_the_best_hits_are_kept(hits, tiers);
    assert(best_rank(tiers) == 0);
    assert forall|h: T| #[trigger]
        best_of(hits, tiers).contains(h) <==> exists|i: int|
            0 <= i < hits.len() && hits[i] == h && (#[trigger] tiers[i]) == MatchTier::Exact by {
        if best_of(hits, tiers).contains(h) {
            let i = choose|i: int|
                0 <= i < hits.len() && hits[i] == h && (#[trigger] tiers[i]).rank() == 0;
            assert(tiers[i] == MatchTier::Exact);
        }
        if exists|i: int|
            0 <= i < hits.len() && hits[i] == h && (#[trigger] tiers[i]) == MatchTier::Exact {
            let i = choose|i: int|
                0 <= i < hits.len() && hits[i] == h && (#[trigger] tiers[i]) == MatchTier::Exact;
            assert(tiers[i].rank() == 0);
        }
    }
}

proof fn lemma_at_rank_push<T>(
    hits: Seq<T>,
    tiers: Seq<MatchTier>,
    more: Seq<MatchTier>,
    rank: nat,
)
    requires
        hits.len() <= tiers.len(),
        hits.len() <= more.len(),
        forall|i: int| 0 <= i < hits.len() ==> #[trigger] tiers[i] == more[i],
    ensures
        at_rank(hits, tiers, rank) == at_rank(hits, more, rank),
    decreases hits.len(),
{
    if hits.len() > 0 {
        lemma_at_rank_push(hits.drop_last(), tiers, more, rank);
        assert(tiers[hits.len() - 1] == more[hits.len() - 1]);
    }
}

proof fn lemma_at_rank_without<T>(hits: Seq<T>, tiers: Seq<MatchTier>, at: int, rank: nat)
    requires
        hits.len() == tiers.len(),
        0 <= at < hits.len(),
        tiers[at].rank() != rank,
    ensures
        at_rank(hits.remove(at), tiers.remove(at), rank) == at_rank(hits, tiers, rank),
    decreases hits.len(),
{
    let last = hits.len() - 1;
    let h = hits.drop_last();
    let t = tiers.drop_last();
    lemma_at_rank_push(h, tiers, t, rank);
    if at == last {
        assert(hits.remove(at) =~= h);
        assert(tiers.remove(at) =~= t);
    } else {
        lemma_at_rank_without(h, t, at, rank);
        let fewer = hits.remove(at);
        let fewer_tiers = tiers.remove(at);
        assert(fewer.drop_last() =~= h.remove(at));
        assert(fewer_tiers.drop_last() =~= t.remove(at));
        lemma_at_rank_push(fewer.drop_last(), fewer_tiers, t.remove(at), rank);
        assert(fewer.last() == hits.last());
        assert(fewer_tiers[last - 1] == tiers[last]);
    }
}

/// Added leniency does not break a selector that works: a hit that another one
/// beats makes no difference to what is kept, wherever it stands.
pub proof fn law_looser_hits_make_no_difference<T>(hits: Seq<T>, tiers: Seq<MatchTier>, at: int)
    requires
        hits.len() == tiers.len(),
        0 <= at < hits.len(),
        tiers[at].rank() > best_rank(tiers),
    ensures
        best_of(hits.remove(at), tiers.remove(at)) == best_of(hits, tiers),
{
    lemma_best_rank_is_least(tiers);
    let k = choose|i: int|
        0 <= i < tiers.len() && best_rank(tiers) == (#[trigger] tiers[i]).rank();
    let fewer = tiers.remove(at);
    let j = if k < at {
        k
    } else {
        k - 1
    };
    assert(fewer[j] == tiers[k]);
    lemma_best_rank_is_least(fewer);
    let m = choose|i: int|
        0 <= i < fewer.len() && best_rank(fewer) == (#[trigger] fewer[i]).rank();
    assert(fewer[m] == tiers[if m < at {
        m
    } else {
        m + 1
    }]);
    assert(best_rank(fewer) == best_rank(tiers));
    lemma_at_rank_without(hits, tiers, at, best_rank(tiers));
}

// White space

/// A word: not empty, without white space, and nothing of it is invisible.
pub open spec fn is_word(w: Seq<char>) -> bool {
    &&& w.len() > 0
    &&& forall|i: int| 0 <= i < w.len() ==> !white(#[trigger] w[i]) && !zero_width(w[i])
}

proof fn lemma_visible_has_no_zero_width(s: Seq<char>)
    ensures
        forall|i: int| 0 <= i < visible(s).len() ==> !zero_width(#[trigger] visible(s)[i]),
    decreases s.len(),
{
    if s.len() > 0 {
        let earlier = visible(s.drop_last());
        lemma_visible_has_no_zero_width(s.drop_last());
        assert forall|i: int| 0 <= i < visible(s).len() implies !zero_width(
            #[trigger] visible(s)[i],
        ) by {
            if i < earlier.len() {
                assert(visible(s)[i] == earlier[i]);
            }
        }
    }
}

proof fn lemma_nothing_to_hide(s: Seq<char>)
    requires
        forall|i: int| 0 <= i < s.len() ==> !zero_width(#[trigger] s[i]),
    ensures
        visible(s) == s,
    decreases s.len(),
{
    if s.len() > 0 {
        lemma_nothing_to_hide(s.drop_last());
        assert(!zero_width(s[s.len() - 1]));
        assert(s.drop_last().push(s.last()) =~= s);
    }
}

proof fn lemma_words_are_words(s: Seq<char>)
    requires
        forall|i: int| 0 <= i < s.len() ==> !zero_width(#[trigger] s[i]),
    ensures
        forall|k: int| 0 <= k < words(s).len() ==> is_word(#[trigger] words(s)[k]),
    decreases s.len(),
{
    if s.len() == 0 {
        assert(words(s).len() == 0);
    } else if white(s.first()) {
        let rest = s.drop_first();
        lemma_words_are_words(rest);
        assert(words(s) == words(rest));
        assert forall|k: int| 0 <= k < words(s).len() implies is_word(#[trigger] words(s)[k]) by {
            assert(is_word(words(rest)[k]));
        }
    } else {
        lemma_word_len(s);
        let n = word_len(s) as int;
        let rest = words(s.skip(n));
        lemma_words_are_words(s.skip(n));
        assert(is_word(s.take(n)));
        assert forall|k: int| 0 <= k < words(s).len() implies is_word(#[trigger] words(s)[k]) by {
            if k > 0 {
                assert(words(s)[k] == rest[k - 1]);
            } else {
                assert(words(s)[k] == s.take(n));
            }
        }
    }
}

proof fn lemma_word_len_of(w: Seq<char>, rest: Seq<char>)
    requires
        forall|i: int| 0 <= i < w.len() ==> !white(#[trigger] w[i]),
        rest.len() > 0 ==> white(rest[0]),
    ensures
        word_len(w + rest) == w.len(),
    decreases w.len(),
{
    if w.len() == 0 {
        assert(w + rest =~= rest);
    } else {
        assert((w + rest).first() == w[0]);
        assert((w + rest).drop_first() =~= w.drop_first() + rest);
        assert forall|i: int| 0 <= i < w.drop_first().len() implies !white(
            #[trigger] w.drop_first()[i],
        ) by {
            assert(w.drop_first()[i] == w[i + 1]);
        }
        lemma_word_len_of(w.drop_first(), rest);
    }
}

proof fn lemma_words_append(s: Seq<char>, w: Seq<char>)
    requires
        is_word(w),
    ensures
        words(s.push(' ') + w) == words(s).push(w),
    decreases s.len(),
{
    let t = s.push(' ') + w;
    if s.len() == 0 {
        assert(t.first() == ' ');
        assert(t.drop_first() =~= w);
        assert(w + Seq::<char>::empty() =~= w);
        lemma_word_len_of(w, Seq::<char>::empty());
        assert(w.take(w.len() as int) =~= w);
        assert(words(w.skip(w.len() as int)) =~= seq![]);
        assert(!white(w[0]));
        assert(words(w) =~= seq![w]);
        assert(words(s).push(w) =~= seq![w]);
    } else if white(s.first()) {
        assert(t.first() == s.first());
        assert(t.drop_first() =~= s.drop_first().push(' ') + w);
        lemma_words_append(s.drop_first(), w);
    } else {
        assert(t.first() == s.first());
        lemma_word_len(s);
        let n = word_len(s) as int;
        let rest = s.skip(n).push(' ') + w;
        assert(t =~= s.take(n) + rest);
        assert forall|i: int| 0 <= i < s.take(n).len() implies !white(#[trigger] s.take(n)[i]) by {
            assert(s.take(n)[i] == s[i]);
        }
        assert(white(rest[0])) by {
            if n < s.len() {
                assert(rest[0] == s[n]);
            } else {
                assert(rest[0] == ' ');
            }
        }
        lemma_word_len_of(s.take(n), rest);
        assert(t.take(n) =~= s.take(n));
        assert(t.skip(n) =~= rest);
        lemma_words_append(s.skip(n), w);
        assert(words(t) =~= words(s).push(w));
    }
}

proof fn lemma_words_of_joined(ws: Seq<Seq<char>>)
    requires
        forall|k: int| 0 <= k < ws.len() ==> is_word(#[trigger] ws[k]),
    ensures
        words(joined(ws)) == ws,
        forall|i: int| 0 <= i < joined(ws).len() ==> !zero_width(#[trigger] joined(ws)[i]),
    decreases ws.len(),
{
    if ws.len() == 0 {
        assert(words(joined(ws)) =~= ws);
    } else if ws.len() == 1 {
        let w = ws[0];
        assert(is_word(w));
        assert(w + Seq::<char>::empty() =~= w);
        lemma_word_len_of(w, Seq::<char>::empty());
        assert(w.take(w.len() as int) =~= w);
        assert(words(w.skip(w.len() as int)) =~= seq![]);
        assert(!white(w[0]));
        assert(words(w) =~= ws);
    } else {
        let rest = ws.drop_last();
        assert forall|k: int| 0 <= k < rest.len() implies is_word(#[trigger] rest[k]) by {
            assert(rest[k] == ws[k]);
        }
        lemma_words_of_joined(rest);
        assert(is_word(ws[ws.len() - 1]));
        lemma_words_append(joined(rest), ws.last());
        assert(rest.push(ws.last()) =~= ws);
        assert forall|i: int| 0 <= i < joined(ws).len() implies !zero_width(
            #[trigger] joined(ws)[i],
        ) by {
            let n = joined(rest).len();
            if i < n {
                assert(joined(ws)[i] == joined(rest)[i]);
            } else if i > n {
                assert(joined(ws)[i] == ws.last()[i - n - 1]);
            }
        }
    }
}

/// Collapsing white space is done once and for all: a collapsed label holds
/// the same words, nothing invisible, and collapses to itself.
pub proof fn law_collapsing_is_idempotent(s: Seq<char>)
    ensures
        collapsed(collapsed(s)) == collapsed(s),
        words(collapsed(s)) == words(visible(s)),
        visible(collapsed(s)) == collapsed(s),
{
    lemma_visible_has_no_zero_width(s);
    lemma_words_are_words(visible(s));
    lemma_words_of_joined(words(visible(s)));
    lemma_nothing_to_hide(collapsed(s));
}

/// White space is nothing but single spaces between what can be seen.
pub open spec fn tidy(s: Seq<char>) -> bool {
    forall|i: int|
        0 <= i < s.len() && white(#[trigger] s[i]) ==> {
            &&& s[i] == ' '
            &&& 0 < i < s.len() - 1
            &&& !white(s[i - 1])
            &&& !white(s[i + 1])
        }
}

proof fn lemma_joined_is_tidy(ws: Seq<Seq<char>>)
    requires
        forall|k: int| 0 <= k < ws.len() ==> is_word(#[trigger] ws[k]),
    ensures
        tidy(joined(ws)),
        ws.len() > 0 ==> joined(ws).len() > 0,
    decreases ws.len(),
{
    if ws.len() == 1 {
        assert(is_word(ws[0]));
    } else if ws.len() > 1 {
        let rest = ws.drop_last();
        assert forall|k: int| 0 <= k < rest.len() implies is_word(#[trigger] rest[k]) by {
            assert(rest[k] == ws[k]);
        }
        lemma_joined_is_tidy(rest);
        let w = ws.last();
        assert(is_word(ws[ws.len() - 1]));
        let head = joined(rest);
        let n = head.len() as int;
        let all = joined(ws);
        assert forall|i: int| 0 <= i < all.len() && white(#[trigger] all[i]) implies {
            &&& all[i] == ' '
            &&& 0 < i < all.len() - 1
            &&& !white(all[i - 1])
            &&& !white(all[i + 1])
        } by {
            if i < n {
                assert(all[i] == head[i]);
                assert(all[i - 1] == head[i - 1] && all[i + 1] == head[i + 1]);
            } else if i == n {
                assert(all[i - 1] == head[n - 1]);
                assert(!white(head[n - 1]));
                assert(all[i + 1] == w[0]);
            } else {
                assert(all[i] == w[i - n - 1]);
            }
        }
    }
}

/// A collapsed label is tidy: no white space at either end, and between two
/// words a single space.
pub proof fn law_a_collapsed_label_is_tidy(s: Seq<char>)
    ensures
        tidy(collapsed(s)),
        collapsed(s).len() > 0 ==> !white(collapsed(s).first()) && !white(collapsed(s).last()),
{
    lemma_visible_has_no_zero_width(s);
    lemma_words_are_words(visible(s));
    lemma_joined_is_tidy(words(visible(s)));
}

/// Spelling and spacing do not matter to the normal form: labels whose
/// compatibility forms hold the same visible words have the same one.
pub proof fn law_the_same_words_normalise_alike(a: Seq<char>, b: Seq<char>)
    requires
        words(visible(nfkc(a))) == words(visible(nfkc(b))),
    ensures
        normalized(a) == normalized(b),
{
}

/// Labels with the same compatibility form have the same normal form.
pub proof fn law_one_compatibility_form_is_one_normal_form(a: Seq<char>, b: Seq<char>)
    requires
        nfkc(a) == nfkc(b),
    ensures
        normalized(a) == normalized(b),
{
}

proof fn lemma_trim_start(s: Seq<char>)
    ensures
        trim_start(s).len() > 0 ==> !white(trim_start(s).first()),
    decreases s.len(),
{
    if s.len() > 0 && white(s.first()) {
        lemma_trim_start(s.drop_first());
    }
}

proof fn lemma_trim_end(s: Seq<char>)
    ensures
        trim_end(s).len() <= s.len(),
        trim_end(s).len() > 0 ==> !white(trim_end(s).last()) && trim_end(s).first() == s.first(),
    decreases s.len(),
{
    if s.len() > 0 && white(s.last()) {
        lemma_trim_end(s.drop_last());
    }
}

/// Folding looks past the white space around a label: trimming it first makes
/// no difference, and neither does trimming it twice.
pub proof fn law_folding_looks_past_surrounding_space(s: Seq<char>)
    ensures
        trim(trim(s)) == trim(s),
        folded(trim(s)) == folded(s),
{
    lemma_trim_start(s);
    lemma_trim_end(trim_start(s));
}

// What follows once more is known of lowercasing
//
// Lowercasing is the standard library's. What it makes of a string is named and
// not described, so the laws below say what they need of it.

/// Nothing invisible, and white space only as single spaces between what can be
/// seen.
pub open spec fn neat(s: Seq<char>) -> bool {
    tidy(s) && forall|i: int| 0 <= i < s.len() ==> !zero_width(#[trigger] s[i])
}

/// Neither end is white space.
pub open spec fn bare_ends(s: Seq<char>) -> bool {
    s.len() > 0 ==> !white(s.first()) && !white(s.last())
}

/// Lowercasing `s` a second time changes nothing.
pub open spec fn settles(s: Seq<char>) -> bool {
    lowercase(lowercase(s)) == lowercase(s)
}

/// A normal form is neat, if lowercasing leaves a neat text neat: it holds no
/// zero-width character, no white space at either end, and between two words a
/// single space.
pub proof fn law_a_normal_form_is_neat(s: Seq<char>)
    requires
        neat(collapsed(nfkc(s))) ==> neat(lowercase(collapsed(nfkc(s)))),
    ensures
        neat(normalized(s)),
        bare_ends(normalized(s)),
{
    let form = nfkc(s);
    law_a_collapsed_label_is_tidy(form);
    lemma_visible_has_no_zero_width(form);
    lemma_words_are_words(visible(form));
    lemma_words_of_joined(words(visible(form)));
    let n = normalized(s);
    if n.len() > 0 {
        assert(!white(n[0]));
        assert(!white(n[n.len() - 1]));
    }
}

/// A normal form is in lower case, if lowercasing settles it.
pub proof fn law_a_normal_form_is_in_lower_case(s: Seq<char>)
    requires
        settles(collapsed(nfkc(s))),
    ensures
        lowercase(normalized(s)) == normalized(s),
{
}

/// Folding case twice is folding it once, if lowercasing settles the trimmed
/// label and leaves its ends bare.
pub proof fn law_folding_case_is_idempotent(s: Seq<char>)
    requires
        settles(trim(s)),
        bare_ends(trim(s)) ==> bare_ends(lowercase(trim(s))),
    ensures
        folded(folded(s)) == folded(s),
{
    lemma_trim_start(s);
    lemma_trim_end(trim_start(s));
    assert(trim(folded(s)) == folded(s));
}

// The pieces that the ladder is made of

/// Trimming takes the white space off both ends, all of it and nothing else.
pub proof fn law_trimming_takes_the_white_ends(s: Seq<char>) -> (ends: (int, int))
    ensures
        0 <= ends.0 <= ends.1 <= s.len(),
        trim(s) == s.subrange(ends.0, ends.1),
        forall|i: int| 0 <= i < ends.0 || ends.1 <= i < s.len() ==> white(#[trigger] s[i]),
        ends.0 < ends.1 ==> !white(s[ends.0]) && !white(s[ends.1 - 1]),
{
    let from = lemma_start_is_white(s);
    let t = trim_start(s);
    let len = lemma_end_is_white(t);
    assert(trim(s) =~= s.subrange(from, from + len));
    assert forall|i: int| 0 <= i < from || from + len <= i < s.len() implies white(
        #[trigger] s[i],
    ) by {
        if i >= from + len {
            assert(t[i - from] == s[i]);
        }
    }
    if len > 0 {
        assert(t[0] == s[from]);
        assert(t[len - 1] == s[from + len - 1]);
    }
    (from, from + len)
}

proof fn lemma_start_is_white(s: Seq<char>) -> (from: int)
    ensures
        0 <= from <= s.len(),
        trim_start(s) == s.skip(from),
        forall|i: int| 0 <= i < from ==> white(#[trigger] s[i]),
        from < s.len() ==> !white(s[from]),
    decreases s.len(),
{
    if s.len() > 0 && white(s.first()) {
        let r = s.drop_first();
        let from = lemma_start_is_white(r);
        assert(r.skip(from) =~= s.skip(from + 1));
        assert forall|i: int| 0 <= i < from + 1 implies white(#[trigger] s[i]) by {
            if i > 0 {
                assert(r[i - 1] == s[i]);
            }
        }
        if from < r.len() {
            assert(r[from] == s[from + 1]);
        }
        from + 1
    } else {
        assert(s.skip(0) =~= s);
        0
    }
}

proof fn lemma_end_is_white(s: Seq<char>) -> (len: int)
    ensures
        0 <= len <= s.len(),
        trim_end(s) == s.take(len),
        forall|i: int| len <= i < s.len() ==> white(#[trigger] s[i]),
        len > 0 ==> !white(s[len - 1]),
    decreases s.len(),
{
    if s.len() > 0 && white(s.last()) {
        let r = s.drop_last();
        let len = lemma_end_is_white(r);
        assert(r.take(len) =~= s.take(len));
        assert forall|i: int| len <= i < s.len() implies white(#[trigger] s[i]) by {
            if i < r.len() {
                assert(r[i] == s[i]);
            }
        }
        len
    } else {
        assert(s.take(s.len() as int) =~= s);
        s.len() as int
    }
}

/// White space is what Unicode calls so: the ASCII controls from tab to carriage
/// return, the space, next line, the no-break space, the Ogham space mark, the
/// spaces from en quad to hair space, the line and the paragraph separator, the
/// narrow no-break and the mathematical space, and the ideographic space.
pub proof fn law_white_space_is_unicodes(c: char)
    ensures
        white(c) <==> ({
            let n = c as int;
            9 <= n <= 13 || n == 32 || n == 133 || n == 160 || n == 5760 || 8192 <= n <= 8202 || n
                == 8232 || n == 8233 || n == 8239 || n == 8287 || n == 12288
        }),
{
}

/// What is invisible is left out, and nothing else: zero-width space, non-joiner,
/// joiner and byte order mark.
pub proof fn law_only_what_is_invisible_is_left_out(s: Seq<char>)
    ensures
        visible(s) == s.filter(
            |c: char| c as int != 0x200b && c as int != 0x200c && c as int != 0x200d && c as int
                != 0xfeff,
        ),
    decreases s.len(),
{
    let keep = |c: char|
        c as int != 0x200b && c as int != 0x200c && c as int != 0x200d && c as int != 0xfeff;
    reveal(Seq::filter);
    if s.len() > 0 {
        law_only_what_is_invisible_is_left_out(s.drop_last());
    }
}

/// A text is split at its white space, at every piece of it and nowhere else.
pub proof fn law_words_are_split_at_white_space(a: Seq<char>, c: char, b: Seq<char>)
    requires
        white(c),
    ensures
        words(a.push(c) + b) == words(a) + words(b),
        a.len() > 0 && (forall|i: int| 0 <= i < a.len() ==> !white(#[trigger] a[i])) ==> words(a)
            == seq![a],
        words(Seq::<char>::empty()) == Seq::<Seq<char>>::empty(),
    decreases a.len(),
{
    let all = a.push(c) + b;
    assert(words(Seq::<char>::empty()) =~= Seq::<Seq<char>>::empty());
    if a.len() == 0 {
        assert(all.first() == c);
        assert(all.drop_first() =~= b);
        assert(words(a) + words(b) =~= words(b)) by {
            assert(a =~= Seq::<char>::empty());
        }
    } else if white(a.first()) {
        assert(all.first() == a.first());
        assert(all.drop_first() =~= a.drop_first().push(c) + b);
        law_words_are_split_at_white_space(a.drop_first(), c, b);
    } else {
        lemma_word_len(a);
        let n = word_len(a) as int;
        let rest = a.skip(n).push(c) + b;
        assert(all =~= a.take(n) + rest);
        assert forall|i: int| 0 <= i < a.take(n).len() implies !white(#[trigger] a.take(n)[i]) by {
            assert(a.take(n)[i] == a[i]);
        }
        assert(white(rest[0])) by {
            if n < a.len() {
                assert(rest[0] == a[n]);
            } else {
                assert(rest[0] == c);
            }
        }
        lemma_word_len_of(a.take(n), rest);
        assert(all.first() == a.first());
        assert(all.take(n) =~= a.take(n));
        assert(all.skip(n) =~= rest);
        law_words_are_split_at_white_space(a.skip(n), c, b);
        assert(words(all) =~= words(a) + words(b));
        if forall|i: int| 0 <= i < a.len() ==> !white(#[trigger] a[i]) {
            assert(n == a.len());
            assert(a.take(n) =~= a);
            assert(a.skip(n) =~= Seq::<char>::empty());
            assert(words(a) =~= seq![a]);
        }
    }
}

/// Words are joined by single spaces.
pub proof fn law_words_are_joined_by_single_spaces(a: Seq<Seq<char>>, b: Seq<Seq<char>>)
    requires
        a.len() > 0,
        b.len() > 0,
    ensures
        joined(a + b) == joined(a).push(' ') + joined(b),
        a.len() == 1 ==> joined(a) == a[0],
    decreases b.len(),
{
    let all = a + b;
    assert(all.drop_last() =~= a + b.drop_last());
    assert(all.last() == b.last());
    if b.len() == 1 {
        assert(a + b.drop_last() =~= a);
        assert(b[0] == b.last());
    } else {
        law_words_are_joined_by_single_spaces(a, b.drop_last());
        assert(joined(all) =~= joined(a).push(' ') + joined(b));
    }
}

/// An access key is marked by a single ampersand, which goes; what stands before
/// the first one stays, and two in a row are one that is meant.
pub proof fn law_a_single_ampersand_marks_an_access_key(a: Seq<char>, c: char, b: Seq<char>)
    requires
        forall|i: int| 0 <= i < a.len() ==> #[trigger] a[i] != '&',
    ensures
        without_access_keys(a) == a,
        without_access_keys(a + b) == a + without_access_keys(b),
        c != '&' ==> without_access_keys(seq!['&', c] + b) == seq![c] + without_access_keys(b),
        without_access_keys(seq!['&', '&'] + b) == seq!['&'] + without_access_keys(b),
        without_access_keys(seq!['&']).len() == 0,
    decreases a.len(),
{
    reveal_with_fuel(without_access_keys, 3);
    let one = seq!['&', c] + b;
    assert(one[0] == '&' && one[1] == c);
    assert(one.skip(1) =~= seq![c] + b);
    assert((seq![c] + b).skip(1) =~= b);
    let two = seq!['&', '&'] + b;
    assert(two.skip(2) =~= b);
    assert(seq!['&'].skip(1) =~= Seq::<char>::empty());
    if a.len() == 0 {
        assert(a + b =~= b);
        assert(a + without_access_keys(b) =~= without_access_keys(b));
    } else {
        let rest = a.skip(1);
        assert forall|i: int| 0 <= i < rest.len() implies #[trigger] rest[i] != '&' by {
            assert(rest[i] == a[i + 1]);
        }
        law_a_single_ampersand_marks_an_access_key(rest, c, b);
        assert((a + b).skip(1) =~= rest + b);
        assert(seq![a[0]] + rest =~= a);
        assert(seq![a[0]] + (rest + without_access_keys(b)) =~= a + without_access_keys(b));
    }
}

/// A trailing mnemonic is one ASCII letter in parentheses behind something else:
/// it comes off with the white space around it, and nothing else does.
pub proof fn law_a_mnemonic_is_a_letter_in_parentheses(s: Seq<char>, label: Seq<char>, key: char)
    ensures
        trim_end(s) == label + seq!['(', key, ')'] && label.len() > 0 && ('a' <= key <= 'z' || 'A'
            <= key <= 'Z') ==> without_mnemonic(s) == trim_end(label),
        without_mnemonic(s) != s ==> ({
            let t = trim_end(s);
            let n = t.len() as int;
            n >= 4 && t[n - 3] == '(' && ('a' <= t[n - 2] <= 'z' || 'A' <= t[n - 2] <= 'Z') && t[n
                - 1] == ')' && without_mnemonic(s) == trim_end(t.take(n - 3))
        }),
{
    let t = trim_end(s);
    if t == label + seq!['(', key, ')'] {
        assert(t.take(t.len() - 3) =~= label);
    }
}

/// A trailing ellipsis, as one character or as three full stops, comes off with
/// the white space around it, and nothing else does.
pub proof fn law_an_ellipsis_comes_off(s: Seq<char>, label: Seq<char>)
    ensures
        trim_end(s) == label.push('\u{2026}') ==> without_ellipsis(s) == trim_end(label),
        trim_end(s) == label + seq!['.', '.', '.'] ==> without_ellipsis(s) == trim_end(label),
        without_ellipsis(s) != s ==> ({
            let t = trim_end(s);
            let n = t.len() as int;
            ||| n >= 1 && t[n - 1] == '\u{2026}' && without_ellipsis(s) == trim_end(t.take(n - 1))
            ||| n >= 3 && t[n - 1] == '.' && t[n - 2] == '.' && t[n - 3] == '.'
                && without_ellipsis(s) == trim_end(t.take(n - 3))
        }),
{
    let t = trim_end(s);
    if t == label.push('\u{2026}') {
        assert(t.take(t.len() - 1) =~= label);
    }
    if t == label + seq!['.', '.', '.'] {
        assert(t.take(t.len() - 3) =~= label);
    }
}

/// Peeling goes on for as long as a mnemonic or an ellipsis comes off, and takes
/// off nothing else.
pub proof fn law_peeling_takes_off_decoration_only(s: Seq<char>)
    ensures
        without_ellipsis(without_mnemonic(s)).len() < s.len() ==> peeled(s) == peeled(
            without_ellipsis(without_mnemonic(s)),
        ),
        without_ellipsis(without_mnemonic(s)).len() >= s.len() ==> peeled(s) == s,
{
}

/// The form without decoration is the normal form of the label without its access
/// keys, peeled.
pub proof fn law_decoration_is_taken_off_the_normal_form(s: Seq<char>)
    ensures
        stripped(s) == peeled(lowercase(collapsed(nfkc(without_access_keys(s))))),
{
}

/// The ladder has four rungs, and two labels meet on the first that they share:
/// as they are but for surrounding white space; in lower case; in the normal
/// form; and without decoration, if anything is left then.
pub proof fn law_labels_meet_on_the_first_rung(a: Seq<char>, b: Seq<char>)
    ensures
        ({
            let exact = trim(a) == trim(b);
            let case = lowercase(trim(a)) == lowercase(trim(b));
            let normal = lowercase(collapsed(nfkc(a))) == lowercase(collapsed(nfkc(b)));
            let affix = stripped(a) == stripped(b) && stripped(a).len() > 0;
            &&& tier(a, b) == Some(MatchTier::Exact) <==> exact
            &&& tier(a, b) == Some(MatchTier::Case) <==> !exact && case
            &&& tier(a, b) == Some(MatchTier::Normalized) <==> !exact && !case && normal
            &&& tier(a, b) == Some(MatchTier::Affix) <==> !exact && !case && !normal && affix
            &&& tier(a, b) is None <==> !exact && !case && !normal && !affix
        }),
{
}

/// A tighter rung ranks before a looser one.
pub proof fn law_the_rungs_are_in_order()
    ensures
        MatchTier::Exact.rank() < MatchTier::Case.rank(),
        MatchTier::Case.rank() < MatchTier::Normalized.rank(),
        MatchTier::Normalized.rank() < MatchTier::Affix.rank(),
        MatchTier::Affix.rank() < MatchTier::Confusable.rank(),
{
}

/// A fragment is found as it is, in lower case, or in the normal form, whichever
/// comes first; a fragment without anything to see is found nowhere.
pub proof fn law_a_fragment_is_found_on_the_first_rung(h: Seq<char>, n: Seq<char>)
    ensures
        ({
            let some = trim(n).len() > 0;
            let exact = some && occurs(h, trim(n));
            let case = some && occurs(lowercase(trim(h)), lowercase(trim(n)));
            let normal = some && occurs(
                lowercase(collapsed(nfkc(h))),
                lowercase(collapsed(nfkc(n))),
            );
            &&& fragment_tier(h, n) == Some(MatchTier::Exact) <==> exact
            &&& fragment_tier(h, n) == Some(MatchTier::Case) <==> !exact && case
            &&& fragment_tier(h, n) == Some(MatchTier::Normalized) <==> !exact && !case && normal
            &&& fragment_tier(h, n) is None <==> !exact && !case && !normal
        }),
{
}

/// Text stands in a text where all its characters do, one after the other.
pub proof fn law_text_occurs_character_by_character(hay: Seq<char>, needle: Seq<char>)
    ensures
        occurs(hay, needle) <==> exists|at: int|
            0 <= at <= hay.len() - needle.len() && #[trigger] agrees_from(hay, needle, at),
{
    if occurs(hay, needle) {
        let at = choose|at: int| crate::chars::occurs_at(hay, needle, at);
        assert forall|i: int| 0 <= i < needle.len() implies hay[at + i] == #[trigger] needle[i] by {
            assert(hay.subrange(at, at + needle.len())[i] == hay[at + i]);
        }
        assert(agrees_from(hay, needle, at));
    }
    if exists|at: int|
        0 <= at <= hay.len() - needle.len() && #[trigger] agrees_from(hay, needle, at) {
        let at = choose|at: int|
            0 <= at <= hay.len() - needle.len() && #[trigger] agrees_from(hay, needle, at);
        assert(hay.subrange(at, at + needle.len()) =~= needle);
        assert(crate::chars::occurs_at(hay, needle, at));
    }
}

/// From `at` on the characters of `hay` are those of `needle`.
pub open spec fn agrees_from(hay: Seq<char>, needle: Seq<char>, at: int) -> bool {
    forall|i: int| 0 <= i < needle.len() ==> hay[at + i] == #[trigger] needle[i]
}

/// Comparing without regard to ASCII case changes the letters from A to Z and
/// nothing else.
pub proof fn law_ascii_lowering_changes_capitals_only(s: Seq<char>, i: int)
    requires
        0 <= i < s.len(),
    ensures
        ascii_lowered(s).len() == s.len(),
        'A' <= s[i] <= 'Z' ==> ascii_lowered(s)[i] as int == s[i] as int + 32,
        !('A' <= s[i] <= 'Z') ==> ascii_lowered(s)[i] == s[i],
{
}

proof fn lemma_picked<T>(hits: Seq<T>, tiers: Seq<MatchTier>, rank: nat) -> (at: Seq<int>)
    requires
        hits.len() <= tiers.len(),
    ensures
        at.len() == at_rank(hits, tiers, rank).len(),
        forall|k: int|
            0 <= k < at.len() ==> 0 <= #[trigger] at[k] < hits.len() && at_rank(
                hits,
                tiers,
                rank,
            )[k] == hits[at[k]] && tiers[at[k]].rank() == rank,
        forall|k: int, m: int| 0 <= k < m < at.len() ==> #[trigger] at[k] < #[trigger] at[m],
        forall|i: int|
            0 <= i < hits.len() && (#[trigger] tiers[i]).rank() == rank ==> at.contains(i),
    decreases hits.len(),
{
    if hits.len() == 0 {
        seq![]
    } else {
        let n = hits.len() - 1;
        let before = lemma_picked(hits.drop_last(), tiers, rank);
        if tiers[n].rank() == rank {
            let at = before.push(n);
            assert forall|i: int|
                0 <= i < hits.len() && (#[trigger] tiers[i]).rank() == rank implies at.contains(
                i,
            ) by {
                if i < n {
                    assert(before.contains(i));
                    let k = choose|k: int| 0 <= k < before.len() && before[k] == i;
                    assert(at[k] == i);
                } else {
                    assert(at[before.len() as int] == i);
                }
            }
            at
        } else {
            before
        }
    }
}

/// The best hits are kept in the order in which they were found, each once: what
/// is kept are the hits at certain places, in order, and those places are the
/// ones whose tier no other beats.
pub proof fn law_the_best_hits_keep_their_order<T>(hits: Seq<T>, tiers: Seq<MatchTier>) -> (at: Seq<
    int,
>)
    requires
        hits.len() == tiers.len(),
        hits.len() > 0,
    ensures
        at.len() == best_of(hits, tiers).len(),
        at.len() > 0,
        forall|k: int|
            0 <= k < at.len() ==> 0 <= #[trigger] at[k] < hits.len() && best_of(hits, tiers)[k]
                == hits[at[k]],
        forall|k: int, m: int| 0 <= k < m < at.len() ==> #[trigger] at[k] < #[trigger] at[m],
        forall|i: int|
            0 <= i < hits.len() ==> (at.contains(i) <==> forall|j: int|
                0 <= j < hits.len() ==> (#[trigger] tiers[i]).rank() <= (
                #[trigger] tiers[j]).rank()),
{
    lemma_best_rank_is_least(tiers);
    let at = lemma_picked(hits, tiers, best_rank(tiers));
    law_the_best_hits_are_kept(hits, tiers);
    let least = choose|i: int|
        0 <= i < tiers.len() && best_rank(tiers) == (#[trigger] tiers[i]).rank();
    assert forall|i: int| 0 <= i < hits.len() implies (at.contains(i) <==> forall|j: int|
        0 <= j < hits.len() ==> (#[trigger] tiers[i]).rank() <= (#[trigger] tiers[j]).rank()) by {
        if at.contains(i) {
            let k = choose|k: int| 0 <= k < at.len() && at[k] == i;
            assert(tiers[at[k]].rank() == best_rank(tiers));
        } else {
            assert(tiers[i].rank() != best_rank(tiers));
            assert(tiers[i].rank() > tiers[least].rank());
        }
    }
    at
}

/// A cap keeps the first, as many as it allows and there are.
pub proof fn law_a_cap_keeps_the_first<T>(s: Seq<T>, max: nat)
    ensures
        capped(s, max).len() <= max,
        capped(s, max).len() == max || capped(s, max).len() == s.len(),
        capped(s, max).len() <= s.len(),
        forall|i: int| 0 <= i < capped(s, max).len() ==> #[trigger] capped(s, max)[i] == s[i],
{
}

// What callers get

/// Two labels are compared rung by rung: as they are but for surrounding white
/// space, in lower case, in the normal form, and without decoration.
pub proof fn law_labels_are_compared_rung_by_rung(a: &str, b: &str, r: Option<MatchTier>)
    requires
        call_ensures(tier_of, (a, b), r),
    ensures
        ({
            let exact = trim(a@) == trim(b@);
            let case = lowercase(trim(a@)) == lowercase(trim(b@));
            let normal = lowercase(collapsed(nfkc(a@))) == lowercase(collapsed(nfkc(b@)));
            let affix = stripped(a@) == stripped(b@) && stripped(a@).len() > 0;
            &&& r == Some(MatchTier::Exact) <==> exact
            &&& r == Some(MatchTier::Case) <==> !exact && case
            &&& r == Some(MatchTier::Normalized) <==> !exact && !case && normal
            &&& r == Some(MatchTier::Affix) <==> !exact && !case && !normal && affix
            &&& r is None <==> !exact && !case && !normal && !affix
        }),
{
    law_labels_meet_on_the_first_rung(a@, b@);
}

/// A fragment is looked for rung by rung: as it is, in lower case, and in the
/// normal form.
pub proof fn law_a_fragment_is_looked_for_rung_by_rung(h: &str, n: &str, r: Option<MatchTier>)
    requires
        call_ensures(contains_tier, (h, n), r),
    ensures
        ({
            let some = trim(n@).len() > 0;
            let exact = some && occurs(h@, trim(n@));
            let case = some && occurs(lowercase(trim(h@)), lowercase(trim(n@)));
            let normal = some && occurs(
                lowercase(collapsed(nfkc(h@))),
                lowercase(collapsed(nfkc(n@))),
            );
            &&& r == Some(MatchTier::Exact) <==> exact
            &&& r == Some(MatchTier::Case) <==> !exact && case
            &&& r == Some(MatchTier::Normalized) <==> !exact && !case && normal
            &&& r is None <==> !exact && !case && !normal
        }),
{
    law_a_fragment_is_found_on_the_first_rung(h@, n@);
}

/// The forms of a label are made as they are compared: lowering after trimming,
/// and lowering the words of the compatibility form after joining them.
pub proof fn law_forms_are_made_step_by_step(
    s: &str,
    case: String,
    tidy: String,
    normal: String,
    bare: String,
    plain: String,
    core: String,
)
    requires
        call_ensures(fold_case, (s,), case),
        call_ensures(collapse, (s,), tidy),
        call_ensures(normalize, (s,), normal),
        call_ensures(strip_access_keys, (s,), bare),
        call_ensures(strip_affixes, (s,), plain),
        call_ensures(peel, (s,), core),
    ensures
        case@ == lowercase(trim(s@)),
        tidy@ == joined(words(visible(s@))),
        normal@ == lowercase(joined(words(visible(nfkc(s@))))),
        bare@ == without_access_keys(s@),
        plain@ == peeled(lowercase(joined(words(visible(nfkc(without_access_keys(s@))))))),
        core@ == peeled(s@),
{
}

/// Decoration is taken off a label one piece at a time.
pub proof fn law_one_piece_of_decoration_comes_off(s: &[char], m: Vec<char>, e: Vec<char>)
    requires
        call_ensures(strip_mnemonic_suffix, (s,), m),
        call_ensures(strip_trailing_ellipsis, (s,), e),
    ensures
        m@ == without_mnemonic(s@),
        e@ == without_ellipsis(s@),
{
}

/// A tier is reported under its own name, and its level is its place on the
/// ladder.
pub proof fn law_a_tier_is_reported_by_its_name(t: MatchTier, name: &str, level: u8)
    requires
        call_ensures(MatchTier::as_str, (t,), name),
        call_ensures(MatchTier::level, (t,), level),
    ensures
        match t {
            MatchTier::Exact => name@ == "exact"@ && level == 0,
            MatchTier::Case => name@ == "case"@ && level == 1,
            MatchTier::Normalized => name@ == "normalized"@ && level == 2,
            MatchTier::Affix => name@ == "affix"@ && level == 3,
            MatchTier::Confusable => name@ == "confusable"@ && level == 4,
        },
{
}

} // verus!
