use wincrust::text::{
    collapse, contains_tier, fold_case, keep_best, normalize, peel, strip_access_keys,
    strip_affixes, strip_mnemonic_suffix, strip_trailing_ellipsis, tier_of, Forms, MatchTier,
};


// --- the four documented failures, each as the case that motivated it ---

#[test]
fn german_umlaut_folds_where_ascii_case_folding_could_not() {
    // ASCII case folding leaves Ö and ö distinct.
    assert!(!"Öffnen".eq_ignore_ascii_case("öffnen"));
    assert_eq!(tier_of("Öffnen", "öffnen"), Some(MatchTier::Case));
}

#[test]
fn vietnamese_matches_across_nfd_and_nfc() {
    // Typed on macOS (NFD) against a name reported by Windows (NFC).
    let nfc = "T\u{1ec7}p";
    let nfd = "Te\u{323}\u{302}p";
    assert_ne!(nfc, nfd, "the test is meaningless if these are equal");
    assert_eq!(tier_of(nfc, nfd), Some(MatchTier::Normalized));
}

#[test]
fn japanese_menu_matches_without_its_mnemonic() {
    assert_eq!(tier_of("ファイル(F)", "ファイル"), Some(MatchTier::Affix));
    assert_eq!(tier_of("文件(E)", "文件"), Some(MatchTier::Affix));
}

#[test]
fn full_width_latin_matches_half_width() {
    assert_eq!(tier_of("Ａ１", "a1"), Some(MatchTier::Normalized));
}

// --- the safety property the ladder exists to provide ---

#[test]
fn an_exact_match_suppresses_every_lenient_one() {
    // "Save" exists alongside "SAVE" and "&Save...". Without keep_best all
    // three match and the caller sees `ambiguous`; with it, only the exact
    // one survives and the click goes through.
    let mut hits = vec![
        ("SAVE", tier_of("SAVE", "Save").unwrap()),
        ("Save", tier_of("Save", "Save").unwrap()),
        ("&Save...", tier_of("&Save...", "Save").unwrap()),
    ];
    keep_best(&mut hits, |h| h.1);
    assert_eq!(hits.len(), 1);
    assert_eq!(hits[0].0, "Save");
    assert_eq!(hits[0].1, MatchTier::Exact);
}

#[test]
fn ambiguity_within_one_tier_is_preserved() {
    // keep_best narrows across tiers, never within one. Two genuinely
    // identical labels must still be reported as two.
    let mut hits = vec![
        ("Materials", MatchTier::Exact),
        ("Materials", MatchTier::Exact),
    ];
    keep_best(&mut hits, |h| h.1);
    assert_eq!(hits.len(), 2);
}

#[test]
fn keep_best_tolerates_an_empty_search() {
    let mut empty = Vec::<(&str, MatchTier)>::new();
    keep_best(&mut empty, |h| h.1);
    assert!(empty.is_empty());
}

// --- leniency has to stop somewhere ---

#[test]
fn a_parenthesised_digit_is_content_not_a_mnemonic() {
    // Abaqus really does show "Step (1)" and "Step (2)"; folding those
    // together would make the selector ambiguous on every real model.
    assert_eq!(tier_of("Step (1)", "Step"), None);
    assert_eq!(tier_of("Step (1)", "Step (2)"), None);
}

#[test]
fn distinct_labels_stay_distinct() {
    assert_eq!(tier_of("Materials", "Assembly"), None);
    assert_eq!(tier_of("Open", "Close"), None);
}

#[test]
fn decoration_alone_does_not_match_everything() {
    // Both sides reduce to "", which must not count as equal.
    assert_eq!(tier_of("&", "..."), None);
}

// --- normalisation details ---

#[test]
fn non_breaking_and_ideographic_spaces_collapse() {
    assert_eq!(
        tier_of("Save\u{a0}As", "Save As"),
        Some(MatchTier::Normalized)
    );
    assert_eq!(
        tier_of("\u{3000}Save\u{3000}As", "Save As"),
        Some(MatchTier::Normalized)
    );
}

#[test]
fn zero_width_characters_are_dropped() {
    assert_eq!(tier_of("Sa\u{200b}ve", "Save"), Some(MatchTier::Normalized));
}

#[test]
fn a_doubled_ampersand_is_a_literal_one() {
    assert_eq!(strip_access_keys("Fish && Chips"), "Fish & Chips");
    assert_eq!(strip_access_keys("&File"), "File");
    assert_eq!(strip_access_keys("E&xit"), "Exit");
}

#[test]
fn stacked_decoration_peels_completely() {
    assert_eq!(strip_affixes("&Save As...(a)"), "save as");
}

#[test]
fn whitespace_only_differences_are_exact_after_trim() {
    assert_eq!(tier_of("  Save  ", "Save"), Some(MatchTier::Exact));
}

#[test]
fn tiers_order_from_tightest_to_loosest() {
    assert!(MatchTier::Exact < MatchTier::Case);
    assert!(MatchTier::Case < MatchTier::Normalized);
    assert!(MatchTier::Normalized < MatchTier::Affix);
    assert!(MatchTier::Affix < MatchTier::Confusable);
}

// --- the OCR substring ladder ---

#[test]
fn ocr_substring_matches_across_case_and_composition() {
    assert_eq!(
        contains_tier("Edit Material", "Material"),
        Some(MatchTier::Exact)
    );
    assert_eq!(
        contains_tier("Edit Material", "material"),
        Some(MatchTier::Case)
    );
    assert_eq!(
        contains_tier("Ｍaterials", "materials"),
        Some(MatchTier::Normalized)
    );
}

#[test]
fn ocr_substring_rejects_an_empty_needle() {
    assert_eq!(contains_tier("anything", "   "), None);
}


// --- further cases ---

fn chars(s: &str) -> Vec<char> {
    s.chars().collect()
}

fn text(v: &[char]) -> String {
    v.iter().collect()
}

#[test]
fn each_tier_has_its_own_name() {
    assert_eq!(MatchTier::Exact.as_str(), "exact");
    assert_eq!(MatchTier::Case.as_str(), "case");
    assert_eq!(MatchTier::Normalized.as_str(), "normalized");
    assert_eq!(MatchTier::Affix.as_str(), "affix");
    assert_eq!(MatchTier::Confusable.as_str(), "confusable");
}

#[test]
fn folding_case_trims_and_lowers() {
    assert_eq!(fold_case("  ÖFFNEN "), "öffnen");
    assert_eq!(fold_case(""), "");
}

#[test]
fn normalising_composes_collapses_and_lowers() {
    assert_eq!(normalize("Ｆｕｌｌ\u{3000} Te\u{323}\u{302}p"), "full t\u{1ec7}p");
    assert_eq!(normalize(" A \t B\n"), "a b");
}

#[test]
fn collapsing_twice_changes_nothing_more() {
    let once = collapse("\u{200b} Save \u{a0} As\u{feff} ");
    assert_eq!(once, "Save As");
    assert_eq!(collapse(&once), once);
}

#[test]
fn a_collapsed_label_has_single_spaces_between_words() {
    assert_eq!(collapse("\u{2003}a\u{200d}\u{3000}\t b\n\u{85}c "), "a b c");
    assert_eq!(collapse(" \u{feff}\u{2028} "), "");
}

#[test]
fn labels_with_the_same_words_normalise_alike() {
    assert_eq!(normalize("Save\u{200b}  As"), normalize("\u{3000}\u{ff33}ave\u{a0}As"));
    assert_eq!(normalize("\u{fb01}le"), normalize("file"));
}

#[test]
fn folding_looks_past_surrounding_space() {
    assert_eq!(fold_case("\u{3000} Öffnen\n"), fold_case("Öffnen"));
}

/// Every character there is, one at a time and between two others.
#[test]
fn folding_case_twice_is_folding_it_once() {
    for c in '\0'..=char::MAX {
        let alone = fold_case(&format!("{c}"));
        assert_eq!(fold_case(&alone), alone, "{c:?}");
        let inside = fold_case(&format!(" A{c}\u{3a3} "));
        assert_eq!(fold_case(&inside), inside, "{c:?}");
    }
}

#[test]
fn a_normal_form_is_neat_and_in_lower_case() {
    let zero_width = |c| matches!(c, '\u{200b}' | '\u{200c}' | '\u{200d}' | '\u{feff}');
    for c in '\0'..=char::MAX {
        let n = normalize(&format!("\u{3000}X{c} \u{a0}\u{200b}Y\n"));
        assert!(!n.contains("  ") && n.trim() == n, "{c:?}: {n:?}");
        assert!(n.chars().all(|d| !zero_width(d) && (d == ' ' || !d.is_whitespace())), "{c:?}");
        assert_eq!(n.to_lowercase(), n, "{c:?}");
    }
    assert_eq!(normalize("\u{3000}Save \u{a0}As\n"), "save as");
}

#[test]
fn a_lone_ampersand_at_the_end_goes() {
    assert_eq!(strip_access_keys("Save&"), "Save");
    assert_eq!(strip_access_keys("&&&File"), "&File");
    assert_eq!(strip_access_keys("&"), "");
}

#[test]
fn doubled_ampersands_give_the_label_back() {
    assert_eq!(strip_access_keys("&&a&&&&b"), "&a&&b");
}

#[test]
fn a_mnemonic_needs_something_before_it() {
    assert_eq!(text(&strip_mnemonic_suffix(&chars("(f)"))), "(f)");
    assert_eq!(text(&strip_mnemonic_suffix(&chars("datei (f) "))), "datei");
    assert_eq!(text(&strip_mnemonic_suffix(&chars("step (1)"))), "step (1)");
}

#[test]
fn either_ellipsis_goes() {
    assert_eq!(text(&strip_trailing_ellipsis(&chars("save\u{2026}"))), "save");
    assert_eq!(text(&strip_trailing_ellipsis(&chars("save ... "))), "save");
    assert_eq!(text(&strip_trailing_ellipsis(&chars("save.."))), "save..");
}

#[test]
fn peeling_twice_changes_nothing_more() {
    let once = peel("save as...(a)");
    assert_eq!(once, "save as");
    assert_eq!(peel(&once), once);
}

#[test]
fn matching_is_symmetric_on_a_decorated_label() {
    assert_eq!(tier_of("&Save...", "Save"), Some(MatchTier::Affix));
    assert_eq!(tier_of("Save", "&Save..."), Some(MatchTier::Affix));
}

#[test]
fn the_tier_follows_from_the_forms() {
    let form = |t: &str, f: &str, n: &str, s: &str| Forms {
        trimmed: t.to_string(),
        folded: f.to_string(),
        normalized: n.to_string(),
        stripped: s.to_string(),
    };
    let a = form("A", "a", "a", "a");
    assert_eq!(a.tier(&form("A", "x", "y", "z")), Some(MatchTier::Exact));
    assert_eq!(a.tier(&form("B", "a", "y", "z")), Some(MatchTier::Case));
    assert_eq!(a.tier(&form("B", "b", "a", "z")), Some(MatchTier::Normalized));
    assert_eq!(a.tier(&form("B", "b", "b", "a")), Some(MatchTier::Affix));
    assert_eq!(a.tier(&form("B", "b", "b", "b")), None);
    let bare = form("&", "&", "&", "");
    assert_eq!(bare.tier(&form("...", "...", "...", "")), None);
}

#[test]
fn a_looser_hit_makes_no_difference_to_what_is_kept() {
    let mut with = vec![(1, MatchTier::Affix), (2, MatchTier::Case), (3, MatchTier::Case)];
    let mut without = vec![(2, MatchTier::Case), (3, MatchTier::Case)];
    keep_best(&mut with, |h| h.1);
    keep_best(&mut without, |h| h.1);
    assert_eq!(with, without);
    assert_eq!(with, vec![(2, MatchTier::Case), (3, MatchTier::Case)]);
}
