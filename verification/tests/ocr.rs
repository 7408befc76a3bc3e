use wincrust::ocr::{
    find_text, fold_confusables, gather, matches_text, reads, region_of_interest, FindArgs, Marks,
    OcrError, OcrLine, OcrWord, TextMatch,
};
use wincrust::text::MatchTier;
use wincrust::uia::Bounds;

#[test]
fn folds_glyphs_ocr_cannot_separate() {
    assert_eq!(fold_confusables("Steps (1)"), fold_confusables("Steps (I)"));
    assert_eq!(fold_confusables("Model-1"), fold_confusables("Model-l"));
    assert_eq!(fold_confusables("B0"), fold_confusables("80"));
}

#[test]
fn matches_through_a_digit_letter_confusion() {
    assert!(matches_text("Steps (I)", "steps (1)"));
    assert!(matches_text("Model-I", "model-1"));
    assert!(matches_text("Job-l", "job-1"));
}

#[test]
fn exact_matching_still_works() {
    assert!(matches_text("Materials", "materials"));
    assert!(matches_text("Assembly", "assem"));
}

/// Folding must not collapse genuinely different words into each other.
#[test]
fn does_not_match_unrelated_text() {
    assert!(!matches_text("Materials", "assembly"));
    assert!(!matches_text("Parts", "loads"));
}

// --- further cases ---

#[test]
fn every_glyph_has_one_representative() {
    assert_eq!(fold_confusables("iIlL1|"), "111111");
    assert_eq!(fold_confusables("oO0sS5bB8zZ2gG9"), "000555888222999");
    assert_eq!(fold_confusables("Xé-7"), "xé-7");
    let once = fold_confusables("Globals (2)");
    assert_eq!(fold_confusables(&once), once);
}

#[test]
fn a_text_is_read_in_lower_case_or_through_its_glyphs() {
    assert!(reads("ÄRGER", "ärger", "rger"));
    assert!(!reads("ÄRGER", "", "ärger"));
    assert!(reads("B00K", "", "book"));
}

fn word(text: &str, x: i32, y: i32, w: i32, h: i32) -> OcrWord {
    OcrWord { text: text.to_string(), bounds: Bounds { x, y, w, h } }
}

fn screen() -> Vec<OcrLine> {
    vec![
        OcrLine {
            text: "Edit Material".to_string(),
            words: vec![word("Edit", 10, 22, 40, 12), word("Material", 60, 20, 81, 15)],
            span: 131,
        },
        OcrLine { text: "   ".to_string(), words: vec![], span: 0 },
        OcrLine {
            text: "Steps (I)".to_string(),
            words: vec![word("Steps", 10, 50, 50, 12), word("(I)", 70, 50, 20, 12)],
            span: 80,
        },
    ]
}

fn find(query: Option<&str>, max_matches: usize) -> Vec<TextMatch> {
    let args = FindArgs { query, max_matches, hwnd: None, image: None, lang: None };
    let r = find_text(
        &screen(),
        (-1920, 100),
        "English".to_string(),
        vec!["en-US".to_string()],
        &args,
    );
    assert_eq!(r.lines_seen, 3);
    assert_eq!(r.language, "English");
    assert_eq!(r.available_languages, vec!["en-US".to_string()]);
    r.matches
}

#[test]
fn a_single_token_is_matched_per_word() {
    let m = find(Some(" material "), 50);
    assert_eq!(m.len(), 1);
    assert_eq!(m[0].text, "Material");
    assert_eq!(m[0].granularity, "word");
    assert_eq!(m[0].matched_by, MatchTier::Case);
    assert_eq!((m[0].x, m[0].y, m[0].w, m[0].h), (-1860, 120, 81, 15));
    assert_eq!(m[0].click_at, (-1820, 127));
}

#[test]
fn a_phrase_is_matched_against_the_line() {
    let m = find(Some("Edit Mat"), 50);
    assert_eq!(m.len(), 1);
    assert_eq!(m[0].text, "Edit Material");
    assert_eq!(m[0].granularity, "line");
    assert_eq!(m[0].matched_by, MatchTier::Exact);
    assert_eq!((m[0].x, m[0].y, m[0].w, m[0].h), (-1910, 120, 131, 15));
    assert_eq!(m[0].click_at, (-1845, 127));
}

#[test]
fn a_confused_glyph_is_the_weakest_evidence() {
    let m = find(Some("steps (1)"), 50);
    assert_eq!(m.len(), 1);
    assert_eq!(m[0].matched_by, MatchTier::Confusable);
    assert!(find(Some("assembly"), 50).is_empty());
}

#[test]
fn without_a_query_every_line_with_a_word_comes_back() {
    for query in [None, Some("  ")] {
        let m = find(query, 50);
        let texts: Vec<&str> = m.iter().map(|t| t.text.as_str()).collect();
        assert_eq!(texts, vec!["Edit Material", "Steps (I)"]);
        assert!(m.iter().all(|t| t.granularity == "line"));
    }
}

#[test]
fn no_more_matches_come_back_than_were_asked_for() {
    assert_eq!(find(Some("t"), 50).len(), 3);
    let two = find(Some("t"), 2);
    assert_eq!(two.len(), 2);
    assert_eq!(two[0].text, "Edit");
    assert_eq!(two[1].text, "Material");
    assert!(find(None, 0).is_empty());
}

#[test]
fn what_is_marked_is_gathered() {
    let lines = screen();
    let marks = vec![
        Marks { line: None, words: vec![None, Some(MatchTier::Affix)] },
        Marks { line: Some(MatchTier::Exact), words: vec![] },
        Marks { line: Some(MatchTier::Case), words: vec![] },
    ];
    let m = gather(&lines, &marks, (0, 0), 9);
    assert_eq!(m.len(), 2);
    assert_eq!((m[0].text.as_str(), m[0].matched_by), ("Material", MatchTier::Affix));
    assert_eq!((m[1].text.as_str(), m[1].matched_by), ("Steps (I)", MatchTier::Case));
}

#[test]
fn a_box_off_the_end_of_the_axis_is_noticed() {
    let line = |x| OcrLine { text: String::new(), words: vec![word("a", x, 0, 10, 10)], span: 10 };
    assert!(line(5).is_wf((0, 0)));
    assert!(!line(i32::MAX).is_wf((0, 0)));
    assert!(!line(5).is_wf((i32::MAX, 0)));
}

#[test]
fn a_window_is_clamped_to_the_picture() {
    let b = |x, y, w, h| Bounds { x, y, w, h };
    assert_eq!(
        region_of_interest(1, b(-1900, 10, 100, 50), (-1920, 0), (3840, 1080)),
        Ok((20, 10, 100, 50))
    );
    assert_eq!(
        region_of_interest(1, b(-50, -20, 100, 50), (0, 0), (80, 40)),
        Ok((0, 0, 50, 30))
    );
    assert_eq!(
        region_of_interest(1, b(70, 30, 100, 50), (0, 0), (80, 40)),
        Ok((70, 30, 10, 10))
    );
}

#[test]
fn a_window_off_the_picture_has_no_area() {
    let off = Bounds { x: 5000, y: 0, w: 10, h: 10 };
    let err = region_of_interest(66, off, (0, 0), (80, 40)).unwrap_err();
    assert_eq!(err, OcrError::NoArea { hwnd: 66 });
    assert_eq!(err.message(), "window 66 has no on-screen area (minimised?)");
}

#[test]
fn a_window_and_a_picture_exclude_each_other() {
    let args = |hwnd, image| FindArgs { query: None, max_matches: 1, hwnd, image, lang: None };
    assert_eq!(args(Some(1), Some("a.png")).check(), Err(OcrError::Exclusive));
    assert_eq!(args(None, Some("a.png")).check(), Ok(()));
    assert_eq!(args(Some(1), None).check(), Ok(()));
    assert_eq!(
        OcrError::Exclusive.message(),
        "--hwnd and --image are mutually exclusive"
    );
}

#[test]
fn a_window_over_an_edge_is_read_only_where_it_is() {
    let b = |x, w| Bounds { x, y: 0, w, h: 200 };
    assert_eq!(
        region_of_interest(1, b(-100, 300), (0, 0), (1920, 1080)),
        Ok((0, 0, 200, 200))
    );
    assert_eq!(
        region_of_interest(1, b(-300, 300), (0, 0), (1920, 1080)),
        Err(OcrError::NoArea { hwnd: 1 })
    );
    assert_eq!(
        region_of_interest(1, b(10, -5), (0, 0), (1920, 1080)),
        Err(OcrError::NoArea { hwnd: 1 })
    );
}

#[test]
fn the_case_of_the_needle_does_not_matter() {
    assert!(matches_text("Datei öffnen", "ÖFFNEN"));
    assert!(matches_text("Datei Öffnen", "öffnen"));
    assert!(matches_text("ÄNDERN", "ändern"));
    assert!(matches_text("ändern", "ÄNDERN"));
    assert!(matches_text("Materials", "MATERIALS"));
    assert!(!matches_text("Datei öffnen", "ÄNDERN"));
}
