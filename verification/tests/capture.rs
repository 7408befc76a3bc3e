use image::ImageReader;
use std::io::Cursor;
use wincrust::capture::{
    can_crop, can_resize, changed_box, choose_view, compare_frames, crop, encode_png, enlarge_png,
    frame_from_png, grab, is_countable, is_roomy, observe_bytes, CaptureError, Frame, Note,
    ScreenChange, Show, TOLERANCE,
};

fn frame(w: u32, h: u32, fill: u8) -> Frame {
    frame_at(w, h, fill, (0, 0))
}

fn frame_at(w: u32, h: u32, fill: u8, origin: (i32, i32)) -> Frame {
    Frame {
        w,
        h,
        origin,
        rgb: vec![fill; (w as usize) * (h as usize) * 3],
    }
}

fn set(f: &mut Frame, x: u32, y: u32, v: u8) {
    let i = ((y as usize) * (f.w as usize) + x as usize) * 3;
    f.rgb[i] = v;
    f.rgb[i + 1] = v;
    f.rgb[i + 2] = v;
}

/// The cheapest and most common answer during a wait loop.
#[test]
fn identical_frames_report_no_change() {
    assert!(changed_box(&frame(8, 8, 10), &frame(8, 8, 10), 12).is_none());
}

#[test]
fn sub_tolerance_change_is_not_a_change() {
    let a = frame(8, 8, 10);
    let mut b = frame(8, 8, 10);
    set(&mut b, 3, 3, 13); // 3 per channel = 9 total, under tol 12
    assert!(changed_box(&a, &b, 12).is_none());
}

#[test]
fn one_changed_pixel_yields_a_tight_box() {
    let a = frame(8, 8, 0);
    let mut b = frame(8, 8, 0);
    set(&mut b, 5, 2, 255);
    let c = changed_box(&a, &b, 12).unwrap();
    assert_eq!((c.x, c.y, c.w, c.h), (5, 2, 1, 1));
    assert_eq!(c.changed, 1);
}

/// The case that motivates withholding the image: a handful of scattered
/// pixels produce a hull covering nearly the whole frame.
#[test]
fn scattered_changes_produce_a_hull_far_larger_than_the_change() {
    let a = frame(100, 100, 0);
    let mut b = frame(100, 100, 0);
    set(&mut b, 1, 1, 255);
    set(&mut b, 98, 98, 255);
    let c = changed_box(&a, &b, 12).unwrap();
    let (w, h, n) = (c.w, c.h, c.changed);
    assert_eq!((c.x, c.y, w, h), (1, 1, 98, 98));
    assert_eq!(n, 2);
    let frac = c.changed as f64 / c.total as f64;
    assert!(frac < 0.001, "frac was {frac}");
    let hull = (w as u64) * (h as u64);
    assert!(
        hull > n * 25,
        "hull {hull} should dwarf {n} changed pixels - this is the withhold trigger"
    );
}

#[test]
fn a_resize_counts_as_a_full_change() {
    let c = changed_box(&frame(8, 8, 0), &frame(16, 16, 0), 12).unwrap();
    assert_eq!((c.x, c.y, c.w, c.h), (0, 0, 16, 16));
    assert_eq!(c.changed as f64 / c.total as f64, 1.0);
}

#[test]
fn crop_extracts_the_requested_region() {
    let mut f = frame(10, 10, 0);
    set(&mut f, 4, 4, 200);
    let c = crop(&f, 4, 4, 2, 2);
    assert_eq!((c.w, c.h), (2, 2));
    assert_eq!(c.rgb[0], 200);
    assert_eq!(c.rgb.len(), 2 * 2 * 3);
}

/// A monitor left of the primary gives a negative virtual-screen origin;
/// a crop taken from it must still describe where it came from on screen.
#[test]
fn crop_carries_the_screen_origin() {
    let f = frame_at(100, 100, 0, (-1920, -200));
    let c = crop(&f, 10, 20, 5, 5);
    assert_eq!(c.origin, (-1910, -180));
}

#[test]
fn crop_clamps_at_the_frame_edge() {
    let f = frame(10, 10, 0);
    let c = crop(&f, 8, 8, 4, 4);
    assert!(c.rgb.len() <= 4 * 4 * 3);
    assert_eq!(c.rgb.len(), 2 * 2 * 3);
}

// --- further cases ---

#[test]
fn a_change_of_the_tolerance_itself_is_not_a_change() {
    let a = frame(4, 4, 10);
    let mut b = frame(4, 4, 10);
    set(&mut b, 0, 0, 14); // 4 per channel = 12 total
    assert!(changed_box(&a, &b, TOLERANCE).is_none());
    set(&mut b, 0, 0, 15);
    assert!(changed_box(&a, &b, TOLERANCE).is_some());
}

#[test]
fn a_crop_shows_the_pixels_that_were_there() {
    let mut f = frame(6, 5, 0);
    for y in 0..5 {
        for x in 0..6 {
            set(&mut f, x, y, (10 * y + x) as u8);
        }
    }
    let c = crop(&f, 2, 1, 3, 2);
    let first: Vec<u8> = c.rgb.iter().step_by(3).copied().collect();
    assert_eq!(first, vec![12, 13, 14, 22, 23, 24]);
}

#[test]
fn a_bitmap_is_turned_from_bgra_to_rgb() {
    let f = grab((-5, 7, 2, 1), &[1, 2, 3, 255, 4, 5, 6, 0]).unwrap();
    assert_eq!((f.w, f.h, f.origin), (2, 1, (-5, 7)));
    assert_eq!(f.rgb, vec![3, 2, 1, 6, 5, 4]);
}

#[test]
fn a_screen_without_area_is_refused() {
    let err = match grab((0, 0, 0, 768), &[]) {
        Ok(_) => panic!("took a picture of nothing"),
        Err(e) => e,
    };
    assert_eq!(err, CaptureError::NoDesktop { width: 0, height: 768 });
    assert_eq!(
        err.message(),
        "virtual screen is 0x768 - almost certainly running in session 0, which has no desktop"
    );
}

fn decoded(png: &[u8]) -> (u32, u32, Vec<u8>) {
    let img = ImageReader::new(Cursor::new(png))
        .with_guessed_format()
        .unwrap()
        .decode()
        .unwrap()
        .to_rgb8();
    (img.width(), img.height(), img.into_raw())
}

#[test]
fn a_small_picture_is_encoded_as_it_is() {
    let mut f = frame(4, 3, 9);
    set(&mut f, 1, 2, 77);
    let e = encode_png(&f, 0, 0).unwrap();
    assert_eq!((e.w, e.h), (4, 3));
    assert_eq!(decoded(&e.png), (4, 3, f.rgb.clone()));
    let same = encode_png(&f, 4, 0).unwrap();
    assert_eq!(same.png, e.png);
}

#[test]
fn a_wide_picture_is_reduced() {
    let f = frame(40, 20, 123);
    let e = encode_png(&f, 10, 5).unwrap();
    assert_eq!((e.w, e.h), (10, 5));
    assert_eq!(decoded(&e.png), (10, 5, vec![123; 10 * 5 * 3]));
}

#[test]
fn a_short_buffer_is_refused() {
    let f = Frame { w: 4, h: 4, origin: (0, 0), rgb: vec![0; 3] };
    let err = match encode_png(&f, 0, 0) {
        Ok(_) => panic!("encoded a buffer of the wrong size"),
        Err(e) => e,
    };
    assert_eq!(err, CaptureError::SizeMismatch { w: 4, h: 4 });
    assert_eq!(err.message(), "frame buffer size does not match 4x4");
}

#[test]
fn a_picture_without_pixels_cannot_be_encoded() {
    let f = Frame { w: 0, h: 0, origin: (0, 0), rgb: vec![] };
    let err = match encode_png(&f, 0, 0) {
        Ok(_) => panic!("encoded nothing"),
        Err(e) => e,
    };
    assert!(matches!(err, CaptureError::Encoding { .. }));
    assert_eq!(err.message(), "Zero width not allowed");
}

fn fit(w: u32, h: u32, max_width: u32) -> u32 {
    let s = max_width as f64 / w as f64;
    ((h as f64) * s).round().max(1.0) as u32
}

#[test]
fn the_first_look_shows_everything_and_the_second_costs_nothing() {
    let mut last = None;
    let (obs, png) = observe_bytes(&mut last, frame(30, 20, 5), true, 0, fit).unwrap();
    assert_eq!((obs.width, obs.height), (30, 20));
    assert_eq!(obs.note, Some(Note::First));
    assert_eq!(obs.approx_tokens, 0);
    assert_eq!(obs.png_bytes, png.len());
    assert!(!png.is_empty());

    let (obs, png) = observe_bytes(&mut last, frame(30, 20, 5), true, 0, fit).unwrap();
    assert_eq!(obs.note, Some(Note::Unchanged));
    assert_eq!(obs.changed, Some((0, 600)));
    assert_eq!(obs.changed_region, None);
    assert!(png.is_empty());
}

#[test]
fn a_diff_shows_only_what_moved_in_screen_coordinates() {
    let mut last = None;
    let before = frame_at(30, 20, 5, (-100, 40));
    let _ = observe_bytes(&mut last, before, true, 0, fit).unwrap();
    let mut after = frame_at(30, 20, 5, (-100, 40));
    for x in 10..14 {
        set(&mut after, x, 6, 200);
    }
    let (obs, png) = observe_bytes(&mut last, after, true, 0, fit).unwrap();
    assert_eq!(obs.changed_region, Some((-90, 46, 4, 1)));
    assert_eq!(obs.changed, Some((4, 600)));
    assert_eq!(obs.note, None);
    assert_eq!(decoded(&png), (4, 1, vec![200; 12]));
}

#[test]
fn scattered_changes_are_told_in_words() {
    let mut last = None;
    let _ = observe_bytes(&mut last, frame(100, 100, 0), true, 0, fit).unwrap();
    let mut after = frame(100, 100, 0);
    set(&mut after, 1, 1, 255);
    set(&mut after, 98, 98, 255);
    let (obs, png) = observe_bytes(&mut last, after, true, 0, fit).unwrap();
    assert!(png.is_empty());
    assert_eq!(obs.changed_region, Some((1, 1, 98, 98)));
    let note = obs.note.unwrap();
    assert_eq!(note, Note::Withheld { changed: 2, total: 10_000, ratio: 4802 });
    assert_eq!(
        note.message("0.020"),
        "2 scattered pixels changed (0.020%) - image withheld, the region hull is 4802x larger \
         than the change itself"
    );
    assert_eq!(Note::Unchanged.message(""), "no change since last observation");
    assert_eq!(Note::First.message(""), "first observation - full frame");
}

#[test]
fn image_mode_keeps_the_frame_and_reduces() {
    let mut last = None;
    let (obs, png) = observe_bytes(&mut last, frame(60, 30, 1), false, 20, fit).unwrap();
    assert_eq!(last.unwrap().rgb, frame(60, 30, 1).rgb);
    assert_eq!((obs.width, obs.height, obs.scale), (20, 10, (20, 60)));
    assert_eq!(obs.note, None);
    assert_eq!(decoded(&png).0, 20);
}

#[test]
fn a_chosen_view_keeps_the_frame_for_the_next_look() {
    let mut last = None;
    let shown = choose_view(&mut last, frame(3, 3, 1), true);
    assert!(matches!(shown, Show::Picture { note: Some(Note::First), .. }));
    assert_eq!(last.unwrap().rgb, vec![1; 27]);
}

#[test]
fn comparing_frames_says_where_the_screen_changed() {
    let a = frame_at(10, 10, 0, (-5, -5));
    let mut b = frame_at(10, 10, 0, (-5, -5));
    assert_eq!(compare_frames(&a, &b), None);
    set(&mut b, 2, 3, 99);
    set(&mut b, 4, 3, 99);
    assert_eq!(
        compare_frames(&a, &b),
        Some(ScreenChange { x: -3, y: -2, w: 3, h: 1, changed: 2, total: 100 })
    );
}

#[test]
fn a_diff_is_taken_of_the_last_look_in_either_mode() {
    let mut last = None;
    let (obs, png) = observe_bytes(&mut last, frame(30, 20, 5), false, 0, fit).unwrap();
    assert_eq!((obs.note, obs.changed), (None, None));
    assert!(!png.is_empty());
    let (obs, png) = observe_bytes(&mut last, frame(30, 20, 5), true, 0, fit).unwrap();
    assert_eq!(obs.note, Some(Note::Unchanged));
    assert!(png.is_empty());

    let mut after = frame(30, 20, 5);
    set(&mut after, 7, 8, 200);
    let again = after.copied();
    let _ = observe_bytes(&mut last, after, false, 0, fit).unwrap();
    let (obs, png) = observe_bytes(&mut last, again, true, 0, fit).unwrap();
    assert_eq!(obs.note, Some(Note::Unchanged));
    assert!(png.is_empty());
}

#[test]
fn frames_of_different_sizes_compare_whatever_they_hold() {
    let empty = Frame { w: 2, h: 2, origin: (0, 0), rgb: vec![] };
    let c = changed_box(&empty, &frame(3, 2, 0), 12).unwrap();
    assert_eq!((c.x, c.y, c.w, c.h, c.changed, c.total), (0, 0, 3, 2, 6, 6));
}

#[test]
fn a_picture_is_magnified() {
    let f = frame(4, 2, 50);
    let e = match enlarge_png(&f, 6, 3) {
        Ok(e) => e,
        Err(e) => panic!("{}", e.message()),
    };
    assert_eq!((e.w, e.h), (6, 3));
    assert_eq!(decoded(&e.png), (6, 3, vec![50; 6 * 3 * 3]));

    let short = Frame { w: 4, h: 4, origin: (0, 0), rgb: vec![0; 3] };
    let err = match enlarge_png(&short, 8, 8) {
        Ok(_) => panic!("encoded a buffer of the wrong size"),
        Err(e) => e,
    };
    assert_eq!(err, CaptureError::SizeMismatch { w: 4, h: 4 });
}

#[test]
fn a_picture_without_pixels_cannot_be_magnified() {
    let f = Frame { w: 0, h: 0, origin: (0, 0), rgb: vec![] };
    assert!(matches!(enlarge_png(&f, 0, 0), Err(CaptureError::Encoding { .. })));
}

#[test]
fn a_file_is_read_back_as_the_frame_it_holds() {
    let mut f = frame(5, 3, 20);
    set(&mut f, 4, 1, 99);
    let file = encode_png(&f, 0, 0).unwrap().png;
    let back = match frame_from_png(&file) {
        Ok(back) => back,
        Err(e) => panic!("{}", e.message()),
    };
    assert_eq!((back.w, back.h, back.origin), (5, 3, (0, 0)));
    assert_eq!(back.rgb, f.rgb);
}

#[test]
fn a_file_that_is_no_picture_is_refused() {
    let err = match frame_from_png(b"not a picture") {
        Ok(_) => panic!("read a picture out of words"),
        Err(e) => e,
    };
    assert!(matches!(err, CaptureError::Decoding { .. }));
    let said = err.message();
    assert!(said.starts_with("Format error decoding Png"), "{said}");
}

/// A filter that finds its place in single precision has to keep it on a row
/// this long.
#[test]
fn a_very_wide_picture_is_reduced() {
    let w = wincrust::foreign::LONGEST_SIDE;
    let f = frame(w, 1, 40);
    let e = match encode_png(&f, 3, 1) {
        Ok(e) => e,
        Err(e) => panic!("{}", e.message()),
    };
    assert_eq!(decoded(&e.png), (3, 1, vec![40; 9]));
}

#[test]
fn what_stands_behind_the_pixels_is_not_looked_at() {
    let mut long = frame(40, 20, 123);
    long.rgb.extend_from_slice(&[9; 50]);
    let e = encode_png(&long, 10, 5).unwrap();
    assert_eq!(decoded(&e.png), (10, 5, vec![123; 10 * 5 * 3]));
    let e = enlarge_png(&long, 80, 40).unwrap();
    assert_eq!(decoded(&e.png), (80, 40, vec![123; 80 * 40 * 3]));
}

#[test]
fn a_frame_knows_whether_it_is_whole_and_on_the_screen() {
    let f = frame(3, 2, 0);
    assert!(f.is_wf() && f.is_on_screen());
    let short = Frame { w: 3, h: 2, origin: (0, 0), rgb: vec![0; 17] };
    assert!(!short.is_wf());
    let long = Frame { w: 3, h: 2, origin: (0, 0), rgb: vec![0; 19] };
    assert!(!long.is_wf());
    assert!(frame_at(3, 2, 0, (i32::MAX - 3, 0)).is_on_screen());
    assert!(!frame_at(3, 2, 0, (i32::MAX - 2, 0)).is_on_screen());
    assert!(!frame_at(3, 2, 0, (0, i32::MAX - 1)).is_on_screen());
    assert!(!f.is_comparable(&short));
    assert!(frame(4, 2, 0).is_comparable(&short));
}

#[test]
fn sizes_that_cannot_be_handled_are_noticed() {
    let side = wincrust::foreign::LONGEST_SIDE;
    assert!(is_roomy(1920, 1080) && is_roomy(side, 1) && is_roomy(0, 0));
    assert!(!is_roomy(side + 1, 1) && !is_roomy(1, side + 1));
    assert!(is_countable(65535, 65537, 0) && !is_countable(65536, 65536, 0));
    assert!(is_countable(65536, 65536, 1400));
    assert!(can_resize((100, 100), (150, 150)));
    assert!(!can_resize((100, 100), (side + 1, 1)));
    assert!(!can_resize((side + 1, 1), (100, 100)));
}

#[test]
fn a_box_that_cannot_be_cut_out_is_noticed() {
    let f = frame_at(10, 10, 0, (i32::MAX - 10, 0));
    assert!(can_crop(&f, 2, 2, 3, 3));
    assert!(can_crop(&f, 8, 8, 5, 5));
    assert!(!can_crop(&f, 11, 2, 1, 1));
    assert!(!can_crop(&f, 2, u32::MAX, 1, 1));
    let short = Frame { w: 3, h: 2, origin: (0, 0), rgb: vec![] };
    assert!(!can_crop(&short, 0, 0, 1, 1));
}

#[test]
fn bytes_come_exactly_with_a_picture() {
    let mut last = None;
    let mut after = frame(100, 100, 0);
    set(&mut after, 1, 1, 255);
    set(&mut after, 98, 98, 255);
    let looks = [
        (frame(100, 100, 0), false, true),
        (frame(100, 100, 0), true, false),
        (after.copied(), true, false),
        (after, false, true),
        (frame(90, 100, 0), true, true),
    ];
    for (f, diff, pictured) in looks {
        let (obs, png) = observe_bytes(&mut last, f, diff, 0, fit).unwrap();
        assert_eq!(!png.is_empty(), pictured);
        let silent = matches!(obs.note, Some(Note::Unchanged | Note::Withheld { .. }));
        assert_eq!(silent, !pictured);
    }
}
