//! Pictures of the screen.

use vstd::prelude::*;
use crate::capture::{
    can_crop, changed_box, choose_view, compare_frames, crop, croppable, cropped_bytes, differs, encode_png,
    enlarge_png, frame_from_png, grab, is_countable, is_roomy, is_changed_box,
    lemma_rows_count, observe_bytes, observed, pixel_swapped, row_count, rows_count, screen_region, shows,
    unrepresentative, wordless, CaptureError, Changed, Encoded, Frame, Note, Observation, ScreenChange, Show,
    TOLERANCE,
};
use crate::foreign::{png, resampled, unpng};

verus! {

// What changed

/// Two pictures that hold the same bytes show no change, whatever the
/// tolerance.
pub proof fn law_identical_frames_show_no_change(a: Frame, b: Frame, tol: u8, r: Option<Changed>)
    requires
        a.w == b.w,
        a.h == b.h,
        a.rgb@ == b.rgb@,
        is_changed_box(&a, &b, tol, r),
    ensures
        r is None,
{
    reveal(differs);
    if r is Some {
        let c = r->0;
        let y = choose|y: int| 0 <= y < b.h && #[trigger] differs(&a, &b, tol, c.x as int, y);
        assert(!differs(&a, &b, tol, c.x as int, y));
    }
}

/// A picture of another size counts as changed all over.
pub proof fn law_a_resize_is_a_full_change(a: Frame, b: Frame, tol: u8, r: Option<Changed>)
    requires
        a.w != b.w || a.h != b.h,
        is_changed_box(&a, &b, tol, r),
    ensures
        r matches Some(c) && c.x == 0 && c.y == 0 && c.w == b.w && c.h == b.h && c.changed
            == c.total,
{
}

/// The box leaves nothing out: every pixel that differs lies in it.
pub proof fn law_the_box_holds_every_change(
    a: Frame,
    b: Frame,
    tol: u8,
    r: Option<Changed>,
    x: int,
    y: int,
)
    requires
        a.w == b.w,
        a.h == b.h,
        is_changed_box(&a, &b, tol, r),
        0 <= x < b.w,
        0 <= y < b.h,
        differs(&a, &b, tol, x, y),
    ensures
        r matches Some(c) && c.x <= x < c.x + c.w && c.y <= y < c.y + c.h,
{
}

/// The box is no larger than it has to be: a box that holds every pixel that
/// differs holds this one.
pub proof fn law_the_box_is_the_smallest(
    a: Frame,
    b: Frame,
    tol: u8,
    c: Changed,
    other: Changed,
)
    requires
        a.w == b.w,
        a.h == b.h,
        is_changed_box(&a, &b, tol, Some(c)),
        forall|x: int, y: int|
            0 <= x < b.w && 0 <= y < b.h && #[trigger] differs(&a, &b, tol, x, y) ==> other.x <= x
                < other.x + other.w && other.y <= y < other.y + other.h,
    ensures
        other.x <= c.x,
        other.y <= c.y,
        c.x + c.w <= other.x + other.w,
        c.y + c.h <= other.y + other.h,
{
    let l = choose|y: int| 0 <= y < b.h && #[trigger] differs(&a, &b, tol, c.x as int, y);
    let r = choose|y: int| 0 <= y < b.h && #[trigger] differs(&a, &b, tol, c.x + c.w - 1, y);
    let t = choose|x: int| 0 <= x < b.w && #[trigger] differs(&a, &b, tol, x, c.y as int);
    let u = choose|x: int| 0 <= x < b.w && #[trigger] differs(&a, &b, tol, x, c.y + c.h - 1);
    assert(differs(&a, &b, tol, c.x as int, l));
    assert(differs(&a, &b, tol, c.x + c.w - 1, r));
    assert(differs(&a, &b, tol, t, c.y as int));
    assert(differs(&a, &b, tol, u, c.y + c.h - 1));
}

/// No more can have changed than there is.
pub proof fn law_no_more_changed_than_there_is(a: Frame, b: Frame, tol: u8, c: Changed)
    requires
        is_changed_box(&a, &b, tol, Some(c)),
    ensures
        c.changed <= c.total,
{
    lemma_rows_count(&a, &b, tol, b.h as nat);
    if a.w != b.w || a.h != b.h {
        assert(c.changed == c.total);
    }
}

// Cropping

proof fn lemma_cropped(f: Frame, x: int, y: int, cols: int, rows: nat)
    requires
        f.wf(),
        0 <= x,
        0 <= y,
        0 <= cols,
        x + cols <= f.w,
        y + rows <= f.h,
    ensures
        cropped_bytes(&f, x, y, cols, rows).len() == cols * rows * 3,
        forall|i: int, j: int, c: int|
            0 <= i < cols && 0 <= j < rows && 0 <= c < 3 ==> cropped_bytes(&f, x, y, cols, rows)[(j
                * cols + i) * 3 + c] == #[trigger] f.channel(x + i, y + j, c),
    decreases rows,
{
    let all = cropped_bytes(&f, x, y, cols, rows);
    if rows == 0 {
        assert(cols * rows == 0) by (nonlinear_arith)
            requires
                rows == 0,
        ;
    } else {
        let less = (rows - 1) as nat;
        lemma_cropped(f, x, y, cols, less);
        let before = cropped_bytes(&f, x, y, cols, less);
        let row = y + rows - 1;
        let wide = f.w as int;
        assert(row * wide + wide <= f.h * wide && row * wide >= 0) by (nonlinear_arith)
            requires
                0 <= row < f.h,
                wide >= 0,
        ;
        assert(f.h * wide == f.w * f.h) by (nonlinear_arith)
            requires
                wide == f.w,
        ;
        assert(cols * less + cols == cols * rows) by (nonlinear_arith)
            requires
                less == rows - 1,
        ;
        let start = (row * wide + x) * 3;
        let line = f.rgb@.subrange(start, start + cols * 3);
        assert(all == before + line);
        assert forall|i: int, j: int, c: int|
            0 <= i < cols && 0 <= j < rows && 0 <= c < 3 implies all[(j * cols + i) * 3 + c]
            == #[trigger] f.channel(x + i, y + j, c) by {
            let at = (j * cols + i) * 3 + c;
            if j < less {
                assert(0 <= j * cols && j * cols + cols <= less * cols) by (nonlinear_arith)
                    requires
                        0 <= j < less,
                        cols >= 0,
                ;
                assert(less * cols == cols * less) by (nonlinear_arith);
                assert(all[at] == before[at]);
                assert(before[at] == f.channel(x + i, y + j, c));
            } else {
                assert(j * cols == cols * less) by (nonlinear_arith)
                    requires
                        j == less,
                ;
                assert(before.len() == cols * less * 3);
                assert(all[at] == line[i * 3 + c]);
                assert(line[i * 3 + c] == f.rgb@[start + i * 3 + c]);
            }
        }
    }
}

/// A crop shows what was there: within the frame it has three bytes for every
/// pixel, and its pixel at column `i` of row `j` is the frame's pixel that far
/// from the corner.
pub proof fn law_a_crop_shows_what_was_there(
    f: Frame,
    x: int,
    y: int,
    r: Frame,
    i: int,
    j: int,
    c: int,
)
    requires
        f.wf(),
        0 <= x,
        0 <= y,
        x + r.w <= f.w,
        y + r.h <= f.h,
        r.rgb@ == cropped_bytes(&f, x, y, r.w as int, r.h as nat),
        0 <= i < r.w,
        0 <= j < r.h,
        0 <= c < 3,
    ensures
        r.wf(),
        r.channel(i, j, c) == f.channel(x + i, y + j, c),
{
    lemma_cropped(f, x, y, r.w as int, r.h as nat);
    assert(f.channel(x + i, y + j, c) == r.rgb@[(j * r.w + i) * 3 + c]);
}

// Observing

/// Nothing is sent when nothing moved: a look that finds what the last one saw,
/// in whichever mode that was, says so in words, and carries no image.
pub proof fn law_an_unchanged_screen_costs_nothing(
    last: Frame,
    frame: Frame,
    shown: Show,
    max_width: u32,
    scaled_h: u32,
    r: Result<(Observation, Vec<u8>), CaptureError>,
)
    requires
        last.same(&frame),
        shows(Some(last), frame, true, shown),
        observed(shown, max_width, scaled_h, r),
    ensures
        r matches Ok((obs, bytes)) && bytes@.len() == 0 && obs == wordless(
            (0, (frame.w * frame.h) as u64),
            None,
            Note::Unchanged,
        ),
{
    let c = choose|c: Option<Changed>| #[trigger]
        is_changed_box(&last, &frame, TOLERANCE, c) && crate::capture::shows_diff(
            Some(last),
            frame,
            c,
            shown,
        );
    law_identical_frames_show_no_change(last, frame, TOLERANCE, c);
}

/// Bytes are absent exactly when nothing is shown: an empty file comes with the
/// note that nothing changed or that the picture is withheld, and with no other.
pub proof fn law_bytes_are_absent_exactly_when_nothing_is_shown(
    last: Option<Frame>,
    frame: Frame,
    diff: bool,
    shown: Show,
    max_width: u32,
    scaled_h: u32,
    obs: Observation,
    bytes: Vec<u8>,
)
    requires
        shows(last, frame, diff, shown),
        observed(shown, max_width, scaled_h, Ok((obs, bytes))),
    ensures
        bytes@.len() == 0 <==> shown is Words,
        bytes@.len() == 0 <==> (obs.note == Some(Note::Unchanged) || (obs.note matches Some(n) && n
            is Withheld)),
{
    if diff && last is Some {
        let p = last->0;
        let c = choose|c: Option<Changed>| #[trigger]
            is_changed_box(&p, &frame, TOLERANCE, c) && crate::capture::shows_diff(
                last,
                frame,
                c,
                shown,
            );
    }
}

/// A picture is withheld only for words that say where to look: whenever the
/// screen changed and no image comes, the report carries the region and the
/// note says why.
pub proof fn law_a_withheld_picture_is_accounted_for(last: Frame, frame: Frame, obs: Observation)
    requires
        shows(Some(last), frame, true, Show::Words(obs)),
    ensures
        obs.note == Some(Note::Unchanged) || (exists|b: Changed| #[trigger]
            is_changed_box(&last, &frame, TOLERANCE, Some(b)) && unrepresentative(b)
                && obs.changed_region == Some(screen_region(&frame, b)) && obs.note is Some),
{
    let c = choose|c: Option<Changed>| #[trigger]
        is_changed_box(&last, &frame, TOLERANCE, c) && crate::capture::shows_diff(
            Some(last),
            frame,
            c,
            Show::Words(obs),
        );
    if c is Some {
        assert(is_changed_box(&last, &frame, TOLERANCE, Some(c->0)));
    }
}

/// The first look in diff mode shows the whole frame.
pub proof fn law_the_first_look_shows_everything(frame: Frame, shown: Show)
    requires
        shows(None, frame, true, shown),
    ensures
        shown matches Show::Picture { target, note, .. } && target.same(&frame) && note == Some(
            Note::First,
        ),
{
}

// What changed, byte by byte

/// How far apart two bytes are.
pub open spec fn apart(a: u8, b: u8) -> int {
    if a > b {
        a - b
    } else {
        b - a
    }
}

/// Pixel `p` of two pictures, counted row by row, differs: the differences of
/// its red, its green and its blue byte come to more than `tol`.
pub open spec fn pixel_moved(a: Seq<u8>, b: Seq<u8>, tol: int, p: int) -> bool {
    apart(a[p * 3], b[p * 3]) + apart(a[p * 3 + 1], b[p * 3 + 1]) + apart(
        a[p * 3 + 2],
        b[p * 3 + 2],
    ) > tol
}

/// How many of the first `n` pixels of two pictures differ.
pub open spec fn count_moved(a: Seq<u8>, b: Seq<u8>, tol: int, n: nat) -> nat
    decreases n,
{
    if n == 0 {
        0
    } else {
        count_moved(a, b, tol, (n - 1) as nat) + (if pixel_moved(a, b, tol, n - 1) {
            1nat
        } else {
            0
        })
    }
}

/// A pixel differs by its bytes, all three of them.
pub proof fn law_a_pixel_differs_by_its_bytes(a: Frame, b: Frame, tol: u8, x: int, y: int)
    requires
        a.w == b.w,
    ensures
        differs(&a, &b, tol, x, y) <==> pixel_moved(a.rgb@, b.rgb@, tol as int, y * b.w + x),
{
    reveal(differs);
}

proof fn lemma_row_moved(a: Frame, b: Frame, tol: u8, y: nat, n: nat)
    requires
        a.w == b.w,
        n <= b.w,
    ensures
        count_moved(a.rgb@, b.rgb@, tol as int, (y * b.w + n) as nat) == rows_count(&a, &b, tol, y)
            + row_count(&a, &b, tol, y as int, n),
    decreases y, n,
{
    let w = b.w as int;
    assert(y * w >= 0) by (nonlinear_arith)
        requires
            y >= 0,
            w >= 0,
    ;
    if n > 0 {
        lemma_row_moved(a, b, tol, y, (n - 1) as nat);
        law_a_pixel_differs_by_its_bytes(a, b, tol, n - 1, y as int);
        assert((y * b.w + n) as nat - 1 == y * b.w + (n - 1));
    } else if y > 0 {
        lemma_row_moved(a, b, tol, (y - 1) as nat, b.w as nat);
        assert((y - 1) * w + w == y * w) by (nonlinear_arith);
        assert((y * b.w + n) as nat == ((y - 1) * b.w + b.w) as nat);
    } else {
        assert(y * w == 0) by (nonlinear_arith)
            requires
                y == 0,
        ;
    }
}

proof fn lemma_all_moved(a: Frame, b: Frame, tol: u8)
    requires
        a.w == b.w,
        a.h == b.h,
    ensures
        count_moved(a.rgb@, b.rgb@, tol as int, (b.w * b.h) as nat) == rows_count(
            &a,
            &b,
            tol,
            b.h as nat,
        ),
{
    lemma_row_moved(a, b, tol, b.h as nat, 0);
    assert(b.h * b.w + 0 == b.w * b.h) by (nonlinear_arith);
}

proof fn lemma_some_moved(a: Seq<u8>, b: Seq<u8>, tol: int, n: nat)
    ensures
        count_moved(a, b, tol, n) <= n,
        count_moved(a, b, tol, n) == 0 <==> forall|p: int|
            0 <= p < n ==> !#[trigger] pixel_moved(a, b, tol, p),
    decreases n,
{
    if n > 0 {
        lemma_some_moved(a, b, tol, (n - 1) as nat);
        if count_moved(a, b, tol, n) == 0 {
            assert forall|p: int| 0 <= p < n implies !#[trigger] pixel_moved(a, b, tol, p) by {
                if p < n - 1 {
                    assert(!pixel_moved(a, b, tol, p));
                }
            }
        } else if forall|p: int| 0 <= p < n ==> !#[trigger] pixel_moved(a, b, tol, p) {
            assert(!pixel_moved(a, b, tol, n - 1));
        }
    }
}

proof fn lemma_pixel_place(w: int, h: int, p: int) -> (at: (int, int))
    requires
        0 <= p < w * h,
        w >= 0,
        h >= 0,
    ensures
        0 <= at.0 < w,
        0 <= at.1 < h,
        p == at.1 * w + at.0,
{
    assert(w > 0) by (nonlinear_arith)
        requires
            0 <= p < w * h,
            w >= 0,
            h >= 0,
    ;
    let x = p % w;
    let y = p / w;
    assert(p == y * w + x && 0 <= x < w) by (nonlinear_arith)
        requires
            w > 0,
            x == p % w,
            y == p / w,
    ;
    assert(0 <= y < h) by (nonlinear_arith)
        requires
            0 <= p < w * h,
            p == y * w + x,
            0 <= x < w,
    ;
    (x, y)
}

proof fn lemma_pixel_index(w: int, h: int, x: int, y: int)
    requires
        0 <= x < w,
        0 <= y < h,
    ensures
        0 <= y * w + x < w * h,
{
    assert(0 <= y * w + x < w * h) by (nonlinear_arith)
        requires
            0 <= x < w,
            0 <= y < h,
    ;
}

proof fn lemma_counted(a: Frame, b: Frame, tol: u8, r: Option<Changed>)
    requires
        a.wf(),
        b.wf(),
        a.w == b.w,
        a.h == b.h,
        is_changed_box(&a, &b, tol, r),
    ensures
        r is None <==> count_moved(a.rgb@, b.rgb@, tol as int, (b.w * b.h) as nat) == 0,
        r is None <==> forall|p: int|
            0 <= p < b.w * b.h ==> !#[trigger] pixel_moved(a.rgb@, b.rgb@, tol as int, p),
        r matches Some(c) ==> {
            &&& c.changed == count_moved(a.rgb@, b.rgb@, tol as int, (b.w * b.h) as nat)
            &&& c.total == b.w * b.h
            &&& forall|x: int, y: int|
                0 <= x < b.w && 0 <= y < b.h && #[trigger] pixel_moved(
                    a.rgb@,
                    b.rgb@,
                    tol as int,
                    y * b.w + x,
                ) ==> c.x <= x < c.x + c.w && c.y <= y < c.y + c.h
        },
{
    let n = (b.w * b.h) as nat;
    assert(b.w * b.h >= 0) by (nonlinear_arith);
    lemma_all_moved(a, b, tol);
    lemma_some_moved(a.rgb@, b.rgb@, tol as int, n);
    if r is None {
        assert forall|p: int| 0 <= p < b.w * b.h implies !#[trigger] pixel_moved(
            a.rgb@,
            b.rgb@,
            tol as int,
            p,
        ) by {
            let at = lemma_pixel_place(b.w as int, b.h as int, p);
            law_a_pixel_differs_by_its_bytes(a, b, tol, at.0, at.1);
            assert(!differs(&a, &b, tol, at.0, at.1));
        }
    } else {
        let c = r->0;
        let y = choose|y: int| 0 <= y < b.h && #[trigger] differs(&a, &b, tol, c.x as int, y);
        law_a_pixel_differs_by_its_bytes(a, b, tol, c.x as int, y);
        lemma_pixel_index(b.w as int, b.h as int, c.x as int, y);
        assert(pixel_moved(a.rgb@, b.rgb@, tol as int, y * b.w + c.x));
        assert forall|x: int, y: int|
            0 <= x < b.w && 0 <= y < b.h && #[trigger] pixel_moved(
                a.rgb@,
                b.rgb@,
                tol as int,
                y * b.w + x,
            ) implies c.x <= x < c.x + c.w && c.y <= y < c.y + c.h by {
            law_a_pixel_differs_by_its_bytes(a, b, tol, x, y);
            assert(differs(&a, &b, tol, x, y));
        }
    }
}

/// Nothing changed exactly when no pixel differs, and what changed is counted
/// pixel by pixel and lies in the box.
pub proof fn law_changes_are_counted_in_bytes(a: Frame, b: Frame, tol: u8, r: Option<Changed>)
    requires
        a.wf(),
        b.wf(),
        a.w == b.w,
        a.h == b.h,
        call_ensures(changed_box, (&a, &b, tol), r),
    ensures
        r is None <==> count_moved(a.rgb@, b.rgb@, tol as int, (b.w * b.h) as nat) == 0,
        r is None <==> forall|p: int|
            0 <= p < b.w * b.h ==> !#[trigger] pixel_moved(a.rgb@, b.rgb@, tol as int, p),
        r matches Some(c) ==> {
            &&& c.changed == count_moved(a.rgb@, b.rgb@, tol as int, (b.w * b.h) as nat)
            &&& c.total == b.w * b.h
            &&& forall|x: int, y: int|
                0 <= x < b.w && 0 <= y < b.h && #[trigger] pixel_moved(
                    a.rgb@,
                    b.rgb@,
                    tol as int,
                    y * b.w + x,
                ) ==> c.x <= x < c.x + c.w && c.y <= y < c.y + c.h
        },
{
    lemma_counted(a, b, tol, r);
}

/// No look misses a change: when a look in diff mode reports none between two
/// frames of one size, every byte of the new frame is within the tolerance of
/// the byte at the same place in the old one.
pub proof fn law_no_look_misses_a_change(
    last: &mut Option<Frame>,
    before: Frame,
    frame: Frame,
    obs: Observation,
    i: int,
)
    requires
        *old(last) == Some(before),
        before.wf(),
        frame.wf(),
        frame.on_screen(),
        before.w == frame.w,
        before.h == frame.h,
        call_ensures(choose_view, (last, frame, true), Show::Words(obs)),
        obs.note == Some(Note::Unchanged),
        0 <= i < frame.rgb@.len(),
    ensures
        -12 <= before.rgb@[i] - frame.rgb@[i] <= 12,
{
    let c = choose|c: Option<Changed>| #[trigger]
        is_changed_box(&before, &frame, TOLERANCE, c) && crate::capture::shows_diff(
            Some(before),
            frame,
            c,
            Show::Words(obs),
        );
    lemma_counted(before, frame, 12, c);
    assert(c is None);
    let p = i / 3;
    assert(!pixel_moved(before.rgb@, frame.rgb@, 12, p));
}

proof fn lemma_diff_shows(before: Frame, frame: Frame, r: Show)
    requires
        before.wf(),
        frame.wf(),
        frame.on_screen(),
        before.w == frame.w,
        before.h == frame.h,
        shows(Some(before), frame, true, r),
    ensures
        ({
            let total = frame.w * frame.h;
            let n = count_moved(before.rgb@, frame.rgb@, 12, total as nat);
            if n == 0 {
                r matches Show::Words(obs) && obs.note == Some(Note::Unchanged) && obs.changed
                    == Some((0u64, total as u64)) && obs.changed_region is None
            } else {
                exists|c: Changed| #[trigger]
                    is_changed_box(&before, &frame, 12, Some(c)) && match r {
                        Show::Words(obs) => {
                            &&& n * 200 < total && c.w * c.h > n * 25
                            &&& obs.changed == Some((n as u64, total as u64))
                            &&& is_region(obs.changed_region, frame, c)
                            &&& obs.note matches Some(Note::Withheld { changed, total: of, ratio })
                                && changed == n && of == total && ratio * n <= c.w * c.h < (ratio
                                + 1) * n
                        },
                        Show::Picture { target, changed, region, note } => {
                            &&& !(n * 200 < total && c.w * c.h > n * 25)
                            &&& changed == Some((n as u64, total as u64))
                            &&& is_region(region, frame, c)
                            &&& note is None
                            &&& target.w == c.w && target.h == c.h && target.wf()
                            &&& forall|i: int, j: int, k: int|
                                0 <= i < c.w && 0 <= j < c.h && 0 <= k < 3
                                    ==> #[trigger] target.channel(i, j, k) == frame.channel(
                                    c.x + i,
                                    c.y + j,
                                    k,
                                )
                        },
                    }
            }
        }),
{
    let c = choose|c: Option<Changed>| #[trigger]
        is_changed_box(&before, &frame, TOLERANCE, c) && crate::capture::shows_diff(
            Some(before),
            frame,
            c,
            r,
        );
    lemma_counted(before, frame, 12, c);
    assert(frame.w * frame.h >= 0) by (nonlinear_arith);
    lemma_some_moved(before.rgb@, frame.rgb@, 12, (frame.w * frame.h) as nat);
    if c is Some {
        let b = c->0;
        assert(is_changed_box(&before, &frame, 12, Some(b)));
        let n = b.changed as int;
        assert(0 <= b.w * b.h) by (nonlinear_arith);
        match r {
            Show::Words(obs) => {
                let area = b.w * b.h;
                let ratio = area / n;
                assert(ratio * n <= area < (ratio + 1) * n && 0 <= ratio <= area)
                    by (nonlinear_arith)
                    requires
                        n >= 1,
                        area >= 0,
                        ratio == area / n,
                ;
                lemma_area_of_part(b.w as int, b.h as int);
            },
            Show::Picture { target, .. } => {
                lemma_cropped(frame, b.x as int, b.y as int, b.w as int, b.h as nat);
                assert forall|i: int, j: int, k: int|
                    0 <= i < b.w && 0 <= j < b.h && 0 <= k < 3 implies #[trigger] target.channel(
                    i,
                    j,
                    k,
                ) == frame.channel(b.x + i, b.y + j, k) by {
                    assert(frame.channel(b.x + i, b.y + j, k) == target.rgb@[(j * b.w + i) * 3
                        + k]);
                }
            },
        }
    }
}

/// What a diff shows of a screen that changed. So many pixels are reported as
/// differ, of as many as there are, and the region in which they lie, in screen
/// coordinates. The picture is that region of the new frame, pixel for pixel; it
/// is withheld only when fewer than one pixel in 200 differs and the region is
/// more than 25 times as large as the change.
pub proof fn law_a_diff_shows_what_moved(
    last: &mut Option<Frame>,
    before: Frame,
    frame: Frame,
    r: Show,
)
    requires
        *old(last) == Some(before),
        before.wf(),
        frame.wf(),
        frame.on_screen(),
        before.w == frame.w,
        before.h == frame.h,
        call_ensures(choose_view, (last, frame, true), r),
    ensures
        ({
            let total = frame.w * frame.h;
            let n = count_moved(before.rgb@, frame.rgb@, 12, total as nat);
            if n == 0 {
                r matches Show::Words(obs) && obs.note == Some(Note::Unchanged) && obs.changed
                    == Some((0u64, total as u64)) && obs.changed_region is None
            } else {
                exists|c: Changed| #[trigger]
                    is_changed_box(&before, &frame, 12, Some(c)) && match r {
                        Show::Words(obs) => {
                            &&& n * 200 < total && c.w * c.h > n * 25
                            &&& obs.changed == Some((n as u64, total as u64))
                            &&& is_region(obs.changed_region, frame, c)
                            &&& obs.note matches Some(Note::Withheld { changed, total: of, ratio })
                                && changed == n && of == total && ratio * n <= c.w * c.h < (ratio
                                + 1) * n
                        },
                        Show::Picture { target, changed, region, note } => {
                            &&& !(n * 200 < total && c.w * c.h > n * 25)
                            &&& changed == Some((n as u64, total as u64))
                            &&& is_region(region, frame, c)
                            &&& note is None
                            &&& target.w == c.w && target.h == c.h && target.wf()
                            &&& forall|i: int, j: int, k: int|
                                0 <= i < c.w && 0 <= j < c.h && 0 <= k < 3
                                    ==> #[trigger] target.channel(i, j, k) == frame.channel(
                                    c.x + i,
                                    c.y + j,
                                    k,
                                )
                        },
                    }
            }
        }),
{
    lemma_diff_shows(before, frame, r);
}

proof fn lemma_area_of_part(w: int, h: int)
    requires
        0 <= w <= u32::MAX,
        0 <= h <= u32::MAX,
    ensures
        w * h <= u64::MAX,
{
    assert(w * h <= 0xffff_ffff * 0xffff_ffff) by (nonlinear_arith)
        requires
            0 <= w <= 0xffff_ffff,
            0 <= h <= 0xffff_ffff,
    ;
}

/// The region is that box of the frame, in screen coordinates.
pub open spec fn is_region(
    region: Option<(i32, i32, u32, u32)>,
    frame: Frame,
    c: Changed,
) -> bool {
    region matches Some(g) && g.0 == frame.origin.0 + c.x && g.1 == frame.origin.1 + c.y && g.2
        == c.w && g.3 == c.h
}

/// A look in image mode shows the whole frame, and so does the first look, which
/// says that it is one. Whatever is shown, the frame is kept for the next look.
pub proof fn law_a_whole_look_shows_the_whole_frame(
    last: &mut Option<Frame>,
    frame: Frame,
    diff: bool,
    r: Show,
)
    requires
        *old(last) matches Some(p) ==> p.comparable(&frame),
        frame.wf(),
        frame.on_screen(),
        call_ensures(choose_view, (last, frame, diff), r),
    ensures
        !diff || *old(last) is None ==> (r matches Show::Picture { target, changed, region, note }
            && target.w == frame.w && target.h == frame.h && target.rgb@ == frame.rgb@ && changed
            is None && region is None && note == (if diff {
            Some(Note::First)
        } else {
            None
        })),
        *final(last) matches Some(kept) && kept.w == frame.w && kept.h == frame.h && kept.rgb@
            == frame.rgb@ && kept.origin == frame.origin,
{
}

/// A report fits its picture: it gives the length of the file and the size of
/// the picture, and reckons a token for every 750 pixels. A frame that is not
/// wider than was asked for keeps its size, and a wider one gets just the width
/// that was asked for.
pub proof fn law_a_report_fits_its_picture<F: Fn(u32, u32, u32) -> u32>(
    last: &mut Option<Frame>,
    frame: Frame,
    max_width: u32,
    fit: F,
    r: Result<(Observation, Vec<u8>), CaptureError>,
)
    requires
        call_ensures(observe_bytes::<F>, (last, frame, false, max_width, fit), r),
        r is Ok,
    ensures
        r matches Ok((obs, bytes)) && ({
            let wider = max_width > 0 && frame.w > max_width;
            &&& obs.png_bytes == bytes@.len() && bytes@.len() > 0
            &&& !wider ==> obs.width == frame.w && obs.height == frame.h && obs.scale.0
                == obs.scale.1 && png(frame.rgb@, frame.w, frame.h) == Ok::<Seq<u8>, Seq<char>>(
                bytes@,
            )
            &&& wider ==> obs.width == max_width && obs.scale == (max_width, frame.w) && (exists|
                h: u32,
            |
                #[trigger] call_ensures(fit, (frame.w, frame.h, max_width), h) && obs.height == h
                    && png(
                    resampled(frame.rgb@, (frame.w, frame.h), (max_width, h)),
                    max_width,
                    h,
                ) == Ok::<Seq<u8>, Seq<char>>(bytes@))
            &&& (obs.width * obs.height) / 750 <= u32::MAX ==> obs.approx_tokens == (obs.width
                * obs.height) / 750
            &&& obs.changed is None && obs.changed_region is None && obs.note is None
        }),
{
    let (shown, scaled_h) = choose|shown: Show, scaled_h: u32|
        {
            &&& #[trigger] shows(*old(last), frame, false, shown)
            &&& #[trigger] observed(shown, max_width, scaled_h, r)
            &&& shown matches Show::Picture { target, .. } ==> crate::capture::scales(
                target.w,
                max_width,
            ) ==> call_ensures(fit, (target.w, target.h, max_width), scaled_h)
        };
    let obs = (r->Ok_0).0;
    assert(obs.width * obs.height >= 0) by (nonlinear_arith);
    if max_width > 0 && frame.w > max_width {
        assert(call_ensures(fit, (frame.w, frame.h, max_width), scaled_h));
    }
}

/// A bitmap is taken as it is: the picture has the place and the size of the
/// screen, and its red, green and blue bytes are the third, the second and the
/// first of each pixel of the bitmap. A screen without area is refused.
pub proof fn law_a_bitmap_is_taken_as_it_is(
    screen: (i32, i32, i32, i32),
    bgra: &[u8],
    r: Result<Frame, CaptureError>,
    p: int,
)
    requires
        screen.2 > 0 && screen.3 > 0 ==> bgra@.len() == screen.2 * screen.3 * 4,
        call_ensures(grab, (screen, bgra), r),
    ensures
        r is Ok <==> screen.2 > 0 && screen.3 > 0,
        r matches Err(e) ==> e == (CaptureError::NoDesktop { width: screen.2, height: screen.3 }),
        r matches Ok(f) ==> {
            &&& f.w == screen.2 && f.h == screen.3 && f.origin == (screen.0, screen.1)
            &&& f.rgb@.len() == screen.2 * screen.3 * 3
            &&& 0 <= p < screen.2 * screen.3 ==> f.rgb@[p * 3] == bgra@[p * 4 + 2] && f.rgb@[p * 3
                + 1] == bgra@[p * 4 + 1] && f.rgb@[p * 3 + 2] == bgra@[p * 4]
        },
{
    if r is Ok {
        let f = r->Ok_0;
        assert(f.w * f.h == screen.2 * screen.3) by (nonlinear_arith)
            requires
                f.w == screen.2,
                f.h == screen.3,
        ;
        if 0 <= p < screen.2 * screen.3 {
            assert(pixel_swapped(f.rgb@, bgra@, p));
        }
    }
}

/// What the screen did between two frames is what a diff would say of it: where
/// they differ, in screen coordinates, and in how many pixels of how many.
pub proof fn law_a_comparison_says_where_and_how_much(
    before: Frame,
    after: Frame,
    r: Option<ScreenChange>,
)
    requires
        before.wf(),
        after.wf(),
        after.on_screen(),
        before.w == after.w,
        before.h == after.h,
        call_ensures(compare_frames, (&before, &after), r),
    ensures
        ({
            let total = after.w * after.h;
            let n = count_moved(before.rgb@, after.rgb@, 12, total as nat);
            match r {
                None => n == 0,
                Some(s) => n > 0 && s.changed == n && s.total == total && exists|c: Changed|
                    #[trigger] is_changed_box(&before, &after, 12, Some(c)) && s.x
                        == after.origin.0 + c.x && s.y == after.origin.1 + c.y && s.w == c.w && s.h
                        == c.h,
            }
        }),
{
    let c = choose|c: Option<Changed>| #[trigger]
        is_changed_box(&before, &after, TOLERANCE, c) && r == (match c {
            Some(b) => Some(crate::capture::screen_change(&after, b)),
            None => None::<ScreenChange>,
        });
    lemma_counted(before, after, 12, c);
    assert(after.w * after.h >= 0) by (nonlinear_arith);
    if c is Some {
        assert(is_changed_box(&before, &after, 12, Some(c->0)));
    }
}

/// What observing in diff mode reports: how many pixels differ and of how many;
/// where, in screen coordinates; and a picture unless none does or the region
/// says little. A picture that is not reduced has the size of the region.
pub proof fn law_observing_reports_what_moved<F: Fn(u32, u32, u32) -> u32>(
    last: &mut Option<Frame>,
    before: Frame,
    frame: Frame,
    max_width: u32,
    fit: F,
    obs: Observation,
    bytes: Vec<u8>,
)
    requires
        *old(last) == Some(before),
        before.wf(),
        frame.wf(),
        frame.on_screen(),
        before.w == frame.w,
        before.h == frame.h,
        call_ensures(
            observe_bytes::<F>,
            (last, frame, true, max_width, fit),
            Ok::<(Observation, Vec<u8>), CaptureError>((obs, bytes)),
        ),
    ensures
        ({
            let total = frame.w * frame.h;
            let n = count_moved(before.rgb@, frame.rgb@, 12, total as nat);
            &&& obs.changed == Some((n as u64, total as u64))
            &&& obs.png_bytes == bytes@.len()
            &&& bytes@.len() == 0 ==> obs.width == 0 && obs.height == 0 && obs.approx_tokens == 0
            &&& (obs.width * obs.height) / 750 <= u32::MAX ==> obs.approx_tokens == (obs.width
                * obs.height) / 750
            &&& n == 0 ==> bytes@.len() == 0 && obs.note == Some(Note::Unchanged)
                && obs.changed_region is None
            &&& n > 0 ==> exists|c: Changed| #[trigger]
                is_changed_box(&before, &frame, 12, Some(c)) && is_region(
                    obs.changed_region,
                    frame,
                    c,
                ) && (bytes@.len() == 0 <==> n * 200 < total && c.w * c.h > n * 25) && (bytes@.len()
                    > 0 && (max_width == 0 || c.w <= max_width) ==> obs.width == c.w && obs.height
                    == c.h) && (bytes@.len() > 0 && max_width > 0 && c.w > max_width ==> obs.width
                    == max_width) && (bytes@.len() > 0 ==> obs.note is None)
        }),
        *final(last) matches Some(kept) && kept.w == frame.w && kept.h == frame.h && kept.rgb@
            == frame.rgb@ && kept.origin == frame.origin,
{
    let r = Ok::<(Observation, Vec<u8>), CaptureError>((obs, bytes));
    let (shown, scaled_h) = choose|shown: Show, scaled_h: u32|
        {
            &&& #[trigger] shows(*old(last), frame, true, shown)
            &&& #[trigger] observed(shown, max_width, scaled_h, r)
            &&& shown matches Show::Picture { target, .. } ==> crate::capture::scales(
                target.w,
                max_width,
            ) ==> call_ensures(fit, (target.w, target.h, max_width), scaled_h)
        };
    lemma_diff_shows(before, frame, shown);
    assert(obs.width * obs.height >= 0) by (nonlinear_arith);
    assert(obs.width == 0 ==> obs.width * obs.height == 0) by (nonlinear_arith);
    let n = count_moved(before.rgb@, frame.rgb@, 12, (frame.w * frame.h) as nat);
    if n > 0 {
        let c = choose|c: Changed| #[trigger]
            is_changed_box(&before, &frame, 12, Some(c)) && match shown {
                Show::Words(o) => {
                    &&& n * 200 < frame.w * frame.h && c.w * c.h > n * 25
                    &&& o.changed == Some((n as u64, (frame.w * frame.h) as u64))
                    &&& is_region(o.changed_region, frame, c)
                },
                Show::Picture { target, changed, region, note } => {
                    &&& !(n * 200 < frame.w * frame.h && c.w * c.h > n * 25)
                    &&& changed == Some((n as u64, (frame.w * frame.h) as u64))
                    &&& is_region(region, frame, c)
                    &&& note is None
                    &&& target.w == c.w && target.h == c.h
                },
            };
        assert(is_changed_box(&before, &frame, 12, Some(c)));
    }
}

/// A crop within a frame is that part of it: it has the size that was asked for,
/// knows where on the screen it is, and shows what was there.
pub proof fn law_a_crop_is_that_part_of_the_frame(
    f: Frame,
    x: u32,
    y: u32,
    w: u32,
    h: u32,
    r: Frame,
    i: int,
    j: int,
    c: int,
)
    requires
        croppable(&f, x, y, w, h),
        x + w <= f.w,
        y + h <= f.h,
        call_ensures(crop, (&f, x, y, w, h), r),
        0 <= i < w,
        0 <= j < h,
        0 <= c < 3,
    ensures
        r.w == w && r.h == h && r.wf(),
        r.origin.0 == f.origin.0 + x && r.origin.1 == f.origin.1 + y,
        r.channel(i, j, c) == f.channel(x + i, y + j, c),
{
    law_a_crop_shows_what_was_there(f, x as int, y as int, r, i, j, c);
}

/// Channels stand in the bytes of a frame row by row, pixel by pixel, red before
/// green before blue.
pub proof fn law_a_frame_is_row_by_row(f: Frame, x: int, y: int, c: int)
    ensures
        f.channel(x, y, c) == f.rgb@[(y * f.w + x) * 3 + c],
        f.wf() <==> f.rgb@.len() == f.w * f.h * 3,
{
}

/// A picture is encoded as it is, or magnified to the size that was asked for,
/// and what is read from a file stands at the top left of the screen.
pub proof fn law_a_picture_is_written_at_its_size(
    f: Frame,
    w: u32,
    h: u32,
    plain: Result<Encoded, CaptureError>,
    large: Result<Encoded, CaptureError>,
    file: &[u8],
    read: Result<Frame, CaptureError>,
)
    requires
        f.wf(),
        call_ensures(encode_png, (&f, 0u32, 0u32), plain),
        call_ensures(enlarge_png, (&f, w, h), large),
        call_ensures(frame_from_png, (file,), read),
    ensures
        plain matches Ok(e) ==> e.w == f.w && e.h == f.h && png(f.rgb@, f.w, f.h) == Ok::<
            Seq<u8>,
            Seq<char>,
        >(e.png@),
        plain is Err <==> png(f.rgb@, f.w, f.h) is Err,
        large matches Ok(e) ==> e.w == w && e.h == h && png(
            resampled(f.rgb@, (f.w, f.h), (w, h)),
            w,
            h,
        ) == Ok::<Seq<u8>, Seq<char>>(e.png@),
        large is Err <==> png(resampled(f.rgb@, (f.w, f.h), (w, h)), w, h) is Err,
        read matches Ok(g) ==> g.origin == (0i32, 0i32) && g.wf() && unpng(file@) == Ok::<
            (Seq<u8>, u32, u32),
            Seq<char>,
        >((g.rgb@, g.w, g.h)),
        read is Err <==> unpng(file@) is Err,
{
    assert(f.pixels() =~= f.rgb@);
}

/// The checks of a frame and of a size say what they are for.
pub proof fn law_checks_say_what_they_are_for(
    f: Frame,
    w: u32,
    h: u32,
    max_width: u32,
    whole: bool,
    placed: bool,
    roomy: bool,
    countable: bool,
)
    requires
        call_ensures(Frame::is_wf, (&f,), whole),
        call_ensures(Frame::is_on_screen, (&f,), placed),
        call_ensures(is_roomy, (w, h), roomy),
        call_ensures(is_countable, (w, h, max_width), countable),
    ensures
        whole <==> f.rgb@.len() == f.w * f.h * 3,
        placed <==> f.w <= i32::MAX && f.h <= i32::MAX && f.origin.0 + f.w <= i32::MAX
            && f.origin.1 + f.h <= i32::MAX,
        roomy <==> w * h <= usize::MAX / 32 && w <= usize::MAX / 32 && w <= 0x40_0000 && h
            <= 0x40_0000,
        countable <==> (if max_width > 0 && w > max_width {
            max_width * h
        } else {
            w * h
        }) <= u32::MAX,
{
}

/// A screen of another size is shown as a whole, and counts as changed all over.
pub proof fn law_a_screen_of_another_size_is_shown_whole(
    last: &mut Option<Frame>,
    before: Frame,
    frame: Frame,
    r: Show,
    i: int,
    j: int,
    k: int,
)
    requires
        *old(last) == Some(before),
        frame.wf(),
        frame.on_screen(),
        before.w != frame.w || before.h != frame.h,
        call_ensures(choose_view, (last, frame, true), r),
        0 <= i < frame.w,
        0 <= j < frame.h,
        0 <= k < 3,
    ensures
        r matches Show::Picture { target, changed, region, note } && ({
            let total = (frame.w * frame.h) as u64;
            &&& target.w == frame.w && target.h == frame.h
            &&& target.channel(i, j, k) == frame.channel(i, j, k)
            &&& changed == Some((total, total))
            &&& region == Some((frame.origin.0, frame.origin.1, frame.w, frame.h))
            &&& note is None
        }),
{
    let c = choose|c: Option<Changed>| #[trigger]
        is_changed_box(&before, &frame, TOLERANCE, c) && crate::capture::shows_diff(
            Some(before),
            frame,
            c,
            r,
        );
    let b = c->0;
    assert(frame.w * frame.h >= 0) by (nonlinear_arith);
    lemma_area_of_part(frame.w as int, frame.h as int);
    lemma_cropped(frame, 0, 0, frame.w as int, frame.h as nat);
    let target = r->target;
    assert(frame.channel(0 + i, 0 + j, k) == target.rgb@[(j * frame.w + i) * 3 + k]);
}

/// A frame is copied as it is, and can be compared with one of the same size if
/// both have all their bytes.
pub proof fn law_a_frame_is_copied_as_it_is(f: Frame, g: Frame, copy: Frame, r: bool)
    requires
        call_ensures(Frame::copied, (&f,), copy),
        call_ensures(Frame::is_comparable, (&f, &g), r),
    ensures
        copy.w == f.w,
        copy.h == f.h,
        copy.origin == f.origin,
        copy.rgb@ == f.rgb@,
        r <==> f.w != g.w || f.h != g.h || f.rgb@.len() == f.w * f.h * 3 && g.rgb@.len() == g.w
            * g.h * 3,
{
}

/// A box can be cut out of a frame that has all its bytes if the box starts within
/// a row and its corner has a screen coordinate.
pub proof fn law_what_can_be_cropped_can_be(f: Frame, x: u32, y: u32, w: u32, h: u32, r: bool)
    requires
        call_ensures(can_crop, (&f, x, y, w, h), r),
    ensures
        f.rgb@.len() == f.w * f.h * 3 && x + w <= f.w && y + h <= f.h && f.origin.0 + f.w
            <= i32::MAX && f.origin.1 + f.h <= i32::MAX && f.w <= i32::MAX && f.h <= i32::MAX ==> r,
        r ==> f.rgb@.len() == f.w * f.h * 3 && f.origin.0 + x <= i32::MAX && f.origin.1 + y
            <= i32::MAX && y + h <= u32::MAX,
        x > f.w && y < f.h && h > 0 ==> !r,
{
}

} // verus!
