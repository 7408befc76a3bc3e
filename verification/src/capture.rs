//! What a captured screen shows, and what changed since the last look.
//!
//! Capturing itself is the platform's work. Once a frame is in memory the
//! questions are integer ones: which pixels moved, what box holds them, and
//! whether showing that box says more than naming it.

use vstd::prelude::*;
use vstd::string::*;
use crate::chars::{decimal, signed_decimal, write_decimal, write_signed};
use crate::foreign::{png, read_png, resample, resampled, unpng, write_png, LONGEST_SIDE};

verus! {

/// One captured picture.
pub struct Frame {
    pub w: u32,
    pub h: u32,
    /// Screen coordinate of this frame's top-left. NOT always (0,0): a monitor
    /// placed left of or above the primary gives the virtual screen a negative
    /// origin, and a region reported without it points at the wrong place.
    pub origin: (i32, i32),
    /// Row-major RGB, top-down.
    pub rgb: Vec<u8>,
}

impl Frame {
    /// Three bytes for every pixel.
    pub open spec fn wf(&self) -> bool {
        self.rgb@.len() == self.w * self.h * 3
    }

    /// Channel `c` of the pixel at column `x` of row `y`.
    pub open spec fn channel(&self, x: int, y: int, c: int) -> u8 {
        self.rgb@[(y * self.w + x) * 3 + c]
    }

    /// Every pixel has a screen coordinate.
    pub open spec fn on_screen(&self) -> bool {
        &&& self.w <= i32::MAX
        &&& self.h <= i32::MAX
        &&& self.origin.0 + self.w <= i32::MAX
        &&& self.origin.1 + self.h <= i32::MAX
    }

    /// Whether there are three bytes for every pixel.
    pub fn is_wf(&self) -> (r: bool)
        ensures
            r == self.wf(),
    {
        proof {
            lemma_area_fits(self.w, self.h);
        }
        let bytes: u128 = (self.w as u64 * self.h as u64) as u128 * 3;
        self.rgb.len() as u128 == bytes
    }

    /// Whether every pixel has a screen coordinate.
    pub fn is_on_screen(&self) -> (r: bool)
        ensures
            r == self.on_screen(),
    {
        let end: i64 = i32::MAX as i64;
        self.w as i64 <= end && self.h as i64 <= end && self.origin.0 as i64 + self.w as i64 <= end
            && self.origin.1 as i64 + self.h as i64 <= end
    }

    /// There is a byte for every channel of every pixel. There may be more.
    pub open spec fn filled(&self) -> bool {
        self.rgb@.len() >= self.w * self.h * 3
    }

    /// The bytes of the pixels, without what may stand behind them.
    pub open spec fn pixels(&self) -> Seq<u8> {
        self.rgb@.take(self.w * self.h * 3)
    }

    /// The bytes of the pixels, if they are all there.
    fn pixel_bytes(&self) -> (r: Option<&[u8]>)
        ensures
            match r {
                Some(b) => self.filled() && b@ == self.pixels(),
                None => !self.filled(),
            },
    {
        proof {
            lemma_area_fits(self.w, self.h);
        }
        let bytes: u128 = (self.w as u64 * self.h as u64) as u128 * 3;
        if (self.rgb.len() as u128) < bytes {
            return None;
        }
        let b = vstd::slice::slice_subrange(self.rgb.as_slice(), 0, bytes as usize);
        assert(b@ =~= self.pixels());
        Some(b)
    }

    /// The two can be compared: where their sizes agree, each has its pixels.
    pub open spec fn comparable(&self, other: &Frame) -> bool {
        self.w == other.w && self.h == other.h ==> self.wf() && other.wf()
    }

    /// Whether the two can be compared.
    pub fn is_comparable(&self, other: &Frame) -> (r: bool)
        ensures
            r == self.comparable(other),
    {
        self.w != other.w || self.h != other.h || self.is_wf() && other.is_wf()
    }

    /// The same picture at the same place.
    pub open spec fn same(&self, other: &Frame) -> bool {
        &&& self.w == other.w
        &&& self.h == other.h
        &&& self.origin == other.origin
        &&& self.rgb@ == other.rgb@
    }

    /// A copy of the frame.
    pub fn copied(&self) -> (r: Frame)
        ensures
            r.same(self),
    {
        let mut rgb: Vec<u8> = Vec::new();
        rgb.extend_from_slice(self.rgb.as_slice());
        assert(rgb@ =~= self.rgb@);
        Frame { w: self.w, h: self.h, origin: self.origin, rgb }
    }
}

/// Pixel `p` of the RGB bytes is pixel `p` of the BGRA bytes.
pub open spec fn pixel_swapped(rgb: Seq<u8>, bgra: Seq<u8>, p: int) -> bool {
    &&& rgb[p * 3] == bgra[p * 4 + 2]
    &&& rgb[p * 3 + 1] == bgra[p * 4 + 1]
    &&& rgb[p * 3 + 2] == bgra[p * 4]
}

/// The first `n` pixels of the RGB bytes are those of the BGRA bytes.
pub open spec fn swapped(rgb: Seq<u8>, bgra: Seq<u8>, n: int) -> bool {
    forall|p: int| 0 <= p < n ==> #[trigger] pixel_swapped(rgb, bgra, p)
}

/// The picture held in the bytes `bgra` of a top-down bitmap with four bytes a
/// pixel, taken of the virtual screen `(x, y, w, h)`. A screen without area is
/// refused: it is what a process in session 0 sees.
pub fn grab(screen: (i32, i32, i32, i32), bgra: &[u8]) -> (r: Result<Frame, CaptureError>)
    requires
        screen.2 > 0 && screen.3 > 0 ==> bgra@.len() == screen.2 * screen.3 * 4,
    ensures
        match r {
            Ok(f) => {
                &&& screen.2 > 0 && screen.3 > 0
                &&& f.w == screen.2 && f.h == screen.3
                &&& f.origin == (screen.0, screen.1)
                &&& f.wf()
                &&& swapped(f.rgb@, bgra@, f.w * f.h)
            },
            Err(e) => {
                &&& screen.2 <= 0 || screen.3 <= 0
                &&& e == CaptureError::NoDesktop { width: screen.2, height: screen.3 }
            },
        },
{
    let (x, y, w, h) = screen;
    if w <= 0 || h <= 0 {
        return Err(CaptureError::NoDesktop { width: w, height: h });
    }
    let mut rgb: Vec<u8> = Vec::new();
    let mut i: usize = 0;
    let ghost mut p: int = 0;
    let ghost area = w * h;
    while i < bgra.len()
        invariant
            bgra@.len() == area * 4,
            i == p * 4,
            0 <= p <= area,
            rgb@.len() == p * 3,
            forall|q: int|
                0 <= q < p ==> #[trigger] pixel_swapped(rgb@, bgra@, q),
        decreases bgra@.len() - i,
    {
        let limit: usize = bgra.len();
        assert(i + 4 <= limit);
        let ghost earlier = rgb@;
        rgb.push(bgra[i + 2]);
        rgb.push(bgra[i + 1]);
        rgb.push(bgra[i]);
        i += 4;
        proof {
            assert forall|q: int| 0 <= q < p + 1 implies #[trigger] pixel_swapped(
                rgb@,
                bgra@,
                q,
            ) by {
                if q < p {
                    assert(pixel_swapped(earlier, bgra@, q));
                }
            }
            p = p + 1;
        }
    }
    Ok(Frame { w: w as u32, h: h as u32, origin: (x, y), rgb })
}

/// How far apart two channel values are.
pub open spec fn gap(a: u8, b: u8) -> int {
    if a >= b {
        a - b
    } else {
        b - a
    }
}

/// The pixel at `(x, y)` differs by more than `tol`, its channels summed.
#[verifier::opaque]
pub open spec fn differs(a: &Frame, b: &Frame, tol: u8, x: int, y: int) -> bool {
    gap(a.channel(x, y, 0), b.channel(x, y, 0)) + gap(a.channel(x, y, 1), b.channel(x, y, 1)) + gap(
        a.channel(x, y, 2),
        b.channel(x, y, 2),
    ) > tol
}

/// How many of the first `n` pixels of row `y` differ.
pub open spec fn row_count(a: &Frame, b: &Frame, tol: u8, y: int, n: nat) -> nat
    decreases n,
{
    if n == 0 {
        0
    } else {
        row_count(a, b, tol, y, (n - 1) as nat) + if differs(a, b, tol, n - 1, y) {
            1nat
        } else {
            0
        }
    }
}

/// How many pixels of the first `n` rows differ.
pub open spec fn rows_count(a: &Frame, b: &Frame, tol: u8, n: nat) -> nat
    decreases n,
{
    if n == 0 {
        0
    } else {
        rows_count(a, b, tol, (n - 1) as nat) + row_count(a, b, tol, n - 1, b.w as nat)
    }
}

/// A box around everything that changed, how many pixels changed in it, and
/// how many pixels the frame has.
#[derive(Debug, Clone, Copy, PartialEq, Eq, Structural)]
pub struct Changed {
    pub x: u32,
    pub y: u32,
    pub w: u32,
    pub h: u32,
    pub changed: u64,
    pub total: u64,
}

/// `c` is the smallest box that holds every pixel that differs.
pub open spec fn tight(a: &Frame, b: &Frame, tol: u8, c: Changed) -> bool {
    &&& c.w > 0 && c.h > 0
    &&& c.x + c.w <= b.w
    &&& c.y + c.h <= b.h
    &&& forall|x: int, y: int|
        0 <= x < b.w && 0 <= y < b.h && #[trigger] differs(a, b, tol, x, y) ==> c.x <= x < c.x + c.w
            && c.y <= y < c.y + c.h
    &&& exists|y: int| 0 <= y < b.h && #[trigger] differs(a, b, tol, c.x as int, y)
    &&& exists|y: int| 0 <= y < b.h && #[trigger] differs(a, b, tol, c.x + c.w - 1, y)
    &&& exists|x: int| 0 <= x < b.w && #[trigger] differs(a, b, tol, x, c.y as int)
    &&& exists|x: int| 0 <= x < b.w && #[trigger] differs(a, b, tol, x, c.y + c.h - 1)
}

/// What [`changed_box`] returns.
pub open spec fn is_changed_box(a: &Frame, b: &Frame, tol: u8, r: Option<Changed>) -> bool {
    if a.w != b.w || a.h != b.h {
        r == Some(
            Changed {
                x: 0,
                y: 0,
                w: b.w,
                h: b.h,
                changed: (b.w * b.h) as u64,
                total: (b.w * b.h) as u64,
            },
        )
    } else {
        match r {
            None => forall|x: int, y: int|
                0 <= x < b.w && 0 <= y < b.h ==> !#[trigger] differs(a, b, tol, x, y),
            Some(c) => {
                &&& tight(a, b, tol, c)
                &&& c.changed == rows_count(a, b, tol, b.h as nat)
                &&& c.total == b.w * b.h
            },
        }
    }
}

fn channel_gap(a: u8, b: u8) -> (r: u16)
    ensures
        r == gap(a, b),
{
    if a >= b {
        (a - b) as u16
    } else {
        (b - a) as u16
    }
}

proof fn lemma_pixel_in_range(x: int, y: int, w: int, h: int)
    requires
        0 <= x < w,
        0 <= y < h,
    ensures
        0 <= (y * w + x) * 3,
        (y * w + x) * 3 + 3 <= w * h * 3,
{
    assert(y * w + w <= h * w) by (nonlinear_arith)
        requires
            0 <= y < h,
            0 <= w,
    ;
    assert(0 <= y * w) by (nonlinear_arith)
        requires
            0 <= y,
            0 <= w,
    ;
    assert(h * w == w * h) by (nonlinear_arith);
}

proof fn lemma_area_fits(w: u32, h: u32)
    ensures
        0 <= w * h <= u64::MAX,
{
    assert(0 <= w * h <= 0xffff_ffff * 0xffff_ffff) by (nonlinear_arith)
        requires
            0 <= w <= 0xffff_ffff,
            0 <= h <= 0xffff_ffff,
    ;
}

/// Whether the pixel at `(x, y)`, whose bytes start at `i`, differs.
fn pixel_differs(a: &Frame, b: &Frame, tol: u8, x: u32, y: u32, i: usize) -> (r: bool)
    requires
        a.wf(),
        b.wf(),
        a.w == b.w,
        a.h == b.h,
        x < b.w,
        y < b.h,
        i == (y * b.w + x) * 3,
    ensures
        r == differs(a, b, tol, x as int, y as int),
        i + 3 <= b.rgb@.len(),
{
    reveal(differs);
    proof {
        lemma_pixel_in_range(x as int, y as int, b.w as int, b.h as int);
    }
    let end: usize = b.rgb.len();
    assert(i + 3 <= end);
    let d: u16 = channel_gap(a.rgb[i], b.rgb[i]) + channel_gap(a.rgb[i + 1], b.rgb[i + 1])
        + channel_gap(a.rgb[i + 2], b.rgb[i + 2]);
    d > tol as u16
}

/// Bounding box of everything that changed, plus how much of the frame it is.
/// One box, not a region list: a caller wants "look here", and merging
/// scattered boxes into their hull is cheaper and easier to act on.
pub fn changed_box(a: &Frame, b: &Frame, tol: u8) -> (r: Option<Changed>)
    requires
        a.comparable(b),
    ensures
        is_changed_box(a, b, tol, r),
{
    proof {
        lemma_area_fits(b.w, b.h);
    }
    let total: u64 = (b.w as u64) * (b.h as u64);
    if a.w != b.w || a.h != b.h {
        return Some(Changed { x: 0, y: 0, w: b.w, h: b.h, changed: total, total });
    }
    let mut x0: u32 = u32::MAX;
    let mut y0: u32 = u32::MAX;
    let mut x1: u32 = 0;
    let mut y1: u32 = 0;
    let mut changed: u64 = 0;
    let mut i: usize = 0;
    let mut y: u32 = 0;
    // Where the scan last touched each side of the box.
    let ghost mut left: int = 0;
    let ghost mut right: int = 0;
    let ghost mut top: int = 0;
    let ghost mut bottom: int = 0;
    while y < b.h
        invariant
            a.wf(),
            b.wf(),
            a.w == b.w,
            a.h == b.h,
            y <= b.h,
            i == y * b.w * 3,
            changed == rows_count(a, b, tol, y as nat),
            changed <= y * b.w,
            forall|p: int, q: int|
                0 <= p < b.w && 0 <= q < y && #[trigger] differs(a, b, tol, p, q) ==> x0 <= p <= x1
                    && y0 <= q <= y1 && changed > 0,
            changed > 0 ==> {
                &&& x0 <= x1 < b.w
                &&& y0 <= y1 < b.h
                &&& 0 <= left < b.h && differs(a, b, tol, x0 as int, left)
                &&& 0 <= right < b.h && differs(a, b, tol, x1 as int, right)
                &&& 0 <= top < b.w && differs(a, b, tol, top, y0 as int)
                &&& 0 <= bottom < b.w && differs(a, b, tol, bottom, y1 as int)
            },
            changed == 0 ==> x0 == u32::MAX && y0 == u32::MAX && x1 == 0 && y1 == 0,
        decreases b.h - y,
    {
        let mut x: u32 = 0;
        while x < b.w
            invariant
                a.wf(),
                b.wf(),
                a.w == b.w,
                a.h == b.h,
                x <= b.w,
                y < b.h,
                i == (y * b.w + x) * 3,
                changed == rows_count(a, b, tol, y as nat) + row_count(
                    a,
                    b,
                    tol,
                    y as int,
                    x as nat,
                ),
                changed <= y * b.w + x,
                forall|p: int, q: int|
                    0 <= p < b.w && 0 <= q && (q < y || q == y && p < x) && #[trigger] differs(
                        a,
                        b,
                        tol,
                        p,
                        q,
                    ) ==> x0 <= p <= x1 && y0 <= q <= y1 && changed > 0,
                changed > 0 ==> {
                    &&& x0 <= x1 < b.w
                    &&& y0 <= y1 < b.h
                    &&& 0 <= left < b.h && differs(a, b, tol, x0 as int, left)
                    &&& 0 <= right < b.h && differs(a, b, tol, x1 as int, right)
                    &&& 0 <= top < b.w && differs(a, b, tol, top, y0 as int)
                    &&& 0 <= bottom < b.w && differs(a, b, tol, bottom, y1 as int)
                },
                changed == 0 ==> x0 == u32::MAX && y0 == u32::MAX && x1 == 0 && y1 == 0,
            decreases b.w - x,
        {
            proof {
                lemma_pixel_in_range(x as int, y as int, b.w as int, b.h as int);
                lemma_area_fits(b.w, b.h);
            }
            let limit: usize = b.rgb.len();
            if pixel_differs(a, b, tol, x, y, i) {
                changed += 1;
                if x < x0 {
                    x0 = x;
                    proof {
                        left = y as int;
                    }
                }
                if y < y0 {
                    y0 = y;
                    proof {
                        top = x as int;
                    }
                }
                if x > x1 || changed == 1 {
                    x1 = x;
                    proof {
                        right = y as int;
                    }
                }
                if y > y1 || changed == 1 {
                    y1 = y;
                    proof {
                        bottom = x as int;
                    }
                }
            }
            x += 1;
            i += 3;
        }
        assert(y * b.w + b.w == (y + 1) * b.w) by (nonlinear_arith);
        y += 1;
    }
    if changed == 0 {
        return None;
    }
    assert((b.h as int) * (b.w as int) == b.w * b.h) by (nonlinear_arith);
    let r = Changed { x: x0, y: y0, w: x1 - x0 + 1, h: y1 - y0 + 1, changed, total };
    proof {
        assert(differs(a, b, tol, r.x + r.w - 1, right));
        assert(differs(a, b, tol, bottom, r.y + r.h - 1));
        assert(tight(a, b, tol, r));
    }
    Some(r)
}

/// How many rows of `f` a crop of height `h` at row `y` holds.
pub open spec fn cropped_rows(f: &Frame, y: u32, h: u32) -> int {
    if y >= f.h {
        0
    } else if h <= f.h - y {
        h as int
    } else {
        f.h - y
    }
}

/// How many columns of `f` a crop of width `w` at column `x` holds.
pub open spec fn cropped_cols(f: &Frame, x: u32, w: u32) -> int {
    if x >= f.w {
        0
    } else if w <= f.w - x {
        w as int
    } else {
        f.w - x
    }
}

/// The bytes of the columns `x..x + cols` of `rows` rows of `f` from row `y`.
pub open spec fn cropped_bytes(f: &Frame, x: int, y: int, cols: int, rows: nat) -> Seq<u8>
    decreases rows,
{
    if rows == 0 {
        seq![]
    } else {
        let start = ((y + rows - 1) * f.w + x) * 3;
        cropped_bytes(f, x, y, cols, (rows - 1) as nat) + f.rgb@.subrange(start, start + cols * 3)
    }
}

/// The box `(x, y, w, h)` can be cut out of `f`: it starts within a row, and its
/// corner has a screen coordinate.
pub open spec fn croppable(f: &Frame, x: u32, y: u32, w: u32, h: u32) -> bool {
    &&& f.wf()
    &&& y + h <= u32::MAX
    &&& y < f.h && h > 0 ==> x <= f.w
    &&& x <= i32::MAX && i32::MIN <= f.origin.0 + x <= i32::MAX
    &&& y <= i32::MAX && i32::MIN <= f.origin.1 + y <= i32::MAX
}

/// Whether the box `(x, y, w, h)` can be cut out of `f`.
pub fn can_crop(f: &Frame, x: u32, y: u32, w: u32, h: u32) -> (r: bool)
    ensures
        r == croppable(f, x, y, w, h),
{
    let end: i64 = i32::MAX as i64;
    let starts: bool = y >= f.h || h == 0 || x <= f.w;
    f.is_wf() && y as u64 + h as u64 <= u32::MAX as u64 && starts && x as i64 <= end && y as i64
        <= end && f.origin.0 as i64 + x as i64 <= end && f.origin.1 as i64 + y as i64 <= end
}

/// The part of `f` in the box `(x, y, w, h)`, clamped at the frame's edges. The
/// result keeps the size that was asked for and knows where it came from.
pub fn crop(f: &Frame, x: u32, y: u32, w: u32, h: u32) -> (r: Frame)
    requires
        croppable(f, x, y, w, h),
    ensures
        r.w == w,
        r.h == h,
        r.origin == ((f.origin.0 + x) as i32, (f.origin.1 + y) as i32),
        r.rgb@ == cropped_bytes(
            f,
            x as int,
            y as int,
            cropped_cols(f, x, w),
            cropped_rows(f, y, h) as nat,
        ),
{
    let rows: u32 = if y >= f.h {
        0
    } else if h <= f.h - y {
        h
    } else {
        f.h - y
    };
    let cols: u32 = if x >= f.w {
        0
    } else if w <= f.w - x {
        w
    } else {
        f.w - x
    };
    let mut out: Vec<u8> = Vec::new();
    for k in 0..rows
        invariant
            f.wf(),
            rows == cropped_rows(f, y, h),
            cols == cropped_cols(f, x, w),
            rows > 0 ==> x <= f.w && y + rows <= f.h,
            out@ == cropped_bytes(f, x as int, y as int, cols as int, k as nat),
    {
        let limit: usize = f.rgb.len();
        let row: usize = (y + k) as usize;
        proof {
            let wide = f.w as int;
            assert(row * wide + wide <= f.h * wide && row * wide >= 0) by (nonlinear_arith)
                requires
                    0 <= row < f.h,
                    wide >= 0,
            ;
            assert(f.h * wide == f.w * f.h) by (nonlinear_arith)
                requires
                    wide == f.w,
            ;
        }
        let start: usize = (row * (f.w as usize) + x as usize) * 3;
        let end: usize = start + (cols as usize) * 3;
        out.extend_from_slice(vstd::slice::slice_subrange(f.rgb.as_slice(), start, end));
        assert(out@ =~= cropped_bytes(f, x as int, y as int, cols as int, (k + 1) as nat));
    }
    Frame { w, h, origin: (f.origin.0 + x as i32, f.origin.1 + y as i32), rgb: out }
}

// Encoding

/// Why a frame could not be taken or shown.
#[derive(Debug, PartialEq, Eq)]
pub enum CaptureError {
    /// The virtual screen has no area.
    NoDesktop { width: i32, height: i32 },
    /// The buffer is too short for the size.
    SizeMismatch { w: u32, h: u32 },
    /// The encoder refused the picture, and says why.
    Encoding { reason: String },
    /// The file holds no picture that can be read; the decoder says why.
    Decoding { reason: String },
}

impl CaptureError {
    /// The sentence that `message` returns.
    pub open spec fn text(self) -> Seq<char> {
        match self {
            CaptureError::NoDesktop { width, height } => "virtual screen is "@ + signed_decimal(
                width as int,
            ) + "x"@ + signed_decimal(height as int)
                + " - almost certainly running in session 0, which has no desktop"@,
            CaptureError::SizeMismatch { w, h } => "frame buffer size does not match "@ + decimal(
                w as nat,
            ) + "x"@ + decimal(h as nat),
            CaptureError::Encoding { reason } => reason@,
            CaptureError::Decoding { reason } => reason@,
        }
    }

    /// The error in words.
    pub fn message(&self) -> (r: String)
        ensures
            r@ == self.text(),
    {
        match self {
            CaptureError::NoDesktop { width, height } => {
                let mut out = String::from_str("virtual screen is ");
                let ws = write_signed(*width as i64);
                out.append(ws.as_str());
                out.append("x");
                let hs = write_signed(*height as i64);
                out.append(hs.as_str());
                out.append(" - almost certainly running in session 0, which has no desktop");
                out
            },
            CaptureError::SizeMismatch { w, h } => {
                let mut out = String::from_str("frame buffer size does not match ");
                let ws = write_decimal(*w as u64);
                out.append(ws.as_str());
                out.append("x");
                let hs = write_decimal(*h as u64);
                out.append(hs.as_str());
                out
            },
            CaptureError::Encoding { reason } => String::from_str(reason.as_str()),
            CaptureError::Decoding { reason } => String::from_str(reason.as_str()),
        }
    }
}

/// A frame of width `w` is scaled down to fit `max_width`; zero means native.
pub open spec fn scales(w: u32, max_width: u32) -> bool {
    max_width > 0 && w > max_width
}

/// The size at which a frame of size `w` by `h` is encoded, `scaled_h` being
/// the height that keeps its proportions when it is scaled.
pub open spec fn encoded_size(w: u32, h: u32, max_width: u32, scaled_h: u32) -> (u32, u32) {
    if scales(w, max_width) {
        (max_width, scaled_h)
    } else {
        (w, h)
    }
}

/// The PNG file for a picture, or why there is none.
pub open spec fn encoded(rgb: Seq<u8>, w: u32, h: u32, max_width: u32, scaled_h: u32) -> Result<
    Seq<u8>,
    Seq<char>,
> {
    if scales(w, max_width) {
        png(resampled(rgb, (w, h), (max_width, scaled_h)), max_width, scaled_h)
    } else {
        png(rgb, w, h)
    }
}

/// A picture of this size can be reduced: the work fits in memory, and no side
/// is too long for the filter.
pub open spec fn roomy(w: u32, h: u32) -> bool {
    &&& w * h <= usize::MAX / 32
    &&& w <= usize::MAX / 32
    &&& w <= LONGEST_SIDE
    &&& h <= LONGEST_SIDE
}

/// Whether a picture of this size can be reduced.
pub fn is_roomy(w: u32, h: u32) -> (r: bool)
    ensures
        r == roomy(w, h),
{
    proof {
        lemma_area_fits(w, h);
    }
    let limit: u64 = (usize::MAX / 32) as u64;
    w as u64 * h as u64 <= limit && w as u64 <= limit && w <= LONGEST_SIDE && h <= LONGEST_SIDE
}

/// However much of a picture of this size is shown, its pixels can be counted
/// once it is reduced to `max_width`.
pub open spec fn countable(w: u32, h: u32, max_width: u32) -> bool {
    (if scales(w, max_width) {
        max_width
    } else {
        w
    }) * h <= u32::MAX
}

/// Whether the pixels of a picture of this size can be counted once it is
/// reduced to `max_width`.
pub fn is_countable(w: u32, h: u32, max_width: u32) -> (r: bool)
    ensures
        r == countable(w, h, max_width),
{
    let shown: u32 = if max_width > 0 && w > max_width {
        max_width
    } else {
        w
    };
    proof {
        lemma_area_fits(shown, h);
    }
    shown as u64 * h as u64 <= u32::MAX as u64
}

/// `scaled_h` is a height to which a picture of height `h` can be reduced.
pub open spec fn reduces(h: u32, scaled_h: u32) -> bool {
    1 <= scaled_h && (scaled_h <= h || scaled_h == 1)
}

/// An encoded frame.
pub struct Encoded {
    pub png: Vec<u8>,
    pub w: u32,
    pub h: u32,
}

proof fn lemma_reduced_area(w: u32, h: u32, max_width: u32, scaled_h: u32)
    requires
        roomy(w, h),
        scales(w, max_width),
        reduces(h, scaled_h),
    ensures
        w * scaled_h <= usize::MAX / 32,
        max_width * scaled_h <= usize::MAX / 32,
        scaled_h <= LONGEST_SIDE,
{
    assert(w * scaled_h <= w * h || w * scaled_h == w) by (nonlinear_arith)
        requires
            1 <= scaled_h && (scaled_h <= h || scaled_h == 1),
            w >= 0,
    ;
    assert(max_width * scaled_h <= w * scaled_h) by (nonlinear_arith)
        requires
            0 <= max_width <= w,
            0 <= scaled_h,
    ;
}

/// Encodes a frame as PNG, reduced to `max_width` by `scaled_h` when it is
/// wider than that. A buffer too short for the size is refused. A reduction
/// takes a longer one too, and looks at nothing behind the pixels.
pub fn encode_png(f: &Frame, max_width: u32, scaled_h: u32) -> (r: Result<Encoded, CaptureError>)
    requires
        scales(f.w, max_width) ==> roomy(f.w, f.h) && reduces(f.h, scaled_h),
        scales(f.w, max_width) || f.rgb@.len() <= f.w * f.h * 3,
    ensures
        match r {
            Ok(e) => {
                &&& f.filled()
                &&& encoded(f.pixels(), f.w, f.h, max_width, scaled_h) == Ok::<Seq<u8>, Seq<char>>(
                    e.png@,
                )
                &&& e.png@.len() > 0
                &&& (e.w, e.h) == encoded_size(f.w, f.h, max_width, scaled_h)
            },
            Err(CaptureError::SizeMismatch { w, h }) => !f.filled() && w == f.w && h == f.h,
            Err(CaptureError::Encoding { reason }) => {
                &&& f.filled()
                &&& encoded(f.pixels(), f.w, f.h, max_width, scaled_h) == Err::<Seq<u8>, Seq<char>>(
                    reason@,
                )
            },
            Err(_) => false,
        },
{
    let pixels = match f.pixel_bytes() {
        Some(b) => b,
        None => {
            return Err(CaptureError::SizeMismatch { w: f.w, h: f.h });
        },
    };
    let (file, w, h) = if max_width > 0 && f.w > max_width {
        proof {
            lemma_reduced_area(f.w, f.h, max_width, scaled_h);
        }
        let small = resample(pixels, (f.w, f.h), (max_width, scaled_h));
        (write_png(small.as_slice(), max_width, scaled_h), max_width, scaled_h)
    } else {
        (write_png(pixels, f.w, f.h), f.w, f.h)
    };
    match file {
        Ok(png) => Ok(Encoded { png, w, h }),
        Err(reason) => Err(CaptureError::Encoding { reason }),
    }
}

/// A picture of the size `from` can be brought to the size `to`.
pub open spec fn resizes(from: (u32, u32), to: (u32, u32)) -> bool {
    &&& from.0 * from.1 <= usize::MAX / 32
    &&& from.0 * to.1 <= usize::MAX / 32
    &&& to.0 * to.1 <= usize::MAX / 32
    &&& from.0 <= LONGEST_SIDE && from.1 <= LONGEST_SIDE
    &&& to.0 <= LONGEST_SIDE && to.1 <= LONGEST_SIDE
}

/// Whether a picture of the size `from` can be brought to the size `to`.
pub fn can_resize(from: (u32, u32), to: (u32, u32)) -> (r: bool)
    ensures
        r == resizes(from, to),
{
    proof {
        lemma_area_fits(from.0, from.1);
        lemma_area_fits(from.0, to.1);
        lemma_area_fits(to.0, to.1);
    }
    let limit: u64 = (usize::MAX / 32) as u64;
    from.0 as u64 * from.1 as u64 <= limit && from.0 as u64 * to.1 as u64 <= limit && to.0 as u64
        * to.1 as u64 <= limit && from.0 <= LONGEST_SIDE && from.1 <= LONGEST_SIDE && to.0
        <= LONGEST_SIDE && to.1 <= LONGEST_SIDE
}

/// Encodes a frame as PNG at the size `w` by `h`, which is meant to be larger:
/// small text is read better when it is magnified first. A buffer too short
/// for the size is refused, and one that is longer is cut.
pub fn enlarge_png(f: &Frame, w: u32, h: u32) -> (r: Result<Encoded, CaptureError>)
    requires
        resizes((f.w, f.h), (w, h)),
    ensures
        match r {
            Ok(e) => {
                &&& f.filled()
                &&& png(resampled(f.pixels(), (f.w, f.h), (w, h)), w, h) == Ok::<
                    Seq<u8>,
                    Seq<char>,
                >(e.png@)
                &&& e.png@.len() > 0
                &&& e.w == w && e.h == h
            },
            Err(CaptureError::SizeMismatch { w, h }) => !f.filled() && w == f.w && h == f.h,
            Err(CaptureError::Encoding { reason }) => {
                &&& f.filled()
                &&& png(resampled(f.pixels(), (f.w, f.h), (w, h)), w, h) == Err::<
                    Seq<u8>,
                    Seq<char>,
                >(reason@)
            },
            Err(_) => false,
        },
{
    let pixels = match f.pixel_bytes() {
        Some(b) => b,
        None => {
            return Err(CaptureError::SizeMismatch { w: f.w, h: f.h });
        },
    };
    let large = resample(pixels, (f.w, f.h), (w, h));
    match write_png(large.as_slice(), w, h) {
        Ok(png) => Ok(Encoded { png, w, h }),
        Err(reason) => Err(CaptureError::Encoding { reason }),
    }
}

/// The picture that the bytes of a PNG file hold, as a frame at the top left of
/// the screen.
pub fn frame_from_png(file: &[u8]) -> (r: Result<Frame, CaptureError>)
    ensures
        match r {
            Ok(f) => {
                &&& unpng(file@) == Ok::<(Seq<u8>, u32, u32), Seq<char>>((f.rgb@, f.w, f.h))
                &&& f.origin == (0i32, 0i32)
                &&& f.wf()
            },
            Err(CaptureError::Decoding { reason }) => unpng(file@) == Err::<
                (Seq<u8>, u32, u32),
                Seq<char>,
            >(reason@),
            Err(_) => false,
        },
{
    match read_png(file) {
        Ok((rgb, w, h)) => Ok(Frame { w, h, origin: (0, 0), rgb }),
        Err(reason) => Err(CaptureError::Decoding { reason }),
    }
}

// Observing

/// What `observe` adds in words.
#[derive(Debug, Clone, Copy, PartialEq, Eq, Structural)]
pub enum Note {
    /// No change since the last observation.
    Unchanged,
    /// The first observation: the whole frame.
    First,
    /// So many scattered pixels of so many changed that the box around them is
    /// `ratio` times larger than the change itself; the image is withheld.
    Withheld { changed: u64, total: u64, ratio: u64 },
}

impl Note {
    /// The sentence that `message` returns, `share` being the share of the frame
    /// that changed in percent.
    pub open spec fn text(self, share: Seq<char>) -> Seq<char> {
        match self {
            Note::Unchanged => "no change since last observation"@,
            Note::First => "first observation - full frame"@,
            Note::Withheld { changed, ratio, .. } => decimal(changed as nat)
                + " scattered pixels changed ("@ + share
                + "%) - image withheld, the region hull is "@ + decimal(ratio as nat)
                + "x larger than the change itself"@,
        }
    }

    /// The note in words. `share` is the share of the frame that changed, in
    /// percent with three decimals.
    pub fn message(&self, share: &str) -> (r: String)
        ensures
            r@ == self.text(share@),
    {
        match self {
            Note::Unchanged => String::from_str("no change since last observation"),
            Note::First => String::from_str("first observation - full frame"),
            Note::Withheld { changed, total: _, ratio } => {
                let mut out = write_decimal(*changed);
                out.append(" scattered pixels changed (");
                out.append(share);
                out.append("%) - image withheld, the region hull is ");
                let n = write_decimal(*ratio);
                out.append(n.as_str());
                out.append("x larger than the change itself");
                out
            },
        }
    }
}

/// What was seen. Fractions are kept as the two numbers they are made of.
#[derive(Debug, Clone, Copy, PartialEq, Eq)]
pub struct Observation {
    pub width: u32,
    pub height: u32,
    /// Scale applied before encoding, as numerator and denominator; equal
    /// numbers mean native.
    pub scale: (u32, u32),
    pub png_bytes: usize,
    /// Roughly what the image will cost in context: (w*h)/750.
    pub approx_tokens: u32,
    /// Diff mode only: how many pixels changed since the last capture, and of
    /// how many.
    pub changed: Option<(u64, u64)>,
    /// Diff mode only: the changed region in SCREEN coordinates (x and y may
    /// be negative on a multi-monitor desktop).
    pub changed_region: Option<(i32, i32, u32, u32)>,
    pub note: Option<Note>,
}

/// How much two channel sums may differ before a pixel counts as changed.
pub const TOLERANCE: u8 = 12;

/// A single hull around scattered changes is mostly unchanged pixels: a caret
/// in one corner and a clock in the other yield a near-fullscreen box for a
/// handful of moved pixels. The image is withheld when less than half a
/// percent of the frame changed and the box is over 25 times the change.
pub open spec fn unrepresentative(c: Changed) -> bool {
    &&& c.changed * 200 < c.total
    &&& c.w * c.h > c.changed * 25
}

/// How many times larger than the change its box is.
pub open spec fn hull_ratio(c: Changed) -> u64 {
    ((c.w * c.h) / (if c.changed == 0 {
        1
    } else {
        c.changed as int
    })) as u64
}

/// The box in screen coordinates.
pub open spec fn screen_region(f: &Frame, c: Changed) -> (i32, i32, u32, u32) {
    ((f.origin.0 + c.x) as i32, (f.origin.1 + c.y) as i32, c.w, c.h)
}

/// What the screen did between two frames: where, and how many pixels of how
/// many.
#[derive(Debug, Clone, Copy, PartialEq, Eq, Structural)]
pub struct ScreenChange {
    /// Left edge in screen coordinates.
    pub x: i32,
    /// Top edge in screen coordinates.
    pub y: i32,
    pub w: u32,
    pub h: u32,
    pub changed: u64,
    pub total: u64,
}

/// What [`compare_frames`] returns for the box `c`.
pub open spec fn screen_change(f: &Frame, c: Changed) -> ScreenChange {
    let region = screen_region(f, c);
    ScreenChange {
        x: region.0,
        y: region.1,
        w: region.2,
        h: region.3,
        changed: c.changed,
        total: c.total,
    }
}

proof fn lemma_row_count(a: &Frame, b: &Frame, tol: u8, y: int, n: nat)
    ensures
        row_count(a, b, tol, y, n) <= n,
    decreases n,
{
    if n > 0 {
        lemma_row_count(a, b, tol, y, (n - 1) as nat);
    }
}

/// No more pixels differ than there are.
pub proof fn lemma_rows_count(a: &Frame, b: &Frame, tol: u8, n: nat)
    ensures
        rows_count(a, b, tol, n) <= b.w * n,
    decreases n,
{
    if n > 0 {
        lemma_rows_count(a, b, tol, (n - 1) as nat);
        lemma_row_count(a, b, tol, n - 1, b.w as nat);
        assert(b.w * (n - 1) + b.w == b.w * n) by (nonlinear_arith);
    } else {
        assert(b.w * n == 0) by (nonlinear_arith)
            requires
                n == 0,
        ;
    }
}

/// What changed on the screen between two frames; `None` when nothing did.
pub fn compare_frames(before: &Frame, after: &Frame) -> (r: Option<ScreenChange>)
    requires
        before.comparable(after),
        after.on_screen(),
    ensures
        exists|c: Option<Changed>| #[trigger]
            is_changed_box(before, after, TOLERANCE, c) && r == (match c {
                Some(b) => Some(screen_change(after, b)),
                None => None::<ScreenChange>,
            }),
        r matches Some(c) ==> c.changed <= c.total,
{
    let found = changed_box(before, after, TOLERANCE);
    match found {
        Some(c) => {
            assert(c.x + c.w <= after.w && c.y + c.h <= after.h);
            proof {
                lemma_rows_count(before, after, TOLERANCE, after.h as nat);
                lemma_area_fits(after.w, after.h);
            }
            Some(
                ScreenChange {
                    x: after.origin.0 + c.x as i32,
                    y: after.origin.1 + c.y as i32,
                    w: c.w,
                    h: c.h,
                    changed: c.changed,
                    total: c.total,
                },
            )
        },
        None => None,
    }
}

/// A report that carries no image.
pub open spec fn wordless(
    changed: (u64, u64),
    region: Option<(i32, i32, u32, u32)>,
    note: Note,
) -> Observation {
    Observation {
        width: 0,
        height: 0,
        scale: (1, 1),
        png_bytes: 0,
        approx_tokens: 0,
        changed: Some(changed),
        changed_region: region,
        note: Some(note),
    }
}

/// The report that comes with a picture of size `w` by `h`, encoded at the
/// size `to` into `png_bytes` bytes.
pub open spec fn pictured(
    w: u32,
    to: (u32, u32),
    png_bytes: usize,
    changed: Option<(u64, u64)>,
    region: Option<(i32, i32, u32, u32)>,
    note: Option<Note>,
) -> Observation {
    Observation {
        width: to.0,
        height: to.1,
        scale: if to.0 < w {
            (to.0, w)
        } else {
            (1, 1)
        },
        png_bytes,
        approx_tokens: ((to.0 * to.1) / 750) as u32,
        changed,
        changed_region: region,
        note,
    }
}

/// What is to be shown of a frame.
pub enum Show {
    /// Words are enough.
    Words(Observation),
    /// This picture, with what goes along in the report.
    Picture {
        target: Frame,
        changed: Option<(u64, u64)>,
        region: Option<(i32, i32, u32, u32)>,
        note: Option<Note>,
    },
}

/// What is to be shown of `frame` in diff mode, `c` being what changed since
/// the last one.
pub open spec fn shows_diff(last: Option<Frame>, frame: Frame, c: Option<Changed>, r: Show) -> bool {
    match (last, c) {
        (None, _) => r matches Show::Picture { target, changed, region, note } && target.same(
            &frame,
        ) && changed is None && region is None && note == Some(Note::First),
        (Some(_), None) => r == Show::Words(
            wordless((0, (frame.w * frame.h) as u64), None, Note::Unchanged),
        ),
        (Some(_), Some(b)) => if unrepresentative(b) {
            r == Show::Words(
                wordless(
                    (b.changed, b.total),
                    Some(screen_region(&frame, b)),
                    Note::Withheld { changed: b.changed, total: b.total, ratio: hull_ratio(b) },
                ),
            )
        } else {
            r matches Show::Picture { target, changed, region, note } && {
                &&& target.w == b.w && target.h == b.h
                &&& target.rgb@ == cropped_bytes(
                    &frame,
                    b.x as int,
                    b.y as int,
                    b.w as int,
                    b.h as nat,
                )
                &&& target.rgb@.len() == b.w * b.h * 3
                &&& changed == Some((b.changed, b.total))
                &&& region == Some(screen_region(&frame, b))
                &&& note is None
            }
        },
    }
}

/// What is to be shown of `frame`, in either mode.
pub open spec fn shows(last: Option<Frame>, frame: Frame, diff: bool, r: Show) -> bool {
    if diff {
        match last {
            None => shows_diff(last, frame, None, r),
            Some(p) => exists|c: Option<Changed>| #[trigger]
                is_changed_box(&p, &frame, TOLERANCE, c) && shows_diff(last, frame, c, r),
        }
    } else {
        r matches Show::Picture { target, changed, region, note } && target.same(&frame)
            && changed is None && region is None && note is None
    }
}

proof fn lemma_cropped_len(f: &Frame, x: int, y: int, cols: int, rows: nat)
    requires
        f.wf(),
        0 <= x,
        0 <= y,
        0 <= cols,
        x + cols <= f.w,
        y + rows <= f.h,
    ensures
        cropped_bytes(f, x, y, cols, rows).len() == cols * rows * 3,
    decreases rows,
{
    if rows > 0 {
        lemma_cropped_len(f, x, y, cols, (rows - 1) as nat);
        let row = y + rows - 1;
        let wide = f.w as int;
        assert(row * wide + wide <= f.h * wide && row * wide >= 0) by (nonlinear_arith)
            requires
                0 <= row < f.h,
                wide >= 0,
        ;
        assert(f.h * wide == f.w * f.h) by (nonlinear_arith)
            requires
                wide == f.w,
        ;
        assert(cols * (rows - 1) + cols == cols * rows) by (nonlinear_arith)
            requires
                rows >= 1,
        ;
    } else {
        assert(cols * rows == 0) by (nonlinear_arith)
            requires
                rows == 0,
        ;
    }
}

/// Decides what is to be shown of `frame`. In either mode the frame becomes the
/// one that the next look is compared with.
pub fn choose_view(last: &mut Option<Frame>, frame: Frame, diff: bool) -> (r: Show)
    requires
        *old(last) matches Some(p) ==> p.comparable(&frame),
        frame.wf(),
        frame.on_screen(),
    ensures
        shows(*old(last), frame, diff, r),
        *final(last) matches Some(p) && p.same(&frame),
{
    let copy = frame.copied();
    let ghost before = *last;
    let prior = last.take();
    *last = Some(copy);
    if !diff {
        return Show::Picture { target: frame, changed: None, region: None, note: None };
    }
    let p = match prior {
        None => {
            return Show::Picture {
                target: frame,
                changed: None,
                region: None,
                note: Some(Note::First),
            };
        },
        Some(p) => p,
    };
    let found = changed_box(&p, &frame, TOLERANCE);
    proof {
        lemma_area_fits(frame.w, frame.h);
    }
    let total: u64 = (frame.w as u64) * (frame.h as u64);
    match found {
        None => {
            let r = Show::Words(
                Observation {
                    width: 0,
                    height: 0,
                    scale: (1, 1),
                    png_bytes: 0,
                    approx_tokens: 0,
                    changed: Some((0, total)),
                    changed_region: None,
                    note: Some(Note::Unchanged),
                },
            );
            assert(shows_diff(before, frame, found, r));
            r
        },
        Some(c) => {
            assert(c.x + c.w <= frame.w && c.y + c.h <= frame.h);
            let region = (frame.origin.0 + c.x as i32, frame.origin.1 + c.y as i32, c.w, c.h);
            proof {
                lemma_area_fits(c.w, c.h);
            }
            let hull: u64 = (c.w as u64) * (c.h as u64);
            let few: bool = (c.changed as u128) * 200 < c.total as u128;
            let sparse: bool = hull as u128 > (c.changed as u128) * 25;
            if few && sparse {
                let ratio: u64 = hull / (if c.changed == 0 {
                    1
                } else {
                    c.changed
                });
                let r = Show::Words(
                    Observation {
                        width: 0,
                        height: 0,
                        scale: (1, 1),
                        png_bytes: 0,
                        approx_tokens: 0,
                        changed: Some((c.changed, c.total)),
                        changed_region: Some(region),
                        note: Some(
                            Note::Withheld { changed: c.changed, total: c.total, ratio },
                        ),
                    },
                );
                assert(shows_diff(before, frame, found, r));
                r
            } else {
                let target = crop(&frame, c.x, c.y, c.w, c.h);
                proof {
                    lemma_cropped_len(&frame, c.x as int, c.y as int, c.w as int, c.h as nat);
                    assert(cropped_cols(&frame, c.x, c.w) == c.w);
                    assert(cropped_rows(&frame, c.y, c.h) == c.h);
                }
                let r = Show::Picture {
                    target,
                    changed: Some((c.changed, c.total)),
                    region: Some(region),
                    note: None,
                };
                assert(shows_diff(before, frame, found, r));
                r
            }
        },
    }
}

/// What [`observe_bytes`] returns when `shown` is to be seen: `scaled_h` is the
/// height to which `fit` reduces the picture.
pub open spec fn observed(
    shown: Show,
    max_width: u32,
    scaled_h: u32,
    r: Result<(Observation, Vec<u8>), CaptureError>,
) -> bool {
    match shown {
        Show::Words(obs) => r matches Ok((o, bytes)) && o == obs && bytes@.len() == 0,
        Show::Picture { target, changed, region, note } => match encoded(
            target.rgb@,
            target.w,
            target.h,
            max_width,
            scaled_h,
        ) {
            Err(why) => r matches Err(CaptureError::Encoding { reason }) && reason@ == why,
            Ok(file) => r matches Ok((o, bytes)) && bytes@ == file && file.len() > 0 && o == pictured(
                target.w,
                encoded_size(target.w, target.h, max_width, scaled_h),
                bytes.len(),
                changed,
                region,
                note,
            ),
        },
    }
}

/// `image` mode: the whole frame. `diff` mode: only what moved, or nothing at
/// all. `fit` gives the height that keeps the proportions of a picture of the
/// given width and height when it is reduced to the given width; it is asked
/// only when the picture is wider than `max_width`.
pub fn observe_bytes<F: Fn(u32, u32, u32) -> u32>(
    last: &mut Option<Frame>,
    frame: Frame,
    diff: bool,
    max_width: u32,
    fit: F,
) -> (r: Result<(Observation, Vec<u8>), CaptureError>)
    requires
        *old(last) matches Some(p) ==> p.comparable(&frame),
        frame.wf(),
        frame.on_screen(),
        scales(frame.w, max_width) ==> roomy(frame.w, frame.h),
        countable(frame.w, frame.h, max_width),
        forall|w: u32, h: u32| #[trigger] call_requires(fit, (w, h, max_width)),
        forall|w: u32, h: u32, scaled_h: u32| #[trigger]
            call_ensures(fit, (w, h, max_width), scaled_h) ==> reduces(h, scaled_h),
    ensures
        exists|shown: Show, scaled_h: u32|
            {
                &&& #[trigger] shows(*old(last), frame, diff, shown)
                &&& #[trigger] observed(shown, max_width, scaled_h, r)
                &&& shown matches Show::Picture { target, .. } ==> scales(target.w, max_width)
                    ==> call_ensures(fit, (target.w, target.h, max_width), scaled_h)
            },
        *final(last) matches Some(p) && p.same(&frame),
{
    let ghost before = *last;
    let shown = choose_view(last, frame, diff);
    let ghost view = shown;
    match shown {
        Show::Words(obs) => {
            let r: Result<(Observation, Vec<u8>), CaptureError> = Ok((obs, Vec::new()));
            assert(observed(view, max_width, 0, r));
            r
        },
        Show::Picture { target, changed, region, note } => {
            proof {
                lemma_shown_fits(before, frame, diff, view, max_width);
            }
            let scaled_h: u32 = if max_width > 0 && target.w > max_width {
                fit(target.w, target.h, max_width)
            } else {
                0
            };
            assert(target.pixels() =~= target.rgb@);
            let r: Result<(Observation, Vec<u8>), CaptureError> = match encode_png(
                &target,
                max_width,
                scaled_h,
            ) {
                Err(e) => Err(e),
                Ok(e) => {
                    proof {
                        if scales(target.w, max_width) {
                            lemma_reduced_count(target.h, max_width, scaled_h);
                        }
                    }
                    let obs = Observation {
                        width: e.w,
                        height: e.h,
                        scale: if e.w < target.w {
                            (e.w, target.w)
                        } else {
                            (1, 1)
                        },
                        png_bytes: e.png.len(),
                        approx_tokens: (e.w * e.h) / 750,
                        changed,
                        changed_region: region,
                        note,
                    };
                    Ok((obs, e.png))
                },
            };
            assert(observed(view, max_width, scaled_h, r));
            r
        },
    }
}

proof fn lemma_reduced_count(h: u32, max_width: u32, scaled_h: u32)
    requires
        max_width * h <= u32::MAX,
        reduces(h, scaled_h),
    ensures
        max_width * scaled_h <= u32::MAX,
{
    assert(max_width * scaled_h <= max_width * h || max_width * scaled_h == max_width)
        by (nonlinear_arith)
        requires
            1 <= scaled_h && (scaled_h <= h || scaled_h == 1),
            max_width >= 0,
    ;
}

proof fn lemma_smaller_fits(w: u32, h: u32, cw: u32, ch: u32, max_width: u32)
    requires
        scales(w, max_width) ==> roomy(w, h),
        countable(w, h, max_width),
        cw <= w,
        ch <= h,
    ensures
        scales(cw, max_width) ==> roomy(cw, ch),
        countable(cw, ch, max_width),
{
    assert(cw * ch <= w * h) by (nonlinear_arith)
        requires
            0 <= cw <= w,
            0 <= ch <= h,
    ;
    let shown: int = if scales(w, max_width) {
        max_width as int
    } else {
        w as int
    };
    let part: int = if scales(cw, max_width) {
        max_width as int
    } else {
        cw as int
    };
    assert(part * ch <= shown * h) by (nonlinear_arith)
        requires
            0 <= part <= shown,
            0 <= ch <= h,
    ;
}

proof fn lemma_shown_fits(last: Option<Frame>, frame: Frame, diff: bool, r: Show, max_width: u32)
    requires
        frame.wf(),
        scales(frame.w, max_width) ==> roomy(frame.w, frame.h),
        countable(frame.w, frame.h, max_width),
        shows(last, frame, diff, r),
    ensures
        r matches Show::Picture { target, .. } ==> target.wf() && (scales(target.w, max_width)
            ==> roomy(target.w, target.h)) && countable(target.w, target.h, max_width),
{
    if diff && last is Some {
        let p = last->0;
        let c = choose|c: Option<Changed>| #[trigger]
            is_changed_box(&p, &frame, TOLERANCE, c) && shows_diff(last, frame, c, r);
        if c is Some {
            lemma_smaller_fits(frame.w, frame.h, c->0.w, c->0.h, max_width);
        }
    }
}

} // verus!
