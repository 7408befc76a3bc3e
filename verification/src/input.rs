//! Synthetic input.
//!
//! Everything else in this crate acts through UI Automation control patterns,
//! which reach a control without stealing focus or moving the cursor. This
//! module is the exception: OCR returns a rectangle rather than a control, and
//! keyboard input has no control pattern at all. It works out which events to
//! send; sending them is the platform's work.

use vstd::prelude::*;
use vstd::string::*;
use crate::chars::{decimal, signed_decimal, write_decimal, write_signed};
use crate::keys::Chord;

verus! {

/// The largest coordinate of the normalised space that mouse events address.
pub const NORMALIZED_MAX: i32 = 65535;

/// The quotient of `n` by a positive `d`, rounded to the nearest integer and
/// away from zero half way.
pub open spec fn rounded(n: int, d: int) -> int {
    if n >= 0 {
        (2 * n + d) / (2 * d)
    } else {
        -((2 * -n + d) / (2 * d))
    }
}

/// `v` brought into the range of `i32`.
pub open spec fn saturated(v: int) -> i32 {
    if v > i32::MAX {
        i32::MAX
    } else if v < i32::MIN {
        i32::MIN
    } else {
        v as i32
    }
}

/// The divisor for a span of that many pixels; never zero.
pub open spec fn steps(span: int) -> int {
    if span - 1 > 1 {
        span - 1
    } else {
        1
    }
}

/// Where `v` lies on a screen axis that starts at `origin` and has `span`
/// pixels, in the normalised space.
pub open spec fn normalized_coordinate(v: int, origin: int, span: int) -> int {
    rounded((v - origin) * NORMALIZED_MAX, steps(span))
}

/// Map a screen coordinate into the normalised 0..65535 space.
///
/// `origin` is negative when a monitor sits left of or above the primary. The
/// quotient is rounded to the nearest integer.
pub fn to_normalized(v: i32, origin: i32, span: i32) -> (r: i32)
    requires
        i32::MIN <= v - origin <= i32::MAX,
        span > i32::MIN,
    ensures
        r == saturated(normalized_coordinate(v as int, origin as int, span as int)),
{
    let n: i64 = ((v - origin) as i64) * (NORMALIZED_MAX as i64);
    let d: i64 = if span - 1 > 1 {
        (span - 1) as i64
    } else {
        1
    };
    let magnitude: i64 = if n >= 0 {
        n
    } else {
        -n
    };
    let q: i64 = (2 * magnitude + d) / (2 * d);
    let signed: i64 = if n >= 0 {
        q
    } else {
        -q
    };
    if signed > i32::MAX as i64 {
        i32::MAX
    } else if signed < i32::MIN as i64 {
        i32::MIN
    } else {
        signed as i32
    }
}

/// What a mouse event does besides naming a point.
#[derive(Debug, Clone, Copy, PartialEq, Eq, Structural)]
pub enum MouseKind {
    Move,
    LeftDown,
    LeftUp,
}

/// One mouse event in the normalised space.
#[derive(Debug, Clone, Copy, PartialEq, Eq, Structural)]
pub struct MouseEvent {
    pub kind: MouseKind,
    pub dx: i32,
    pub dy: i32,
}

/// The virtual screen: its origin and its size.
#[derive(Debug, Clone, Copy, PartialEq, Eq, Structural)]
pub struct Desktop {
    pub x: i32,
    pub y: i32,
    pub w: i32,
    pub h: i32,
}

impl Desktop {
    /// There is somewhere to click.
    pub open spec fn has_area(self) -> bool {
        self.w > 0 && self.h > 0
    }

    /// The point is a pixel of the desktop.
    pub open spec fn holds(self, x: i32, y: i32) -> bool {
        self.x <= x < self.x + self.w && self.y <= y < self.y + self.h
    }
}

/// Why input was not sent.
#[derive(Debug, Clone, Copy, PartialEq, Eq, Structural)]
pub enum InputError {
    /// The virtual screen has no area.
    NoDesktop { screen: Desktop },
    /// The point is not on the virtual screen.
    Outside { at_x: i32, at_y: i32, desktop: Desktop },
    /// The system took fewer mouse events than were sent.
    MouseBlocked { sent: u32, of: u32 },
    /// The system took fewer keyboard events than were sent.
    KeysBlocked { keys_sent: u32, keys_of: u32 },
}

impl InputError {
    /// The sentence that `message` returns.
    pub open spec fn text(self) -> Seq<char> {
        match self {
            InputError::NoDesktop { screen } => "virtual screen is "@ + signed_decimal(
                screen.w as int,
            ) + "x"@ + signed_decimal(screen.h as int)
                + " - no desktop to click on (session 0?)"@,
            InputError::Outside { at_x, at_y, desktop } => "("@ + signed_decimal(at_x as int) + ","@
                + signed_decimal(at_y as int) + ") is outside the virtual desktop ("@
                + signed_decimal(desktop.x as int) + ","@ + signed_decimal(desktop.y as int) + " "@
                + signed_decimal(desktop.w as int) + "x"@ + signed_decimal(desktop.h as int)
                + ")"@,
            InputError::MouseBlocked { sent, of } => "SendInput accepted "@ + decimal(sent as nat)
                + " of "@ + decimal(of as nat) + " events - blocked by UIPI?"@,
            InputError::KeysBlocked { keys_sent, keys_of } => "SendInput accepted "@ + decimal(
                keys_sent as nat,
            ) + " of "@ + decimal(keys_of as nat) + " keyboard events"@,
        }
    }

    /// The error in words.
    pub fn message(&self) -> (r: String)
        ensures
            r@ == self.text(),
    {
        match self {
            InputError::NoDesktop { screen } => {
                let mut out = String::from_str("virtual screen is ");
                append_signed(&mut out, screen.w);
                out.append("x");
                append_signed(&mut out, screen.h);
                out.append(" - no desktop to click on (session 0?)");
                out
            },
            InputError::Outside { at_x, at_y, desktop } => {
                let mut out = String::from_str("(");
                append_signed(&mut out, *at_x);
                out.append(",");
                append_signed(&mut out, *at_y);
                out.append(") is outside the virtual desktop (");
                append_signed(&mut out, desktop.x);
                out.append(",");
                append_signed(&mut out, desktop.y);
                out.append(" ");
                append_signed(&mut out, desktop.w);
                out.append("x");
                append_signed(&mut out, desktop.h);
                out.append(")");
                out
            },
            InputError::MouseBlocked { sent, of } => {
                let mut out = String::from_str("SendInput accepted ");
                append_count(&mut out, *sent);
                out.append(" of ");
                append_count(&mut out, *of);
                out.append(" events - blocked by UIPI?");
                out
            },
            InputError::KeysBlocked { keys_sent, keys_of } => {
                let mut out = String::from_str("SendInput accepted ");
                append_count(&mut out, *keys_sent);
                out.append(" of ");
                append_count(&mut out, *keys_of);
                out.append(" keyboard events");
                out
            },
        }
    }
}

fn append_signed(out: &mut String, n: i32)
    ensures
        final(out)@ == old(out)@ + signed_decimal(n as int),
{
    let s = write_signed(n as i64);
    out.append(s.as_str());
}

fn append_count(out: &mut String, n: u32)
    ensures
        final(out)@ == old(out)@ + decimal(n as nat),
{
    let s = write_decimal(n as u64);
    out.append(s.as_str());
}

/// The events of a click at a pixel of the desktop: move, press, release, all
/// at the same normalised point.
pub open spec fn click_events(x: int, y: int, desktop: Desktop) -> Seq<MouseEvent> {
    let dx = normalized_coordinate(x, desktop.x as int, desktop.w as int) as i32;
    let dy = normalized_coordinate(y, desktop.y as int, desktop.h as int) as i32;
    seq![
        MouseEvent { kind: MouseKind::Move, dx, dy },
        MouseEvent { kind: MouseKind::LeftDown, dx, dy },
        MouseEvent { kind: MouseKind::LeftUp, dx, dy },
    ]
}

/// A point of an axis lands inside the normalised range.
pub proof fn lemma_on_axis(v: int, origin: int, span: int)
    requires
        origin <= v < origin + span,
    ensures
        0 <= normalized_coordinate(v, origin, span) <= NORMALIZED_MAX,
{
    let k = v - origin;
    let d = steps(span);
    let n = k * NORMALIZED_MAX;
    assert(0 <= n <= d * NORMALIZED_MAX) by (nonlinear_arith)
        requires
            0 <= k <= d,
            n == k * NORMALIZED_MAX,
    ;
    assert(0 <= (2 * n + d) / (2 * d) <= NORMALIZED_MAX) by (nonlinear_arith)
        requires
            0 <= n <= d * NORMALIZED_MAX,
            d >= 1,
    ;
}

/// The events of one click at a screen coordinate, to be sent as one batch so
/// that no other input comes between the move and the press.
pub fn click_at(x: i32, y: i32, desktop: Desktop) -> (r: Result<Vec<MouseEvent>, InputError>)
    ensures
        match r {
            Ok(events) => {
                &&& desktop.has_area()
                &&& desktop.holds(x, y)
                &&& events@ == click_events(x as int, y as int, desktop)
            },
            Err(e) => if !desktop.has_area() {
                e == (InputError::NoDesktop { screen: desktop })
            } else {
                &&& !desktop.holds(x, y)
                &&& e == (InputError::Outside { at_x: x, at_y: y, desktop })
            },
        },
{
    if desktop.w <= 0 || desktop.h <= 0 {
        return Err(InputError::NoDesktop { screen: desktop });
    }
    if x < desktop.x || y < desktop.y || x as i64 >= desktop.x as i64 + desktop.w as i64
        || y as i64 >= desktop.y as i64 + desktop.h as i64 {
        return Err(InputError::Outside { at_x: x, at_y: y, desktop });
    }
    proof {
        lemma_on_axis(x as int, desktop.x as int, desktop.w as int);
        lemma_on_axis(y as int, desktop.y as int, desktop.h as int);
    }
    let dx: i32 = to_normalized(x, desktop.x, desktop.w);
    let dy: i32 = to_normalized(y, desktop.y, desktop.h);
    let mut events: Vec<MouseEvent> = Vec::new();
    events.push(MouseEvent { kind: MouseKind::Move, dx, dy });
    events.push(MouseEvent { kind: MouseKind::LeftDown, dx, dy });
    events.push(MouseEvent { kind: MouseKind::LeftUp, dx, dy });
    assert(events@ =~= click_events(x as int, y as int, desktop));
    Ok(events)
}

/// Whether the system took every mouse event of a batch.
pub fn check_clicked(sent: u32, of: u32) -> (r: Result<(), InputError>)
    ensures
        r == (if sent == of {
            Ok::<(), InputError>(())
        } else {
            Err::<(), InputError>(InputError::MouseBlocked { sent, of })
        }),
{
    if sent == of {
        Ok(())
    } else {
        Err(InputError::MouseBlocked { sent, of })
    }
}

/// Whether the system took every keyboard event of a batch.
pub fn check_typed(sent: u32, of: u32) -> (r: Result<(), InputError>)
    ensures
        r == (if sent == of {
            Ok::<(), InputError>(())
        } else {
            Err::<(), InputError>(InputError::KeysBlocked { keys_sent: sent, keys_of: of })
        }),
{
    if sent == of {
        Ok(())
    } else {
        Err(InputError::KeysBlocked { keys_sent: sent, keys_of: of })
    }
}

/// A key going down or coming up.
#[derive(Debug, Clone, Copy, PartialEq, Eq, Structural)]
pub struct KeyEvent {
    pub vk: u16,
    pub up: bool,
}

/// Each of `keys` going down, in order.
pub open spec fn presses(keys: Seq<u16>) -> Seq<KeyEvent> {
    keys.map_values(|vk: u16| KeyEvent { vk, up: false })
}

/// Each of `keys` coming up, the last one first.
pub open spec fn releases(keys: Seq<u16>) -> Seq<KeyEvent> {
    keys.reverse().map_values(|vk: u16| KeyEvent { vk, up: true })
}

/// The events of one chord: modifiers down, the key down and up, modifiers up
/// in reverse order.
pub open spec fn chord_events(c: Chord) -> Seq<KeyEvent> {
    presses(c.modifier_keys()) + seq![
        KeyEvent { vk: c.key, up: false },
        KeyEvent { vk: c.key, up: true },
    ] + releases(c.modifier_keys())
}

/// The events of some chords, one after the other.
pub open spec fn key_events(cs: Seq<Chord>) -> Seq<KeyEvent>
    decreases cs.len(),
{
    if cs.len() == 0 {
        seq![]
    } else {
        key_events(cs.drop_last()) + chord_events(cs.last())
    }
}

/// The keyboard events of a sequence of chords, to be sent as one batch.
///
/// Modifiers are released in reverse order: releasing Ctrl before the key it
/// modifies can deliver a different keystroke to the application.
pub fn send_keys(chords: &[Chord]) -> (r: Vec<KeyEvent>)
    ensures
        r@ == key_events(chords@),
{
    let mut events: Vec<KeyEvent> = Vec::new();
    for i in 0..chords.len()
        invariant
            events@ == key_events(chords@.take(i as int)),
    {
        let ghost before = events@;
        let c = chords[i];
        let mods = c.modifiers();
        for j in 0..mods.len()
            invariant
                mods@ == c.modifier_keys(),
                events@ == before + presses(mods@).take(j as int),
        {
            events.push(KeyEvent { vk: mods[j], up: false });
        }
        events.push(KeyEvent { vk: c.key, up: false });
        events.push(KeyEvent { vk: c.key, up: true });
        let ghost middle = events@;
        let mut k: usize = mods.len();
        while k > 0
            invariant
                k <= mods@.len(),
                mods@ == c.modifier_keys(),
                events@ == middle + releases(mods@).take(mods@.len() - k),
            decreases k,
        {
            k -= 1;
            events.push(KeyEvent { vk: mods[k], up: true });
            assert(releases(mods@)[mods@.len() - k - 1] == (KeyEvent {
                vk: mods@[k as int],
                up: true,
            }));
        }
        proof {
            assert(chords@.take(i + 1).drop_last() =~= chords@.take(i as int));
            assert(presses(mods@).take(mods@.len() as int) =~= presses(mods@));
            assert(releases(mods@).take(mods@.len() as int) =~= releases(mods@));
            assert(events@ =~= before + chord_events(c));
        }
    }
    assert(chords@.take(chords@.len() as int) =~= chords@);
    events
}

} // verus!
