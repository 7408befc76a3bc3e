//! Numbers and errors in words.

use vstd::prelude::*;
use crate::capture::{CaptureError, Note};
use crate::chars::{decimal, digit, signed_decimal, write_decimal, write_signed};
use crate::input::InputError;
use crate::keys::KeyError;
use crate::lease::LeaseError;
use crate::ocr::OcrError;
use crate::uia::control_type_name;
use crate::uia::tree::Cap;
use crate::uia::DiscoverArgs;

verus! {

// Numbers

/// The number that some decimal digits write.
pub open spec fn value_of(ds: Seq<char>) -> int
    decreases ds.len(),
{
    if ds.len() == 0 {
        0
    } else {
        10 * value_of(ds.drop_last()) + (ds.last() as int - '0' as int)
    }
}

/// Decimal digits and nothing else, the first of several not being a zero.
pub open spec fn is_numeral(ds: Seq<char>) -> bool {
    &&& ds.len() > 0
    &&& forall|i: int| 0 <= i < ds.len() ==> '0' <= #[trigger] ds[i] <= '9'
    &&& ds.len() > 1 ==> ds[0] != '0'
}

proof fn lemma_decimal(n: nat)
    ensures
        is_numeral(decimal(n)),
        value_of(decimal(n)) == n,
        n > 0 ==> decimal(n)[0] != '0',
    decreases n,
{
    let d = digit(n % 10);
    assert('0' <= d <= '9' && d as int - '0' as int == n % 10);
    if n < 10 {
        let ds = decimal(n);
        assert(ds.drop_last().len() == 0);
        assert(value_of(ds.drop_last()) == 0);
        assert(ds.last() == d);
    } else {
        lemma_decimal(n / 10);
        let ds = decimal(n);
        assert(ds.drop_last() =~= decimal(n / 10));
        assert(ds.last() == d);
        assert(ds[0] == decimal(n / 10)[0]);
    }
}

/// A number is written in decimal digits that read as that number, with a sign if
/// it is negative and without leading zeros.
pub proof fn law_a_number_reads_as_it_was_written(n: u64, i: i64, r: String, s: String)
    requires
        call_ensures(write_decimal, (n,), r),
        call_ensures(write_signed, (i,), s),
    ensures
        is_numeral(r@),
        value_of(r@) == n,
        i >= 0 ==> is_numeral(s@) && value_of(s@) == i,
        i < 0 ==> s@.len() > 0 && s@[0] == '-' && is_numeral(s@.drop_first()) && value_of(
            s@.drop_first(),
        ) == -i,
{
    lemma_decimal(n as nat);
    if i >= 0 {
        lemma_decimal(i as nat);
    } else {
        lemma_decimal((-i) as nat);
        assert(s@.drop_first() =~= decimal((-i) as nat));
    }
}

/// A control type outside the range of those that have names is called by its
/// number.
pub proof fn law_an_unnamed_type_is_called_by_its_number(id: i32, r: String)
    requires
        call_ensures(control_type_name, (id,), r),
        id < 50000 || id > 50037,
    ensures
        r@ == "type#"@ + signed_decimal(id as int),
{
}

// Errors

/// An error of the input says what was asked of which desktop, or how many events
/// of how many were taken.
pub proof fn law_an_input_error_gives_its_numbers(e: InputError, r: String)
    requires
        call_ensures(InputError::message, (&e,), r),
    ensures
        match e {
            InputError::NoDesktop { screen } => r@ == "virtual screen is "@ + signed_decimal(
                screen.w as int,
            ) + "x"@ + signed_decimal(screen.h as int)
                + " - no desktop to click on (session 0?)"@,
            InputError::Outside { at_x, at_y, desktop } => r@ == "("@ + signed_decimal(at_x as int)
                + ","@ + signed_decimal(at_y as int) + ") is outside the virtual desktop ("@
                + signed_decimal(desktop.x as int) + ","@ + signed_decimal(desktop.y as int) + " "@
                + signed_decimal(desktop.w as int) + "x"@ + signed_decimal(desktop.h as int)
                + ")"@,
            InputError::MouseBlocked { sent, of } => r@ == "SendInput accepted "@ + decimal(
                sent as nat,
            ) + " of "@ + decimal(of as nat) + " events - blocked by UIPI?"@,
            InputError::KeysBlocked { keys_sent, keys_of } => r@ == "SendInput accepted "@
                + decimal(keys_sent as nat) + " of "@ + decimal(keys_of as nat)
                + " keyboard events"@,
        },
{
}

/// An error of the capture gives the size that was wrong, or the reason that the
/// encoder or decoder gave.
pub proof fn law_a_capture_error_gives_its_size_or_reason(e: CaptureError, r: String)
    requires
        call_ensures(CaptureError::message, (&e,), r),
    ensures
        match e {
            CaptureError::NoDesktop { width, height } => r@ == "virtual screen is "@
                + signed_decimal(width as int) + "x"@ + signed_decimal(height as int)
                + " - almost certainly running in session 0, which has no desktop"@,
            CaptureError::SizeMismatch { w, h } => r@ == "frame buffer size does not match "@
                + decimal(w as nat) + "x"@ + decimal(h as nat),
            CaptureError::Encoding { reason } => r@ == reason@,
            CaptureError::Decoding { reason } => r@ == reason@,
        },
{
}

/// A note on what was observed gives the count of changed pixels, their share and
/// how much larger the box around them is.
pub proof fn law_a_note_gives_its_numbers(n: Note, share: &str, r: String)
    requires
        call_ensures(Note::message, (&n, share), r),
    ensures
        match n {
            Note::Unchanged => r@ == "no change since last observation"@,
            Note::First => r@ == "first observation - full frame"@,
            Note::Withheld { changed, ratio, .. } => r@ == decimal(changed as nat)
                + " scattered pixels changed ("@ + share@
                + "%) - image withheld, the region hull is "@ + decimal(ratio as nat)
                + "x larger than the change itself"@,
        },
{
}

/// A refusal of keys gives the chord that is not known, or how many there are.
pub proof fn law_a_refusal_of_keys_names_them(e: KeyError, r: String)
    requires
        call_ensures(KeyError::message, (&e,), r),
    ensures
        match e {
            KeyError::Empty => r@ == "no keys to send"@,
            KeyError::TooMany { chords } => r@
                == "a run is capped at 32 keystrokes, and this one has "@ + decimal(chords as nat),
            KeyError::Unknown { chord } => r@ == "unrecognised key '"@ + chord@ + "'"@,
        },
{
}

/// An error of a lease says which part is wrong, or for how long it has expired.
pub proof fn law_a_lease_error_says_what_is_wrong(e: LeaseError, r: String)
    requires
        call_ensures(LeaseError::message, (&e,), r),
    ensures
        match e {
            LeaseError::Malformed => r@ == "malformed lease"@,
            LeaseError::MalformedPayload => r@ == "malformed lease payload"@,
            LeaseError::MalformedSignature => r@ == "malformed lease signature"@,
            LeaseError::SignatureInvalid => r@ == "lease signature invalid"@,
            LeaseError::Unreadable { reason } => r@ == reason@,
            LeaseError::Expired { ago } => r@ == "lease expired "@ + decimal(ago as nat)
                + "s ago"@,
            LeaseError::NoRandomness { reason } => r@ == "getrandom failed: "@ + reason@,
        },
{
}

/// A reading that cannot be made names the window it was asked of.
pub proof fn law_an_error_of_reading_names_its_window(e: OcrError, r: String)
    requires
        call_ensures(OcrError::message, (&e,), r),
    ensures
        match e {
            OcrError::Exclusive => r@ == "--hwnd and --image are mutually exclusive"@,
            OcrError::NoArea { hwnd } => r@ == "window "@ + signed_decimal(hwnd as int)
                + " has no on-screen area (minimised?)"@,
        },
{
}

/// A cap says which it is and where it lies.
pub proof fn law_a_cap_says_where_it_lies(c: Cap, args: DiscoverArgs, r: String)
    requires
        call_ensures(Cap::message, (&c, &args), r),
    ensures
        c == Cap::Elements ==> r@ == "element cap "@ + decimal(args.max_elements as nat)
            + " reached"@,
        c == Cap::Depth ==> r@ == "depth cap "@ + decimal(args.max_depth as nat) + " reached"@,
{
}

} // verus!
