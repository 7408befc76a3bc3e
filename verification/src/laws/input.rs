//! Clicks and keystrokes.

use vstd::prelude::*;
use crate::chars::{ascii_lowered, decimal};
use crate::input::{
    check_clicked, check_typed, chord_events, click_at, key_events, lemma_on_axis,
    normalized_coordinate, presses, releases, rounded, send_keys, steps, to_normalized, Desktop,
    InputError, KeyEvent, MouseEvent, MouseKind, NORMALIZED_MAX,
};
use crate::keys::{
    chord, chord_from, chords_in, complaint, first_unknown, key_code, parse, parse_chord, plus_at, Chord,
    KeyError, MAX_CHORDS,
};
use crate::text::words;
use super::acting::{alike, lemma_alike};

verus! {

/// The ends of the screen are the ends of the normalised range, wherever the
/// screen starts.
pub proof fn law_the_span_maps_to_the_full_range(origin: int, span: int)
    requires
        span >= 2,
    ensures
        normalized_coordinate(origin, origin, span) == 0,
        normalized_coordinate(origin + span - 1, origin, span) == NORMALIZED_MAX,
{
    let d = span - 1;
    assert((2 * 0 + d) / (2 * d) == 0) by (nonlinear_arith)
        requires
            d >= 1,
    ;
    assert((2 * (d * NORMALIZED_MAX) + d) / (2 * d) == NORMALIZED_MAX) by (nonlinear_arith)
        requires
            d >= 1,
    ;
}

/// Every pixel of the screen lands inside the normalised range.
pub proof fn law_no_pixel_leaves_the_range(v: int, origin: int, span: int)
    requires
        origin <= v < origin + span,
    ensures
        0 <= normalized_coordinate(v, origin, span) <= NORMALIZED_MAX,
{
    lemma_on_axis(v, origin, span);
}

proof fn lemma_rounded_monotonic(a: int, b: int, d: int)
    requires
        a <= b,
        d >= 1,
    ensures
        rounded(a, d) <= rounded(b, d),
{
    assert(a >= 0 ==> (2 * a + d) / (2 * d) <= (2 * b + d) / (2 * d)) by (nonlinear_arith)
        requires
            a <= b,
            d >= 1,
    ;
    assert(b < 0 ==> (2 * -b + d) / (2 * d) <= (2 * -a + d) / (2 * d)) by (nonlinear_arith)
        requires
            a <= b,
            d >= 1,
    ;
    assert(a < 0 ==> 0 <= (2 * -a + d) / (2 * d)) by (nonlinear_arith)
        requires
            d >= 1,
    ;
    assert(b >= 0 ==> 0 <= (2 * b + d) / (2 * d)) by (nonlinear_arith)
        requires
            d >= 1,
    ;
}

/// Further right stays further right.
pub proof fn law_the_mapping_is_monotonic(v: int, w: int, origin: int, span: int)
    requires
        v <= w,
    ensures
        normalized_coordinate(v, origin, span) <= normalized_coordinate(w, origin, span),
{
    lemma_rounded_monotonic(
        (v - origin) * NORMALIZED_MAX,
        (w - origin) * NORMALIZED_MAX,
        steps(span),
    );
}

proof fn lemma_rounded_strictly(a: int, b: int, d: int)
    requires
        a + d <= b,
        d >= 1,
    ensures
        rounded(a, d) < rounded(b, d),
{
    assert(a >= 0 ==> (2 * a + d) / (2 * d) + 1 <= (2 * b + d) / (2 * d)) by (nonlinear_arith)
        requires
            a + d <= b,
            d >= 1,
    ;
    assert(b < 0 ==> (2 * -b + d) / (2 * d) + 1 <= (2 * -a + d) / (2 * d)) by (nonlinear_arith)
        requires
            a + d <= b,
            d >= 1,
    ;
    assert(a < 0 && -2 * a >= d ==> 1 <= (2 * -a + d) / (2 * d)) by (nonlinear_arith)
        requires
            d >= 1,
    ;
    assert(a < 0 ==> 0 <= (2 * -a + d) / (2 * d)) by (nonlinear_arith)
        requires
            d >= 1,
    ;
    assert(b >= 0 ==> 0 <= (2 * b + d) / (2 * d)) by (nonlinear_arith)
        requires
            d >= 1,
    ;
    assert(2 * b >= d ==> 1 <= (2 * b + d) / (2 * d)) by (nonlinear_arith)
        requires
            d >= 1,
    ;
}

/// No two pixels are confused: on a screen of at most 65536 pixels across, a
/// pixel further right lands strictly further right.
pub proof fn law_no_two_pixels_land_on_one_spot(v: int, w: int, origin: int, span: int)
    requires
        v < w,
        span <= NORMALIZED_MAX + 1,
    ensures
        normalized_coordinate(v, origin, span) < normalized_coordinate(w, origin, span),
{
    lemma_rounded_strictly(
        (v - origin) * NORMALIZED_MAX,
        (w - origin) * NORMALIZED_MAX,
        steps(span),
    );
}

/// Only the distance from the screen's edge counts, not where the edge is: a
/// monitor left of the primary is addressed as one right of it.
pub proof fn law_the_origin_does_not_matter(v: int, origin: int, span: int, shift: int)
    ensures
        normalized_coordinate(v + shift, origin + shift, span) == normalized_coordinate(
            v,
            origin,
            span,
        ),
{
}

// Keys

/// A key event with press and release exchanged.
pub open spec fn undone(e: KeyEvent) -> KeyEvent {
    KeyEvent { vk: e.vk, up: !e.up }
}

/// What is pressed last is released first: read backwards, with press and
/// release exchanged, the events of a chord are the same.
pub proof fn law_modifiers_are_released_in_reverse(c: Chord)
    ensures
        chord_events(c).reverse().map_values(|e: KeyEvent| undone(e)) == chord_events(c),
{
    let m = c.modifier_keys();
    let es = chord_events(c);
    let n = es.len();
    assert(n == 2 * m.len() + 2);
    let back = es.reverse().map_values(|e: KeyEvent| undone(e));
    assert forall|i: int| 0 <= i < n implies back[i] == es[i] by {
        assert(back[i] == undone(es[n - 1 - i]));
        if i < m.len() {
            assert(es[i] == presses(m)[i]);
            assert(es[n - 1 - i] == releases(m)[m.len() - 1 - i]);
        } else if i >= m.len() + 2 {
            assert(es[i] == releases(m)[i - m.len() - 2]);
            assert(es[n - 1 - i] == presses(m)[n - 1 - i]);
        }
    }
    assert(back =~= es);
}

/// How often a key goes down, less how often it comes up, over some events.
pub open spec fn net_presses(es: Seq<KeyEvent>, vk: u16) -> int
    decreases es.len(),
{
    if es.len() == 0 {
        0
    } else {
        net_presses(es.drop_last(), vk) + (if es.last().vk != vk {
            0int
        } else if es.last().up {
            -1
        } else {
            1
        })
    }
}

proof fn lemma_net_append(a: Seq<KeyEvent>, b: Seq<KeyEvent>, vk: u16)
    ensures
        net_presses(a + b, vk) == net_presses(a, vk) + net_presses(b, vk),
    decreases b.len(),
{
    if b.len() == 0 {
        assert(a + b =~= a);
    } else {
        assert((a + b).drop_last() =~= a + b.drop_last());
        lemma_net_append(a, b.drop_last(), vk);
    }
}

proof fn lemma_net_held(keys: Seq<u16>, vk: u16)
    ensures
        net_presses(presses(keys), vk) + net_presses(releases(keys), vk) == 0,
    decreases keys.len(),
{
    if keys.len() > 0 {
        let rest = keys.drop_last();
        lemma_net_held(rest, vk);
        assert(presses(keys).drop_last() =~= presses(rest));
        let last = seq![KeyEvent { vk: keys.last(), up: true }];
        assert(releases(keys) =~= last + releases(rest));
        lemma_net_append(last, releases(rest), vk);
        assert(last.drop_last() =~= Seq::<KeyEvent>::empty());
        assert(net_presses(last.drop_last(), vk) == 0);
    } else {
        assert(presses(keys) =~= Seq::<KeyEvent>::empty());
        assert(releases(keys) =~= Seq::<KeyEvent>::empty());
    }
}

proof fn lemma_net_chord(c: Chord, vk: u16)
    ensures
        net_presses(chord_events(c), vk) == 0,
{
    let m = c.modifier_keys();
    let down = KeyEvent { vk: c.key, up: false };
    let up = KeyEvent { vk: c.key, up: true };
    let stroke = seq![down, up];
    lemma_net_append(presses(m) + stroke, releases(m), vk);
    lemma_net_append(presses(m), stroke, vk);
    lemma_net_held(m, vk);
    assert(stroke.drop_last() =~= seq![down]);
    assert(seq![down].drop_last() =~= Seq::<KeyEvent>::empty());
    assert(net_presses(Seq::<KeyEvent>::empty(), vk) == 0);
    assert(net_presses(seq![down], vk) == if vk == c.key {
        1int
    } else {
        0
    });
}

/// No key is left held: over a run of chords every key comes up as often as it
/// goes down.
pub proof fn law_no_key_is_left_held(cs: Seq<Chord>, vk: u16)
    ensures
        net_presses(key_events(cs), vk) == 0,
    decreases cs.len(),
{
    if cs.len() > 0 {
        law_no_key_is_left_held(cs.drop_last(), vk);
        lemma_net_append(key_events(cs.drop_last()), chord_events(cs.last()), vk);
        lemma_net_chord(cs.last(), vk);
    }
}

/// A run of keystrokes is capped: a specification that is accepted holds at
/// least one chord and no more than are sent at once.
pub proof fn law_a_run_of_keys_is_capped(text: Seq<char>)
    requires
        complaint(text) is None,
    ensures
        1 <= chords_in(words(text)).len() <= MAX_CHORDS,
{
}

// Where a click lands

/// `n` is the nearest position for a point `v` pixels from the origin of an axis
/// of `span` pixels, in a space of 65535 steps from end to end.
pub open spec fn is_nearest(n: int, v: int, span: int) -> bool {
    -(span - 1) <= 2 * (v * 65535 - n * (span - 1)) <= span - 1
}

proof fn lemma_nearest(v: int, span: int)
    requires
        0 <= v < span,
        span >= 2,
    ensures
        is_nearest(normalized_coordinate(v, 0, span), v, span),
{
    let d = span - 1;
    let n = v * 65535;
    let q = (2 * n + d) / (2 * d);
    assert(n >= 0);
    assert(2 * d * q <= 2 * n + d < 2 * d * q + 2 * d) by (nonlinear_arith)
        requires
            d >= 1,
            n >= 0,
            q == (2 * n + d) / (2 * d),
    ;
    assert(2 * (n - q * d) == 2 * n - 2 * d * q) by (nonlinear_arith);
    assert(steps(span) == d);
    assert(normalized_coordinate(v, 0, span) == q);
}

/// A coordinate is mapped to the nearest position in the normalised space.
pub proof fn law_a_coordinate_is_mapped_to_the_nearest(v: i32, origin: i32, span: i32, r: i32)
    requires
        call_ensures(to_normalized, (v, origin, span), r),
        origin <= v < origin + span,
        span >= 2,
    ensures
        is_nearest(r as int, v - origin, span as int),
        0 <= r <= 65535,
{
    law_the_origin_does_not_matter(v - origin, 0, span as int, origin as int);
    lemma_nearest(v - origin, span as int);
    lemma_on_axis(v as int, origin as int, span as int);
}

/// A click is one move, one press and one release of the left button, all at the
/// position nearest to the point that was asked for. It is refused exactly when
/// there is no desktop or the point is not on it.
pub proof fn law_a_click_lands_where_it_is_aimed(
    x: i32,
    y: i32,
    desktop: Desktop,
    r: Result<Vec<MouseEvent>, InputError>,
)
    requires
        call_ensures(click_at, (x, y, desktop), r),
    ensures
        r is Ok <==> desktop.w > 0 && desktop.h > 0 && desktop.x <= x < desktop.x + desktop.w
            && desktop.y <= y < desktop.y + desktop.h,
        r matches Err(e) ==> e == (if desktop.w > 0 && desktop.h > 0 {
            InputError::Outside { at_x: x, at_y: y, desktop }
        } else {
            InputError::NoDesktop { screen: desktop }
        }),
        r matches Ok(events) ==> {
            let e = events@;
            &&& e.len() == 3
            &&& e[0].kind == MouseKind::Move && e[1].kind == MouseKind::LeftDown && e[2].kind
                == MouseKind::LeftUp
            &&& e[0].dx == e[1].dx && e[1].dx == e[2].dx && e[0].dy == e[1].dy && e[1].dy
                == e[2].dy
            &&& desktop.w >= 2 ==> is_nearest(e[0].dx as int, x - desktop.x, desktop.w as int)
            &&& desktop.h >= 2 ==> is_nearest(e[0].dy as int, y - desktop.y, desktop.h as int)
        },
{
    if r is Ok {
        lemma_on_axis(x as int, desktop.x as int, desktop.w as int);
        lemma_on_axis(y as int, desktop.y as int, desktop.h as int);
        law_the_origin_does_not_matter(x - desktop.x, 0, desktop.w as int, desktop.x as int);
        law_the_origin_does_not_matter(y - desktop.y, 0, desktop.h as int, desktop.y as int);
        if desktop.w >= 2 {
            lemma_nearest(x - desktop.x, desktop.w as int);
        }
        if desktop.h >= 2 {
            lemma_nearest(y - desktop.y, desktop.h as int);
        }
    }
}

/// Input counts as sent only if the system took all of it.
pub proof fn law_input_is_sent_whole_or_not(
    sent: u32,
    of: u32,
    mouse: Result<(), InputError>,
    keys: Result<(), InputError>,
)
    requires
        call_ensures(check_clicked, (sent, of), mouse),
        call_ensures(check_typed, (sent, of), keys),
    ensures
        mouse is Ok <==> sent == of,
        keys is Ok <==> sent == of,
{
}

// What is typed

/// Chords are sent one after the other.
pub proof fn law_chords_are_sent_one_after_the_other(a: Seq<Chord>, b: Seq<Chord>, c: Chord)
    ensures
        key_events(a + b) == key_events(a) + key_events(b),
        key_events(seq![c]) == chord_events(c),
    decreases b.len(),
{
    assert(seq![c].drop_last() =~= seq![]);
    assert(key_events(seq![c].drop_last()) =~= seq![]);
    assert(key_events(seq![c]) =~= chord_events(c));
    if b.len() == 0 {
        assert(a + b =~= a);
        assert(key_events(a) + key_events(b) =~= key_events(a));
    } else {
        law_chords_are_sent_one_after_the_other(a, b.drop_last(), c);
        assert((a + b).drop_last() =~= a + b.drop_last());
        assert(key_events(a + b) =~= key_events(a) + key_events(b));
    }
}

/// A chord goes down modifier by modifier, then its key goes down and up: the
/// modifiers are control, shift, alt and the Windows key, each exactly if it is
/// part of the chord and in that order.
pub proof fn law_a_chord_is_its_modifiers_and_its_key(c: Chord)
    ensures
        ({
            let n = (if c.ctrl {
                1int
            } else {
                0
            }) + (if c.shift {
                1int
            } else {
                0
            }) + (if c.alt {
                1int
            } else {
                0
            }) + (if c.win {
                1int
            } else {
                0
            });
            let e = chord_events(c);
            let shift_at = if c.ctrl {
                1int
            } else {
                0
            };
            let alt_at = shift_at + (if c.shift {
                1int
            } else {
                0
            });
            &&& e.len() == 2 * n + 2
            &&& e[n] == (KeyEvent { vk: c.key, up: false })
            &&& e[n + 1] == (KeyEvent { vk: c.key, up: true })
            &&& c.ctrl ==> e[0] == (KeyEvent { vk: 0x11, up: false })
            &&& c.shift ==> e[shift_at] == (KeyEvent { vk: 0x10, up: false })
            &&& c.alt ==> e[alt_at] == (KeyEvent { vk: 0x12, up: false })
            &&& c.win ==> e[n - 1] == (KeyEvent { vk: 0x5b, up: false })
        }),
{
}

/// Keys are sent as the events of their chords.
pub proof fn law_what_is_sent_are_the_chords(chords: &[Chord], r: Vec<KeyEvent>)
    requires
        call_ensures(send_keys, (chords,), r),
    ensures
        r@ == key_events(chords@),
{
}

/// A specification of keys is read word by word: each word is one chord, in
/// order. It is refused exactly when there is no word, when there are more than
/// 32, or when a word writes no chord.
pub proof fn law_keys_are_read_word_by_word(text: &str, r: Result<Vec<Chord>, KeyError>, i: int)
    requires
        call_ensures(parse, (text,), r),
        0 <= i < words(text@).len(),
    ensures
        r matches Ok(cs) ==> cs@.len() == words(text@).len() && chord(words(text@)[i]) == Some(
            cs@[i],
        ),
        chord(words(text@)[i]) is None ==> r is Err,
        words(text@).len() > 32 ==> r is Err,
        words(text@).len() <= 32 && (forall|j: int|
            0 <= j < words(text@).len() ==> chord(#[trigger] words(text@)[j]) is Some) ==> r is Ok,
{
    let ws = words(text@);
    lemma_unknown(ws);
    if r is Ok {
        assert(chord(ws[i]) is Some);
        assert(chords_in(ws)[i] == chord(ws[i])->0);
    }
}

proof fn lemma_unknown(ws: Seq<Seq<char>>)
    ensures
        first_unknown(ws) is None <==> forall|j: int|
            0 <= j < ws.len() ==> chord(#[trigger] ws[j]) is Some,
    decreases ws.len(),
{
    if ws.len() > 0 {
        let rest = ws.drop_first();
        lemma_unknown(rest);
        assert(ws.first() == ws[0]);
        if chord(ws[0]) is Some {
            if first_unknown(rest) is None {
                assert forall|j: int| 0 <= j < ws.len() implies chord(#[trigger] ws[j]) is Some by {
                    if j > 0 {
                        assert(rest[j - 1] == ws[j]);
                    }
                }
            } else if forall|j: int| 0 <= j < ws.len() ==> chord(#[trigger] ws[j]) is Some {
                assert forall|j: int| 0 <= j < rest.len() implies chord(
                    #[trigger] rest[j],
                ) is Some by {
                    assert(rest[j] == ws[j + 1]);
                }
            }
        }
    }
}

/// Case does not matter in a chord.
pub proof fn law_case_does_not_matter_in_a_chord(a: Seq<char>, b: Seq<char>)
    requires
        alike(a, b),
    ensures
        chord(a) == chord(b),
{
    lemma_alike(a, b);
}

/// A chord is modifiers, each followed by a plus sign, and a key: what stands
/// before the first plus sign adds that modifier to the rest, and what is left is
/// the name of the key.
pub proof fn law_a_chord_is_modifiers_and_a_key(name: Seq<char>, rest: Seq<char>, c: Chord)
    requires
        forall|i: int| 0 <= i < name.len() ==> #[trigger] name[i] != '+',
    ensures
        name == "ctrl"@ ==> chord_from(name.push('+') + rest, c) == chord_from(
            rest,
            (Chord { ctrl: true, ..c }),
        ),
        name == "shift"@ ==> chord_from(name.push('+') + rest, c) == chord_from(
            rest,
            (Chord { shift: true, ..c }),
        ),
        name == "alt"@ ==> chord_from(name.push('+') + rest, c) == chord_from(
            rest,
            (Chord { alt: true, ..c }),
        ),
        name == "win"@ ==> chord_from(name.push('+') + rest, c) == chord_from(
            rest,
            (Chord { win: true, ..c }),
        ),
        name != "ctrl"@ && name != "shift"@ && name != "alt"@ && name != "win"@ ==> chord_from(
            name.push('+') + rest,
            c,
        ) is None,
        match key_code(name) {
            Some(key) => chord_from(name, c) == Some(Chord { key, ..c }),
            None => chord_from(name, c) is None,
        },
        chord(name) == chord_from(
            ascii_lowered(name),
            (Chord { ctrl: false, shift: false, alt: false, win: false, key: 0 }),
        ),
{
    reveal_strlit("ctrl");
    reveal_strlit("shift");
    reveal_strlit("alt");
    reveal_strlit("win");
    assert("alt"@[0] != "win"@[0]);
    let all = name.push('+') + rest;
    let tail = seq!['+'] + rest;
    lemma_plus(name, tail);
    assert(all =~= name + tail);
    assert(all.take(name.len() as int) =~= name);
    assert(all.skip(name.len() as int + 1) =~= rest);
    lemma_plus(name, seq![]);
    assert(name + Seq::<char>::empty() =~= name);
}

proof fn lemma_plus(name: Seq<char>, tail: Seq<char>)
    requires
        forall|i: int| 0 <= i < name.len() ==> #[trigger] name[i] != '+',
        tail.len() > 0 ==> tail[0] == '+',
    ensures
        plus_at(name + tail) == name.len(),
    decreases name.len(),
{
    let all = name + tail;
    if name.len() == 0 {
        assert(all =~= tail);
    } else {
        let rest = name.skip(1);
        assert forall|i: int| 0 <= i < rest.len() implies #[trigger] rest[i] != '+' by {
            assert(rest[i] == name[i + 1]);
        }
        lemma_plus(rest, tail);
        assert(all.skip(1) =~= rest + tail);
        assert(all[0] == name[0]);
    }
}

/// A letter is typed by the key of its capital, a digit by its own, and the
/// function keys follow each other from F1 to F24.
pub proof fn law_letters_digits_and_function_keys(c: char, tens: char, ones: char)
    ensures
        'a' <= c <= 'z' ==> key_code(seq![c]) == Some((c as int - 'a' as int + 'A' as int) as u16),
        '0' <= c <= '9' ==> key_code(seq![c]) == Some(c as u16),
        !('a' <= c <= 'z') && !('0' <= c <= '9') ==> key_code(seq![c]) is None,
        '1' <= ones <= '9' ==> key_code(seq!['f', ones]) == Some(
            (0x70 + (ones as int - '1' as int)) as u16,
        ),
        '1' <= tens <= '9' && '0' <= ones <= '9' ==> ({
            let n = 10 * (tens as int - '0' as int) + (ones as int - '0' as int);
            key_code(seq!['f', tens, ones]) == (if n <= 24 {
                Some((0x70 + n - 1) as u16)
            } else {
                None
            })
        }),
{
    lemma_name_lengths();
    assert(seq!['f', ones].skip(1) =~= seq![ones]);
    assert(seq!['f', tens, ones].skip(1) =~= seq![tens, ones]);
}

proof fn lemma_name_lengths()
    ensures
        "enter"@.len() == 5 && "return"@.len() == 6 && "escape"@.len() == 6 && "esc"@.len() == 3,
        "tab"@.len() == 3 && "space"@.len() == 5 && "backspace"@.len() == 9 && "delete"@.len() == 6,
        "del"@.len() == 3 && "insert"@.len() == 6 && "home"@.len() == 4 && "end"@.len() == 3,
        "pageup"@.len() == 6 && "pagedown"@.len() == 8 && "up"@.len() == 2 && "down"@.len() == 4,
        "left"@.len() == 4 && "right"@.len() == 5,
{
    reveal_strlit("enter");
    reveal_strlit("return");
    reveal_strlit("escape");
    reveal_strlit("esc");
    reveal_strlit("tab");
    reveal_strlit("space");
    reveal_strlit("backspace");
    reveal_strlit("delete");
    reveal_strlit("del");
    reveal_strlit("insert");
    reveal_strlit("home");
    reveal_strlit("end");
    reveal_strlit("pageup");
    reveal_strlit("pagedown");
    reveal_strlit("up");
    reveal_strlit("down");
    reveal_strlit("left");
    reveal_strlit("right");
}

/// The keys with names of their own have the codes of the platform, and no other
/// name of two letters or more that does not start with `f` is a key.
pub proof fn law_named_keys_have_their_codes(name: Seq<char>)
    requires
        name.len() >= 2,
        name[0] != 'f',
    ensures
        ({
            let code = key_code(name);
            &&& code == Some(0x08u16) <==> name == "backspace"@
            &&& code == Some(0x09u16) <==> name == "tab"@
            &&& code == Some(0x0du16) <==> name == "enter"@ || name == "return"@
            &&& code == Some(0x1bu16) <==> name == "escape"@ || name == "esc"@
            &&& code == Some(0x20u16) <==> name == "space"@
            &&& code == Some(0x21u16) <==> name == "pageup"@
            &&& code == Some(0x22u16) <==> name == "pagedown"@
            &&& code == Some(0x23u16) <==> name == "end"@
            &&& code == Some(0x24u16) <==> name == "home"@
            &&& code == Some(0x25u16) <==> name == "left"@
            &&& code == Some(0x26u16) <==> name == "up"@
            &&& code == Some(0x27u16) <==> name == "right"@
            &&& code == Some(0x28u16) <==> name == "down"@
            &&& code == Some(0x2du16) <==> name == "insert"@
            &&& code == Some(0x2eu16) <==> name == "delete"@ || name == "del"@
            &&& code matches Some(vk) ==> vk == 0x08 || vk == 0x09 || vk == 0x0d || vk == 0x1b
                || 0x20 <= vk <= 0x28 || vk == 0x2d || vk == 0x2e
        }),
{
    lemma_name_lengths();
    lemma_name_letters();
}

proof fn lemma_name_letters()
    ensures
        "enter"@[0] == 'e' && "space"@[0] == 's' && "right"@[0] == 'r',
        "return"@[0] == 'r' && "escape"@[0] == 'e' && "delete"@[0] == 'd' && "insert"@[0] == 'i'
            && "pageup"@[0] == 'p',
        "esc"@[0] == 'e' && "esc"@[1] == 's' && "tab"@[0] == 't' && "del"@[0] == 'd' && "end"@[0]
            == 'e' && "end"@[1] == 'n',
        "home"@[0] == 'h' && "down"@[0] == 'd' && "left"@[0] == 'l',
{
    reveal_strlit("enter");
    reveal_strlit("space");
    reveal_strlit("right");
    reveal_strlit("return");
    reveal_strlit("escape");
    reveal_strlit("delete");
    reveal_strlit("insert");
    reveal_strlit("pageup");
    reveal_strlit("esc");
    reveal_strlit("tab");
    reveal_strlit("del");
    reveal_strlit("end");
    reveal_strlit("home");
    reveal_strlit("down");
    reveal_strlit("left");
}

/// The modifiers of a chord are named in the order in which they go down, and a
/// chord is read from its word.
pub proof fn law_modifiers_are_named_in_order(
    c: Chord,
    m: Vec<u16>,
    word: &[char],
    read: Option<Chord>,
)
    requires
        call_ensures(Chord::modifiers, (&c,), m),
        call_ensures(parse_chord, (word,), read),
    ensures
        m@ == one_key_if(c.ctrl, 0x11) + one_key_if(c.shift, 0x10) + one_key_if(c.alt, 0x12)
            + one_key_if(c.win, 0x5b),
        read == chord(word@),
{
}

/// One key, or none.
pub open spec fn one_key_if(on: bool, key: u16) -> Seq<u16> {
    if on {
        seq![key]
    } else {
        seq![]
    }
}

/// A refused specification of keys names the first word that writes no chord, or
/// says how many words there are, or that there is none.
pub proof fn law_a_refused_specification_says_why(text: &str, e: KeyError) -> (at: int)
    requires
        call_ensures(parse, (text,), Err::<Vec<Chord>, KeyError>(e)),
    ensures
        complaint(text@) == Some(e.text()),
        ({
            let ws = words(text@);
            &&& ws.len() == 0 ==> e.text() == "no keys to send"@
            &&& ws.len() > 32 ==> e.text()
                == "a run is capped at 32 keystrokes, and this one has "@ + decimal(ws.len())
            &&& 0 < ws.len() <= 32 ==> {
                &&& 0 <= at < ws.len() && chord(ws[at]) is None
                &&& forall|j: int| 0 <= j < at ==> chord(#[trigger] ws[j]) is Some
                &&& e.text() == "unrecognised key '"@ + ws[at] + "'"@
            }
        }),
{
    let ws = words(text@);
    if 0 < ws.len() <= 32 {
        lemma_first_unknown(ws)
    } else {
        0
    }
}

proof fn lemma_first_unknown(ws: Seq<Seq<char>>) -> (at: int)
    requires
        first_unknown(ws) is Some,
    ensures
        0 <= at < ws.len(),
        first_unknown(ws) == Some(ws[at]),
        chord(ws[at]) is None,
        forall|j: int| 0 <= j < at ==> chord(#[trigger] ws[j]) is Some,
    decreases ws.len(),
{
    if chord(ws[0]) is None {
        0
    } else {
        let rest = ws.drop_first();
        let at = lemma_first_unknown(rest);
        assert forall|j: int| 0 <= j < at + 1 implies chord(#[trigger] ws[j]) is Some by {
            if j > 0 {
                assert(rest[j - 1] == ws[j]);
            }
        }
        at + 1
    }
}

} // verus!
