//! Key specifications such as `Enter`, `Ctrl+S` or `Home Shift+End Ctrl+C`.
//!
//! A specification is a run of chords separated by white space. A chord is a
//! key name, preceded by any number of modifiers joined with `+`. Names are
//! matched without regard to ASCII case. A key that is not recognised is
//! refused rather than guessed at, and a run is capped.

use vstd::prelude::*;
use vstd::string::*;
use crate::chars::{
    ascii_lowered, ascii_lowered_text, copy_range, decimal, from_chars, same_chars, to_chars,
    write_decimal,
};
use crate::text::{split_words, views_of, words};

verus! {

/// How many keystrokes a specification may hold.
pub const MAX_CHORDS: usize = 32;

pub const VK_SHIFT: u16 = 0x10;

pub const VK_CONTROL: u16 = 0x11;

pub const VK_MENU: u16 = 0x12;

pub const VK_LWIN: u16 = 0x5b;

/// One keystroke with the modifiers held during it.
#[derive(Debug, Clone, Copy, PartialEq, Eq, Structural)]
pub struct Chord {
    pub ctrl: bool,
    pub shift: bool,
    pub alt: bool,
    pub win: bool,
    /// The virtual-key code.
    pub key: u16,
}

/// One key, if it is held.
pub open spec fn held(on: bool, vk: u16) -> Seq<u16> {
    if on {
        seq![vk]
    } else {
        seq![]
    }
}

impl Chord {
    /// The modifiers held, in the order in which they go down.
    pub open spec fn modifier_keys(self) -> Seq<u16> {
        held(self.ctrl, VK_CONTROL) + held(self.shift, VK_SHIFT) + held(self.alt, VK_MENU) + held(
            self.win,
            VK_LWIN,
        )
    }

    /// The modifiers held, in the order in which they go down.
    pub fn modifiers(&self) -> (r: Vec<u16>)
        ensures
            r@ == self.modifier_keys(),
    {
        let mut out: Vec<u16> = Vec::new();
        if self.ctrl {
            out.push(VK_CONTROL);
        }
        if self.shift {
            out.push(VK_SHIFT);
        }
        if self.alt {
            out.push(VK_MENU);
        }
        if self.win {
            out.push(VK_LWIN);
        }
        assert(out@ =~= self.modifier_keys());
        out
    }
}

/// The chord `c` with the named modifier added to it.
pub open spec fn with_modifier(c: Chord, name: Seq<char>) -> Option<Chord> {
    if name == "ctrl"@ {
        Some(Chord { ctrl: true, ..c })
    } else if name == "shift"@ {
        Some(Chord { shift: true, ..c })
    } else if name == "alt"@ {
        Some(Chord { alt: true, ..c })
    } else if name == "win"@ {
        Some(Chord { win: true, ..c })
    } else {
        None
    }
}

/// The virtual-key code of a key that has a name of its own.
pub open spec fn named_key(name: Seq<char>) -> Option<u16> {
    if name == "enter"@ || name == "return"@ {
        Some(0x0d)
    } else if name == "escape"@ || name == "esc"@ {
        Some(0x1b)
    } else if name == "tab"@ {
        Some(0x09)
    } else if name == "space"@ {
        Some(0x20)
    } else if name == "backspace"@ {
        Some(0x08)
    } else if name == "delete"@ || name == "del"@ {
        Some(0x2e)
    } else if name == "insert"@ {
        Some(0x2d)
    } else if name == "home"@ {
        Some(0x24)
    } else if name == "end"@ {
        Some(0x23)
    } else if name == "pageup"@ {
        Some(0x21)
    } else if name == "pagedown"@ {
        Some(0x22)
    } else if name == "up"@ {
        Some(0x26)
    } else if name == "down"@ {
        Some(0x28)
    } else if name == "left"@ {
        Some(0x25)
    } else if name == "right"@ {
        Some(0x27)
    } else {
        None
    }
}

/// The number written in one or two digits, the first of which is not zero.
pub open spec fn small_number(s: Seq<char>) -> Option<int> {
    if s.len() == 1 && '1' <= s[0] <= '9' {
        Some(s[0] as int - '0' as int)
    } else if s.len() == 2 && '1' <= s[0] <= '9' && '0' <= s[1] <= '9' {
        Some(10 * (s[0] as int - '0' as int) + (s[1] as int - '0' as int))
    } else {
        None
    }
}

/// The virtual-key code of a key, given its name in lower case: a letter, a
/// digit, `f1` to `f24`, or one of the named keys.
pub open spec fn key_code(name: Seq<char>) -> Option<u16> {
    if name.len() == 1 && 'a' <= name[0] <= 'z' {
        Some((name[0] as int - 32) as u16)
    } else if name.len() == 1 && '0' <= name[0] <= '9' {
        Some(name[0] as u16)
    } else if name.len() >= 2 && name[0] == 'f' && small_number(name.skip(1)) is Some {
        let n = small_number(name.skip(1))->0;
        if n <= 24 {
            Some((0x6f + n) as u16)
        } else {
            None
        }
    } else {
        named_key(name)
    }
}

/// How many characters of `s` stand before its first `+`.
pub open spec fn plus_at(s: Seq<char>) -> nat
    decreases s.len(),
{
    if s.len() == 0 || s[0] == '+' {
        0
    } else {
        1 + plus_at(s.skip(1))
    }
}

/// The chord that `s` writes, in lower case, when the modifiers of `c` are
/// held already: modifiers, each followed by `+`, and a key.
pub open spec fn chord_from(s: Seq<char>, c: Chord) -> Option<Chord>
    decreases s.len(),
{
    let n = plus_at(s) as int;
    if n >= s.len() {
        match key_code(s) {
            Some(key) => Some(Chord { key, ..c }),
            None => None,
        }
    } else {
        match with_modifier(c, s.take(n)) {
            Some(held) => chord_from(s.skip(n + 1), held),
            None => None,
        }
    }
}

/// No modifier and no key.
pub open spec fn bare() -> Chord {
    Chord { ctrl: false, shift: false, alt: false, win: false, key: 0 }
}

/// The chord that `word` writes, whatever the case of its letters.
pub open spec fn chord(word: Seq<char>) -> Option<Chord> {
    chord_from(ascii_lowered(word), bare())
}

fn is_name(s: &[char], name: &str) -> (r: bool)
    ensures
        r == (s@ == name@),
{
    let n = to_chars(name);
    same_chars(s, &n)
}

fn add_modifier(c: Chord, name: &[char]) -> (r: Option<Chord>)
    ensures
        r == with_modifier(c, name@),
{
    if is_name(name, "ctrl") {
        Some(Chord { ctrl: true, ..c })
    } else if is_name(name, "shift") {
        Some(Chord { shift: true, ..c })
    } else if is_name(name, "alt") {
        Some(Chord { alt: true, ..c })
    } else if is_name(name, "win") {
        Some(Chord { win: true, ..c })
    } else {
        None
    }
}

fn named_code(name: &[char]) -> (r: Option<u16>)
    ensures
        r == named_key(name@),
{
    if is_name(name, "enter") || is_name(name, "return") {
        Some(0x0d)
    } else if is_name(name, "escape") || is_name(name, "esc") {
        Some(0x1b)
    } else if is_name(name, "tab") {
        Some(0x09)
    } else if is_name(name, "space") {
        Some(0x20)
    } else if is_name(name, "backspace") {
        Some(0x08)
    } else if is_name(name, "delete") || is_name(name, "del") {
        Some(0x2e)
    } else if is_name(name, "insert") {
        Some(0x2d)
    } else if is_name(name, "home") {
        Some(0x24)
    } else if is_name(name, "end") {
        Some(0x23)
    } else if is_name(name, "pageup") {
        Some(0x21)
    } else if is_name(name, "pagedown") {
        Some(0x22)
    } else if is_name(name, "up") {
        Some(0x26)
    } else if is_name(name, "down") {
        Some(0x28)
    } else if is_name(name, "left") {
        Some(0x25)
    } else if is_name(name, "right") {
        Some(0x27)
    } else {
        None
    }
}

fn code_of(name: &[char]) -> (r: Option<u16>)
    ensures
        r == key_code(name@),
{
    let n: usize = name.len();
    if n == 1 && 'a' <= name[0] && name[0] <= 'z' {
        return Some((name[0] as u8 - 32) as u16);
    }
    if n == 1 && '0' <= name[0] && name[0] <= '9' {
        return Some(name[0] as u8 as u16);
    }
    if n >= 2 && name[0] == 'f' {
        let number: Option<u16> = if n == 2 && '1' <= name[1] && name[1] <= '9' {
            Some((name[1] as u8 - 48) as u16)
        } else if n == 3 && '1' <= name[1] && name[1] <= '9' && '0' <= name[2] && name[2] <= '9' {
            Some(10 * (name[1] as u8 - 48) as u16 + (name[2] as u8 - 48) as u16)
        } else {
            None
        };
        assert(number is Some == small_number(name@.skip(1)) is Some);
        if let Some(k) = number {
            assert(k as int == small_number(name@.skip(1))->0);
            return if k <= 24 {
                Some(0x6f + k)
            } else {
                None
            };
        }
    }
    named_code(name)
}

proof fn lemma_plus_at(s: Seq<char>)
    ensures
        plus_at(s) <= s.len(),
        forall|i: int| 0 <= i < plus_at(s) ==> #[trigger] s[i] != '+',
        plus_at(s) < s.len() ==> s[plus_at(s) as int] == '+',
    decreases s.len(),
{
    if s.len() > 0 && s[0] != '+' {
        lemma_plus_at(s.skip(1));
        assert forall|i: int| 0 <= i < plus_at(s) implies #[trigger] s[i] != '+' by {
            if i > 0 {
                assert(s[i] == s.skip(1)[i - 1]);
            }
        }
        if plus_at(s) < s.len() {
            assert(s[plus_at(s) as int] == s.skip(1)[plus_at(s) - 1]);
        }
    }
}

/// The chord that `word` writes.
pub fn parse_chord(word: &[char]) -> (r: Option<Chord>)
    ensures
        r == chord(word@),
{
    let text = from_chars(word);
    let lowered = ascii_lowered_text(text.as_str());
    let s = to_chars(lowered.as_str());
    let mut c = Chord { ctrl: false, shift: false, alt: false, win: false, key: 0 };
    let mut from: usize = 0;
    let ghost whole = chord(word@);
    assert(s@.skip(0) =~= s@);
    loop
        invariant
            from <= s@.len(),
            whole == chord_from(s@.skip(from as int), c),
            whole == chord(word@),
        decreases s@.len() - from,
    {
        let ghost rest = s@.skip(from as int);
        proof {
            lemma_plus_at(rest);
        }
        let mut at: usize = from;
        while at < s.len() && s[at] != '+'
            invariant
                from <= at <= s@.len(),
                rest == s@.skip(from as int),
                at - from <= plus_at(rest) <= rest.len(),
                forall|i: int| 0 <= i < plus_at(rest) ==> #[trigger] rest[i] != '+',
                plus_at(rest) < rest.len() ==> rest[plus_at(rest) as int] == '+',
            decreases s@.len() - at,
        {
            assert(s@[at as int] == rest[at - from]);
            at += 1;
        }
        proof {
            if at < s@.len() {
                assert(s@[at as int] == rest[at - from]);
            }
            assert(at - from == plus_at(rest));
        }
        let piece = copy_range(&s, from, at);
        if at == s.len() {
            assert(piece@ =~= rest);
            return match code_of(&piece) {
                Some(key) => Some(Chord { key, ..c }),
                None => None,
            };
        }
        assert(piece@ =~= rest.take(plus_at(rest) as int));
        match add_modifier(c, &piece) {
            Some(held) => {
                assert(rest.skip(plus_at(rest) as int + 1) =~= s@.skip(at + 1));
                c = held;
                from = at + 1;
            },
            None => {
                return None;
            },
        }
    }
}

/// Why a key specification was refused.
#[derive(Debug, PartialEq, Eq)]
pub enum KeyError {
    /// It holds no chord.
    Empty,
    /// It holds more chords than are sent at once.
    TooMany { chords: usize },
    /// A chord whose key or modifier is not known.
    Unknown { chord: String },
}

impl KeyError {
    /// The sentence that `message` returns.
    pub open spec fn text(self) -> Seq<char> {
        match self {
            KeyError::Empty => "no keys to send"@,
            KeyError::TooMany { chords } => "a run is capped at 32 keystrokes, and this one has "@
                + decimal(chords as nat),
            KeyError::Unknown { chord } => "unrecognised key '"@ + chord@ + "'"@,
        }
    }

    /// The refusal in words.
    pub fn message(&self) -> (r: String)
        ensures
            r@ == self.text(),
    {
        match self {
            KeyError::Empty => String::from_str("no keys to send"),
            KeyError::TooMany { chords } => {
                let mut out = String::from_str(
                    "a run is capped at 32 keystrokes, and this one has ",
                );
                let n = write_decimal(*chords as u64);
                out.append(n.as_str());
                out
            },
            KeyError::Unknown { chord } => {
                let mut out = String::from_str("unrecognised key '");
                out.append(chord.as_str());
                out.append("'");
                out
            },
        }
    }
}

/// The first word that does not write a chord.
pub open spec fn first_unknown(ws: Seq<Seq<char>>) -> Option<Seq<char>>
    decreases ws.len(),
{
    if ws.len() == 0 {
        None
    } else if chord(ws.first()) is None {
        Some(ws.first())
    } else {
        first_unknown(ws.drop_first())
    }
}

/// The chords that the words write.
pub open spec fn chords_in(ws: Seq<Seq<char>>) -> Seq<Chord> {
    ws.map_values(|w: Seq<char>| chord(w)->0)
}

/// What is wrong with a key specification: it is empty, it is too long, or it
/// holds a chord that is not known.
pub open spec fn complaint(spec_text: Seq<char>) -> Option<Seq<char>> {
    let ws = words(spec_text);
    if ws.len() == 0 {
        Some("no keys to send"@)
    } else if ws.len() > MAX_CHORDS {
        Some("a run is capped at 32 keystrokes, and this one has "@ + decimal(ws.len()))
    } else {
        match first_unknown(ws) {
            Some(w) => Some("unrecognised key '"@ + w + "'"@),
            None => None,
        }
    }
}

proof fn lemma_first_unknown(ws: Seq<Seq<char>>, at: int)
    requires
        0 <= at <= ws.len(),
        forall|j: int| 0 <= j < at ==> chord(#[trigger] ws[j]) is Some,
        at < ws.len() ==> chord(ws[at]) is None,
    ensures
        first_unknown(ws) == (if at < ws.len() {
            Some(ws[at])
        } else {
            None
        }),
    decreases ws.len(),
{
    if at > 0 {
        let rest = ws.drop_first();
        assert(ws.first() == ws[0]);
        assert forall|j: int| 0 <= j < at - 1 implies chord(#[trigger] rest[j]) is Some by {
            assert(rest[j] == ws[j + 1]);
        }
        lemma_first_unknown(rest, at - 1);
    }
}

/// The chords of a key specification.
pub fn parse(spec: &str) -> (r: Result<Vec<Chord>, KeyError>)
    ensures
        match r {
            Ok(chords) => complaint(spec@) is None && chords@ == chords_in(words(spec@)),
            Err(e) => complaint(spec@) == Some(e.text()),
        },
        r matches Err(KeyError::TooMany { chords }) ==> chords > MAX_CHORDS,
{
    let v = to_chars(spec);
    let parts = split_words(&v);
    let ghost ws = words(spec@);
    assert(parts@.len() == ws.len());
    if parts.len() == 0 {
        return Err(KeyError::Empty);
    }
    if parts.len() > MAX_CHORDS {
        return Err(KeyError::TooMany { chords: parts.len() });
    }
    let mut out: Vec<Chord> = Vec::new();
    for i in 0..parts.len()
        invariant
            ws == words(spec@),
            ws == views_of(parts@),
            1 <= parts@.len() <= MAX_CHORDS,
            out@.len() == i,
            forall|j: int| 0 <= j < i ==> chord(#[trigger] ws[j]) == Some(out@[j]),
    {
        assert(ws[i as int] == parts@[i as int]@);
        match parse_chord(&parts[i]) {
            Some(c) => out.push(c),
            None => {
                proof {
                    lemma_first_unknown(ws, i as int);
                }
                return Err(KeyError::Unknown { chord: from_chars(&parts[i]) });
            },
        }
    }
    proof {
        lemma_first_unknown(ws, ws.len() as int);
        assert(out@ =~= chords_in(ws));
    }
    Ok(out)
}

} // verus!
