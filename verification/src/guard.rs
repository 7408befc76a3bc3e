//! Emergency stop.
//!
//! An elevated automation server reachable over the network needs a halt that
//! does not depend on the network, the model, or the client being responsive.
//! Parking the physical mouse in the top-left corner is that halt: it needs no
//! keyboard focus, no window, and no cooperation from whatever is running.
//!
//! The latch matters as much as the trip. If the stop released the instant the
//! cursor moved, nudging the mouse away would immediately re-arm the agent; so
//! it stays engaged for a cooldown after the corner is vacated.

use vstd::prelude::*;
use vstd::string::*;
use crate::chars::{copy_range, from_chars, to_chars, trim, trimmed, views};
use crate::foreign::{lowercase, to_lowercase};

verus! {

/// How close to (0,0) counts as "parked".
pub const CORNER_PX: i32 = 10;

/// How long it must stay parked before the stop engages.
pub const HOLD_MS: u64 = 500;

/// How long the stop stays engaged after the corner is vacated.
pub const COOLDOWN_MS: u64 = 30_000;

/// How often the cursor is looked at.
pub const TICK_MS: u64 = 100;

/// What the watcher knows. Times are milliseconds since it started, so no wall
/// clock is involved.
#[derive(Debug, Clone, Copy, PartialEq, Eq, Structural)]
pub struct EmergencyStop {
    pub elapsed_ms: u64,
    /// For how long the cursor has been in the corner without a break.
    pub parked_ms: u64,
    pub engaged: bool,
    /// When the cooldown expires.
    pub release_at: u64,
}

/// The cursor is known and lies within the corner.
pub open spec fn in_corner(cursor: Option<(i32, i32)>) -> bool {
    match cursor {
        None => false,
        Some((x, y)) => -CORNER_PX <= x <= CORNER_PX && -CORNER_PX <= y <= CORNER_PX,
    }
}

impl EmergencyStop {
    /// The cursor cannot have been parked for longer than the watch lasts.
    pub open spec fn wf(self) -> bool {
        self.parked_ms <= self.elapsed_ms
    }

    /// The state one tick later, with the cursor in the corner or not.
    pub open spec fn after(self, cornered: bool) -> EmergencyStop {
        let elapsed_ms = (self.elapsed_ms + TICK_MS) as u64;
        if cornered {
            let parked_ms = (self.parked_ms + TICK_MS) as u64;
            if parked_ms >= HOLD_MS {
                EmergencyStop {
                    elapsed_ms,
                    parked_ms,
                    engaged: true,
                    release_at: (elapsed_ms + COOLDOWN_MS) as u64,
                }
            } else {
                EmergencyStop { elapsed_ms, parked_ms, ..self }
            }
        } else {
            EmergencyStop {
                elapsed_ms,
                parked_ms: 0,
                engaged: self.engaged && elapsed_ms < self.release_at,
                release_at: self.release_at,
            }
        }
    }

    /// The state after a number of ticks.
    pub open spec fn after_all(self, ticks: Seq<bool>) -> EmergencyStop
        decreases ticks.len(),
    {
        if ticks.len() == 0 {
            self
        } else {
            self.after_all(ticks.drop_last()).after(ticks.last())
        }
    }

    /// There is room on the clock for `n` more ticks and a cooldown.
    pub open spec fn room(self, n: nat) -> bool {
        self.elapsed_ms + n * TICK_MS + COOLDOWN_MS <= u64::MAX
    }

    /// A watch that has just begun.
    pub open spec fn fresh() -> EmergencyStop {
        EmergencyStop { elapsed_ms: 0, parked_ms: 0, engaged: false, release_at: 0 }
    }

    /// A watch that has just begun.
    pub fn new() -> (r: EmergencyStop)
        ensures
            r.wf(),
            r == EmergencyStop::fresh(),
    {
        EmergencyStop { elapsed_ms: 0, parked_ms: 0, engaged: false, release_at: 0 }
    }

    /// One look at the cursor, `None` when it could not be read.
    pub fn tick(&mut self, cursor: Option<(i32, i32)>)
        requires
            old(self).wf(),
            old(self).room(1),
        ensures
            final(self).wf(),
            *final(self) == old(self).after(in_corner(cursor)),
    {
        self.elapsed_ms = self.elapsed_ms + TICK_MS;
        let cornered: bool = match cursor {
            None => false,
            Some((x, y)) => -CORNER_PX <= x && x <= CORNER_PX && -CORNER_PX <= y && y <= CORNER_PX,
        };
        if cornered {
            self.parked_ms = self.parked_ms + TICK_MS;
            if self.parked_ms >= HOLD_MS {
                self.engaged = true;
                self.release_at = self.elapsed_ms + COOLDOWN_MS;
            }
        } else {
            self.parked_ms = 0;
            if self.engaged && self.elapsed_ms >= self.release_at {
                self.engaged = false;
            }
        }
    }
}

/// Whether all input is refused.
pub fn engaged(stop: &EmergencyStop) -> (r: bool)
    ensures
        r == stop.engaged,
{
    stop.engaged
}

/// The message tools return when the stop is engaged.
pub open spec fn refusal_text() -> Seq<char> {
    "EMERGENCY STOP engaged: the mouse is parked in the top-left corner. All input is refused. Move the cursor away and wait 30s to resume."@
}

/// The message tools return when the stop is engaged. Deliberately explicit
/// about how to release it: a halted agent should not have to guess.
pub fn refusal() -> (r: String)
    ensures
        r@ == refusal_text(),
{
    String::from_str(
        "EMERGENCY STOP engaged: the mouse is parked in the top-left corner. All input is refused. Move the cursor away and wait 30s to resume.",
    )
}

// The launch allowlist

/// How many characters stand before the first line break of `s`.
pub open spec fn line_len(s: Seq<char>) -> nat
    decreases s.len(),
{
    if s.len() == 0 || s.first() == '\n' {
        0
    } else {
        1 + line_len(s.drop_first())
    }
}

/// The lines of a text.
pub open spec fn lines(s: Seq<char>) -> Seq<Seq<char>>
    decreases s.len(),
{
    if line_len(s) >= s.len() {
        seq![s]
    } else {
        seq![s.take(line_len(s) as int)] + lines(s.skip(line_len(s) as int + 1))
    }
}

/// An entry names an application unless it is blank or a comment.
pub open spec fn names_app(entry: Seq<char>) -> bool {
    entry.len() > 0 && entry[0] != '#'
}

/// The applications named by `ls`, trimmed and lowered, in order.
pub open spec fn apps(ls: Seq<Seq<char>>) -> Seq<Seq<char>>
    decreases ls.len(),
{
    if ls.len() == 0 {
        seq![]
    } else {
        let entry = lowercase(trim(ls.last()));
        if names_app(entry) {
            apps(ls.drop_last()).push(entry)
        } else {
            apps(ls.drop_last())
        }
    }
}

/// Whether a trimmed and lowered line of the allowlist names an application.
pub fn is_entry(line: &str) -> (r: bool)
    ensures
        r == names_app(line@),
{
    let v = to_chars(line);
    v.len() > 0 && v[0] != '#'
}

proof fn lemma_line_len(s: Seq<char>)
    ensures
        line_len(s) <= s.len(),
        forall|i: int| 0 <= i < line_len(s) ==> s[i] != '\n',
        line_len(s) < s.len() ==> s[line_len(s) as int] == '\n',
    decreases s.len(),
{
    if s.len() > 0 && s.first() != '\n' {
        lemma_line_len(s.drop_first());
        assert forall|i: int| 0 <= i < line_len(s) implies s[i] != '\n' by {
            if i > 0 {
                assert(s[i] == s.drop_first()[i - 1]);
            }
        }
        if line_len(s) < s.len() {
            assert(s[line_len(s) as int] == s.drop_first()[line_len(s) - 1]);
        }
    }
}

proof fn lemma_apps_push(ls: Seq<Seq<char>>, l: Seq<char>)
    ensures
        apps(ls.push(l)) == (if names_app(lowercase(trim(l))) {
            apps(ls).push(lowercase(trim(l)))
        } else {
            apps(ls)
        }),
{
    assert(ls.push(l).drop_last() =~= ls);
}

/// The applications that a text of one name per line permits. Blank lines and
/// lines that start with `#` are skipped; names are trimmed and lowered.
pub fn load_allowlist(text: &str) -> (r: Vec<String>)
    ensures
        views(r@) == apps(lines(text@)),
{
    let v = to_chars(text);
    let mut out: Vec<String> = Vec::new();
    let mut start: usize = 0;
    let ghost mut done: Seq<Seq<char>> = seq![];
    assert(v@.skip(0) =~= v@);
    assert(done + lines(v@) =~= lines(v@));
    assert(views(out@) =~= apps(done));
    loop
        invariant
            v@ == text@,
            start <= v@.len(),
            lines(v@) == done + lines(v@.skip(start as int)),
            views(out@) == apps(done),
        decreases v@.len() - start,
    {
        let ghost rest = v@.skip(start as int);
        let mut end: usize = start;
        while end < v.len() && v[end] != '\n'
            invariant
                start <= end <= v@.len(),
                forall|i: int| start <= i < end ==> v@[i] != '\n',
            decreases v@.len() - end,
        {
            end += 1;
        }
        proof {
            lemma_line_len(rest);
            let n = line_len(rest) as int;
            if n < end - start {
                assert(rest[n] == v@[start + n]);
            }
            if n > end - start {
                assert(rest[end - start] == v@[end as int]);
            }
            assert(n == end - start);
        }
        let line = copy_range(&v, start, end);
        let bare = trimmed(&line);
        let bare_text = from_chars(&bare);
        let entry = to_lowercase(bare_text.as_str());
        let ghost earlier = out@;
        proof {
            assert(line@ =~= rest.take(line_len(rest) as int));
            lemma_apps_push(done, line@);
        }
        if is_entry(entry.as_str()) {
            out.push(entry);
            assert(views(out@) =~= views(earlier).push(entry@));
        }
        if end == v.len() {
            proof {
                assert(line@ =~= rest);
                assert(done + seq![rest] =~= done.push(line@));
            }
            return out;
        }
        proof {
            assert(rest.skip(line_len(rest) as int + 1) =~= v@.skip(end + 1));
            assert(done + (seq![line@] + lines(v@.skip(end + 1))) =~= done.push(line@) + lines(
                v@.skip(end + 1),
            ));
            done = done.push(line@);
        }
        start = end + 1;
    }
}

} // verus!
