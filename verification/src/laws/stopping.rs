//! The emergency stop.

use vstd::prelude::*;
use crate::guard::{engaged, EmergencyStop, COOLDOWN_MS, HOLD_MS, TICK_MS};

verus! {

proof fn lemma_clock(s: EmergencyStop, ticks: Seq<bool>)
    requires
        s.wf(),
        s.room(ticks.len()),
    ensures
        s.after_all(ticks).wf(),
        s.after_all(ticks).elapsed_ms == s.elapsed_ms + ticks.len() * TICK_MS,
    decreases ticks.len(),
{
    if ticks.len() > 0 {
        lemma_clock(s, ticks.drop_last());
    }
}

/// For how many of the last ticks the cursor has been in the corner.
pub open spec fn parked_ticks(ticks: Seq<bool>) -> nat
    decreases ticks.len(),
{
    if ticks.len() == 0 || !ticks.last() {
        0
    } else {
        parked_ticks(ticks.drop_last()) + 1
    }
}

/// At some tick the cursor had been in the corner for half a second.
pub open spec fn was_parked(ticks: Seq<bool>) -> bool {
    exists|n: int|
        0 <= n <= ticks.len() && parked_ticks(#[trigger] ticks.take(n)) * TICK_MS >= HOLD_MS
}

proof fn lemma_parked(ticks: Seq<bool>)
    requires
        EmergencyStop::fresh().room(ticks.len()),
    ensures
        ({
            let fresh = EmergencyStop::fresh();
            let s = fresh.after_all(ticks);
            &&& s.parked_ms == parked_ticks(ticks) * TICK_MS
            &&& s.engaged ==> was_parked(ticks)
            &&& parked_ticks(ticks) * TICK_MS >= HOLD_MS ==> s.engaged
        }),
    decreases ticks.len(),
{
    let fresh = EmergencyStop::fresh();
    lemma_clock(fresh, ticks);
    if ticks.len() > 0 {
        let earlier = ticks.drop_last();
        lemma_parked(earlier);
        lemma_clock(fresh, earlier);
        assert(ticks.take(ticks.len() as int) =~= ticks);
        if was_parked(earlier) {
            let n = choose|n: int|
                0 <= n <= earlier.len() && parked_ticks(#[trigger] earlier.take(n)) * TICK_MS
                    >= HOLD_MS;
            assert(ticks.take(n) =~= earlier.take(n));
        }
    }
}

/// Parking the mouse in the corner for half a second engages the stop.
pub proof fn law_parking_engages(ticks: Seq<bool>)
    requires
        EmergencyStop::fresh().room(ticks.len()),
        parked_ticks(ticks) * TICK_MS >= HOLD_MS,
    ensures
        EmergencyStop::fresh().after_all(ticks).engaged,
{
    lemma_parked(ticks);
}

/// The stop never engages on its own: if it is engaged, the mouse had been in
/// the corner for half a second without a break.
pub proof fn law_nothing_else_engages(ticks: Seq<bool>)
    requires
        EmergencyStop::fresh().room(ticks.len()),
        EmergencyStop::fresh().after_all(ticks).engaged,
    ensures
        was_parked(ticks),
{
    lemma_parked(ticks);
}

/// The stop is latched: after a tick that engages it, or keeps it engaged from
/// the corner, it stays engaged through whatever happens before the cooldown is
/// over.
pub proof fn law_the_stop_is_latched(s: EmergencyStop, ticks: Seq<bool>)
    requires
        s.wf(),
        s.room(1 + ticks.len()),
        s.parked_ms + TICK_MS >= HOLD_MS,
        ticks.len() * TICK_MS < COOLDOWN_MS,
    ensures
        s.after(true).after_all(ticks).engaged,
        s.after(true).after_all(ticks).release_at >= s.elapsed_ms + TICK_MS + COOLDOWN_MS,
    decreases ticks.len(),
{
    if ticks.len() > 0 {
        law_the_stop_is_latched(s, ticks.drop_last());
        lemma_clock(s.after(true), ticks.drop_last());
    }
}

/// Ticks on all of which the cursor is outside the corner.
pub open spec fn outside(n: nat) -> Seq<bool> {
    Seq::new(n, |i: int| false)
}

proof fn lemma_outside(s: EmergencyStop, n: nat)
    requires
        s.wf(),
        s.room(n),
    ensures
        s.after_all(outside(n)).release_at == s.release_at,
        n > 0 && s.elapsed_ms + n * TICK_MS >= s.release_at ==> !s.after_all(outside(n)).engaged,
    decreases n,
{
    if n > 0 {
        assert(outside(n).drop_last() =~= outside((n - 1) as nat));
        lemma_outside(s, (n - 1) as nat);
        lemma_clock(s, outside((n - 1) as nat));
    }
}

/// The stop releases: once the mouse has been away from the corner for the
/// length of the cooldown, input is accepted again.
pub proof fn law_the_stop_releases(s: EmergencyStop, n: nat)
    requires
        s.wf(),
        s.room(1 + n),
        s.parked_ms + TICK_MS >= HOLD_MS,
        n * TICK_MS >= COOLDOWN_MS,
    ensures
        !s.after(true).after_all(outside(n)).engaged,
{
    lemma_outside(s.after(true), n);
}

// One look at the cursor

/// A tenth of a second passes with every look. The corner is within ten pixels
/// of the origin on either axis; a cursor that cannot be read is not in it. A
/// look that finds it there makes the stay longer, and from half a second on
/// engages the stop, for at least thirty seconds; a look that does not ends the
/// stay, and the stop with it once its time is up.
pub proof fn law_a_look_at_the_cursor(s: &mut EmergencyStop, cursor: Option<(i32, i32)>)
    requires
        old(s).wf(),
        old(s).room(1),
        call_ensures(EmergencyStop::tick, (s, cursor), ()),
    ensures
        ({
            let was = *old(s);
            let now = *final(s);
            let cornered = cursor matches Some(p) && -10 <= p.0 <= 10 && -10 <= p.1 <= 10;
            let stay = was.parked_ms + 100;
            &&& now.elapsed_ms == was.elapsed_ms + 100
            &&& cornered ==> now.parked_ms == stay
            &&& cornered && stay >= 500 ==> now.engaged && now.release_at == now.elapsed_ms + 30_000
            &&& cornered && stay < 500 ==> now.engaged == was.engaged && now.release_at
                == was.release_at
            &&& !cornered ==> now.parked_ms == 0 && now.release_at == was.release_at
                && now.engaged == (was.engaged && now.elapsed_ms < was.release_at)
        }),
{
}

/// A watch begins disengaged, and what it says is whether the stop is engaged.
pub proof fn law_a_watch_begins_disengaged(fresh: EmergencyStop, s: EmergencyStop, r: bool)
    requires
        call_ensures(EmergencyStop::new, (), fresh),
        call_ensures(engaged, (&s,), r),
    ensures
        !fresh.engaged && fresh.parked_ms == 0 && fresh.elapsed_ms == 0,
        r == s.engaged,
{
}

} // verus!
