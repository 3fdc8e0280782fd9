//! One scan of the switch matrix: debounce, move the events to layout
//! coordinates, and route them to this half's layout or to the serial link.
//!
//! The keyberon release this crate builds on (0.1.1) has no chording: the chords Q+W (Escape),
//! C+V (Tab) and L+O (Enter), whose outputs sit at layout columns 37..39,
//! are not there, so every event of a scan comes from a switch, and Escape,
//! which only a chord reaches, cannot be typed (no switch lands on those
//! columns: `lemma_no_switch_on_chord_keys`). Its hold-taps also have no
//! permissive hold and no tap-hold interval.

use vstd::prelude::*;
use keyberon::debounce::Debouncer;
use crate::keys::{column_fits, left_column, right_column, lemma_side_in_layout, transform_event, transformed, HALF_COLUMNS, KeyEvent};
use crate::link::{decoded, lemma_decoded_layout, lemma_encoded_layout, encode_events, encoded_batch, lemma_decode_encode, MAX_BATCH};

verus! {

#[verifier::external_type_specification]
#[verifier::external_body]
#[verifier::reject_recursive_types(T)]
pub struct ExDebouncer<T>(Debouncer<T>);

/// Updates that a new switch state must stay stable for before it counts.
pub const DEBOUNCE_UPDATES: u16 = 30;

/// Switches of one half, as the debouncer holds them: one row of 17.
pub open spec fn switch_row(pressed: [[bool; 17]; 1]) -> Seq<bool> {
    pressed@[0]@
}

/// The switch state that `keyberon::debounce::Debouncer` currently holds as
/// stable (its `cur` field, what `get` returns), as the row of 17 switches.
pub uninterp spec fn debounce_stable(d: Debouncer<[[bool; 17]; 1]>) -> Seq<bool>;

/// The state that the debouncer is waiting to confirm (its `new` field).
pub uninterp spec fn debounce_candidate(d: Debouncer<[[bool; 17]; 1]>) -> Seq<bool>;

/// How many updates in a row the candidate was seen (its `since` field).
pub uninterp spec fn debounce_since(d: Debouncer<[[bool; 17]; 1]>) -> u16;

/// The number of updates that the candidate must outlast to become stable
/// (its `nb_bounce` field).
pub uninterp spec fn debounce_limit(d: Debouncer<[[bool; 17]; 1]>) -> u16;

/// The debouncer's state, as a whole.
pub struct DebounceState {
    pub stable: Seq<bool>,
    pub candidate: Seq<bool>,
    pub since: int,
    pub limit: int,
}

pub open spec fn state_of(d: Debouncer<[[bool; 17]; 1]>) -> DebounceState {
    DebounceState {
        stable: debounce_stable(d),
        candidate: debounce_candidate(d),
        since: debounce_since(d) as int,
        limit: debounce_limit(d) as int,
    }
}

/// The state of a debouncer that nothing has been fed yet: all released.
pub open spec fn fresh_state(limit: int) -> DebounceState {
    DebounceState {
        stable: Seq::new(17, |j: int| false),
        candidate: Seq::new(17, |j: int| false),
        since: 0,
        limit,
    }
}

/// A state that the debouncer can be in: rows of 17 switches, and a counter
/// that never passes the limit, which is below `u16::MAX`.
pub open spec fn state_ok(st: DebounceState) -> bool {
    &&& st.stable.len() == 17
    &&& st.candidate.len() == 17
    &&& 0 <= st.since <= st.limit < u16::MAX
}

/// The count of updates that `s` has been seen in a row, once this update
/// is counted.
pub open spec fn seen_count(st: DebounceState, s: Seq<bool>) -> int {
    if st.candidate != s { 1 } else { st.since + 1 }
}

/// Whether this update makes `s` the stable state: it differs from the
/// stable state and has now been seen in more updates in a row than the
/// limit.
pub open spec fn settles(st: DebounceState, s: Seq<bool>) -> bool {
    st.stable != s && seen_count(st, s) > st.limit
}

/// The state after one update with switch state `s`: equal to the stable
/// state, it resets the counter; otherwise `s` becomes the candidate and is
/// counted, and once counted past the limit it becomes stable.
pub open spec fn next_state(st: DebounceState, s: Seq<bool>) -> DebounceState {
    if st.stable == s {
        DebounceState { stable: st.stable, candidate: st.candidate, since: 0, limit: st.limit }
    } else if settles(st, s) {
        DebounceState { stable: s, candidate: st.stable, since: 0, limit: st.limit }
    } else {
        DebounceState { stable: st.stable, candidate: s, since: seen_count(st, s), limit: st.limit }
    }
}

/// The event of switch `j` going to state `down`.
pub open spec fn switch_event(j: int, down: bool) -> KeyEvent {
    if down { KeyEvent::Press(0, j as u8) } else { KeyEvent::Release(0, j as u8) }
}

/// One event for each of the first `n` switches whose state differs between
/// `old` and `new`, in column order.
pub open spec fn change_events(old: Seq<bool>, new: Seq<bool>, n: nat) -> Seq<KeyEvent>
    decreases n,
{
    if n == 0 {
        Seq::empty()
    } else {
        let j = n - 1;
        change_events(old, new, j as nat) + if old[j] != new[j] {
            seq![switch_event(j, new[j])]
        } else {
            Seq::empty()
        }
    }
}

/// The events that one update reports: when `s` settles, one per switch
/// that changed against the old stable state; else none.
pub open spec fn reported(st: DebounceState, s: Seq<bool>) -> Seq<KeyEvent> {
    if settles(st, s) {
        change_events(st.stable, s, 17)
    } else {
        Seq::empty()
    }
}

/// Calls `keyberon::debounce::Debouncer::new` with both states all
/// released and the counter at zero; the debouncer keeps `nb_bounce` as its
/// limit.
#[verifier::external_body]
fn keyberon_debouncer_new(nb_bounce: u16) -> (d: Debouncer<[[bool; 17]; 1]>)
    ensures
        debounce_stable(d) == Seq::new(17, |j: int| false),
        debounce_candidate(d) == Seq::new(17, |j: int| false),
        debounce_since(d) == 0,
        debounce_limit(d) == nb_bounce,
{
    Debouncer::new([[false; 17]; 1], [[false; 17]; 1], nb_bounce)
}

/// A debouncer for the 17 switches of one half, all released.
pub fn new_debouncer() -> (d: Debouncer<[[bool; 17]; 1]>)
    ensures
        state_of(d) == fresh_state(DEBOUNCE_UPDATES as int),
        state_ok(state_of(d)),
{
    keyberon_debouncer_new(DEBOUNCE_UPDATES)
}

/// What every batch of debounced events of one half looks like: row 0,
/// columns of the half, each switch at most once, in column order.
pub open spec fn debounced_shape(events: Seq<KeyEvent>) -> bool {
    &&& events.len() <= HALF_COLUMNS
    &&& forall|k: int| 0 <= k < events.len() ==> #[trigger] events[k].row() == 0
    &&& forall|k: int| 0 <= k < events.len() ==> #[trigger] events[k].col() < HALF_COLUMNS
    &&& forall|k: int, m: int| 0 <= k < m < events.len() ==> events[k].col() < events[m].col()
}

/// Calls `keyberon::debounce::Debouncer::events` (which first calls
/// `update`) and hands out each event as a `KeyEvent`. The debouncer's
/// `update` resets the counter when the new
/// state equals the stable one; otherwise the new state becomes the
/// candidate and is counted, and past `nb_bounce` it is swapped in as the
/// stable state and the events are the switches that differ, in row-major
/// order. The counter stays at most the limit, so with the limit below
/// `u16::MAX` the increment does not overflow.
#[verifier::external_body]
fn keyberon_debounce(
    debouncer: &mut Debouncer<[[bool; 17]; 1]>,
    pressed: [[bool; 17]; 1],
) -> (events: Vec<KeyEvent>)
    requires
        debounce_since(*old(debouncer)) <= debounce_limit(*old(debouncer)) < u16::MAX,
    ensures
        debounce_stable(*final(debouncer)) == next_state(
            state_of(*old(debouncer)),
            switch_row(pressed),
        ).stable,
        debounce_candidate(*final(debouncer)) == next_state(
            state_of(*old(debouncer)),
            switch_row(pressed),
        ).candidate,
        debounce_since(*final(debouncer)) as int == next_state(
            state_of(*old(debouncer)),
            switch_row(pressed),
        ).since,
        debounce_limit(*final(debouncer)) == debounce_limit(*old(debouncer)),
        events@ == reported(state_of(*old(debouncer)), switch_row(pressed)),
{
    let mut out = Vec::new();
    for e in debouncer.events(pressed) {
        out.push(match e {
            keyberon::layout::Event::Press(i, j) => KeyEvent::Press(i, j),
            keyberon::layout::Event::Release(i, j) => KeyEvent::Release(i, j),
        });
    }
    out
}

/// The events for the first `n` switches have row 0, columns below `n`,
/// increasing.
pub proof fn lemma_change_events_shape(old: Seq<bool>, new: Seq<bool>, n: nat)
    requires
        n <= old.len(),
        n <= new.len(),
        n <= 255,
    ensures
        change_events(old, new, n).len() <= n,
        forall|k: int|
            0 <= k < change_events(old, new, n).len() ==> #[trigger] change_events(old, new, n)[k].row()
                == 0,
        forall|k: int|
            0 <= k < change_events(old, new, n).len() ==> #[trigger] change_events(old, new, n)[k].col()
                < n,
        forall|k: int, m: int|
            0 <= k < m < change_events(old, new, n).len() ==> change_events(old, new, n)[k].col()
                < change_events(old, new, n)[m].col(),
    decreases n,
{
    if n > 0 {
        let j = n - 1;
        let prev = change_events(old, new, j as nat);
        let tail = if old[j] != new[j] {
            seq![switch_event(j, new[j])]
        } else {
            Seq::<KeyEvent>::empty()
        };
        lemma_change_events_shape(old, new, j as nat);
        assert(change_events(old, new, n) == prev + tail);
        assert forall|k: int| 0 <= k < prev.len() + tail.len() implies #[trigger] (prev + tail)[k].row()
            == 0 by {
            if k >= prev.len() {
                assert((prev + tail)[k] == switch_event(j, new[j]));
            } else {
                assert((prev + tail)[k] == prev[k]);
                assert(prev[k].row() == 0);
            }
        }
        assert forall|k: int| 0 <= k < prev.len() + tail.len() implies #[trigger] (prev + tail)[k].col()
            < n by {
            if k >= prev.len() {
                assert((prev + tail)[k] == switch_event(j, new[j]));
            } else {
                assert((prev + tail)[k] == prev[k]);
                assert(prev[k].col() < j);
            }
        }
        assert forall|k: int, m: int| 0 <= k < m < prev.len() + tail.len() implies (prev + tail)[k].col()
            < (prev + tail)[m].col() by {
            if m >= prev.len() {
                assert((prev + tail)[m] == switch_event(j, new[j]));
                assert((prev + tail)[k] == prev[k]);
                assert(prev[k].col() < j);
            } else {
                assert((prev + tail)[m] == prev[m]);
                assert((prev + tail)[k] == prev[k]);
            }
        }
    }
}

/// The events of one update have the shape of debounced events.
pub proof fn lemma_reported_shape(st: DebounceState, s: Seq<bool>)
    requires
        state_ok(st),
        s.len() == 17,
    ensures
        debounced_shape(reported(st, s)),
{
    lemma_change_events_shape(st.stable, s, 17);
}

/// An update keeps the state one that the debouncer can be in.
pub proof fn lemma_next_state_ok(st: DebounceState, s: Seq<bool>)
    requires
        state_ok(st),
        s.len() == 17,
    ensures
        state_ok(next_state(st, s)),
        next_state(st, s).limit == st.limit,
{
}

/// The state after `k` updates, all with switch state `s`.
pub open spec fn held_for(st: DebounceState, s: Seq<bool>, k: nat) -> DebounceState
    decreases k,
{
    if k == 0 { st } else { next_state(held_for(st, s, (k - 1) as nat), s) }
}

proof fn lemma_held_progress(st: DebounceState, s: Seq<bool>, k: nat)
    requires
        state_ok(st),
        s.len() == 17,
        k >= 1,
    ensures
        state_ok(held_for(st, s, k)),
        held_for(st, s, k).stable == s || (held_for(st, s, k).candidate == s && held_for(st, s, k).since
            >= k),
    decreases k,
{
    if k == 1 {
        assert(held_for(st, s, 0) == st);
        lemma_next_state_ok(st, s);
    } else {
        lemma_held_progress(st, s, (k - 1) as nat);
        lemma_next_state_ok(held_for(st, s, (k - 1) as nat), s);
    }
}

/// A switch state held for more updates in a row than the limit becomes
/// the stable state, whatever the debouncer held before.
pub proof fn lemma_held_state_settles(st: DebounceState, s: Seq<bool>)
    requires
        state_ok(st),
        s.len() == 17,
    ensures
        held_for(st, s, (st.limit + 1) as nat).stable == s,
{
    let k = (st.limit + 1) as nat;
    lemma_held_progress(st, s, k);
    assert(held_for(st, s, k).since <= st.limit) by {
        lemma_held_limit(st, s, k);
    }
}

proof fn lemma_held_limit(st: DebounceState, s: Seq<bool>, k: nat)
    requires
        state_ok(st),
        s.len() == 17,
    ensures
        held_for(st, s, k).limit == st.limit,
        state_ok(held_for(st, s, k)),
    decreases k,
{
    if k > 0 {
        lemma_held_limit(st, s, (k - 1) as nat);
        lemma_next_state_ok(held_for(st, s, (k - 1) as nat), s);
    }
}

/// From a settled state, a different switch state that is not yet the
/// candidate stays unconfirmed for `limit` updates: a bounce shorter than
/// that is never reported.
pub proof fn lemma_short_bounce_ignored(st: DebounceState, s: Seq<bool>, k: nat)
    requires
        state_ok(st),
        s.len() == 17,
        st.stable != s,
        st.candidate != s,
        1 <= k <= st.limit,
    ensures
        held_for(st, s, k).stable == st.stable,
        held_for(st, s, k).candidate == s,
        held_for(st, s, k).since == k,
    decreases k,
{
    if k == 1 {
        assert(held_for(st, s, 0) == st);
        assert(seen_count(st, s) == 1);
        assert(!settles(st, s));
        assert(held_for(st, s, 1) == next_state(st, s));
    } else {
        let prev = held_for(st, s, (k - 1) as nat);
        lemma_short_bounce_ignored(st, s, (k - 1) as nat);
        lemma_held_limit(st, s, (k - 1) as nat);
        assert(seen_count(prev, s) == k);
        assert(!settles(prev, s));
        assert(held_for(st, s, k) == next_state(prev, s));
    }
}

/// Where the events of one scan go.
pub enum ScanOutput {
    /// The right half feeds them to its own layout, in order.
    Local(Vec<KeyEvent>),
    /// The left half sends these bytes to the right half, in order.
    Serial(Vec<u8>),
    /// More events than the serial batch holds: the firmware halts and the
    /// watchdog restarts it.
    Overflow,
}

pub open spec fn all_fit(is_right: bool, events: Seq<KeyEvent>) -> bool {
    forall|k: int| 0 <= k < events.len() ==> column_fits(is_right, #[trigger] events[k].col() as int)
}

/// The events in layout coordinates of the given half.
pub open spec fn transformed_all(is_right: bool, events: Seq<KeyEvent>) -> Seq<KeyEvent> {
    events.map_values(|e: KeyEvent| transformed(is_right, e))
}

/// Where a batch of events goes, on each half.
pub open spec fn routed(is_right: bool, events: Seq<KeyEvent>, out: ScanOutput) -> bool {
    if is_right {
        out matches ScanOutput::Local(v) && v@ == transformed_all(true, events)
    } else if events.len() <= MAX_BATCH {
        out matches ScanOutput::Serial(b) && b@ == encoded_batch(transformed_all(false, events))
    } else {
        out is Overflow
    }
}

/// The right half keeps every event of a scan, in scan order, each moved to
/// its layout column with its row and kind kept; the left half sends one
/// byte per event, in scan order, each decoding to the event at its layout
/// column (capped at 63), with the end bit on the last.
pub proof fn lemma_routed_in_order(is_right: bool, events: Seq<KeyEvent>, out: ScanOutput)
    requires
        routed(is_right, events, out),
    ensures
        is_right ==> (out matches ScanOutput::Local(v) && v@.len() == events.len() && forall|k: int|
            0 <= k < events.len() ==> {
                &&& #[trigger] v@[k].row() == events[k].row()
                &&& (v@[k] is Press) == (events[k] is Press)
                &&& v@[k].col() == (right_column(events[k].col() as int) as u8)
            }),
        !is_right && events.len() <= MAX_BATCH ==> (out matches ScanOutput::Serial(b) && b@.len()
            == events.len() && forall|k: int|
            0 <= k < events.len() ==> {
                &&& #[trigger] decoded(b@[k]).col() == (if (left_column(events[k].col() as int)
                    as u8) <= 63 { left_column(events[k].col() as int) as u8 } else { 63u8 })
                &&& (decoded(b@[k]) is Press) == (events[k] is Press)
                &&& (b@[k] >= 128) == (k == events.len() - 1)
            }),
{
    if !is_right && events.len() <= MAX_BATCH {
        let b = out->Serial_0;
        assert forall|k: int| 0 <= k < events.len() implies {
            &&& #[trigger] decoded(b@[k]).col() == (if (left_column(events[k].col() as int)
                as u8) <= 63 { left_column(events[k].col() as int) as u8 } else { 63u8 })
            &&& (decoded(b@[k]) is Press) == (events[k] is Press)
            &&& (b@[k] >= 128) == (k == events.len() - 1)
        } by {
            let e = transformed(false, events[k]);
            lemma_encoded_layout(e);
            lemma_decoded_layout(b@[k]);
        }
    }
}

/// Moves the debounced events of one scan to layout coordinates and routes
/// them: the right half keeps them, the left half encodes them for the
/// serial link.
pub fn route_events(is_right: bool, events: Vec<KeyEvent>) -> (out: ScanOutput)
    requires
        all_fit(is_right, events@),
    ensures
        routed(is_right, events@, out),
        is_right ==> (out matches ScanOutput::Local(v) && v@.len() == events@.len() && forall|k: int|
            0 <= k < events@.len() ==> {
                &&& #[trigger] v@[k].row() == events@[k].row()
                &&& (v@[k] is Press) == (events@[k] is Press)
                &&& v@[k].col() as int == (events@[k].col() as int / 5) * 10 + events@[k].col() as int
                    % 5 + 5
            }),
        !is_right && events@.len() <= MAX_BATCH ==> (out matches ScanOutput::Serial(b) && b@.len()
            == events@.len()),
        !is_right && events@.len() > MAX_BATCH ==> out is Overflow,
{
    let mut moved: Vec<KeyEvent> = Vec::new();
    for k in 0..events.len()
        invariant
            all_fit(is_right, events@),
            moved@ =~= transformed_all(is_right, events@).take(k as int),
    {
        let e = transform_event(is_right, events[k]);
        moved.push(e);
    }
    assert(moved@ =~= transformed_all(is_right, events@));
    if is_right {
        ScanOutput::Local(moved)
    } else if moved.len() <= MAX_BATCH {
        ScanOutput::Serial(encode_events(&moved))
    } else {
        ScanOutput::Overflow
    }
}

/// One scan of the matrix: feed the switch states that were read to the
/// debouncer and route the events it reports. This keyberon has no chording,
/// so each event goes out as reported.
pub fn scan(
    debouncer: &mut Debouncer<[[bool; 17]; 1]>,
    pressed: [[bool; 17]; 1],
    is_right: bool,
) -> (out: ScanOutput)
    requires
        state_ok(state_of(*old(debouncer))),
    ensures
        state_of(*final(debouncer)) == next_state(state_of(*old(debouncer)), switch_row(pressed)),
        state_ok(state_of(*final(debouncer))),
        routed(is_right, reported(state_of(*old(debouncer)), switch_row(pressed)), out),
{
    let ghost st = state_of(*debouncer);
    let events = keyberon_debounce(debouncer, pressed);
    proof {
        lemma_reported_shape(st, switch_row(pressed));
        lemma_next_state_ok(st, switch_row(pressed));
        assert forall|k: int| 0 <= k < events@.len() implies column_fits(
            is_right,
            #[trigger] events@[k].col() as int,
        ) by {
            lemma_side_in_layout(is_right, events@[k].col() as int);
        }
    }
    route_events(is_right, events)
}

/// What the left half scans is what the right half receives: every byte
/// that a scan of the left half sends decodes, on the right half, to the
/// left half's event in layout coordinates, unchanged.
pub proof fn lemma_left_scan_arrives(events: Seq<KeyEvent>, out: ScanOutput)
    requires
        debounced_shape(events),
        routed(false, events, out),
        out is Serial,
    ensures
        out->Serial_0@.len() == events.len(),
        forall|k: int|
            0 <= k < events.len() ==> #[trigger] decoded(out->Serial_0@[k]) == transformed(false, events[k]),
{
    let moved = transformed_all(false, events);
    assert forall|k: int| 0 <= k < events.len() implies #[trigger] decoded(out->Serial_0@[k])
        == transformed(false, events[k]) by {
        assert(events[k].row() == 0);
        assert(events[k].col() < HALF_COLUMNS);
        lemma_side_in_layout(false, events[k].col() as int);
        assert(moved[k] == transformed(false, events[k]));
        lemma_decode_encode(moved[k]);
    }
}

} // verus!
