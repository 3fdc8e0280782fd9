//! The one-byte serial protocol between the halves.
//!
//! The left half sends each of its events as one byte over the TRS cable:
//!
//! ```text
//!   bit 7      bit 6                    bits 5..0
//!   end?       press = 1 / release = 0  layout column
//! ```
//!
//! The column is capped at 63. The end bit marks the last byte of the events
//! of one scan; the receiver handles every byte on its own and ignores it.

use vstd::prelude::*;
use crate::keys::{with_coord, KeyEvent};

verus! {

/// Largest column that fits in the six low bits of a byte.
pub const MAX_WIRE_COLUMN: u8 = 0b0011_1111;

/// Bit 6: the event is a press.
pub const PRESS_BIT: u8 = 0b0100_0000;

/// Bit 7: the byte closes a batch of events.
pub const END_BIT: u8 = 0b1000_0000;

/// Events that a scan can hold before the byte buffer overflows.
pub const MAX_BATCH: usize = 15;

/// The column that goes on the wire: the event's column, capped at 63.
pub open spec fn wire_column(e: KeyEvent) -> int {
    if e.col() <= 63 { e.col() as int } else { 63 }
}

/// The byte that carries `e`.
pub open spec fn encoded(e: KeyEvent) -> int {
    wire_column(e) + if e.pressed() { 64int } else { 0int }
}

/// The event that a byte carries; the sender's row is not on the wire, so
/// it is always row 0.
pub open spec fn decoded(d: u8) -> KeyEvent {
    if (d as int / 64) % 2 == 1 {
        KeyEvent::Press(0, (d as int % 64) as u8)
    } else {
        KeyEvent::Release(0, (d as int % 64) as u8)
    }
}

/// Encodes one event into the byte sent to the other half.
pub fn encode_event(e: KeyEvent) -> (byte: u8)
    ensures
        byte as int == encoded(e),
        byte as int == (if e.col() <= 63 { e.col() as int } else { 63 }) + (if e is Press {
            64int
        } else {
            0int
        }),
        byte < 128,
{
    let (_, col) = e.coord();
    let mut byte: u8;
    if col <= MAX_WIRE_COLUMN {
        byte = col;
    } else {
        byte = MAX_WIRE_COLUMN;
    }
    let press: u8 = if e.is_press() { 1 } else { 0 };
    let low: u8 = byte;
    assert((low | (press << 6u8)) as int == low as int + press as int * 64) by (bit_vector)
        requires
            low <= 63,
            press <= 1,
    ;
    byte |= press << 6u8;
    byte
}

/// Decodes a byte received from the other half.
pub fn decode_byte(d: u8) -> (e: KeyEvent)
    ensures
        e == decoded(d),
        e.row() == 0,
        e.col() as int == d as int % 64,
        (e is Press) == ((d as int / 64) % 2 == 1),
{
    assert((d & 0b0011_1111u8) as int == d as int % 64) by (bit_vector);
    assert(((d & 0b0100_0000u8) > 0) == ((d as int / 64) % 2 == 1)) by (bit_vector);
    if (d & PRESS_BIT) > 0 {
        KeyEvent::Press(0, d & MAX_WIRE_COLUMN)
    } else {
        KeyEvent::Release(0, d & MAX_WIRE_COLUMN)
    }
}

/// Byte `k` of a batch: the encoding of event `k`, with the end bit on the
/// last one.
pub open spec fn batch_byte(events: Seq<KeyEvent>, k: int) -> u8 {
    (encoded(events[k]) + if k == events.len() - 1 { 128int } else { 0int }) as u8
}

/// The bytes of one batch: byte `k` carries event `k`, and the last byte
/// carries the end bit.
pub open spec fn encoded_batch(events: Seq<KeyEvent>) -> Seq<u8> {
    Seq::new(events.len(), |k: int| batch_byte(events, k))
}

/// Encodes the events of one scan into the bytes sent to the other half,
/// in order. The events are first placed in a buffer of sixteen slots, and
/// the batch ends at the first empty slot; more than fifteen events do not
/// fit in it.
pub fn encode_events(events: &Vec<KeyEvent>) -> (bytes: Vec<u8>)
    requires
        events.len() <= MAX_BATCH,
    ensures
        bytes@ == encoded_batch(events@),
        bytes.len() == events.len(),
        forall|k: int|
            0 <= k < bytes.len() ==> #[trigger] bytes@[k] as int == (if events@[k].col() <= 63 {
                events@[k].col() as int
            } else {
                63
            }) + (if events@[k] is Press {
                64int
            } else {
                0int
            }) + (if k == bytes.len() - 1 {
                128int
            } else {
                0int
            }),
        forall|k: int| 0 <= k < bytes.len() - 1 ==> bytes@[k] < 128,
        bytes.len() > 0 ==> bytes@[bytes.len() - 1] >= 128,
{
    let n = events.len();
    let mut slots: Vec<Option<KeyEvent>> = Vec::new();
    for _k in 0..16usize
        invariant
            slots.len() == _k,
            forall|m: int| 0 <= m < slots.len() ==> slots@[m] is None,
    {
        slots.push(None);
    }
    for i in 0..n
        invariant
            n == events.len(),
            n <= MAX_BATCH,
            slots.len() == 16,
            forall|m: int| 0 <= m < i ==> slots@[m] == Some(events@[m]),
            forall|m: int| i <= m < 16 ==> slots@[m] is None,
    {
        slots.set(i, Some(events[i]));
    }
    // The batch ends at the first empty slot.
    let mut stop_index: usize = 0;
    while stop_index < 16 && slots[stop_index].is_some()
        invariant
            stop_index <= n,
            n == events.len(),
            n <= MAX_BATCH,
            slots.len() == 16,
            forall|m: int| 0 <= m < n ==> slots@[m] == Some(events@[m]),
            forall|m: int| n <= m < 16 ==> slots@[m] is None,
        decreases 16 - stop_index,
    {
        stop_index = stop_index + 1;
    }
    assert(stop_index == n);
    let mut bytes: Vec<u8> = Vec::new();
    for i in 0..(stop_index + 1)
        invariant
            stop_index == n,
            n == events.len(),
            n <= MAX_BATCH,
            slots.len() == 16,
            forall|m: int| 0 <= m < n ==> slots@[m] == Some(events@[m]),
            forall|m: int| n <= m < 16 ==> slots@[m] is None,
            bytes.len() == if i <= n { i as int } else { n as int },
            forall|m: int| 0 <= m < bytes.len() ==> bytes@[m] == batch_byte(events@, m),
    {
        if let Some(ev) = slots[i] {
            let mut byte = encode_event(ev);
            // The last byte of the batch closes it.
            if i + 1 == stop_index {
                let low: u8 = byte;
                assert((low | 0b1000_0000u8) as int == low as int + 128) by (bit_vector)
                    requires
                        low < 128,
                ;
                byte |= END_BIT;
            }
            bytes.push(byte);
        }
    }
    assert(bytes@ =~= encoded_batch(events@));
    bytes
}

/// What the UART reports about the byte in its data register.
#[derive(Debug, Clone, Copy, PartialEq, Eq, Structural)]
pub struct RxStatus {
    /// The masked receive interrupt is raised.
    pub rx_interrupt: bool,
    /// The receive FIFO is empty.
    pub rx_empty: bool,
    /// Overrun error.
    pub overrun: bool,
    /// Break error.
    pub break_error: bool,
    /// Parity error.
    pub parity_error: bool,
    /// Framing error.
    pub framing_error: bool,
}

pub open spec fn rx_ok(s: RxStatus) -> bool {
    &&& s.rx_interrupt
    &&& !s.rx_empty
    &&& !s.overrun
    &&& !s.break_error
    &&& !s.parity_error
    &&& !s.framing_error
}

/// Whether the received byte may be read and handled: the receive interrupt
/// is raised, a byte is there, and it came without any line error.
pub fn rx_byte_ready(s: RxStatus) -> (ok: bool)
    ensures
        ok == rx_ok(s),
{
    s.rx_interrupt && !s.rx_empty && !s.overrun && !s.break_error && !s.parity_error
        && !s.framing_error
}

/// Whatever event is sent, the other half receives it on row 0, with its
/// kind kept and its column capped at 63.
pub proof fn lemma_wire_carries_event(e: KeyEvent)
    ensures
        decoded(encoded(e) as u8) == with_coord(e, 0, wire_column(e) as u8),
{
}

/// An event on row 0 whose column fits in six bits arrives unchanged.
pub proof fn lemma_decode_encode(e: KeyEvent)
    requires
        e.row() == 0,
        e.col() <= MAX_WIRE_COLUMN,
    ensures
        decoded(encoded(e) as u8) == e,
{
    lemma_wire_carries_event(e);
}

/// Every byte without the end bit is the encoding of the event it carries.
pub proof fn lemma_encode_decode(d: u8)
    requires
        d < 128,
    ensures
        encoded(decoded(d)) == d as int,
{
}

/// The byte layout of an event: bits 5..0 carry the column, capped at 63,
/// and bit 6 is set exactly for a press; a byte below 128 has no end bit.
pub proof fn lemma_encoded_layout(e: KeyEvent)
    ensures
        encoded(e) % 64 == (if e.col() <= 63 { e.col() as int } else { 63 }),
        (encoded(e) / 64 == 1) == (e is Press),
        0 <= encoded(e) < 128,
{
}

/// What a received byte means: row 0, bits 5..0 as the column, bit 6 as
/// the press flag; bit 7 does not matter.
pub proof fn lemma_decoded_layout(d: u8)
    ensures
        decoded(d).row() == 0,
        decoded(d).col() as int == d as int % 64,
        (decoded(d) is Press) == ((d as int / 64) % 2 == 1),
{
}

/// The end bit does not change the event that a byte carries.
pub proof fn lemma_end_bit_ignored(d: u8)
    requires
        d < 128,
    ensures
        decoded((d + 128) as u8) == decoded(d),
{
}

/// A batch decodes, byte by byte, to its events on row 0 with capped columns.
pub proof fn lemma_batch_round_trip(events: Seq<KeyEvent>)
    ensures
        encoded_batch(events).len() == events.len(),
        forall|k: int|
            0 <= k < events.len() ==> #[trigger] decoded(encoded_batch(events)[k]) == with_coord(
                events[k],
                0,
                wire_column(events[k]) as u8,
            ),
{
    assert forall|k: int| 0 <= k < events.len() implies #[trigger] decoded(
        encoded_batch(events)[k],
    ) == with_coord(events[k], 0, wire_column(events[k]) as u8) by {
        lemma_wire_carries_event(events[k]);
        lemma_end_bit_ignored(encoded(events[k]) as u8);
    }
}

} // verus!
