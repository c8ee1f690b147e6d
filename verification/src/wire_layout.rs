//! The byte layout of every message on the wire, stated field by field:
//! where each field lies and that it is written big-endian. These laws pin
//! the format that peers read, beyond reading back what was written.
use vstd::prelude::*;

use crate::event::{
    be_bytes_u32, be_u32, lemma_be_u32_round_trip, spec_decode_keyboard_event, spec_encode_keyboard_event,
    KeyboardEvent,
};
use crate::wire::{
    be_bytes_u64, spec_decode_event, spec_decode_pointer_event, spec_encode_event, spec_encode_pointer_event, Event,
    PointerEvent,
};

verus! {

/// The value of the four bytes of `b` at `lo`, most significant first.
pub open spec fn be4(b: Seq<u8>, lo: int) -> int {
    b[lo] as int * 0x100_0000 + b[lo + 1] as int * 0x1_0000 + b[lo + 2] as int * 0x100 + b[lo + 3] as int
}

/// The value of the eight bytes of `b` at `lo`, most significant first.
pub open spec fn be8(b: Seq<u8>, lo: int) -> int {
    be4(b, lo) * 0x1_0000_0000 + be4(b, lo + 4)
}

proof fn lemma_be4_of_bytes(x: u32, b: Seq<u8>, lo: int)
    requires
        0 <= lo,
        lo + 4 <= b.len(),
        b.subrange(lo, lo + 4) == be_bytes_u32(x),
    ensures
        be4(b, lo) == x,
{
    lemma_be_u32_round_trip(x);
    let s = b.subrange(lo, lo + 4);
    assert(s[0] == b[lo] && s[1] == b[lo + 1] && s[2] == b[lo + 2] && s[3] == b[lo + 3]);
}

proof fn lemma_be8_of_bytes(x: u64, b: Seq<u8>, lo: int)
    requires
        0 <= lo,
        lo + 8 <= b.len(),
        b.subrange(lo, lo + 8) == be_bytes_u64(x),
    ensures
        be8(b, lo) == x,
{
    let hi = (x / 0x1_0000_0000) as u32;
    let low = (x % 0x1_0000_0000) as u32;
    assert(b.subrange(lo, lo + 4) =~= be_bytes_u32(hi)) by {
        assert(be_bytes_u64(x) == be_bytes_u32(hi) + be_bytes_u32(low));
        assert forall|k: int| 0 <= k < 4 implies b.subrange(lo, lo + 4)[k] == be_bytes_u32(hi)[k] by {
            assert(b.subrange(lo, lo + 8)[k] == b[lo + k]);
        }
    }
    assert(b.subrange(lo + 4, lo + 8) =~= be_bytes_u32(low)) by {
        assert(be_bytes_u64(x) == be_bytes_u32(hi) + be_bytes_u32(low));
        assert forall|k: int| 0 <= k < 4 implies b.subrange(lo + 4, lo + 8)[k] == be_bytes_u32(low)[k] by {
            assert(b.subrange(lo, lo + 8)[k + 4] == b[lo + 4 + k]);
        }
    }
    lemma_be4_of_bytes(hi, b, lo);
    lemma_be4_of_bytes(low, b, lo + 4);
}

/// The value a reader takes from the four bytes at `lo`: the bytes read
/// most significant first.
proof fn lemma_read_be4(b: Seq<u8>, lo: int)
    requires
        0 <= lo,
        lo + 4 <= b.len(),
    ensures
        be_u32(b.subrange(lo, lo + 4)) as int == be4(b, lo),
        0 <= be4(b, lo) < 0x1_0000_0000,
{
    let s = b.subrange(lo, lo + 4);
    assert(s[0] == b[lo] && s[1] == b[lo + 1] && s[2] == b[lo + 2] && s[3] == b[lo + 3]);
}

/// A pointer event is written as its kind byte (motion 0, button 7, axis 8,
/// discrete axis 9, frame 10) and then its fields, each big-endian, in the
/// order of the event: motion time, dx, dy (21 bytes); button time, button,
/// state; axis time, axis, value; discrete axis, value (its two's
/// complement bits); a frame is the kind byte alone.
pub proof fn lemma_pointer_event_layout(e: PointerEvent)
    ensures
        ({
            let b = spec_encode_pointer_event(e);
            match e {
                PointerEvent::Motion { time, dx_bits, dy_bits } => b.len() == 21 && b[0] == 0 && be4(b, 1) == time
                    && be8(b, 5) == dx_bits && be8(b, 13) == dy_bits,
                PointerEvent::Button { time, button, state } => b.len() == 13 && b[0] == 7 && be4(b, 1) == time
                    && be4(b, 5) == button && be4(b, 9) == state,
                PointerEvent::Axis { time, axis, value_bits } => b.len() == 14 && b[0] == 8 && be4(b, 1) == time
                    && b[5] == axis && be8(b, 6) == value_bits,
                PointerEvent::AxisDiscrete120 { axis, value } => b.len() == 6 && b[0] == 9 && b[1] == axis && be4(b, 2)
                    == value as u32,
                PointerEvent::Frame => b.len() == 1 && b[0] == 10,
            }
        }),
{
    let b = spec_encode_pointer_event(e);
    match e {
        PointerEvent::Motion { time, dx_bits, dy_bits } => {
            assert(b.subrange(1, 5) =~= be_bytes_u32(time));
            assert(b.subrange(5, 13) =~= be_bytes_u64(dx_bits));
            assert(b.subrange(13, 21) =~= be_bytes_u64(dy_bits));
            lemma_be4_of_bytes(time, b, 1);
            lemma_be8_of_bytes(dx_bits, b, 5);
            lemma_be8_of_bytes(dy_bits, b, 13);
        },
        PointerEvent::Button { time, button, state } => {
            assert(b.subrange(1, 5) =~= be_bytes_u32(time));
            assert(b.subrange(5, 9) =~= be_bytes_u32(button));
            assert(b.subrange(9, 13) =~= be_bytes_u32(state));
            lemma_be4_of_bytes(time, b, 1);
            lemma_be4_of_bytes(button, b, 5);
            lemma_be4_of_bytes(state, b, 9);
        },
        PointerEvent::Axis { time, axis, value_bits } => {
            assert(b.subrange(1, 5) =~= be_bytes_u32(time));
            assert(b.subrange(6, 14) =~= be_bytes_u64(value_bits));
            lemma_be4_of_bytes(time, b, 1);
            lemma_be8_of_bytes(value_bits, b, 6);
        },
        PointerEvent::AxisDiscrete120 { axis, value } => {
            assert(b.subrange(2, 6) =~= be_bytes_u32(value as u32));
            lemma_be4_of_bytes(value as u32, b, 2);
        },
        PointerEvent::Frame => {},
    }
}

/// A pointer event is read from its kind byte and then its fields at the
/// places where they are written, each big-endian; bytes after them are not
/// read.
pub proof fn lemma_pointer_event_read(m: Seq<u8>)
    ensures
        m.len() >= 21 && m[0] == 0 ==> spec_decode_pointer_event(m) == Ok::<PointerEvent, crate::event::ProtocolErrorModel>(
            PointerEvent::Motion { time: be4(m, 1) as u32, dx_bits: be8(m, 5) as u64, dy_bits: be8(m, 13) as u64 },
        ),
        m.len() >= 13 && m[0] == 7 ==> spec_decode_pointer_event(m) == Ok::<PointerEvent, crate::event::ProtocolErrorModel>(
            PointerEvent::Button { time: be4(m, 1) as u32, button: be4(m, 5) as u32, state: be4(m, 9) as u32 },
        ),
        m.len() >= 14 && m[0] == 8 ==> spec_decode_pointer_event(m) == Ok::<PointerEvent, crate::event::ProtocolErrorModel>(
            PointerEvent::Axis { time: be4(m, 1) as u32, axis: m[5], value_bits: be8(m, 6) as u64 },
        ),
        m.len() >= 6 && m[0] == 9 ==> spec_decode_pointer_event(m) == Ok::<PointerEvent, crate::event::ProtocolErrorModel>(
            PointerEvent::AxisDiscrete120 { axis: m[1], value: (be4(m, 2) as u32) as i32 },
        ),
        m.len() >= 1 && m[0] == 10 ==> spec_decode_pointer_event(m) == Ok::<PointerEvent, crate::event::ProtocolErrorModel>(
            PointerEvent::Frame,
        ),
{
    if m.len() >= 21 && m[0] == 0 {
        lemma_read_be4(m, 1);
        lemma_read_be4(m, 5);
        lemma_read_be4(m, 9);
        lemma_read_be4(m, 13);
        lemma_read_be4(m, 17);
        let s1 = m.subrange(5, 13);
        assert(s1.subrange(0, 4) =~= m.subrange(5, 9));
        assert(s1.subrange(4, 8) =~= m.subrange(9, 13));
        let s2 = m.subrange(13, 21);
        assert(s2.subrange(0, 4) =~= m.subrange(13, 17));
        assert(s2.subrange(4, 8) =~= m.subrange(17, 21));
    }
    if m.len() >= 13 && m[0] == 7 {
        lemma_read_be4(m, 1);
        lemma_read_be4(m, 5);
        lemma_read_be4(m, 9);
    }
    if m.len() >= 14 && m[0] == 8 {
        lemma_read_be4(m, 1);
        lemma_read_be4(m, 6);
        lemma_read_be4(m, 10);
        let s1 = m.subrange(6, 14);
        assert(s1.subrange(0, 4) =~= m.subrange(6, 10));
        assert(s1.subrange(4, 8) =~= m.subrange(10, 14));
    }
    if m.len() >= 6 && m[0] == 9 {
        lemma_read_be4(m, 2);
    }
}

/// A keyboard event is written as its kind byte (key 0, modifiers 1) and
/// its fields, each big-endian, in the order of the event: a key's time,
/// key code and state byte; the depressed, latched and locked modifiers and
/// the group.
pub proof fn lemma_keyboard_event_layout(k: KeyboardEvent)
    ensures
        ({
            let b = spec_encode_keyboard_event(k);
            match k {
                KeyboardEvent::Key { time, key, state } => b.len() == 10 && b[0] == 0 && be4(b, 1) == time && be4(b, 5)
                    == key && b[9] == state,
                KeyboardEvent::Modifiers { depressed, latched, locked, group } => b.len() == 17 && b[0] == 1 && be4(b, 1)
                    == depressed && be4(b, 5) == latched && be4(b, 9) == locked && be4(b, 13) == group,
            }
        }),
{
    let b = spec_encode_keyboard_event(k);
    match k {
        KeyboardEvent::Key { time, key, state } => {
            assert(b.subrange(1, 5) =~= be_bytes_u32(time));
            assert(b.subrange(5, 9) =~= be_bytes_u32(key));
            lemma_be4_of_bytes(time, b, 1);
            lemma_be4_of_bytes(key, b, 5);
        },
        KeyboardEvent::Modifiers { depressed, latched, locked, group } => {
            assert(b.subrange(1, 5) =~= be_bytes_u32(depressed));
            assert(b.subrange(5, 9) =~= be_bytes_u32(latched));
            assert(b.subrange(9, 13) =~= be_bytes_u32(locked));
            assert(b.subrange(13, 17) =~= be_bytes_u32(group));
            lemma_be4_of_bytes(depressed, b, 1);
            lemma_be4_of_bytes(latched, b, 5);
            lemma_be4_of_bytes(locked, b, 9);
            lemma_be4_of_bytes(group, b, 13);
        },
    }
}

/// A keyboard event is read from a message whose byte 1 is its kind byte,
/// its fields following at the places where they are written, each
/// big-endian.
pub proof fn lemma_keyboard_event_read(m: Seq<u8>)
    ensures
        m.len() >= 11 && m[1] == 0 ==> spec_decode_keyboard_event(m) == Ok::<KeyboardEvent, crate::event::ProtocolErrorModel>(
            KeyboardEvent::Key { time: be4(m, 2) as u32, key: be4(m, 6) as u32, state: m[10] },
        ),
        m.len() >= 18 && m[1] == 1 ==> spec_decode_keyboard_event(m) == Ok::<KeyboardEvent, crate::event::ProtocolErrorModel>(
            KeyboardEvent::Modifiers {
                depressed: be4(m, 2) as u32,
                latched: be4(m, 6) as u32,
                locked: be4(m, 10) as u32,
                group: be4(m, 14) as u32,
            },
        ),
{
    if m.len() >= 11 {
        lemma_read_be4(m, 2);
        lemma_read_be4(m, 6);
    }
    if m.len() >= 18 {
        lemma_read_be4(m, 10);
        lemma_read_be4(m, 14);
    }
}

/// An event message: a pointer event is its own bytes; a keyboard event
/// follows the keyboard id 1; enter, leave, ping, pong and disconnect are
/// the single bytes 2 to 6.
pub proof fn lemma_event_message_layout(e: Event)
    ensures
        match e {
            Event::Pointer(p) => spec_encode_event(e) == spec_encode_pointer_event(p),
            Event::Keyboard(k) => spec_encode_event(e) == seq![1u8] + spec_encode_keyboard_event(k),
            Event::Enter => spec_encode_event(e) == seq![2u8],
            Event::Leave => spec_encode_event(e) == seq![3u8],
            Event::Ping => spec_encode_event(e) == seq![4u8],
            Event::Pong => spec_encode_event(e) == seq![5u8],
            Event::Disconnect => spec_encode_event(e) == seq![6u8],
        },
{
}

/// An event message is read by its first byte: 0 and 7 to 10 name pointer
/// events, 1 a keyboard event, 2 to 6 enter, leave, ping, pong and
/// disconnect; any other byte is refused.
pub proof fn lemma_event_message_read(m: Seq<u8>)
    requires
        m.len() >= 1,
    ensures
        (m[0] == 0 || 7 <= m[0] <= 10) ==> spec_decode_event(m) == match spec_decode_pointer_event(m) {
            Ok(p) => Ok(Event::Pointer(p)),
            Err(x) => Err(x),
        },
        m[0] == 1 ==> spec_decode_event(m) == match spec_decode_keyboard_event(m) {
            Ok(k) => Ok(Event::Keyboard(k)),
            Err(x) => Err(x),
        },
        m[0] == 2 ==> spec_decode_event(m) == Ok::<Event, crate::event::ProtocolErrorModel>(Event::Enter),
        m[0] == 3 ==> spec_decode_event(m) == Ok::<Event, crate::event::ProtocolErrorModel>(Event::Leave),
        m[0] == 4 ==> spec_decode_event(m) == Ok::<Event, crate::event::ProtocolErrorModel>(Event::Ping),
        m[0] == 5 ==> spec_decode_event(m) == Ok::<Event, crate::event::ProtocolErrorModel>(Event::Pong),
        m[0] == 6 ==> spec_decode_event(m) == Ok::<Event, crate::event::ProtocolErrorModel>(Event::Disconnect),
        m[0] > 10 ==> spec_decode_event(m) == Err::<Event, crate::event::ProtocolErrorModel>(
            crate::event::ProtocolErrorModel::InvalidEventId(m[0]),
        ),
{
}

} // verus!
