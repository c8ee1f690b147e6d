//! Pointer events and whole event messages on the wire. A message starts
//! with one byte for its event type, then the fields in big-endian byte
//! order. A pointer event's type byte names its kind (motion, button, ...),
//! so a mouse motion takes 21 bytes: the type byte, the `u32` time and the
//! `f64` deltas. A keyboard event's type byte is followed by a byte for its
//! kind (key or modifiers).
//!
//! Why every pointer kind has a type byte of its own: a message is read from
//! its first byte on, and may be followed by further bytes, so its first
//! byte has to say how to read the rest; the length cannot. A motion that
//! takes 21 bytes has no room for a second kind byte after the pointer id,
//! so motion keeps the pointer id (0) and the other pointer kinds take the
//! ids after those of the other event types (7 to 10), each followed by its
//! fields as before.
use vstd::prelude::*;

use crate::event::{
    be_bytes_u32, be_u32, decode_keyboard_event, decode_u32, decode_u8, decoded, encode_keyboard_event, missing,
    missing_data_at, no_type_id, push_be_u32, read_u32, read_u8, spec_decode_keyboard_event, spec_encode_keyboard_event, lemma_be_u32_round_trip,
    lemma_keyboard_round_trip, KeyboardEvent, ProtocolError, ProtocolErrorModel,
};

verus! {

/// A pointer event. The deltas of motion and the value of a smooth scroll
/// are IEEE 754 doubles, held by their bit patterns (`f64::to_bits`), which
/// is how they travel: `f64::to_be_bytes` writes the big-endian bytes of
/// the bit pattern.
#[derive(Clone, Copy, Debug, PartialEq, Eq, Structural)]
pub enum PointerEvent {
    Motion { time: u32, dx_bits: u64, dy_bits: u64 },
    Button { time: u32, button: u32, state: u32 },
    Axis { time: u32, axis: u8, value_bits: u64 },
    AxisDiscrete120 { axis: u8, value: i32 },
    Frame,
}

/// The kind of a pointer event, as its wire id says.
#[derive(Clone, Copy, Debug, PartialEq, Eq, Structural)]
pub enum PointerEventType {
    Motion,
    Button,
    Axis,
    AxisDiscrete120,
    Frame,
}

/// An event between two instances.
#[derive(Clone, Copy, Debug, PartialEq, Eq, Structural)]
pub enum Event {
    Pointer(PointerEvent),
    Keyboard(KeyboardEvent),
    /// the pointer entered the receiving instance
    Enter,
    /// the pointer left the receiving instance
    Leave,
    Ping,
    Pong,
    Disconnect,
}

/// The kind of an event, as its wire id says.
#[derive(Clone, Copy, Debug, PartialEq, Eq, Structural)]
pub enum EventType {
    Pointer,
    Keyboard,
    Enter,
    Leave,
    Ping,
    Pong,
    Disconnect,
}

impl PointerEventType {
    /// The event type byte of a pointer event of this kind: motion 0 (the
    /// id of pointer events), then, after the ids of the other event types,
    /// button 7, axis 8, discrete axis 9, frame 10.
    pub open spec fn spec_id(self) -> u8 {
        match self {
            PointerEventType::Motion => 0,
            PointerEventType::Button => 7,
            PointerEventType::Axis => 8,
            PointerEventType::AxisDiscrete120 => 9,
            PointerEventType::Frame => 10,
        }
    }

    pub fn id(&self) -> (r: u8)
        ensures
            r == self.spec_id(),
    {
        match self {
            PointerEventType::Motion => 0,
            PointerEventType::Button => 7,
            PointerEventType::Axis => 8,
            PointerEventType::AxisDiscrete120 => 9,
            PointerEventType::Frame => 10,
        }
    }
}

/// The pointer event type that a wire id names.
pub open spec fn pointer_type_of(id: u8) -> Option<PointerEventType> {
    if id == 0 {
        Some(PointerEventType::Motion)
    } else if id == 7 {
        Some(PointerEventType::Button)
    } else if id == 8 {
        Some(PointerEventType::Axis)
    } else if id == 9 {
        Some(PointerEventType::AxisDiscrete120)
    } else if id == 10 {
        Some(PointerEventType::Frame)
    } else {
        None
    }
}

/// Reads the pointer event type that a wire id names.
pub fn pointer_event_type(id: u8) -> (r: Result<PointerEventType, ProtocolError>)
    ensures
        decoded(r) == match pointer_type_of(id) {
            Some(t) => Ok(t),
            None => Err(ProtocolErrorModel::InvalidPointerEventId(id)),
        },
{
    if id == 0 {
        Ok(PointerEventType::Motion)
    } else if id == 7 {
        Ok(PointerEventType::Button)
    } else if id == 8 {
        Ok(PointerEventType::Axis)
    } else if id == 9 {
        Ok(PointerEventType::AxisDiscrete120)
    } else if id == 10 {
        Ok(PointerEventType::Frame)
    } else {
        Err(ProtocolError::InvalidPointerEventId(id))
    }
}

impl PointerEvent {
    pub open spec fn spec_event_type(self) -> PointerEventType {
        match self {
            PointerEvent::Motion { .. } => PointerEventType::Motion,
            PointerEvent::Button { .. } => PointerEventType::Button,
            PointerEvent::Axis { .. } => PointerEventType::Axis,
            PointerEvent::AxisDiscrete120 { .. } => PointerEventType::AxisDiscrete120,
            PointerEvent::Frame => PointerEventType::Frame,
        }
    }

    /// The kind of this event.
    pub fn event_type(&self) -> (r: PointerEventType)
        ensures
            r == self.spec_event_type(),
    {
        match self {
            PointerEvent::Motion { .. } => PointerEventType::Motion,
            PointerEvent::Button { .. } => PointerEventType::Button,
            PointerEvent::Axis { .. } => PointerEventType::Axis,
            PointerEvent::AxisDiscrete120 { .. } => PointerEventType::AxisDiscrete120,
            PointerEvent::Frame => PointerEventType::Frame,
        }
    }
}

impl EventType {
    /// The wire id: pointer 0 (that of motion; the other pointer kinds have
    /// their own, `PointerEventType::spec_id`), keyboard 1, enter 2, leave 3,
    /// ping 4, pong 5, disconnect 6.
    pub open spec fn spec_id(self) -> u8 {
        match self {
            EventType::Pointer => 0,
            EventType::Keyboard => 1,
            EventType::Enter => 2,
            EventType::Leave => 3,
            EventType::Ping => 4,
            EventType::Pong => 5,
            EventType::Disconnect => 6,
        }
    }

    pub fn id(&self) -> (r: u8)
        ensures
            r == self.spec_id(),
    {
        match self {
            EventType::Pointer => 0,
            EventType::Keyboard => 1,
            EventType::Enter => 2,
            EventType::Leave => 3,
            EventType::Ping => 4,
            EventType::Pong => 5,
            EventType::Disconnect => 6,
        }
    }
}

/// The event type that a wire id names.
pub open spec fn event_type_of(id: u8) -> Option<EventType> {
    if pointer_type_of(id) is Some {
        Some(EventType::Pointer)
    } else if id == 1 {
        Some(EventType::Keyboard)
    } else if id == 2 {
        Some(EventType::Enter)
    } else if id == 3 {
        Some(EventType::Leave)
    } else if id == 4 {
        Some(EventType::Ping)
    } else if id == 5 {
        Some(EventType::Pong)
    } else if id == 6 {
        Some(EventType::Disconnect)
    } else {
        None
    }
}

impl Event {
    pub open spec fn spec_event_type(self) -> EventType {
        match self {
            Event::Pointer(_) => EventType::Pointer,
            Event::Keyboard(_) => EventType::Keyboard,
            Event::Enter => EventType::Enter,
            Event::Leave => EventType::Leave,
            Event::Ping => EventType::Ping,
            Event::Pong => EventType::Pong,
            Event::Disconnect => EventType::Disconnect,
        }
    }

    /// The kind of this event.
    pub fn event_type(&self) -> (r: EventType)
        ensures
            r == self.spec_event_type(),
    {
        match self {
            Event::Pointer(_) => EventType::Pointer,
            Event::Keyboard(_) => EventType::Keyboard,
            Event::Enter => EventType::Enter,
            Event::Leave => EventType::Leave,
            Event::Ping => EventType::Ping,
            Event::Pong => EventType::Pong,
            Event::Disconnect => EventType::Disconnect,
        }
    }
}

/// The big-endian value of eight bytes.
pub open spec fn be_u64(b: Seq<u8>) -> u64 {
    (be_u32(b.subrange(0, 4)) as int * 0x1_0000_0000 + be_u32(b.subrange(4, 8)) as int) as u64
}

/// The eight big-endian bytes of `x`.
pub open spec fn be_bytes_u64(x: u64) -> Seq<u8> {
    be_bytes_u32((x / 0x1_0000_0000) as u32) + be_bytes_u32((x % 0x1_0000_0000) as u32)
}

/// The big-endian `u64` at `lo` of the message `m`.
pub open spec fn read_u64(m: Seq<u8>, lo: int) -> Result<u64, ProtocolErrorModel> {
    if lo + 8 <= m.len() {
        Ok(be_u64(m.subrange(lo, lo + 8)))
    } else {
        Err(missing(lo, lo + 8))
    }
}

/// Eight big-endian bytes read back give the value written.
pub proof fn lemma_be_u64_round_trip(x: u64)
    ensures
        be_u64(be_bytes_u64(x)) == x,
{
    let hi = (x / 0x1_0000_0000) as u32;
    let lo = (x % 0x1_0000_0000) as u32;
    lemma_be_u32_round_trip(hi);
    lemma_be_u32_round_trip(lo);
    let b = be_bytes_u64(x);
    assert(b.subrange(0, 4) =~= be_bytes_u32(hi));
    assert(b.subrange(4, 8) =~= be_bytes_u32(lo));
}

/// Reads the big-endian `u64` at `data[lo..lo + 8]`.
fn decode_u64(data: &[u8], lo: usize) -> (r: Result<u64, ProtocolError>)
    requires
        lo + 8 <= usize::MAX,
    ensures
        decoded(r) == read_u64(data@, lo as int),
{
    if data.len() < lo + 8 {
        return Err(missing_data_at(lo, lo + 8));
    }
    let hi = match decode_u32(data, lo, lo + 4) {
        Ok(v) => v,
        Err(e) => return Err(e),
    };
    let low = match decode_u32(data, lo + 4, lo + 8) {
        Ok(v) => v,
        Err(e) => return Err(e),
    };
    proof {
        let m = data@.subrange(lo as int, lo + 8);
        assert(m.subrange(0, 4) =~= data@.subrange(lo as int, lo + 4));
        assert(m.subrange(4, 8) =~= data@.subrange(lo + 4, lo + 8));
    }
    Ok((hi as u64) * 0x1_0000_0000 + (low as u64))
}

fn push_be_u64(out: &mut Vec<u8>, x: u64)
    ensures
        final(out)@ == old(out)@ + be_bytes_u64(x),
{
    push_be_u32(out, (x / 0x1_0000_0000) as u32);
    push_be_u32(out, (x % 0x1_0000_0000) as u32);
    assert(final(out)@ =~= old(out)@ + be_bytes_u64(x));
}

/// The bytes of a pointer event: its type id, then its fields.
pub open spec fn spec_encode_pointer_event(e: PointerEvent) -> Seq<u8> {
    seq![e.spec_event_type().spec_id()] + match e {
        PointerEvent::Motion { time, dx_bits, dy_bits } => be_bytes_u32(time) + be_bytes_u64(dx_bits) + be_bytes_u64(
            dy_bits,
        ),
        PointerEvent::Button { time, button, state } => be_bytes_u32(time) + be_bytes_u32(button) + be_bytes_u32(
            state,
        ),
        PointerEvent::Axis { time, axis, value_bits } => be_bytes_u32(time) + seq![axis] + be_bytes_u64(value_bits),
        PointerEvent::AxisDiscrete120 { axis, value } => seq![axis] + be_bytes_u32(value as u32),
        PointerEvent::Frame => Seq::empty(),
    }
}

/// Writes a pointer event: its type id, then its fields in big-endian order.
pub fn encode_pointer_event(event: &PointerEvent) -> (r: Vec<u8>)
    ensures
        r@ == spec_encode_pointer_event(*event),
{
    let mut out: Vec<u8> = Vec::new();
    out.push(event.event_type().id());
    match event {
        PointerEvent::Motion { time, dx_bits, dy_bits } => {
            push_be_u32(&mut out, *time);
            push_be_u64(&mut out, *dx_bits);
            push_be_u64(&mut out, *dy_bits);
        },
        PointerEvent::Button { time, button, state } => {
            push_be_u32(&mut out, *time);
            push_be_u32(&mut out, *button);
            push_be_u32(&mut out, *state);
        },
        PointerEvent::Axis { time, axis, value_bits } => {
            push_be_u32(&mut out, *time);
            out.push(*axis);
            push_be_u64(&mut out, *value_bits);
        },
        PointerEvent::AxisDiscrete120 { axis, value } => {
            out.push(*axis);
            push_be_u32(&mut out, *value as u32);
        },
        PointerEvent::Frame => {},
    }
    assert(out@ =~= spec_encode_pointer_event(*event));
    out
}

/// The bytes of an event message: a pointer event is its own bytes (its
/// type byte and its fields); a keyboard event follows the keyboard event
/// id; the other events are their id alone.
pub open spec fn spec_encode_event(e: Event) -> Seq<u8> {
    match e {
        Event::Pointer(p) => spec_encode_pointer_event(p),
        Event::Keyboard(k) => seq![e.spec_event_type().spec_id()] + spec_encode_keyboard_event(k),
        _ => seq![e.spec_event_type().spec_id()],
    }
}

fn append(out: &mut Vec<u8>, bytes: &Vec<u8>)
    ensures
        final(out)@ == old(out)@ + bytes@,
{
    let mut i: usize = 0;
    while i < bytes.len()
        invariant
            0 <= i <= bytes@.len(),
            out@ == old(out)@ + bytes@.take(i as int),
        decreases bytes.len() - i,
    {
        out.push(bytes[i]);
        i += 1;
        assert(out@ =~= old(out)@ + bytes@.take(i as int));
    }
    assert(bytes@.take(bytes.len() as int) =~= bytes@);
}

/// Writes an event message.
pub fn encode_event(event: &Event) -> (r: Vec<u8>)
    ensures
        r@ == spec_encode_event(*event),
        event matches Event::Pointer(PointerEvent::Motion { .. }) ==> r@.len() == 21,
{
    if let Event::Pointer(p) = event {
        return encode_pointer_event(p);
    }
    let mut out: Vec<u8> = Vec::new();
    out.push(event.event_type().id());
    if let Event::Keyboard(k) = event {
        let body = encode_keyboard_event(k);
        append(&mut out, &body);
    }
    assert(out@ =~= spec_encode_event(*event));
    out
}

/// What reading a pointer event from the whole message `m` gives: byte 0
/// is its type byte and the fields follow it; bytes after the fields are
/// not read. The first field that the message does not reach is reported.
pub open spec fn spec_decode_pointer_event(m: Seq<u8>) -> Result<PointerEvent, ProtocolErrorModel> {
    if m.len() < 1 {
        Err(ProtocolErrorModel::Data("0"@))
    } else {
        match pointer_type_of(m[0]) {
            None => Err(ProtocolErrorModel::InvalidPointerEventId(m[0])),
            Some(PointerEventType::Motion) => match read_u32(m, 1) {
                Err(e) => Err(e),
                Ok(time) => match read_u64(m, 5) {
                    Err(e) => Err(e),
                    Ok(dx_bits) => match read_u64(m, 13) {
                        Err(e) => Err(e),
                        Ok(dy_bits) => Ok(PointerEvent::Motion { time, dx_bits, dy_bits }),
                    },
                },
            },
            Some(PointerEventType::Button) => match read_u32(m, 1) {
                Err(e) => Err(e),
                Ok(time) => match read_u32(m, 5) {
                    Err(e) => Err(e),
                    Ok(button) => match read_u32(m, 9) {
                        Err(e) => Err(e),
                        Ok(state) => Ok(PointerEvent::Button { time, button, state }),
                    },
                },
            },
            Some(PointerEventType::Axis) => match read_u32(m, 1) {
                Err(e) => Err(e),
                Ok(time) => match read_u8(m, 5) {
                    Err(e) => Err(e),
                    Ok(axis) => match read_u64(m, 6) {
                        Err(e) => Err(e),
                        Ok(value_bits) => Ok(PointerEvent::Axis { time, axis, value_bits }),
                    },
                },
            },
            Some(PointerEventType::AxisDiscrete120) => match read_u8(m, 1) {
                Err(e) => Err(e),
                Ok(axis) => match read_u32(m, 2) {
                    Err(e) => Err(e),
                    Ok(value) => Ok(PointerEvent::AxisDiscrete120 { axis, value: value as i32 }),
                },
            },
            Some(PointerEventType::Frame) => Ok(PointerEvent::Frame),
        }
    }
}

/// Reads the pointer event of a whole message `data`, whose byte 0 is the
/// pointer event's type byte. An empty message, or one that ends within a
/// field, is missing data; an unknown type byte is refused.
pub fn decode_pointer_event(data: &[u8]) -> (r: Result<PointerEvent, ProtocolError>)
    ensures
        decoded(r) == spec_decode_pointer_event(data@),
{
    if data.len() < 1 {
        return Err(no_type_id());
    }
    let t = match pointer_event_type(data[0]) {
        Ok(t) => t,
        Err(e) => return Err(e),
    };
    match t {
        PointerEventType::Motion => {
            let time = match decode_u32(data, 1, 5) {
                Ok(v) => v,
                Err(e) => return Err(e),
            };
            let dx_bits = match decode_u64(data, 5) {
                Ok(v) => v,
                Err(e) => return Err(e),
            };
            let dy_bits = match decode_u64(data, 13) {
                Ok(v) => v,
                Err(e) => return Err(e),
            };
            Ok(PointerEvent::Motion { time, dx_bits, dy_bits })
        },
        PointerEventType::Button => {
            let time = match decode_u32(data, 1, 5) {
                Ok(v) => v,
                Err(e) => return Err(e),
            };
            let button = match decode_u32(data, 5, 9) {
                Ok(v) => v,
                Err(e) => return Err(e),
            };
            let state = match decode_u32(data, 9, 13) {
                Ok(v) => v,
                Err(e) => return Err(e),
            };
            Ok(PointerEvent::Button { time, button, state })
        },
        PointerEventType::Axis => {
            let time = match decode_u32(data, 1, 5) {
                Ok(v) => v,
                Err(e) => return Err(e),
            };
            let axis = match decode_u8(data, 5, 6) {
                Ok(v) => v,
                Err(e) => return Err(e),
            };
            let value_bits = match decode_u64(data, 6) {
                Ok(v) => v,
                Err(e) => return Err(e),
            };
            Ok(PointerEvent::Axis { time, axis, value_bits })
        },
        PointerEventType::AxisDiscrete120 => {
            let axis = match decode_u8(data, 1, 2) {
                Ok(v) => v,
                Err(e) => return Err(e),
            };
            let value = match decode_u32(data, 2, 6) {
                Ok(v) => v,
                Err(e) => return Err(e),
            };
            Ok(PointerEvent::AxisDiscrete120 { axis, value: value as i32 })
        },
        PointerEventType::Frame => Ok(PointerEvent::Frame),
    }
}

/// What reading the event message `m` gives: byte 0 is the event type; a
/// pointer event's fields follow it, and a keyboard event follows it.
pub open spec fn spec_decode_event(m: Seq<u8>) -> Result<Event, ProtocolErrorModel>
    recommends
        m.len() >= 1,
{
    match event_type_of(m[0]) {
        None => Err(ProtocolErrorModel::InvalidEventId(m[0])),
        Some(EventType::Pointer) => match spec_decode_pointer_event(m) {
            Ok(p) => Ok(Event::Pointer(p)),
            Err(e) => Err(e),
        },
        Some(EventType::Keyboard) => match spec_decode_keyboard_event(m) {
            Ok(k) => Ok(Event::Keyboard(k)),
            Err(e) => Err(e),
        },
        Some(EventType::Enter) => Ok(Event::Enter),
        Some(EventType::Leave) => Ok(Event::Leave),
        Some(EventType::Ping) => Ok(Event::Ping),
        Some(EventType::Pong) => Ok(Event::Pong),
        Some(EventType::Disconnect) => Ok(Event::Disconnect),
    }
}

/// Reads an event message. It holds at least its event id.
pub fn decode_event(data: &[u8]) -> (r: Result<Event, ProtocolError>)
    requires
        data@.len() >= 1,
    ensures
        decoded(r) == spec_decode_event(data@),
{
    let id = data[0];
    if id == 0 || id == 7 || id == 8 || id == 9 || id == 10 {
        match decode_pointer_event(data) {
            Ok(p) => Ok(Event::Pointer(p)),
            Err(e) => Err(e),
        }
    } else if id == 1 {
        match decode_keyboard_event(data) {
            Ok(k) => Ok(Event::Keyboard(k)),
            Err(e) => Err(e),
        }
    } else if id == 2 {
        Ok(Event::Enter)
    } else if id == 3 {
        Ok(Event::Leave)
    } else if id == 4 {
        Ok(Event::Ping)
    } else if id == 5 {
        Ok(Event::Pong)
    } else if id == 6 {
        Ok(Event::Disconnect)
    } else {
        Err(ProtocolError::InvalidEventId(id))
    }
}

#[verifier::rlimit(30)]
proof fn lemma_motion_round_trip(time: u32, dx_bits: u64, dy_bits: u64, rest: Seq<u8>)
    ensures
        ({
            let e = PointerEvent::Motion { time, dx_bits, dy_bits };
            spec_decode_pointer_event(spec_encode_pointer_event(e) + rest) == Ok::<
                PointerEvent,
                ProtocolErrorModel,
            >(e)
        }),
{
    let e = PointerEvent::Motion { time, dx_bits, dy_bits };
    let m = spec_encode_pointer_event(e) + rest;
    lemma_be_u32_round_trip(time);
    lemma_be_u64_round_trip(dx_bits);
    lemma_be_u64_round_trip(dy_bits);
    assert(spec_encode_pointer_event(e).len() == 21);
    assert(m[0] == 0);
    assert(m.subrange(1, 5) =~= be_bytes_u32(time));
    assert(m.subrange(5, 13) =~= be_bytes_u64(dx_bits));
    assert(m.subrange(13, 21) =~= be_bytes_u64(dy_bits));
}

proof fn lemma_button_round_trip(time: u32, button: u32, state: u32, rest: Seq<u8>)
    ensures
        ({
            let e = PointerEvent::Button { time, button, state };
            spec_decode_pointer_event(spec_encode_pointer_event(e) + rest) == Ok::<
                PointerEvent,
                ProtocolErrorModel,
            >(e)
        }),
{
    let e = PointerEvent::Button { time, button, state };
    let m = spec_encode_pointer_event(e) + rest;
    lemma_be_u32_round_trip(time);
    lemma_be_u32_round_trip(button);
    lemma_be_u32_round_trip(state);
    assert(m[0] == 7);
    assert(m.subrange(1, 5) =~= be_bytes_u32(time));
    assert(m.subrange(5, 9) =~= be_bytes_u32(button));
    assert(m.subrange(9, 13) =~= be_bytes_u32(state));
}

proof fn lemma_axis_round_trip(time: u32, axis: u8, value_bits: u64, rest: Seq<u8>)
    ensures
        ({
            let e = PointerEvent::Axis { time, axis, value_bits };
            spec_decode_pointer_event(spec_encode_pointer_event(e) + rest) == Ok::<
                PointerEvent,
                ProtocolErrorModel,
            >(e)
        }),
{
    let e = PointerEvent::Axis { time, axis, value_bits };
    let m = spec_encode_pointer_event(e) + rest;
    lemma_be_u32_round_trip(time);
    lemma_be_u64_round_trip(value_bits);
    assert(m[0] == 8);
    assert(m.subrange(1, 5) =~= be_bytes_u32(time));
    assert(m[5] == axis);
    assert(m.subrange(6, 14) =~= be_bytes_u64(value_bits));
}

proof fn lemma_discrete_round_trip(axis: u8, value: i32, rest: Seq<u8>)
    ensures
        ({
            let e = PointerEvent::AxisDiscrete120 { axis, value };
            spec_decode_pointer_event(spec_encode_pointer_event(e) + rest) == Ok::<
                PointerEvent,
                ProtocolErrorModel,
            >(e)
        }),
{
    let e = PointerEvent::AxisDiscrete120 { axis, value };
    let m = spec_encode_pointer_event(e) + rest;
    lemma_be_u32_round_trip(value as u32);
    assert(m[0] == 9);
    assert(m[1] == axis);
    assert(m.subrange(2, 6) =~= be_bytes_u32(value as u32));
    assert((value as u32) as i32 == value) by (bit_vector);
}

/// A pointer event written and read back, before any further bytes, is the
/// event written.
pub proof fn lemma_pointer_round_trip(event: PointerEvent, rest: Seq<u8>)
    ensures
        spec_decode_pointer_event(spec_encode_pointer_event(event) + rest) == Ok::<
            PointerEvent,
            ProtocolErrorModel,
        >(event),
{
    match event {
        PointerEvent::Motion { time, dx_bits, dy_bits } => lemma_motion_round_trip(time, dx_bits, dy_bits, rest),
        PointerEvent::Button { time, button, state } => lemma_button_round_trip(time, button, state, rest),
        PointerEvent::Axis { time, axis, value_bits } => lemma_axis_round_trip(time, axis, value_bits, rest),
        PointerEvent::AxisDiscrete120 { axis, value } => lemma_discrete_round_trip(axis, value, rest),
        PointerEvent::Frame => {
            let m = spec_encode_pointer_event(event) + rest;
            assert(m[0] == 10);
        },
    }
}

/// Any event written as a message and read back, before any further bytes,
/// is the event written.
pub proof fn lemma_event_round_trip(event: Event, rest: Seq<u8>)
    ensures
        spec_decode_event(spec_encode_event(event) + rest) == Ok::<Event, ProtocolErrorModel>(event),
{
    let m = spec_encode_event(event) + rest;
    let id = event.spec_event_type().spec_id();
    match event {
        Event::Pointer(p) => {
            lemma_pointer_round_trip(p, rest);
            assert(m =~= spec_encode_pointer_event(p) + rest);
            assert(m[0] == p.spec_event_type().spec_id());
        },
        Event::Keyboard(k) => {
            lemma_keyboard_round_trip(k, id, rest);
            assert(m =~= seq![id] + spec_encode_keyboard_event(k) + rest);
        },
        _ => {},
    }
}

} // verus!
