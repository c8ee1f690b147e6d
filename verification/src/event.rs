//! Keyboard events and their wire format: a one-byte event id, a one-byte
//! keyboard event type, and the fields in big-endian byte order.
use vstd::prelude::*;

use crate::text::{decimal_text, push_decimal, push_str};

verus! {

/// A keyboard event.
#[derive(Clone, Copy, Debug, PartialEq, Eq, Structural)]
pub enum KeyboardEvent {
    /// a key press (`state` 1) or release (`state` 0) of an evdev key
    Key { time: u32, key: u32, state: u8 },
    /// the modifier state changed
    Modifiers { depressed: u32, latched: u32, locked: u32, group: u32 },
}

/// The kind of a keyboard event, as its wire id says.
#[derive(Clone, Copy, Debug, PartialEq, Eq, Structural)]
pub enum KeyboardEventType {
    Key,
    Modifiers,
}

/// The wire id of the event kind that carries keyboard events.
pub const KEYBOARD_EVENT_ID: u8 = 1;

impl KeyboardEventType {
    /// The wire id: key 0, modifiers 1.
    pub open spec fn spec_id(self) -> u8 {
        match self {
            KeyboardEventType::Key => 0,
            KeyboardEventType::Modifiers => 1,
        }
    }

    pub fn id(&self) -> (r: u8)
        ensures
            r == self.spec_id(),
    {
        match self {
            KeyboardEventType::Key => 0,
            KeyboardEventType::Modifiers => 1,
        }
    }
}

impl KeyboardEvent {
    pub open spec fn spec_event_type(self) -> KeyboardEventType {
        match self {
            KeyboardEvent::Key { .. } => KeyboardEventType::Key,
            KeyboardEvent::Modifiers { .. } => KeyboardEventType::Modifiers,
        }
    }

    /// The kind of this event.
    pub fn event_type(&self) -> (r: KeyboardEventType)
        ensures
            r == self.spec_event_type(),
    {
        match self {
            KeyboardEvent::Key { .. } => KeyboardEventType::Key,
            KeyboardEvent::Modifiers { .. } => KeyboardEventType::Modifiers,
        }
    }
}

/// Why bytes do not decode to an event.
#[derive(Debug)]
pub enum ProtocolError {
    /// a field's bytes do not have the field's size
    MissingData,
    InvalidEventId(u8),
    InvalidPointerEventId(u8),
    InvalidKeyboardEventId(u8),
    /// no data at the given index range
    Data(String),
}

/// A `ProtocolError`, with the text of `Data` taken by its characters.
pub enum ProtocolErrorModel {
    MissingData,
    InvalidEventId(u8),
    InvalidPointerEventId(u8),
    InvalidKeyboardEventId(u8),
    Data(Seq<char>),
}

impl View for ProtocolError {
    type V = ProtocolErrorModel;

    open spec fn view(&self) -> ProtocolErrorModel {
        match self {
            ProtocolError::MissingData => ProtocolErrorModel::MissingData,
            ProtocolError::InvalidEventId(n) => ProtocolErrorModel::InvalidEventId(*n),
            ProtocolError::InvalidPointerEventId(n) => ProtocolErrorModel::InvalidPointerEventId(*n),
            ProtocolError::InvalidKeyboardEventId(n) => ProtocolErrorModel::InvalidKeyboardEventId(*n),
            ProtocolError::Data(s) => ProtocolErrorModel::Data(s@),
        }
    }
}

/// A decoding result, with its error taken by its model.
pub open spec fn decoded<T>(r: Result<T, ProtocolError>) -> Result<T, ProtocolErrorModel> {
    match r {
        Ok(v) => Ok(v),
        Err(e) => Err(e@),
    }
}

/// A string as `{:?}` writes it: quoted, with special characters escaped.
pub uninterp spec fn debug_text(s: Seq<char>) -> Seq<char>;

#[verifier::external_body]
/// `<str as Debug>::fmt`, through `format!`: the text is a function of `s`
/// alone, named `debug_text`; nothing more of it is stated.
fn debug_string(s: &str) -> (r: String)
    ensures
        r@ == debug_text(s@),
{
    format!("{:?}", s)
}

impl ProtocolError {
    /// The error's message.
    pub fn message(&self) -> (r: String)
        ensures
            r@ == match self {
                ProtocolError::MissingData => "could not convert slice to array"@,
                ProtocolError::InvalidEventId(n) => "invalid event id: `"@ + decimal_text(*n as nat) + "`"@,
                ProtocolError::InvalidPointerEventId(n) => "invalid pointer event type: `"@ + decimal_text(
                    *n as nat,
                ) + "`"@,
                ProtocolError::InvalidKeyboardEventId(n) => "invalid keyboard event type: `"@ + decimal_text(
                    *n as nat,
                ) + "`"@,
                ProtocolError::Data(s) => "expected data at idx `"@ + debug_text(s@) + "`"@,
            },
    {
        let mut r = String::new();
        let ghost empty = r@;
        match self {
            ProtocolError::MissingData => {
                push_str(&mut r, "could not convert slice to array");
                assert(r@ =~= "could not convert slice to array"@);
            },
            ProtocolError::InvalidEventId(n) => {
                push_str(&mut r, "invalid event id: `");
                push_decimal(&mut r, *n as u64);
                push_str(&mut r, "`");
            },
            ProtocolError::InvalidPointerEventId(n) => {
                push_str(&mut r, "invalid pointer event type: `");
                push_decimal(&mut r, *n as u64);
                push_str(&mut r, "`");
            },
            ProtocolError::InvalidKeyboardEventId(n) => {
                push_str(&mut r, "invalid keyboard event type: `");
                push_decimal(&mut r, *n as u64);
                push_str(&mut r, "`");
            },
            ProtocolError::Data(s) => {
                push_str(&mut r, "expected data at idx `");
                let quoted = debug_string(s.as_str());
                push_str(&mut r, quoted.as_str());
                push_str(&mut r, "`");
            },
        }
        r
    }
}

/// How a half-open index range is written: `lo..hi`.
pub open spec fn range_text(lo: nat, hi: nat) -> Seq<char> {
    decimal_text(lo) + ".."@ + decimal_text(hi)
}

fn range_string(lo: usize, hi: usize) -> (r: String)
    ensures
        r@ == range_text(lo as nat, hi as nat),
{
    let mut r = String::new();
    push_decimal(&mut r, lo as u64);
    push_str(&mut r, "..");
    push_decimal(&mut r, hi as u64);
    assert(r@ =~= range_text(lo as nat, hi as nat));
    r
}

/// The big-endian value of four bytes.
pub open spec fn be_u32(b: Seq<u8>) -> u32 {
    (b[0] as int * 0x100_0000 + b[1] as int * 0x1_0000 + b[2] as int * 0x100 + b[3] as int) as u32
}

/// The four big-endian bytes of `x`.
pub open spec fn be_bytes_u32(x: u32) -> Seq<u8> {
    seq![(x / 0x100_0000) as u8, ((x / 0x1_0000) % 0x100) as u8, ((x / 0x100) % 0x100) as u8, (x % 0x100) as u8]
}

/// What `decode_*` finds at `data[lo..hi]` for a field of `size` bytes:
/// `None` for no data there, `Some(false)` for data of another size.
pub open spec fn field_at(data: Seq<u8>, lo: int, hi: int, size: int) -> Option<bool> {
    if lo <= hi <= data.len() {
        Some(hi - lo == size)
    } else {
        None
    }
}

/// Reads the byte `data[lo..hi]`.
pub fn decode_u8(data: &[u8], lo: usize, hi: usize) -> (r: Result<u8, ProtocolError>)
    ensures
        match field_at(data@, lo as int, hi as int, 1) {
            None => r matches Err(ProtocolError::Data(s)) && s@ == range_text(lo as nat, hi as nat),
            Some(false) => r matches Err(ProtocolError::MissingData),
            Some(true) => r == Ok::<u8, ProtocolError>(data@[lo as int]),
        },
{
    if !(lo <= hi && hi <= data.len()) {
        return Err(ProtocolError::Data(range_string(lo, hi)));
    }
    if hi - lo != 1 {
        return Err(ProtocolError::MissingData);
    }
    Ok(data[lo])
}

/// Reads the big-endian `u32` at `data[lo..hi]`.
pub fn decode_u32(data: &[u8], lo: usize, hi: usize) -> (r: Result<u32, ProtocolError>)
    ensures
        match field_at(data@, lo as int, hi as int, 4) {
            None => r matches Err(ProtocolError::Data(s)) && s@ == range_text(lo as nat, hi as nat),
            Some(false) => r matches Err(ProtocolError::MissingData),
            Some(true) => r == Ok::<u32, ProtocolError>(be_u32(data@.subrange(lo as int, hi as int))),
        },
{
    if !(lo <= hi && hi <= data.len()) {
        return Err(ProtocolError::Data(range_string(lo, hi)));
    }
    if hi - lo != 4 {
        return Err(ProtocolError::MissingData);
    }
    let v = (data[lo] as u32) * 0x100_0000 + (data[lo + 1] as u32) * 0x1_0000 + (data[lo + 2] as u32) * 0x100
        + (data[lo + 3] as u32);
    Ok(v)
}

/// Reads the big-endian two's-complement `i32` at `data[lo..hi]`.
pub fn decode_i32(data: &[u8], lo: usize, hi: usize) -> (r: Result<i32, ProtocolError>)
    ensures
        match field_at(data@, lo as int, hi as int, 4) {
            None => r matches Err(ProtocolError::Data(s)) && s@ == range_text(lo as nat, hi as nat),
            Some(false) => r matches Err(ProtocolError::MissingData),
            Some(true) => r == Ok::<i32, ProtocolError>(be_u32(data@.subrange(lo as int, hi as int)) as i32),
        },
{
    match decode_u32(data, lo, hi) {
        Ok(v) => Ok(v as i32),
        Err(e) => Err(e),
    }
}

/// Appends the four big-endian bytes of `x`.
pub fn push_be_u32(out: &mut Vec<u8>, x: u32)
    ensures
        final(out)@ == old(out)@ + be_bytes_u32(x),
{
    out.push((x / 0x100_0000) as u8);
    out.push(((x / 0x1_0000) % 0x100) as u8);
    out.push(((x / 0x100) % 0x100) as u8);
    out.push((x % 0x100) as u8);
    assert(final(out)@ =~= old(out)@ + be_bytes_u32(x));
}

/// The bytes of a keyboard event: its type id, then its fields.
pub open spec fn spec_encode_keyboard_event(e: KeyboardEvent) -> Seq<u8> {
    match e {
        KeyboardEvent::Key { time, key, state } => seq![KeyboardEventType::Key.spec_id()] + be_bytes_u32(time)
            + be_bytes_u32(key) + seq![state],
        KeyboardEvent::Modifiers { depressed, latched, locked, group } => seq![
            KeyboardEventType::Modifiers.spec_id(),
        ] + be_bytes_u32(depressed) + be_bytes_u32(latched) + be_bytes_u32(locked) + be_bytes_u32(group),
    }
}

/// Writes a keyboard event: its type id, then its fields in big-endian order.
pub fn encode_keyboard_event(event: &KeyboardEvent) -> (r: Vec<u8>)
    ensures
        r@ == spec_encode_keyboard_event(*event),
{
    let mut out: Vec<u8> = Vec::new();
    out.push(event.event_type().id());
    match event {
        KeyboardEvent::Key { time, key, state } => {
            push_be_u32(&mut out, *time);
            push_be_u32(&mut out, *key);
            out.push(*state);
        },
        KeyboardEvent::Modifiers { depressed, latched, locked, group } => {
            push_be_u32(&mut out, *depressed);
            push_be_u32(&mut out, *latched);
            push_be_u32(&mut out, *locked);
            push_be_u32(&mut out, *group);
        },
    }
    assert(out@ =~= spec_encode_keyboard_event(*event));
    out
}

/// Writes a whole keyboard event message: the keyboard event id, then the event.
pub fn encode_keyboard_message(event: &KeyboardEvent) -> (r: Vec<u8>)
    ensures
        r@ == seq![KEYBOARD_EVENT_ID] + spec_encode_keyboard_event(*event),
{
    let mut out: Vec<u8> = Vec::new();
    out.push(KEYBOARD_EVENT_ID);
    let body = encode_keyboard_event(event);
    let mut i: usize = 0;
    while i < body.len()
        invariant
            0 <= i <= body@.len(),
            out@ == seq![KEYBOARD_EVENT_ID] + body@.take(i as int),
        decreases body.len() - i,
    {
        out.push(body[i]);
        i += 1;
        assert(out@ =~= seq![KEYBOARD_EVENT_ID] + body@.take(i as int));
    }
    assert(body@.take(body.len() as int) =~= body@);
    out
}

/// The error of a field at `lo..hi` that a message does not reach.
pub open spec fn missing(lo: int, hi: int) -> ProtocolErrorModel {
    ProtocolErrorModel::Data(range_text(lo as nat, hi as nat))
}

/// The byte at `lo` of the message `m`.
pub open spec fn read_u8(m: Seq<u8>, lo: int) -> Result<u8, ProtocolErrorModel> {
    if lo + 1 <= m.len() {
        Ok(m[lo])
    } else {
        Err(missing(lo, lo + 1))
    }
}

/// The big-endian `u32` at `lo` of the message `m`.
pub open spec fn read_u32(m: Seq<u8>, lo: int) -> Result<u32, ProtocolErrorModel> {
    if lo + 4 <= m.len() {
        Ok(be_u32(m.subrange(lo, lo + 4)))
    } else {
        Err(missing(lo, lo + 4))
    }
}

/// The keyboard event type that a wire id names.
pub open spec fn keyboard_type_of(id: u8) -> Option<KeyboardEventType> {
    if id == 0 {
        Some(KeyboardEventType::Key)
    } else if id == 1 {
        Some(KeyboardEventType::Modifiers)
    } else {
        None
    }
}

/// What reading a keyboard event from the whole message `m` gives: byte 1
/// is the type id and the fields follow it; bytes after the fields are not
/// read. The first field that the message does not reach is reported.
pub open spec fn spec_decode_keyboard_event(m: Seq<u8>) -> Result<KeyboardEvent, ProtocolErrorModel> {
    if m.len() < 2 {
        Err(ProtocolErrorModel::Data("0"@))
    } else {
        match keyboard_type_of(m[1]) {
            None => Err(ProtocolErrorModel::InvalidKeyboardEventId(m[1])),
            Some(KeyboardEventType::Key) => match read_u32(m, 2) {
                Err(e) => Err(e),
                Ok(time) => match read_u32(m, 6) {
                    Err(e) => Err(e),
                    Ok(key) => match read_u8(m, 10) {
                        Err(e) => Err(e),
                        Ok(state) => Ok(KeyboardEvent::Key { time, key, state }),
                    },
                },
            },
            Some(KeyboardEventType::Modifiers) => match read_u32(m, 2) {
                Err(e) => Err(e),
                Ok(depressed) => match read_u32(m, 6) {
                    Err(e) => Err(e),
                    Ok(latched) => match read_u32(m, 10) {
                        Err(e) => Err(e),
                        Ok(locked) => match read_u32(m, 14) {
                            Err(e) => Err(e),
                            Ok(group) => Ok(KeyboardEvent::Modifiers { depressed, latched, locked, group }),
                        },
                    },
                },
            },
        }
    }
}

/// Reads the keyboard event type that a wire id names.
pub fn keyboard_event_type(id: u8) -> (r: Result<KeyboardEventType, ProtocolError>)
    ensures
        decoded(r) == match keyboard_type_of(id) {
            Some(t) => Ok(t),
            None => Err(ProtocolErrorModel::InvalidKeyboardEventId(id)),
        },
{
    if id == 0 {
        Ok(KeyboardEventType::Key)
    } else if id == 1 {
        Ok(KeyboardEventType::Modifiers)
    } else {
        Err(ProtocolError::InvalidKeyboardEventId(id))
    }
}

/// The error for a field at `lo..hi` that a message does not reach.
pub fn missing_data_at(lo: usize, hi: usize) -> (r: ProtocolError)
    ensures
        r@ == missing(lo as int, hi as int),
{
    ProtocolError::Data(range_string(lo, hi))
}

/// The error for a message too short to hold a type id.
pub fn no_type_id() -> (r: ProtocolError)
    ensures
        r@ == ProtocolErrorModel::Data("0"@),
{
    let mut s = String::new();
    push_str(&mut s, "0");
    assert(s@ =~= "0"@);
    ProtocolError::Data(s)
}

/// Reads the keyboard event of a whole message `data` (byte 0 is the event
/// id, which is not looked at). A message of fewer than two bytes, or that
/// ends within a field, is missing data; an unknown type id is refused.
pub fn decode_keyboard_event(data: &[u8]) -> (r: Result<KeyboardEvent, ProtocolError>)
    ensures
        decoded(r) == spec_decode_keyboard_event(data@),
{
    if data.len() < 2 {
        return Err(no_type_id());
    }
    let t = match keyboard_event_type(data[1]) {
        Ok(t) => t,
        Err(e) => return Err(e),
    };
    match t {
        KeyboardEventType::Key => {
            let time = match decode_u32(data, 2, 6) {
                Ok(v) => v,
                Err(e) => return Err(e),
            };
            let key = match decode_u32(data, 6, 10) {
                Ok(v) => v,
                Err(e) => return Err(e),
            };
            let state = match decode_u8(data, 10, 11) {
                Ok(v) => v,
                Err(e) => return Err(e),
            };
            Ok(KeyboardEvent::Key { time, key, state })
        },
        KeyboardEventType::Modifiers => {
            let depressed = match decode_u32(data, 2, 6) {
                Ok(v) => v,
                Err(e) => return Err(e),
            };
            let latched = match decode_u32(data, 6, 10) {
                Ok(v) => v,
                Err(e) => return Err(e),
            };
            let locked = match decode_u32(data, 10, 14) {
                Ok(v) => v,
                Err(e) => return Err(e),
            };
            let group = match decode_u32(data, 14, 18) {
                Ok(v) => v,
                Err(e) => return Err(e),
            };
            Ok(KeyboardEvent::Modifiers { depressed, latched, locked, group })
        },
    }
}

/// Four big-endian bytes read back give the value written.
pub proof fn lemma_be_u32_round_trip(x: u32)
    ensures
        be_u32(be_bytes_u32(x)) == x,
{
    let b = be_bytes_u32(x);
    assert(b[0] as int * 0x100_0000 + b[1] as int * 0x1_0000 + b[2] as int * 0x100 + b[3] as int == x) by (
    nonlinear_arith)
        requires
            b[0] == (x / 0x100_0000) as u8,
            b[1] == ((x / 0x1_0000) % 0x100) as u8,
            b[2] == ((x / 0x100) % 0x100) as u8,
            b[3] == (x % 0x100) as u8,
            x < 0x1_0000_0000,
    ;
}

/// A keyboard event written and read back, behind any event id and before
/// any further bytes, is the event written.
pub proof fn lemma_keyboard_round_trip(event: KeyboardEvent, id: u8, rest: Seq<u8>)
    ensures
        spec_decode_keyboard_event(seq![id] + spec_encode_keyboard_event(event) + rest) == Ok::<
            KeyboardEvent,
            ProtocolErrorModel,
        >(event),
{
    let m = seq![id] + spec_encode_keyboard_event(event) + rest;
    match event {
        KeyboardEvent::Key { time, key, state } => {
            lemma_be_u32_round_trip(time);
            lemma_be_u32_round_trip(key);
            assert(m.subrange(2, 6) =~= be_bytes_u32(time));
            assert(m.subrange(6, 10) =~= be_bytes_u32(key));
            assert(m[10] == state);
        },
        KeyboardEvent::Modifiers { depressed, latched, locked, group } => {
            lemma_be_u32_round_trip(depressed);
            lemma_be_u32_round_trip(latched);
            lemma_be_u32_round_trip(locked);
            lemma_be_u32_round_trip(group);
            assert(m.subrange(2, 6) =~= be_bytes_u32(depressed));
            assert(m.subrange(6, 10) =~= be_bytes_u32(latched));
            assert(m.subrange(10, 14) =~= be_bytes_u32(locked));
            assert(m.subrange(14, 18) =~= be_bytes_u32(group));
        },
    }
}

} // verus!
