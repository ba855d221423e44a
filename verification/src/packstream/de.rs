use crate::errors::Error;
use crate::packstream::{entry_views, lemma_view, views, Packed, Value};
use vstd::prelude::*;
use vstd::slice::{slice_subrange, slice_to_vec};
use vstd::utf8::{decode_utf8, valid_utf8};

verus! {

/// How deep lists, dictionaries and structures may nest in what is read.
pub const MAX_DEPTH: usize = 32;

/// The number that the two bytes at `pos` hold, most significant first.
pub open spec fn uint16(bytes: Seq<u8>, pos: int) -> int {
    bytes[pos] * 0x100 + bytes[pos + 1]
}

/// The number that the four bytes at `pos` hold, most significant first.
pub open spec fn uint32(bytes: Seq<u8>, pos: int) -> int {
    uint16(bytes, pos) * 0x1_0000 + uint16(bytes, pos + 2)
}

/// The number that the eight bytes at `pos` hold, most significant first.
pub open spec fn uint64(bytes: Seq<u8>, pos: int) -> int {
    uint32(bytes, pos) * 0x1_0000_0000 + uint32(bytes, pos + 4)
}

/// The number below `modulus` read in two's complement.
pub open spec fn signed(u: int, modulus: int) -> int {
    if 2 * u >= modulus {
        u - modulus
    } else {
        u
    }
}

/// The size that the header at `pos` announces in the one, two or four bytes
/// that follow the marker `wide`, `wide + 1` or `wide + 2`, and where the
/// header ends.
pub open spec fn decode_wide_size(bytes: Seq<u8>, pos: int, wide: u8) -> Option<(int, int)> {
    if !(0 <= pos < bytes.len()) {
        None
    } else if bytes[pos] == wide && pos + 2 <= bytes.len() {
        Some((bytes[pos + 1] as int, pos + 2))
    } else if bytes[pos] == wide + 1 && pos + 3 <= bytes.len() {
        Some((uint16(bytes, pos + 1), pos + 3))
    } else if bytes[pos] == wide + 2 && pos + 5 <= bytes.len() {
        Some((uint32(bytes, pos + 1), pos + 5))
    } else {
        None
    }
}

/// The size that the header at `pos` announces, and where the header ends.
/// The marker is `tiny` plus a size below 16, or one of the three wide ones.
pub open spec fn decode_size(bytes: Seq<u8>, pos: int, tiny: u8, wide: u8) -> Option<(int, int)> {
    if 0 <= pos < bytes.len() && tiny <= bytes[pos] < tiny + 0x10 {
        Some((bytes[pos] - tiny, pos + 1))
    } else {
        decode_wide_size(bytes, pos, wide)
    }
}

/// The text that starts at `pos`, and where it ends.
pub open spec fn decode_text(bytes: Seq<u8>, pos: int) -> Option<(Seq<char>, int)> {
    match decode_size(bytes, pos, 0x80, 0xD0) {
        Some((size, start)) => if start + size <= bytes.len() && valid_utf8(
            bytes.subrange(start, start + size),
        ) {
            Some((decode_utf8(bytes.subrange(start, start + size)), start + size))
        } else {
            None
        },
        None => None,
    }
}

/// The value without parts that starts at `pos`, and where it ends: a null, a
/// boolean, an integer, a float or a byte array.
pub open spec fn decode_scalar(bytes: Seq<u8>, pos: int) -> Option<(Packed, int)> {
    if !(0 <= pos < bytes.len()) {
        None
    } else if bytes[pos] < 0x80 {
        Some((Packed::Integer(bytes[pos] as i64), pos + 1))
    } else if bytes[pos] >= 0xF0 {
        Some((Packed::Integer((bytes[pos] - 0x100) as i64), pos + 1))
    } else if bytes[pos] == 0xC0 {
        Some((Packed::Null, pos + 1))
    } else if bytes[pos] == 0xC2 {
        Some((Packed::Boolean(false), pos + 1))
    } else if bytes[pos] == 0xC3 {
        Some((Packed::Boolean(true), pos + 1))
    } else if bytes[pos] == 0xC1 && pos + 9 <= bytes.len() {
        Some((Packed::Float(uint64(bytes, pos + 1) as u64), pos + 9))
    } else if bytes[pos] == 0xC8 && pos + 2 <= bytes.len() {
        Some((Packed::Integer(signed(bytes[pos + 1] as int, 0x100) as i64), pos + 2))
    } else if bytes[pos] == 0xC9 && pos + 3 <= bytes.len() {
        Some((Packed::Integer(signed(uint16(bytes, pos + 1), 0x1_0000) as i64), pos + 3))
    } else if bytes[pos] == 0xCA && pos + 5 <= bytes.len() {
        Some((Packed::Integer(signed(uint32(bytes, pos + 1), 0x1_0000_0000) as i64), pos + 5))
    } else if bytes[pos] == 0xCB && pos + 9 <= bytes.len() {
        Some(
            (
                Packed::Integer(signed(uint64(bytes, pos + 1), 0x1_0000_0000_0000_0000) as i64),
                pos + 9,
            ),
        )
    } else if 0xCC <= bytes[pos] <= 0xCE {
        match decode_wide_size(bytes, pos, 0xCC) {
            Some((size, start)) => if start + size <= bytes.len() {
                Some((Packed::Bytes(bytes.subrange(start, start + size)), start + size))
            } else {
                None
            },
            None => None,
        }
    } else {
        None
    }
}

/// Whether `marker` opens a text.
pub open spec fn opens_text(marker: u8) -> bool {
    0x80 <= marker < 0x90 || 0xD0 <= marker <= 0xD2
}

/// Whether `marker` opens a list.
pub open spec fn opens_list(marker: u8) -> bool {
    0x90 <= marker < 0xA0 || 0xD4 <= marker <= 0xD6
}

/// Whether `marker` opens a dictionary.
pub open spec fn opens_dictionary(marker: u8) -> bool {
    0xA0 <= marker < 0xB0 || 0xD8 <= marker <= 0xDA
}

/// Whether `marker` opens a structure.
pub open spec fn opens_structure(marker: u8) -> bool {
    0xB0 <= marker < 0xC0
}

/// The value that starts at `pos`, and where it ends, if what stands there is
/// a well-formed value whose lists, dictionaries and structures nest at most
/// `depth` deep.
pub open spec fn decode_at(bytes: Seq<u8>, pos: int, depth: nat) -> Option<(Packed, int)>
    decreases depth, 0nat,
{
    if !(0 <= pos < bytes.len()) {
        None
    } else if opens_text(bytes[pos]) {
        match decode_text(bytes, pos) {
            Some((text, next)) => Some((Packed::Text(text), next)),
            None => None,
        }
    } else if opens_list(bytes[pos]) {
        match decode_size(bytes, pos, 0x90, 0xD4) {
            Some((size, start)) => if depth > 0 {
                match decode_items(bytes, start, size as nat, (depth - 1) as nat) {
                    Some((items, next)) => Some((Packed::List(items), next)),
                    None => None,
                }
            } else {
                None
            },
            None => None,
        }
    } else if opens_dictionary(bytes[pos]) {
        match decode_size(bytes, pos, 0xA0, 0xD8) {
            Some((size, start)) => if depth > 0 {
                match decode_entries(bytes, start, size as nat, (depth - 1) as nat) {
                    Some((entries, next)) => Some((Packed::Dictionary(entries), next)),
                    None => None,
                }
            } else {
                None
            },
            None => None,
        }
    } else if opens_structure(bytes[pos]) {
        if depth > 0 && pos + 2 <= bytes.len() {
            match decode_items(
                bytes,
                pos + 2,
                (bytes[pos] - 0xB0) as nat,
                (depth - 1) as nat,
            ) {
                Some((fields, next)) => Some((Packed::Structure(bytes[pos + 1], fields), next)),
                None => None,
            }
        } else {
            None
        }
    } else {
        decode_scalar(bytes, pos)
    }
}

/// The `count` values that start at `pos`, one after the other, and where the last one ends.
pub open spec fn decode_items(bytes: Seq<u8>, pos: int, count: nat, depth: nat) -> Option<
    (Seq<Packed>, int),
>
    decreases depth, count + 1,
{
    if count == 0 {
        Some((Seq::empty(), pos))
    } else {
        match decode_at(bytes, pos, depth) {
            Some((first, next)) => match decode_items(bytes, next, (count - 1) as nat, depth) {
                Some((rest, end)) => Some((seq![first] + rest, end)),
                None => None,
            },
            None => None,
        }
    }
}

/// The `count` entries that start at `pos`, each a text and a value, and where the last one ends.
pub open spec fn decode_entries(bytes: Seq<u8>, pos: int, count: nat, depth: nat) -> Option<
    (Seq<(Seq<char>, Packed)>, int),
>
    decreases depth, count + 1,
{
    if count == 0 {
        Some((Seq::empty(), pos))
    } else {
        match decode_text(bytes, pos) {
            Some((key, start)) => match decode_at(bytes, start, depth) {
                Some((value, next)) => match decode_entries(
                    bytes,
                    next,
                    (count - 1) as nat,
                    depth,
                ) {
                    Some((rest, end)) => Some((seq![(key, value)] + rest, end)),
                    None => None,
                },
                None => None,
            },
            None => None,
        }
    }
}

/// The value that `bytes` hold, if they hold exactly one.
pub open spec fn decode(bytes: Seq<u8>) -> Option<Packed> {
    match decode_at(bytes, 0, MAX_DEPTH as nat) {
        Some((value, next)) => if next == bytes.len() {
            Some(value)
        } else {
            None
        },
        None => None,
    }
}

/// `String::from_utf8` of std: the text that the bytes spell, if they are valid UTF-8.
#[verifier::external_body]
fn text_from_utf8(bytes: Vec<u8>) -> (text: Option<String>)
    ensures
        text is Some <==> valid_utf8(bytes@),
        text is Some ==> text->0@ == decode_utf8(bytes@),
{
    String::from_utf8(bytes).ok()
}

/// Reads the two bytes at `pos` as a number.
fn read_u16(bytes: &[u8], pos: usize) -> (v: u64)
    requires
        pos + 2 <= bytes.len(),
    ensures
        v == uint16(bytes@, pos as int),
        v < 0x1_0000,
{
    (bytes[pos] as u64) * 0x100 + (bytes[pos + 1] as u64)
}

/// Reads the four bytes at `pos` as a number.
fn read_u32(bytes: &[u8], pos: usize) -> (v: u64)
    requires
        pos + 4 <= bytes.len(),
    ensures
        v == uint32(bytes@, pos as int),
        v < 0x1_0000_0000,
{
    read_u16(bytes, pos) * 0x1_0000 + read_u16(bytes, pos + 2)
}

/// Reads the eight bytes at `pos` as a number.
fn read_u64(bytes: &[u8], pos: usize) -> (v: u64)
    requires
        pos + 8 <= bytes.len(),
    ensures
        v == uint64(bytes@, pos as int),
{
    read_u32(bytes, pos) * 0x1_0000_0000 + read_u32(bytes, pos + 4)
}

/// Reads the header at `pos` that follows a wide marker.
fn read_wide_size(bytes: &[u8], pos: usize, wide: u8) -> (header: Option<(usize, usize)>)
    requires
        wide <= 0xFD,
    ensures
        match header {
            Some((size, next)) => decode_wide_size(bytes@, pos as int, wide) == Some(
                (size as int, next as int),
            ) && pos < next <= bytes.len(),
            None => decode_wide_size(bytes@, pos as int, wide) is None,
        },
{
    if pos >= bytes.len() {
        return None;
    }
    let marker = bytes[pos];
    let rest = bytes.len() - pos;
    if marker == wide && rest >= 2 {
        Some((bytes[pos + 1] as usize, pos + 2))
    } else if marker == wide + 1 && rest >= 3 {
        Some((read_u16(bytes, pos + 1) as usize, pos + 3))
    } else if marker == wide + 2 && rest >= 5 {
        Some((read_u32(bytes, pos + 1) as usize, pos + 5))
    } else {
        None
    }
}

/// Reads the header at `pos`.
fn read_size(bytes: &[u8], pos: usize, tiny: u8, wide: u8) -> (header: Option<(usize, usize)>)
    requires
        wide <= 0xFD,
    ensures
        match header {
            Some((size, next)) => decode_size(bytes@, pos as int, tiny, wide) == Some(
                (size as int, next as int),
            ) && pos < next <= bytes.len(),
            None => decode_size(bytes@, pos as int, tiny, wide) is None,
        },
{
    if pos < bytes.len() && tiny <= bytes[pos] && bytes[pos] - tiny < 0x10 {
        Some(((bytes[pos] - tiny) as usize, pos + 1))
    } else {
        read_wide_size(bytes, pos, wide)
    }
}

/// Reads the text at `pos`.
fn read_text(bytes: &[u8], pos: usize) -> (text: Option<(String, usize)>)
    ensures
        match text {
            Some((text, next)) => decode_text(bytes@, pos as int) == Some((text@, next as int))
                && pos < next <= bytes.len(),
            None => decode_text(bytes@, pos as int) is None,
        },
{
    match read_size(bytes, pos, 0x80, 0xD0) {
        Some((size, start)) => {
            if size > bytes.len() - start {
                return None;
            }
            let raw = slice_to_vec(slice_subrange(bytes, start, start + size));
            match text_from_utf8(raw) {
                Some(text) => Some((text, start + size)),
                None => None,
            }
        },
        None => None,
    }
}

/// Reads the value without parts at `pos`.
fn read_scalar(bytes: &[u8], pos: usize) -> (value: Option<(Value, usize)>)
    ensures
        match value {
            Some((value, next)) => decode_scalar(bytes@, pos as int) == Some(
                (value@, next as int),
            ) && pos < next <= bytes.len(),
            None => decode_scalar(bytes@, pos as int) is None,
        },
{
    if pos >= bytes.len() {
        return None;
    }
    let marker = bytes[pos];
    let rest = bytes.len() - pos;
    if marker < 0x80 {
        Some((Value::Integer(marker as i64), pos + 1))
    } else if marker >= 0xF0 {
        Some((Value::Integer(marker as i64 - 0x100), pos + 1))
    } else if marker == 0xC0 {
        Some((Value::Null, pos + 1))
    } else if marker == 0xC2 {
        Some((Value::Boolean(false), pos + 1))
    } else if marker == 0xC3 {
        Some((Value::Boolean(true), pos + 1))
    } else if marker == 0xC1 && rest >= 9 {
        Some((Value::Float(read_u64(bytes, pos + 1)), pos + 9))
    } else if marker == 0xC8 && rest >= 2 {
        let u = bytes[pos + 1] as i64;
        let i = if u >= 0x80 {
            u - 0x100
        } else {
            u
        };
        Some((Value::Integer(i), pos + 2))
    } else if marker == 0xC9 && rest >= 3 {
        let u = read_u16(bytes, pos + 1) as i64;
        let i = if u >= 0x8000 {
            u - 0x1_0000
        } else {
            u
        };
        Some((Value::Integer(i), pos + 3))
    } else if marker == 0xCA && rest >= 5 {
        let u = read_u32(bytes, pos + 1) as i64;
        let i = if u >= 0x8000_0000 {
            u - 0x1_0000_0000
        } else {
            u
        };
        Some((Value::Integer(i), pos + 5))
    } else if marker == 0xCB && rest >= 9 {
        let u = read_u64(bytes, pos + 1);
        let i = if u >= 0x8000_0000_0000_0000 {
            (u - 0x8000_0000_0000_0000) as i64 - 0x4000_0000_0000_0000 - 0x4000_0000_0000_0000
        } else {
            u as i64
        };
        Some((Value::Integer(i), pos + 9))
    } else if 0xCC <= marker && marker <= 0xCE {
        match read_wide_size(bytes, pos, 0xCC) {
            Some((size, start)) => {
                if size > bytes.len() - start {
                    return None;
                }
                let raw = slice_to_vec(slice_subrange(bytes, start, start + size));
                Some((Value::Bytes(raw), start + size))
            },
            None => None,
        }
    } else {
        None
    }
}

/// Reads the value at `pos`, with nesting at most `depth` deep.
fn read_value(bytes: &[u8], pos: usize, depth: usize) -> (value: Option<(Value, usize)>)
    ensures
        match value {
            Some((value, next)) => decode_at(bytes@, pos as int, depth as nat) == Some(
                (value@, next as int),
            ) && pos < next <= bytes.len(),
            None => decode_at(bytes@, pos as int, depth as nat) is None,
        },
    decreases depth, 0nat,
{
    if pos >= bytes.len() {
        return None;
    }
    let marker = bytes[pos];
    if (0x80 <= marker && marker < 0x90) || (0xD0 <= marker && marker <= 0xD2) {
        match read_text(bytes, pos) {
            Some((text, next)) => Some((Value::Text(text), next)),
            None => None,
        }
    } else if (0x90 <= marker && marker < 0xA0) || (0xD4 <= marker && marker <= 0xD6) {
        match read_size(bytes, pos, 0x90, 0xD4) {
            Some((size, start)) => {
                if depth == 0 {
                    return None;
                }
                match read_items(bytes, start, size, depth - 1) {
                    Some((items, next)) => {
                        let value = Value::List(items);
                        proof {
                            lemma_view(&value);
                        }
                        Some((value, next))
                    },
                    None => None,
                }
            },
            None => None,
        }
    } else if (0xA0 <= marker && marker < 0xB0) || (0xD8 <= marker && marker <= 0xDA) {
        match read_size(bytes, pos, 0xA0, 0xD8) {
            Some((size, start)) => {
                if depth == 0 {
                    return None;
                }
                match read_entries(bytes, start, size, depth - 1) {
                    Some((entries, next)) => {
                        let value = Value::Dictionary(entries);
                        proof {
                            lemma_view(&value);
                        }
                        Some((value, next))
                    },
                    None => None,
                }
            },
            None => None,
        }
    } else if 0xB0 <= marker && marker < 0xC0 {
        if depth == 0 || bytes.len() - pos < 2 {
            return None;
        }
        match read_items(bytes, pos + 2, (marker - 0xB0) as usize, depth - 1) {
            Some((fields, next)) => {
                let value = Value::Structure(bytes[pos + 1], fields);
                proof {
                    lemma_view(&value);
                }
                Some((value, next))
            },
            None => None,
        }
    } else {
        read_scalar(bytes, pos)
    }
}

/// What reading `count - done` more values from `cur` makes of the values read so far.
spec fn items_then(bytes: Seq<u8>, read: Seq<Packed>, cur: int, left: nat, depth: nat) -> Option<
    (Seq<Packed>, int),
> {
    match decode_items(bytes, cur, left, depth) {
        Some((rest, end)) => Some((read + rest, end)),
        None => None,
    }
}

/// Reads the `count` values at `pos`.
fn read_items(bytes: &[u8], pos: usize, count: usize, depth: usize) -> (items: Option<
    (Vec<Value>, usize),
>)
    requires
        pos <= bytes.len(),
    ensures
        match items {
            Some((items, next)) => decode_items(bytes@, pos as int, count as nat, depth as nat)
                == Some((views(items@), next as int)) && pos <= next <= bytes.len(),
            None => decode_items(bytes@, pos as int, count as nat, depth as nat) is None,
        },
    decreases depth, count + 1,
{
    let mut items: Vec<Value> = Vec::new();
    let mut cur: usize = pos;
    let mut i: usize = 0;
    let ghost whole = decode_items(bytes@, pos as int, count as nat, depth as nat);
    proof {
        assert(views(items@) =~= Seq::<Packed>::empty());
        match whole {
            Some((all, end)) => {
                assert(views(items@) + all =~= all);
            },
            None => {},
        }
    }
    while i < count
        invariant
            i <= count,
            pos <= cur <= bytes.len(),
            whole == decode_items(bytes@, pos as int, count as nat, depth as nat),
            whole == items_then(bytes@, views(items@), cur as int, (count - i) as nat, depth as nat),
        decreases count - i,
    {
        let ghost read = views(items@);
        match read_value(bytes, cur, depth) {
            Some((value, next)) => {
                items.push(value);
                proof {
                    assert(views(items@) =~= read.push(value@));
                    match decode_items(bytes@, next as int, (count - i - 1) as nat, depth as nat) {
                        Some((rest, end)) => {
                            assert(read + (seq![value@] + rest) =~= views(items@) + rest);
                        },
                        None => {},
                    }
                }
                cur = next;
            },
            None => {
                return None;
            },
        }
        i += 1;
    }
    assert(views(items@) + Seq::<Packed>::empty() =~= views(items@));
    Some((items, cur))
}

/// What reading `left` more entries from `cur` makes of the entries read so far.
spec fn entries_then(
    bytes: Seq<u8>,
    read: Seq<(Seq<char>, Packed)>,
    cur: int,
    left: nat,
    depth: nat,
) -> Option<(Seq<(Seq<char>, Packed)>, int)> {
    match decode_entries(bytes, cur, left, depth) {
        Some((rest, end)) => Some((read + rest, end)),
        None => None,
    }
}

/// Reads the `count` entries at `pos`.
fn read_entries(bytes: &[u8], pos: usize, count: usize, depth: usize) -> (entries: Option<
    (Vec<(String, Value)>, usize),
>)
    requires
        pos <= bytes.len(),
    ensures
        match entries {
            Some((entries, next)) => decode_entries(
                bytes@,
                pos as int,
                count as nat,
                depth as nat,
            ) == Some((entry_views(entries@), next as int)) && pos <= next <= bytes.len(),
            None => decode_entries(bytes@, pos as int, count as nat, depth as nat) is None,
        },
    decreases depth, count + 1,
{
    let mut entries: Vec<(String, Value)> = Vec::new();
    let mut cur: usize = pos;
    let mut i: usize = 0;
    let ghost whole = decode_entries(bytes@, pos as int, count as nat, depth as nat);
    proof {
        assert(entry_views(entries@) =~= Seq::<(Seq<char>, Packed)>::empty());
        match whole {
            Some((all, end)) => {
                assert(entry_views(entries@) + all =~= all);
            },
            None => {},
        }
    }
    while i < count
        invariant
            i <= count,
            pos <= cur <= bytes.len(),
            whole == decode_entries(bytes@, pos as int, count as nat, depth as nat),
            whole == entries_then(
                bytes@,
                entry_views(entries@),
                cur as int,
                (count - i) as nat,
                depth as nat,
            ),
        decreases count - i,
    {
        let ghost read = entry_views(entries@);
        let (key, start) = match read_text(bytes, cur) {
            Some(found) => found,
            None => {
                return None;
            },
        };
        match read_value(bytes, start, depth) {
            Some((value, next)) => {
                let ghost entry = (key@, value@);
                entries.push((key, value));
                proof {
                    assert(entry_views(entries@) =~= read.push(entry));
                    match decode_entries(
                        bytes@,
                        next as int,
                        (count - i - 1) as nat,
                        depth as nat,
                    ) {
                        Some((rest, end)) => {
                            assert(read + (seq![entry] + rest) =~= entry_views(entries@) + rest);
                        },
                        None => {},
                    }
                }
                cur = next;
            },
            None => {
                return None;
            },
        }
        i += 1;
    }
    assert(entry_views(entries@) + Seq::<(Seq<char>, Packed)>::empty() =~= entry_views(entries@));
    Some((entries, cur))
}

impl Value {
    /// The value that `bytes` hold. They must hold exactly one well-formed
    /// value, nested at most [`MAX_DEPTH`] deep.
    pub fn decode(bytes: &[u8]) -> (value: Result<Value, Error>)
        ensures
            match value {
                Ok(value) => decode(bytes@) == Some(value@),
                Err(e) => e == Error::DeserializationError && decode(bytes@) is None,
            },
    {
        match read_value(bytes, 0, MAX_DEPTH) {
            Some((value, next)) => {
                if next == bytes.len() {
                    Ok(value)
                } else {
                    Err(Error::DeserializationError)
                }
            },
            None => Err(Error::DeserializationError),
        }
    }
}

} // verus!
