use crate::errors::Error;
use crate::packstream::{entry_views, lemma_view, views, Packed, Value};
use vstd::prelude::*;
use vstd::utf8::encode_utf8;

verus! {

/// The largest size that a header can carry.
pub const MAX_SIZE: usize = 0xFFFF_FFFF;

/// The most fields a structure can have.
pub const MAX_FIELDS: usize = 15;

/// The two bytes of `v`, most significant first, in two's complement.
pub open spec fn be16(v: int) -> Seq<u8> {
    seq![(v / 0x100 % 0x100) as u8, (v % 0x100) as u8]
}

/// The four bytes of `v`, most significant first, in two's complement.
pub open spec fn be32(v: int) -> Seq<u8> {
    be16(v / 0x1_0000) + be16(v % 0x1_0000)
}

/// The eight bytes of `v`, most significant first, in two's complement.
pub open spec fn be64(v: int) -> Seq<u8> {
    be32(v / 0x1_0000_0000) + be32(v % 0x1_0000_0000)
}

/// The header of a value of `n` parts. Sizes below 16 are folded into the
/// marker `tiny`; larger ones follow the marker `wide`, `wide + 1` or
/// `wide + 2` in one, two or four bytes.
pub open spec fn size_header(tiny: u8, wide: u8, n: int) -> Seq<u8> {
    if n < 0x10 {
        seq![(tiny + n) as u8]
    } else if n < 0x100 {
        seq![wide, n as u8]
    } else if n < 0x1_0000 {
        seq![(wide + 1) as u8] + be16(n)
    } else {
        seq![(wide + 2) as u8] + be32(n)
    }
}

/// An integer in the shortest form that holds it.
pub open spec fn encode_integer(i: int) -> Seq<u8> {
    if -0x10 <= i < 0x80 {
        seq![(i % 0x100) as u8]
    } else if -0x80 <= i < 0x80 {
        seq![0xC8u8, (i % 0x100) as u8]
    } else if -0x8000 <= i < 0x8000 {
        seq![0xC9u8] + be16(i)
    } else if -0x8000_0000 <= i < 0x8000_0000 {
        seq![0xCAu8] + be32(i)
    } else {
        seq![0xCBu8] + be64(i)
    }
}

/// A text: the size of its UTF-8 form, then that form.
pub open spec fn encode_text(text: Seq<char>) -> Seq<u8> {
    size_header(0x80, 0xD0, encode_utf8(text).len() as int) + encode_utf8(text)
}

/// The bytes that stand for `value` on the wire.
pub open spec fn encode(value: Packed) -> Seq<u8>
    decreases value,
{
    match value {
        Packed::Null => seq![0xC0u8],
        Packed::Boolean(b) => if b {
            seq![0xC3u8]
        } else {
            seq![0xC2u8]
        },
        Packed::Integer(i) => encode_integer(i as int),
        Packed::Float(bits) => seq![0xC1u8] + be64(bits as int),
        Packed::Bytes(bytes) => if bytes.len() < 0x100 {
            seq![0xCCu8, bytes.len() as u8] + bytes
        } else if bytes.len() < 0x1_0000 {
            seq![0xCDu8] + be16(bytes.len() as int) + bytes
        } else {
            seq![0xCEu8] + be32(bytes.len() as int) + bytes
        },
        Packed::Text(text) => encode_text(text),
        Packed::List(items) => size_header(0x90, 0xD4, items.len() as int) + encode_items(items),
        Packed::Dictionary(entries) => size_header(0xA0, 0xD8, entries.len() as int)
            + encode_entries(entries),
        Packed::Structure(tag, fields) => seq![(0xB0 + fields.len()) as u8, tag] + encode_items(
            fields,
        ),
    }
}

/// The values of `items`, one after the other.
pub open spec fn encode_items(items: Seq<Packed>) -> Seq<u8>
    decreases items,
{
    if items.len() == 0 {
        Seq::empty()
    } else {
        encode_items(items.drop_last()) + encode(items.last())
    }
}

/// The entries of a dictionary, one after the other, each as its key and its value.
pub open spec fn encode_entries(entries: Seq<(Seq<char>, Packed)>) -> Seq<u8>
    decreases entries,
{
    if entries.len() == 0 {
        Seq::empty()
    } else {
        encode_entries(entries.drop_last()) + encode_text(entries.last().0) + encode(
            entries.last().1,
        )
    }
}

/// Whether `value` can be written: every size fits a header.
pub open spec fn encodable(value: Packed) -> bool
    decreases value,
{
    match value {
        Packed::Bytes(bytes) => bytes.len() <= MAX_SIZE,
        Packed::Text(text) => encode_utf8(text).len() <= MAX_SIZE,
        Packed::List(items) => items.len() <= MAX_SIZE && forall|i: int|
            0 <= i < items.len() ==> encodable(#[trigger] items[i]),
        Packed::Dictionary(entries) => entries.len() <= MAX_SIZE && forall|i: int|
            0 <= i < entries.len() ==> encode_utf8((#[trigger] entries[i]).0).len() <= MAX_SIZE
                && encodable(entries[i].1),
        Packed::Structure(_, fields) => fields.len() <= MAX_FIELDS && forall|i: int|
            0 <= i < fields.len() ==> encodable(#[trigger] fields[i]),
        _ => true,
    }
}

/// Appends the two bytes of `v`.
fn put_be16(out: &mut Vec<u8>, v: u64)
    requires
        v < 0x1_0000,
    ensures
        final(out)@ == old(out)@ + be16(v as int),
{
    out.push((v / 0x100) as u8);
    out.push((v % 0x100) as u8);
    assert(out@ =~= old(out)@ + be16(v as int));
}

/// Appends the four bytes of `v`.
fn put_be32(out: &mut Vec<u8>, v: u64)
    requires
        v < 0x1_0000_0000,
    ensures
        final(out)@ == old(out)@ + be32(v as int),
{
    put_be16(out, v / 0x1_0000);
    put_be16(out, v % 0x1_0000);
    assert(out@ =~= old(out)@ + be32(v as int));
}

/// Appends the eight bytes of `v`.
fn put_be64(out: &mut Vec<u8>, v: u64)
    ensures
        final(out)@ == old(out)@ + be64(v as int),
{
    put_be32(out, v / 0x1_0000_0000);
    put_be32(out, v % 0x1_0000_0000);
    assert(out@ =~= old(out)@ + be64(v as int));
}

/// Appends the header of a value of `n` parts.
fn put_size(out: &mut Vec<u8>, tiny: u8, wide: u8, n: usize)
    requires
        n <= MAX_SIZE,
        tiny <= 0xF0,
        wide <= 0xFD,
    ensures
        final(out)@ == old(out)@ + size_header(tiny, wide, n as int),
{
    if n < 0x10 {
        out.push(tiny + n as u8);
    } else if n < 0x100 {
        out.push(wide);
        out.push(n as u8);
    } else if n < 0x1_0000 {
        out.push(wide + 1);
        put_be16(out, n as u64);
    } else {
        out.push(wide + 2);
        put_be32(out, n as u64);
    }
    assert(out@ =~= old(out)@ + size_header(tiny, wide, n as int));
}

/// The bit pattern of `i` in two's complement, read as an unsigned number.
fn to_unsigned(i: i64) -> (u: u64)
    ensures
        u == if i >= 0 {
            i as int
        } else {
            i + 0x1_0000_0000_0000_0000
        },
{
    if i >= 0 {
        i as u64
    } else {
        ((i + i64::MAX + 1) as u64) + 0x8000_0000_0000_0000
    }
}

/// Numbers that differ by a multiple of 2^16 have the same two low bytes.
proof fn lemma_be16_congruent(a: int, b: int)
    requires
        (a - b) % 0x1_0000 == 0,
    ensures
        be16(a) == be16(b),
{
    let k = (a - b) / 0x1_0000;
    assert(a == b + k * 0x1_0000);
    assert(a % 0x100 == b % 0x100);
    assert(a / 0x100 == b / 0x100 + k * 0x100);
    assert(a / 0x100 % 0x100 == b / 0x100 % 0x100);
}

/// Numbers that differ by a multiple of 2^32 have the same four low bytes.
proof fn lemma_be32_congruent(a: int, b: int)
    requires
        (a - b) % 0x1_0000_0000 == 0,
    ensures
        be32(a) == be32(b),
{
    let k = (a - b) / 0x1_0000_0000;
    assert(a == b + k * 0x1_0000_0000);
    assert(a % 0x1_0000 == b % 0x1_0000);
    assert(a / 0x1_0000 == b / 0x1_0000 + k * 0x1_0000);
    lemma_be16_congruent(a / 0x1_0000, b / 0x1_0000);
}

/// Numbers that differ by a multiple of 2^64 have the same eight low bytes.
proof fn lemma_be64_congruent(a: int, b: int)
    requires
        (a - b) % 0x1_0000_0000_0000_0000 == 0,
    ensures
        be64(a) == be64(b),
{
    let k = (a - b) / 0x1_0000_0000_0000_0000;
    assert(a == b + k * 0x1_0000_0000_0000_0000);
    assert(a % 0x1_0000_0000 == b % 0x1_0000_0000);
    assert(a / 0x1_0000_0000 == b / 0x1_0000_0000 + k * 0x1_0000_0000);
    lemma_be32_congruent(a / 0x1_0000_0000, b / 0x1_0000_0000);
}

/// Appends an integer in the shortest form that holds it.
pub fn put_integer(out: &mut Vec<u8>, i: i64)
    ensures
        final(out)@ == old(out)@ + encode_integer(i as int),
{
    let u = to_unsigned(i);
    if -0x10 <= i && i < 0x80 {
        let low = (u % 0x100) as u8;
        assert(low == (i as int % 0x100) as u8);
        out.push(low);
    } else if -0x80 <= i && i < 0x80 {
        let low = (u % 0x100) as u8;
        assert(low == (i as int % 0x100) as u8);
        out.push(0xC8);
        out.push(low);
    } else if -0x8000 <= i && i < 0x8000 {
        let low = u % 0x1_0000;
        proof {
            lemma_be16_congruent(low as int, i as int);
        }
        out.push(0xC9);
        put_be16(out, low);
    } else if -0x8000_0000 <= i && i < 0x8000_0000 {
        let low = u % 0x1_0000_0000;
        proof {
            lemma_be32_congruent(low as int, i as int);
        }
        out.push(0xCA);
        put_be32(out, low);
    } else {
        proof {
            lemma_be64_congruent(u as int, i as int);
        }
        out.push(0xCB);
        put_be64(out, u);
    }
    assert(out@ =~= old(out)@ + encode_integer(i as int));
}

/// Appends a text, if its size fits a header.
pub fn put_text(out: &mut Vec<u8>, text: &str) -> (fits: bool)
    ensures
        fits == (encode_utf8(text@).len() <= MAX_SIZE),
        fits ==> final(out)@ == old(out)@ + encode_text(text@),
{
    let bytes = text.as_bytes();
    if bytes.len() > MAX_SIZE {
        return false;
    }
    put_size(out, 0x80, 0xD0, bytes.len());
    out.extend_from_slice(bytes);
    assert(out@ =~= old(out)@ + encode_text(text@));
    true
}

impl Value {
    /// Appends the bytes that stand for the value, if the value can be written.
    pub fn encode(&self, out: &mut Vec<u8>) -> (done: Result<(), Error>)
        ensures
            match done {
                Ok(()) => encodable(self@) && final(out)@ == old(out)@ + encode(self@),
                Err(e) => e == Error::SerializationError && !encodable(self@),
            },
        decreases self,
    {
        proof {
            lemma_view(self);
        }
        match self {
            Value::Null => {
                out.push(0xC0);
                assert(out@ =~= old(out)@ + encode(self@));
                Ok(())
            },
            Value::Boolean(b) => {
                out.push(if *b { 0xC3 } else { 0xC2 });
                assert(out@ =~= old(out)@ + encode(self@));
                Ok(())
            },
            Value::Integer(i) => {
                put_integer(out, *i);
                Ok(())
            },
            Value::Float(bits) => {
                out.push(0xC1);
                put_be64(out, *bits);
                assert(out@ =~= old(out)@ + encode(self@));
                Ok(())
            },
            Value::Bytes(bytes) => {
                let n = bytes.len();
                if n > MAX_SIZE {
                    return Err(Error::SerializationError);
                }
                if n < 0x100 {
                    out.push(0xCC);
                    out.push(n as u8);
                } else if n < 0x1_0000 {
                    out.push(0xCD);
                    put_be16(out, n as u64);
                } else {
                    out.push(0xCE);
                    put_be32(out, n as u64);
                }
                out.extend_from_slice(bytes.as_slice());
                assert(out@ =~= old(out)@ + encode(self@));
                Ok(())
            },
            Value::Text(text) => {
                if put_text(out, text.as_str()) {
                    Ok(())
                } else {
                    Err(Error::SerializationError)
                }
            },
            Value::List(items) => {
                if items.len() > MAX_SIZE {
                    return Err(Error::SerializationError);
                }
                put_size(out, 0x90, 0xD4, items.len());
                let done = encode_all(items, out);
                assert(done is Ok ==> out@ =~= old(out)@ + encode(self@));
                done
            },
            Value::Dictionary(entries) => {
                if entries.len() > MAX_SIZE {
                    return Err(Error::SerializationError);
                }
                put_size(out, 0xA0, 0xD8, entries.len());
                let done = encode_all_entries(entries, out);
                assert(done is Ok ==> out@ =~= old(out)@ + encode(self@));
                done
            },
            Value::Structure(tag, fields) => {
                if fields.len() > MAX_FIELDS {
                    return Err(Error::SerializationError);
                }
                out.push(0xB0 + fields.len() as u8);
                out.push(*tag);
                let done = encode_all(fields, out);
                assert(done is Ok ==> out@ =~= old(out)@ + encode(self@));
                done
            },
        }
    }

    /// The bytes that stand for the value, if the value can be written.
    pub fn to_bytes(&self) -> (bytes: Result<Vec<u8>, Error>)
        ensures
            match bytes {
                Ok(bytes) => encodable(self@) && bytes@ == encode(self@),
                Err(e) => e == Error::SerializationError && !encodable(self@),
            },
    {
        let mut out: Vec<u8> = Vec::new();
        match self.encode(&mut out) {
            Ok(()) => {
                assert(out@ =~= encode(self@));
                Ok(out)
            },
            Err(e) => Err(e),
        }
    }
}

/// Appends the values of `items`, one after the other, if all can be written.
fn encode_all(items: &Vec<Value>, out: &mut Vec<u8>) -> (done: Result<(), Error>)
    ensures
        match done {
            Ok(()) => {
                &&& forall|i: int| 0 <= i < items.len() ==> encodable(#[trigger] views(items@)[i])
                &&& final(out)@ == old(out)@ + encode_items(views(items@))
            },
            Err(e) => {
                &&& e == Error::SerializationError
                &&& exists|i: int| 0 <= i < items.len() && !encodable(#[trigger] views(items@)[i])
            },
        },
    decreases items,
{
    let ghost all = views(items@);
    let mut i: usize = 0;
    assert(all.take(0) =~= Seq::<Packed>::empty());
    assert(out@ =~= old(out)@ + encode_items(all.take(0)));
    while i < items.len()
        invariant
            i <= items.len(),
            all == views(items@),
            forall|j: int| 0 <= j < i ==> encodable(#[trigger] all[j]),
            out@ == old(out)@ + encode_items(all.take(i as int)),
        decreases items.len() - i,
    {
        let ghost before = out@;
        proof {
            assert(all.take(i + 1).drop_last() =~= all.take(i as int));
            assert(all.take(i + 1).last() == items[i as int]@);
        }
        match items[i].encode(out) {
            Ok(()) => {
                assert(out@ =~= old(out)@ + encode_items(all.take(i + 1)));
            },
            Err(e) => {
                assert(!encodable(all[i as int]));
                return Err(e);
            },
        }
        i += 1;
    }
    assert(all.take(items.len() as int) =~= all);
    Ok(())
}

/// Appends the entries of a dictionary, if all can be written.
fn encode_all_entries(entries: &Vec<(String, Value)>, out: &mut Vec<u8>) -> (done: Result<
    (),
    Error,
>)
    ensures
        match done {
            Ok(()) => {
                &&& forall|i: int|
                    0 <= i < entries.len() ==> encode_utf8(
                        (#[trigger] entry_views(entries@)[i]).0,
                    ).len() <= MAX_SIZE && encodable(entry_views(entries@)[i].1)
                &&& final(out)@ == old(out)@ + encode_entries(entry_views(entries@))
            },
            Err(e) => {
                &&& e == Error::SerializationError
                &&& exists|i: int|
                    0 <= i < entries.len() && !(encode_utf8(
                        (#[trigger] entry_views(entries@)[i]).0,
                    ).len() <= MAX_SIZE && encodable(entry_views(entries@)[i].1))
            },
        },
    decreases entries,
{
    let ghost all = entry_views(entries@);
    let mut i: usize = 0;
    assert(all.take(0) =~= Seq::<(Seq<char>, Packed)>::empty());
    assert(out@ =~= old(out)@ + encode_entries(all.take(0)));
    while i < entries.len()
        invariant
            i <= entries.len(),
            all == entry_views(entries@),
            forall|j: int|
                0 <= j < i ==> encode_utf8((#[trigger] all[j]).0).len() <= MAX_SIZE && encodable(
                    all[j].1,
                ),
            out@ == old(out)@ + encode_entries(all.take(i as int)),
        decreases entries.len() - i,
    {
        proof {
            assert(all.take(i + 1).drop_last() =~= all.take(i as int));
            assert(all.take(i + 1).last() == all[i as int]);
        }
        let entry = &entries[i];
        if !put_text(out, entry.0.as_str()) {
            assert(!(encode_utf8(all[i as int].0).len() <= MAX_SIZE));
            return Err(Error::SerializationError);
        }
        match entry.1.encode(out) {
            Ok(()) => {
                assert(out@ =~= old(out)@ + encode_entries(all.take(i + 1)));
            },
            Err(e) => {
                assert(!encodable(all[i as int].1));
                return Err(e);
            },
        }
        i += 1;
    }
    assert(all.take(entries.len() as int) =~= all);
    Ok(())
}

} // verus!
