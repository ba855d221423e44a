use crate::packstream::de::{
    decode, decode_at, decode_entries, decode_items, decode_scalar, decode_size, decode_text,
    decode_wide_size, opens_dictionary, opens_list, opens_structure, opens_text, signed, uint16,
    uint32, uint64, MAX_DEPTH,
};
use crate::packstream::ser::{
    be16, be32, be64, encodable, encode, encode_entries, encode_integer, encode_items,
    encode_text, size_header, MAX_FIELDS, MAX_SIZE,
};
use crate::packstream::Packed;
use vstd::prelude::*;
use vstd::utf8::{decode_utf8, encode_utf8, encode_utf8_decode_utf8, encode_utf8_valid_utf8, valid_utf8};

verus! {

/// Whether the lists, dictionaries and structures of `value` nest at most `depth` deep.
pub open spec fn fits(value: Packed, depth: nat) -> bool
    decreases value,
{
    match value {
        Packed::List(items) => depth > 0 && forall|i: int|
            0 <= i < items.len() ==> fits(#[trigger] items[i], (depth - 1) as nat),
        Packed::Dictionary(entries) => depth > 0 && forall|i: int|
            0 <= i < entries.len() ==> fits((#[trigger] entries[i]).1, (depth - 1) as nat),
        Packed::Structure(_, fields) => depth > 0 && forall|i: int|
            0 <= i < fields.len() ==> fits(#[trigger] fields[i], (depth - 1) as nat),
        _ => true,
    }
}

/// The low sixteen bits of a number are its two low bytes.
proof fn lemma_halves16(v: int)
    ensures
        (v / 0x100 % 0x100) * 0x100 + v % 0x100 == v % 0x1_0000,
{
}

/// The low thirty-two bits of a number are its two low halves.
proof fn lemma_halves32(v: int)
    ensures
        (v / 0x1_0000 % 0x1_0000) * 0x1_0000 + v % 0x1_0000 == v % 0x1_0000_0000,
{
}

/// The low sixty-four bits of a number are its two low halves.
proof fn lemma_halves64(v: int)
    ensures
        (v / 0x1_0000_0000 % 0x1_0000_0000) * 0x1_0000_0000 + v % 0x1_0000_0000 == v
            % 0x1_0000_0000_0000_0000,
{
}

/// Reading two bytes gives back the number they were written from, modulo 2^16.
proof fn lemma_uint16_be16(v: int, bytes: Seq<u8>, pos: int)
    requires
        0 <= pos,
        pos + 2 <= bytes.len(),
        bytes.subrange(pos, pos + 2) == be16(v),
    ensures
        uint16(bytes, pos) == v % 0x1_0000,
{
    assert(bytes[pos] == (v / 0x100 % 0x100) as u8) by {
        assert(bytes[pos] == bytes.subrange(pos, pos + 2)[0]);
    }
    assert(bytes[pos + 1] == (v % 0x100) as u8) by {
        assert(bytes[pos + 1] == bytes.subrange(pos, pos + 2)[1]);
    }
    lemma_halves16(v);
}

/// Reading four bytes gives back the number they were written from, modulo 2^32.
proof fn lemma_uint32_be32(v: int, bytes: Seq<u8>, pos: int)
    requires
        0 <= pos,
        pos + 4 <= bytes.len(),
        bytes.subrange(pos, pos + 4) == be32(v),
    ensures
        uint32(bytes, pos) == v % 0x1_0000_0000,
{
    let high = v / 0x1_0000;
    let low = v % 0x1_0000;
    assert(bytes.subrange(pos, pos + 2) == be16(high)) by {
        assert(bytes.subrange(pos, pos + 2) =~= bytes.subrange(pos, pos + 4).subrange(0, 2));
        assert(be32(v).subrange(0, 2) =~= be16(high));
    }
    assert(bytes.subrange(pos + 2, pos + 4) == be16(low)) by {
        assert(bytes.subrange(pos + 2, pos + 4) =~= bytes.subrange(pos, pos + 4).subrange(2, 4));
        assert(be32(v).subrange(2, 4) =~= be16(low));
    }
    assert(uint16(bytes, pos) == high % 0x1_0000) by {
        lemma_uint16_be16(high, bytes, pos);
    }
    assert(uint16(bytes, pos + 2) == low) by {
        lemma_uint16_be16(low, bytes, pos + 2);
    }
    lemma_halves32(v);
}

/// Reading eight bytes gives back the number they were written from, modulo 2^64.
proof fn lemma_uint64_be64(v: int, bytes: Seq<u8>, pos: int)
    requires
        0 <= pos,
        pos + 8 <= bytes.len(),
        bytes.subrange(pos, pos + 8) == be64(v),
    ensures
        uint64(bytes, pos) == v % 0x1_0000_0000_0000_0000,
{
    let high = v / 0x1_0000_0000;
    let low = v % 0x1_0000_0000;
    assert(bytes.subrange(pos, pos + 4) == be32(high)) by {
        assert(bytes.subrange(pos, pos + 4) =~= bytes.subrange(pos, pos + 8).subrange(0, 4));
        assert(be64(v).subrange(0, 4) =~= be32(high));
    }
    assert(bytes.subrange(pos + 4, pos + 8) == be32(low)) by {
        assert(bytes.subrange(pos + 4, pos + 8) =~= bytes.subrange(pos, pos + 8).subrange(4, 8));
        assert(be64(v).subrange(4, 8) =~= be32(low));
    }
    assert(uint32(bytes, pos) == high % 0x1_0000_0000) by {
        lemma_uint32_be32(high, bytes, pos);
    }
    assert(uint32(bytes, pos + 4) == low) by {
        lemma_uint32_be32(low, bytes, pos + 4);
    }
    lemma_halves64(v);
}

/// Whether `bytes` hold `written` from `pos` on.
pub open spec fn holds(bytes: Seq<u8>, pos: int, written: Seq<u8>) -> bool {
    &&& 0 <= pos
    &&& pos + written.len() <= bytes.len()
    &&& bytes.subrange(pos, pos + written.len()) == written
}

/// What holds a whole holds its parts.
proof fn lemma_holds_parts(bytes: Seq<u8>, pos: int, front: Seq<u8>, back: Seq<u8>)
    requires
        holds(bytes, pos, front + back),
    ensures
        holds(bytes, pos, front),
        holds(bytes, pos + front.len(), back),
{
    let whole = front + back;
    assert(bytes.subrange(pos, pos + front.len()) =~= bytes.subrange(
        pos,
        pos + whole.len(),
    ).subrange(0, front.len() as int));
    assert(whole.subrange(0, front.len() as int) =~= front);
    assert(bytes.subrange(pos + front.len(), pos + front.len() + back.len()) =~= bytes.subrange(
        pos,
        pos + whole.len(),
    ).subrange(front.len() as int, whole.len() as int));
    assert(whole.subrange(front.len() as int, whole.len() as int) =~= back);
}

/// What is held can be read byte by byte.
proof fn lemma_holds_byte(bytes: Seq<u8>, pos: int, written: Seq<u8>, k: int)
    requires
        holds(bytes, pos, written),
        0 <= k < written.len(),
    ensures
        bytes[pos + k] == written[k],
{
    assert(bytes.subrange(pos, pos + written.len())[k] == bytes[pos + k]);
}

/// A header that was written reads as the size it was written for.
proof fn lemma_decode_size(tiny: u8, wide: u8, n: int, bytes: Seq<u8>, pos: int)
    requires
        0 <= n <= MAX_SIZE,
        tiny <= 0xB0,
        tiny + 0x10 <= wide <= 0xFD,
        holds(bytes, pos, size_header(tiny, wide, n)),
    ensures
        decode_size(bytes, pos, tiny, wide) == Some((n, pos + size_header(tiny, wide, n).len())),
        tiny <= bytes[pos] < tiny + 0x10 || wide <= bytes[pos] <= wide + 2,
{
    let header = size_header(tiny, wide, n);
    lemma_holds_byte(bytes, pos, header, 0);
    if n < 0x10 {
    } else if n < 0x100 {
        lemma_holds_byte(bytes, pos, header, 1);
    } else if n < 0x1_0000 {
        lemma_holds_parts(bytes, pos, seq![(wide + 1) as u8], be16(n));
        lemma_uint16_be16(n, bytes, pos + 1);
    } else {
        lemma_holds_parts(bytes, pos, seq![(wide + 2) as u8], be32(n));
        lemma_uint32_be32(n, bytes, pos + 1);
    }
}

/// A text that was written reads as itself.
proof fn lemma_decode_text(text: Seq<char>, bytes: Seq<u8>, pos: int)
    requires
        encode_utf8(text).len() <= MAX_SIZE,
        holds(bytes, pos, encode_text(text)),
    ensures
        decode_text(bytes, pos) == Some((text, pos + encode_text(text).len())),
        opens_text(bytes[pos]),
{
    let raw = encode_utf8(text);
    let header = size_header(0x80, 0xD0, raw.len() as int);
    lemma_holds_parts(bytes, pos, header, raw);
    lemma_decode_size(0x80, 0xD0, raw.len() as int, bytes, pos);
    encode_utf8_valid_utf8(text);
    encode_utf8_decode_utf8(text);
}

/// Whether `marker` opens a value with parts or a text.
spec fn opens_other(marker: u8) -> bool {
    opens_text(marker) || opens_list(marker) || opens_dictionary(marker) || opens_structure(marker)
}

/// Two's complement in `modulus` values gives back the numbers of its range.
proof fn lemma_signed(i: int, modulus: int)
    requires
        modulus == 0x100 || modulus == 0x1_0000 || modulus == 0x1_0000_0000 || modulus
            == 0x1_0000_0000_0000_0000,
        -modulus <= 2 * i < modulus,
    ensures
        signed(i % modulus, modulus) == i,
{
    if i >= 0 {
        assert(i % modulus == i);
    } else {
        assert(i % modulus == i + modulus);
    }
}

/// An integer of one byte reads as itself.
proof fn lemma_decode_tiny_integer(i: i64, bytes: Seq<u8>, pos: int)
    requires
        -0x10 <= i < 0x80,
        holds(bytes, pos, seq![(i as int % 0x100) as u8]),
    ensures
        decode_scalar(bytes, pos) == Some((Packed::Integer(i), pos + 1)),
        !opens_other(bytes[pos]),
{
    lemma_holds_byte(bytes, pos, seq![(i as int % 0x100) as u8], 0);
    lemma_signed(i as int, 0x100);
    let marker = bytes[pos];
    if i >= 0 {
        assert(marker == i);
    } else {
        assert(marker == i + 0x100);
    }
}

/// An integer of a marker and one byte reads as itself.
proof fn lemma_decode_integer8(i: i64, bytes: Seq<u8>, pos: int)
    requires
        -0x80 <= i < -0x10,
        holds(bytes, pos, seq![0xC8u8, (i as int % 0x100) as u8]),
    ensures
        decode_scalar(bytes, pos) == Some((Packed::Integer(i), pos + 2)),
        !opens_other(bytes[pos]),
{
    let written = seq![0xC8u8, (i as int % 0x100) as u8];
    lemma_holds_byte(bytes, pos, written, 0);
    lemma_holds_byte(bytes, pos, written, 1);
    lemma_signed(i as int, 0x100);
    assert(bytes[pos] == 0xC8);
    assert(bytes[pos + 1] == i + 0x100);
}

/// An integer of a marker and two bytes reads as itself.
proof fn lemma_decode_integer16(i: i64, bytes: Seq<u8>, pos: int)
    requires
        -0x8000 <= i < 0x8000,
        holds(bytes, pos, seq![0xC9u8] + be16(i as int)),
    ensures
        decode_scalar(bytes, pos) == Some((Packed::Integer(i), pos + 3)),
        !opens_other(bytes[pos]),
{
    lemma_holds_byte(bytes, pos, seq![0xC9u8] + be16(i as int), 0);
    lemma_holds_parts(bytes, pos, seq![0xC9u8], be16(i as int));
    lemma_uint16_be16(i as int, bytes, pos + 1);
    lemma_signed(i as int, 0x1_0000);
    assert(bytes[pos] == 0xC9);
}

/// An integer of a marker and four bytes reads as itself.
proof fn lemma_decode_integer32(i: i64, bytes: Seq<u8>, pos: int)
    requires
        -0x8000_0000 <= i < 0x8000_0000,
        holds(bytes, pos, seq![0xCAu8] + be32(i as int)),
    ensures
        decode_scalar(bytes, pos) == Some((Packed::Integer(i), pos + 5)),
        !opens_other(bytes[pos]),
{
    lemma_holds_byte(bytes, pos, seq![0xCAu8] + be32(i as int), 0);
    lemma_holds_parts(bytes, pos, seq![0xCAu8], be32(i as int));
    lemma_uint32_be32(i as int, bytes, pos + 1);
    lemma_signed(i as int, 0x1_0000_0000);
    assert(bytes[pos] == 0xCA);
}

/// An integer of a marker and eight bytes reads as itself.
proof fn lemma_decode_integer64(i: i64, bytes: Seq<u8>, pos: int)
    requires
        holds(bytes, pos, seq![0xCBu8] + be64(i as int)),
    ensures
        decode_scalar(bytes, pos) == Some((Packed::Integer(i), pos + 9)),
        !opens_other(bytes[pos]),
{
    lemma_holds_byte(bytes, pos, seq![0xCBu8] + be64(i as int), 0);
    lemma_holds_parts(bytes, pos, seq![0xCBu8], be64(i as int));
    lemma_uint64_be64(i as int, bytes, pos + 1);
    lemma_signed(i as int, 0x1_0000_0000_0000_0000);
    assert(bytes[pos] == 0xCB);
}

/// An integer that was written reads as itself.
proof fn lemma_decode_integer(i: i64, bytes: Seq<u8>, pos: int)
    requires
        holds(bytes, pos, encode_integer(i as int)),
    ensures
        decode_scalar(bytes, pos) == Some(
            (Packed::Integer(i), pos + encode_integer(i as int).len()),
        ),
        !opens_other(bytes[pos]),
{
    if -0x10 <= i < 0x80 {
        lemma_decode_tiny_integer(i, bytes, pos);
    } else if -0x80 <= i < 0x80 {
        lemma_decode_integer8(i, bytes, pos);
    } else if -0x8000 <= i < 0x8000 {
        lemma_decode_integer16(i, bytes, pos);
    } else if -0x8000_0000 <= i < 0x8000_0000 {
        lemma_decode_integer32(i, bytes, pos);
    } else {
        lemma_decode_integer64(i, bytes, pos);
    }
}

/// A float that was written reads as itself.
proof fn lemma_decode_float(bits: u64, bytes: Seq<u8>, pos: int)
    requires
        holds(bytes, pos, seq![0xC1u8] + be64(bits as int)),
    ensures
        decode_scalar(bytes, pos) == Some((Packed::Float(bits), pos + 9)),
        !opens_other(bytes[pos]),
{
    lemma_holds_byte(bytes, pos, seq![0xC1u8] + be64(bits as int), 0);
    lemma_holds_parts(bytes, pos, seq![0xC1u8], be64(bits as int));
    lemma_uint64_be64(bits as int, bytes, pos + 1);
    assert(bytes[pos] == 0xC1);
    assert(bits as int % 0x1_0000_0000_0000_0000 == bits);
}

/// A byte array that was written reads as itself.
proof fn lemma_decode_bytes(raw: Seq<u8>, bytes: Seq<u8>, pos: int)
    requires
        raw.len() <= MAX_SIZE,
        holds(bytes, pos, encode(Packed::Bytes(raw))),
    ensures
        decode_scalar(bytes, pos) == Some(
            (Packed::Bytes(raw), pos + encode(Packed::Bytes(raw)).len()),
        ),
        !opens_other(bytes[pos]),
{
    let written = encode(Packed::Bytes(raw));
    let n = raw.len() as int;
    lemma_holds_byte(bytes, pos, written, 0);
    if n < 0x100 {
        lemma_holds_byte(bytes, pos, written, 1);
        lemma_holds_parts(bytes, pos, seq![0xCCu8, n as u8], raw);
        assert(decode_wide_size(bytes, pos, 0xCC) == Some((n, pos + 2)));
    } else if n < 0x1_0000 {
        lemma_holds_parts(bytes, pos, seq![0xCDu8] + be16(n), raw);
        lemma_holds_parts(bytes, pos, seq![0xCDu8], be16(n));
        lemma_uint16_be16(n, bytes, pos + 1);
        assert(decode_wide_size(bytes, pos, 0xCC) == Some((n, pos + 3)));
    } else {
        lemma_holds_parts(bytes, pos, seq![0xCEu8] + be32(n), raw);
        lemma_holds_parts(bytes, pos, seq![0xCEu8], be32(n));
        lemma_uint32_be32(n, bytes, pos + 1);
        assert(decode_wide_size(bytes, pos, 0xCC) == Some((n, pos + 5)));
    }
}

/// A value without parts that was written reads as itself.
proof fn lemma_decode_scalar(value: Packed, bytes: Seq<u8>, pos: int)
    requires
        encodable(value),
        value is Null || value is Boolean || value is Integer || value is Float || value is Bytes,
        holds(bytes, pos, encode(value)),
    ensures
        decode_scalar(bytes, pos) == Some((value, pos + encode(value).len())),
        !opens_other(bytes[pos]),
{
    match value {
        Packed::Integer(i) => {
            lemma_decode_integer(i, bytes, pos);
        },
        Packed::Float(bits) => {
            lemma_decode_float(bits, bytes, pos);
        },
        Packed::Bytes(raw) => {
            lemma_decode_bytes(raw, bytes, pos);
        },
        _ => {
            lemma_holds_byte(bytes, pos, encode(value), 0);
        },
    }
}

/// The values of a list are written first one first.
proof fn lemma_encode_items_front(items: Seq<Packed>)
    requires
        items.len() > 0,
    ensures
        encode_items(items) == encode(items.first()) + encode_items(items.drop_first()),
    decreases items.len(),
{
    let rest = items.drop_first();
    if items.len() == 1 {
        assert(items.drop_last().len() == 0);
        assert(encode_items(items.drop_last()) =~= Seq::<u8>::empty());
        assert(items.last() == items.first());
        assert(encode_items(items) =~= encode(items.first()));
        assert(encode_items(rest) =~= Seq::<u8>::empty());
        assert(encode(items.first()) + encode_items(rest) =~= encode(items.first()));
    } else {
        lemma_encode_items_front(items.drop_last());
        assert(items.drop_last().drop_first() =~= rest.drop_last());
        assert(items.drop_last().first() == items.first());
        assert(rest.last() == items.last());
        assert(encode_items(items) =~= encode(items.first()) + encode_items(rest));
    }
}

/// The entries of a dictionary are written first one first.
proof fn lemma_encode_entries_front(entries: Seq<(Seq<char>, Packed)>)
    requires
        entries.len() > 0,
    ensures
        encode_entries(entries) == encode_text(entries.first().0) + encode(entries.first().1)
            + encode_entries(entries.drop_first()),
    decreases entries.len(),
{
    let rest = entries.drop_first();
    let first = encode_text(entries.first().0) + encode(entries.first().1);
    if entries.len() == 1 {
        assert(entries.drop_last().len() == 0);
        assert(encode_entries(entries.drop_last()) =~= Seq::<u8>::empty());
        assert(entries.last() == entries.first());
        assert(encode_entries(entries) =~= first);
        assert(encode_entries(rest) =~= Seq::<u8>::empty());
        assert(first + encode_entries(rest) =~= first);
    } else {
        lemma_encode_entries_front(entries.drop_last());
        assert(entries.drop_last().drop_first() =~= rest.drop_last());
        assert(entries.drop_last().first() == entries.first());
        assert(rest.last() == entries.last());
        assert(encode_entries(entries) =~= first + encode_entries(rest));
    }
}

/// A value that was written reads as itself, wherever it stands.
pub proof fn lemma_decode_at(value: Packed, depth: nat, bytes: Seq<u8>, pos: int)
    requires
        encodable(value),
        fits(value, depth),
        holds(bytes, pos, encode(value)),
    ensures
        decode_at(bytes, pos, depth) == Some((value, pos + encode(value).len())),
    decreases value, 0nat,
{
    match value {
        Packed::Text(text) => {
            lemma_decode_text(text, bytes, pos);
        },
        Packed::List(items) => {
            let header = size_header(0x90, 0xD4, items.len() as int);
            lemma_holds_parts(bytes, pos, header, encode_items(items));
            lemma_decode_size(0x90, 0xD4, items.len() as int, bytes, pos);
            lemma_decode_items(items, (depth - 1) as nat, bytes, pos + header.len());
        },
        Packed::Dictionary(entries) => {
            let header = size_header(0xA0, 0xD8, entries.len() as int);
            lemma_holds_parts(bytes, pos, header, encode_entries(entries));
            lemma_decode_size(0xA0, 0xD8, entries.len() as int, bytes, pos);
            lemma_decode_entries(entries, (depth - 1) as nat, bytes, pos + header.len());
        },
        Packed::Structure(tag, fields) => {
            let header = seq![(0xB0 + fields.len()) as u8, tag];
            lemma_holds_parts(bytes, pos, header, encode_items(fields));
            lemma_holds_byte(bytes, pos, header, 0);
            lemma_holds_byte(bytes, pos, header, 1);
            lemma_decode_items(fields, (depth - 1) as nat, bytes, pos + 2);
        },
        _ => {
            lemma_decode_scalar(value, bytes, pos);
        },
    }
}

/// The values of a list that were written read as themselves.
pub proof fn lemma_decode_items(items: Seq<Packed>, depth: nat, bytes: Seq<u8>, pos: int)
    requires
        forall|i: int| 0 <= i < items.len() ==> encodable(#[trigger] items[i]),
        forall|i: int| 0 <= i < items.len() ==> fits(#[trigger] items[i], depth),
        holds(bytes, pos, encode_items(items)),
    ensures
        decode_items(bytes, pos, items.len(), depth) == Some(
            (items, pos + encode_items(items).len()),
        ),
    decreases items, 1nat,
{
    if items.len() > 0 {
        let first = items.first();
        let rest = items.drop_first();
        lemma_encode_items_front(items);
        lemma_holds_parts(bytes, pos, encode(first), encode_items(rest));
        lemma_decode_at(first, depth, bytes, pos);
        assert forall|i: int| 0 <= i < rest.len() implies encodable(#[trigger] rest[i]) && fits(
            rest[i],
            depth,
        ) by {
            assert(rest[i] == items[i + 1]);
        }
        lemma_decode_items(rest, depth, bytes, pos + encode(first).len());
        assert(seq![first] + rest =~= items);
    }
}

/// The entries of a dictionary that were written read as themselves.
pub proof fn lemma_decode_entries(
    entries: Seq<(Seq<char>, Packed)>,
    depth: nat,
    bytes: Seq<u8>,
    pos: int,
)
    requires
        forall|i: int|
            0 <= i < entries.len() ==> encode_utf8((#[trigger] entries[i]).0).len() <= MAX_SIZE
                && encodable(entries[i].1),
        forall|i: int| 0 <= i < entries.len() ==> fits((#[trigger] entries[i]).1, depth),
        holds(bytes, pos, encode_entries(entries)),
    ensures
        decode_entries(bytes, pos, entries.len(), depth) == Some(
            (entries, pos + encode_entries(entries).len()),
        ),
    decreases entries, 1nat,
{
    if entries.len() > 0 {
        let first = entries.first();
        let rest = entries.drop_first();
        let key = encode_text(first.0);
        lemma_encode_entries_front(entries);
        lemma_holds_parts(bytes, pos, key + encode(first.1), encode_entries(rest));
        lemma_holds_parts(bytes, pos, key, encode(first.1));
        lemma_decode_text(first.0, bytes, pos);
        lemma_decode_at(first.1, depth, bytes, pos + key.len());
        assert forall|i: int| 0 <= i < rest.len() implies encode_utf8(
            (#[trigger] rest[i]).0,
        ).len() <= MAX_SIZE && encodable(rest[i].1) && fits(rest[i].1, depth) by {
            assert(rest[i] == entries[i + 1]);
        }
        lemma_decode_entries(rest, depth, bytes, pos + key.len() + encode(first.1).len());
        assert(seq![first] + rest =~= entries);
    }
}

/// Round trip: what is written reads back as what it was. Every value that can
/// be written, and that nests no deeper than is read, is the one value that
/// its bytes hold.
pub proof fn lemma_round_trip(value: Packed)
    requires
        encodable(value),
        fits(value, MAX_DEPTH as nat),
    ensures
        decode(encode(value)) == Some(value),
{
    let bytes = encode(value);
    assert(bytes.subrange(0, bytes.len() as int) =~= bytes);
    lemma_decode_at(value, MAX_DEPTH as nat, bytes, 0);
}

} // verus!
