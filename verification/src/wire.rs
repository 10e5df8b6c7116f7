//! Protocol buffer fields, as the `protobuf` crate reads and writes them.
//!
//! A message is a sequence of fields. A field is a tag, which holds its number and its wire type,
//! and a value. Tags, numbers and lengths are little-endian base-128 numbers.

use crate::network;
use protobuf::{CodedInputStream, CodedOutputStream, UnknownValue};
use vstd::prelude::*;

verus! {

/// The error of the `protobuf` crate.
#[verifier::external_type_specification]
#[verifier::external_body]
pub struct ExProtobufError(protobuf::ProtobufError);

/// Why a message cannot be read.
#[derive(Clone, Copy, Debug, PartialEq, Eq, Structural)]
pub enum WireError {
    /// The bytes are not a sequence of fields.
    Malformed,
    /// A field does not have the wire type that the message gives it.
    WireType,
}

/// The value of a field.
pub enum WireValue {
    /// A base-128 number.
    Varint(u64),
    /// Eight bytes.
    Fixed64(u64),
    /// A length and as many bytes.
    Bytes(Vec<u8>),
    /// A group, which is skipped.
    Group,
    /// Four bytes.
    Fixed32(u32),
}

/// What a `WireValue` stands for.
pub ghost enum Value {
    Varint(u64),
    Fixed64(u64),
    Bytes(Seq<u8>),
    Group,
    Fixed32(u32),
}

impl View for WireValue {
    type V = Value;

    open spec fn view(&self) -> Value {
        match *self {
            WireValue::Varint(v) => Value::Varint(v),
            WireValue::Fixed64(v) => Value::Fixed64(v),
            WireValue::Bytes(v) => Value::Bytes(v@),
            WireValue::Group => Value::Group,
            WireValue::Fixed32(v) => Value::Fixed32(v),
        }
    }
}

/// A field of a message.
pub struct WireField {
    pub number: u32,
    pub value: WireValue,
}

/// What a `WireField` stands for.
pub ghost struct Field {
    pub number: u32,
    pub value: Value,
}

impl View for WireField {
    type V = Field;

    open spec fn view(&self) -> Field {
        Field { number: self.number, value: self.value@ }
    }
}

/// `v` in base 128, low-order digits first, all but the last of them marked.
pub open spec fn base128(v: nat) -> Seq<u8>
    decreases v,
{
    if v < 128 {
        seq![v as u8]
    } else {
        seq![(v % 128 + 128) as u8] + base128(v / 128)
    }
}

/// The base-128 number at the front of `s`, of at most `limit` digits, and its length.
pub open spec fn base128_at(s: Seq<u8>, limit: nat) -> Option<(nat, nat)>
    decreases limit,
{
    if limit == 0 || s.len() == 0 {
        None
    } else if s[0] < 128 {
        Some((s[0] as nat, 1))
    } else {
        match base128_at(s.skip(1), (limit - 1) as nat) {
            Some((v, n)) => Some(((s[0] - 128) as nat + 128 * v, n + 1)),
            None => None,
        }
    }
}

/// The number at the front of `s`, of which 64 bits are kept, and its length.
pub open spec fn varint_at(s: Seq<u8>) -> Option<(u64, nat)> {
    match base128_at(s, 10) {
        Some((v, n)) => Some(((v % 0x1_0000_0000_0000_0000) as u64, n)),
        None => None,
    }
}

/// The low-order 32 bits of `v`.
pub open spec fn low32(v: u64) -> u32 {
    (v as nat % 0x1_0000_0000) as u32
}

/// The field number and the wire type at the front of `s`, and the length of the tag.
pub open spec fn tag_at(s: Seq<u8>) -> Option<(u32, u8, nat)> {
    match varint_at(s) {
        Some((v, n)) => if low32(v) % 8 <= 5 && low32(v) / 8 > 0 {
            Some((low32(v) / 8, (low32(v) % 8) as u8, n))
        } else {
            None
        },
        None => None,
    }
}

/// The value of wire type `wire` at the front of `s`, and its length.
pub open spec fn value_at(s: Seq<u8>, wire: u8) -> Option<(Value, nat)> {
    if wire == 0 {
        match varint_at(s) {
            Some((v, n)) => Some((Value::Varint(v), n)),
            None => None,
        }
    } else if wire == 1 {
        if s.len() >= 8 {
            Some((Value::Fixed64(network::be_value(s.take(8).reverse()) as u64), 8))
        } else {
            None
        }
    } else if wire == 2 {
        match varint_at(s) {
            Some((v, n)) => if n + low32(v) <= s.len() {
                Some((Value::Bytes(s.subrange(n as int, n + low32(v))), n + low32(v) as nat))
            } else {
                None
            },
            None => None,
        }
    } else if wire == 5 {
        if s.len() >= 4 {
            Some((Value::Fixed32(network::be_value(s.take(4).reverse()) as u32), 4))
        } else {
            None
        }
    } else {
        None
    }
}

/// A number takes at least one byte and none past the end.
proof fn lemma_base128_at_len(s: Seq<u8>, limit: nat)
    ensures
        base128_at(s, limit) matches Some((_, n)) ==> 1 <= n <= s.len(),
    decreases limit,
{
    if limit > 0 && s.len() > 0 && s[0] >= 128 {
        lemma_base128_at_len(s.skip(1), (limit - 1) as nat);
    }
}

/// A tag takes at least one byte and none past the end.
pub proof fn lemma_tag_at_len(s: Seq<u8>)
    ensures
        tag_at(s) matches Some((_, _, n)) ==> 1 <= n <= s.len(),
{
    lemma_base128_at_len(s, 10);
}

/// A value ends before the bytes do.
pub proof fn lemma_value_at_len(s: Seq<u8>, wire: u8)
    ensures
        value_at(s, wire) matches Some((_, n)) ==> n <= s.len(),
{
    lemma_base128_at_len(s, 10);
}

/// The length of the group of fields at the front of `s`, with the tag that ends it.
pub open spec fn group_at(s: Seq<u8>) -> Option<nat>
    decreases s.len(),
{
    match tag_at(s) {
        Some((_, wire, n)) => if wire == 4 {
            Some(n)
        } else {
            match value_at(s.skip(n as int), wire) {
                Some((_, m)) => {
                    proof {
                        lemma_tag_at_len(s);
                        lemma_value_at_len(s.skip(n as int), wire);
                    }
                    match group_at(s.skip(n as int).skip(m as int)) {
                        Some(k) => Some(n + m + k),
                        None => None,
                    }
                },
                None => None,
            }
        },
        None => None,
    }
}

/// The field at the front of `s`, and its length.
#[verifier::opaque]
pub open spec fn field_at(s: Seq<u8>) -> Option<(Field, nat)> {
    match tag_at(s) {
        Some((number, wire, n)) => if wire == 3 {
            match group_at(s.skip(n as int)) {
                Some(k) => Some((Field { number, value: Value::Group }, n + k)),
                None => None,
            }
        } else {
            match value_at(s.skip(n as int), wire) {
                Some((value, m)) => Some((Field { number, value }, n + m)),
                None => None,
            }
        },
        None => None,
    }
}

/// A group ends before the bytes do.
proof fn lemma_group_at_len(s: Seq<u8>)
    ensures
        group_at(s) matches Some(n) ==> n <= s.len(),
    decreases s.len(),
{
    if let Some((_, wire, n)) = tag_at(s) {
        lemma_tag_at_len(s);
        lemma_value_at_len(s.skip(n as int), wire);
        if wire != 4 {
            if let Some((_, m)) = value_at(s.skip(n as int), wire) {
                lemma_group_at_len(s.skip(n as int).skip(m as int));
            }
        }
    }
}

/// A field takes at least one byte and none past the end.
pub proof fn lemma_field_at_len(s: Seq<u8>)
    ensures
        field_at(s) matches Some((_, n)) ==> 1 <= n <= s.len(),
{
    reveal(field_at);
    if let Some((_, wire, n)) = tag_at(s) {
        lemma_tag_at_len(s);
        lemma_group_at_len(s.skip(n as int));
        lemma_value_at_len(s.skip(n as int), wire);
    }
}

/// The fields of the message `s`, in order.
pub open spec fn fields_of(s: Seq<u8>) -> Option<Seq<Field>>
    decreases s.len(),
{
    if s.len() == 0 {
        Some(Seq::empty())
    } else {
        match field_at(s) {
            Some((field, n)) => {
                proof {
                    lemma_field_at_len(s);
                }
                match fields_of(s.skip(n as int)) {
                    Some(rest) => Some(seq![field] + rest),
                    None => None,
                }
            },
            None => None,
        }
    }
}

/// Calls `protobuf::CodedInputStream::read_tag_unpack`.
///
/// It reads a number of at most ten base-128 digits and keeps 32 bits of it: the low three are the
/// wire type, one of six, and the others the field number, which is not zero. It fails where the
/// number does not end or is no such tag. The third part of the result is the position of the
/// stream afterwards.
#[verifier::external_body]
fn read_tag_unpack(bytes: &[u8]) -> (r: Result<(u32, u8, usize), protobuf::ProtobufError>)
    ensures
        match tag_at(bytes@) {
            Some((number, wire, n)) => r is Ok && r->Ok_0 == (number, wire, n as usize),
            None => r is Err,
        },
{
    let mut input = CodedInputStream::from_bytes(bytes);
    let (number, wire) = input.read_tag_unpack()?;
    Ok((number, wire as u8, input.pos() as usize))
}

/// Calls `protobuf::CodedInputStream::read_unknown`.
///
/// It reads a value by its wire type: a number of at most ten base-128 digits, of which 64 bits
/// are kept; eight or four little-endian bytes; or a length, of which 32 bits are kept, and as
/// many bytes. It fails where the bytes end early, and for the two wire types of groups. The
/// second part of the result is the position of the stream afterwards.
#[verifier::external_body]
fn read_unknown(bytes: &[u8], wire: u8) -> (r: Result<(WireValue, usize), protobuf::ProtobufError>)
    requires
        wire <= 5,
    ensures
        match value_at(bytes@, wire) {
            Some((value, n)) => r is Ok && r->Ok_0.0@ == value && r->Ok_0.1 == n,
            None => r is Err,
        },
{
    let mut input = CodedInputStream::from_bytes(bytes);
    let wire = protobuf::wire_format::WireType::new(wire as u32).unwrap();
    let value = match input.read_unknown(wire)? {
        UnknownValue::Varint(v) => WireValue::Varint(v),
        UnknownValue::Fixed64(v) => WireValue::Fixed64(v),
        UnknownValue::LengthDelimited(v) => WireValue::Bytes(v),
        UnknownValue::Fixed32(v) => WireValue::Fixed32(v),
    };
    Ok((value, input.pos() as usize))
}

/// The bytes of a field that holds a number.
pub open spec fn number_field(number: u32, v: u64) -> Seq<u8> {
    base128(number as nat * 8) + base128(v as nat)
}

/// The bytes of a field that holds bytes.
pub open spec fn bytes_field(number: u32, v: Seq<u8>) -> Seq<u8> {
    base128(number as nat * 8 + 2) + base128(v.len()) + v
}

/// Calls `protobuf::CodedOutputStream::write_uint32`.
///
/// It appends the tag of a number field and the number in base 128; writing to a vector does not
/// fail.
#[verifier::external_body]
pub(crate) fn write_uint32(out: &mut Vec<u8>, number: u32, v: u32)
    requires
        0 < number <= 0x1FFF_FFFF,
    ensures
        final(out)@ == old(out)@ + number_field(number, v as u64),
{
    let mut output = CodedOutputStream::vec(out);
    output.write_uint32(number, v).unwrap();
    output.flush().unwrap();
}

/// Calls `protobuf::CodedOutputStream::write_uint64`.
///
/// It appends the tag of a number field and the number in base 128; writing to a vector does not
/// fail.
#[verifier::external_body]
pub(crate) fn write_uint64(out: &mut Vec<u8>, number: u32, v: u64)
    requires
        0 < number <= 0x1FFF_FFFF,
    ensures
        final(out)@ == old(out)@ + number_field(number, v),
{
    let mut output = CodedOutputStream::vec(out);
    output.write_uint64(number, v).unwrap();
    output.flush().unwrap();
}

/// Calls `protobuf::CodedOutputStream::write_bool`.
///
/// It appends the tag of a number field and a one or a zero; writing to a vector does not fail.
#[verifier::external_body]
pub(crate) fn write_bool(out: &mut Vec<u8>, number: u32, v: bool)
    requires
        0 < number <= 0x1FFF_FFFF,
    ensures
        final(out)@ == old(out)@ + number_field(
            number,
            if v {
                1
            } else {
                0
            },
        ),
{
    let mut output = CodedOutputStream::vec(out);
    output.write_bool(number, v).unwrap();
    output.flush().unwrap();
}

/// Calls `protobuf::CodedOutputStream::write_string`.
///
/// It appends the tag of a bytes field, the length of the text in UTF-8 and the text; writing to a
/// vector does not fail. The length is written with 32 bits, so a longer text is left out.
#[verifier::external_body]
pub(crate) fn write_string(out: &mut Vec<u8>, number: u32, v: &str)
    requires
        0 < number <= 0x1FFF_FFFF,
        vstd::utf8::encode_utf8(v@).len() <= u32::MAX,
    ensures
        final(out)@ == old(out)@ + bytes_field(number, vstd::utf8::encode_utf8(v@)),
{
    let mut output = CodedOutputStream::vec(out);
    output.write_string(number, v).unwrap();
    output.flush().unwrap();
}

/// The fields of the message `bytes`, in order.
pub fn parse_fields(bytes: &[u8]) -> (r: Result<Vec<WireField>, WireError>)
    ensures
        match fields_of(bytes@) {
            Some(fields) => r is Ok && r->Ok_0@.map_values(|f: WireField| f@) == fields,
            None => r == Err::<Vec<WireField>, WireError>(WireError::Malformed),
        },
{
    let mut out: Vec<WireField> = Vec::new();
    let mut pos: usize = 0;
    proof {
        assert(bytes@.skip(0) =~= bytes@);
        if let Some(rest) = fields_of(bytes@) {
            assert(out@.map_values(|f: WireField| f@) + rest =~= rest);
        }
    }
    while pos < bytes.len()
        invariant
            pos <= bytes@.len(),
            fields_of(bytes@) == match fields_of(bytes@.skip(pos as int)) {
                Some(rest) => Some(out@.map_values(|f: WireField| f@) + rest),
                None => None,
            },
        decreases bytes@.len() - pos,
    {
        reveal(field_at);
        let ghost s = bytes@.skip(pos as int);
        let rest = vstd::slice::slice_subrange(bytes, pos, bytes.len());
        assert(rest@ =~= s);
        let (number, wire, n) = match read_tag_unpack(rest) {
            Ok(tag) => tag,
            Err(_) => {
                return Err(WireError::Malformed);
            },
        };
        proof {
            lemma_tag_at_len(s);
            lemma_field_at_len(s);
        }
        let body = vstd::slice::slice_subrange(rest, n, rest.len());
        assert(body@ =~= s.skip(n as int));
        let (value, m) = if wire == 3 {
            match skip_group(body) {
                Ok(m) => (WireValue::Group, m),
                Err(e) => {
                    return Err(e);
                },
            }
        } else {
            match read_unknown(body, wire) {
                Ok(value) => value,
                Err(_) => {
                    return Err(WireError::Malformed);
                },
            }
        };
        let ghost before = out@.map_values(|f: WireField| f@);
        let field = WireField { number, value };
        out.push(field);
        assert(out@.map_values(|f: WireField| f@) =~= before.push(field@));
        assert(s.skip(n + m) =~= bytes@.skip(pos + n + m));
        pos = pos + n + m;
        proof {
            if let Some(after) = fields_of(bytes@.skip(pos as int)) {
                assert(before + (seq![field@] + after) =~= before.push(field@) + after);
            }
        }
    }
    assert(bytes@.skip(pos as int) =~= Seq::<u8>::empty());
    assert(out@.map_values(|f: WireField| f@) + Seq::<Field>::empty() =~= out@.map_values(
        |f: WireField| f@,
    ));
    Ok(out)
}

/// The length of the group of fields at the front, with the tag that ends it.
fn skip_group(bytes: &[u8]) -> (r: Result<usize, WireError>)
    ensures
        match group_at(bytes@) {
            Some(n) => r == Ok::<usize, WireError>(n as usize) && n <= bytes@.len(),
            None => r == Err::<usize, WireError>(WireError::Malformed),
        },
{
    let mut pos: usize = 0;
    assert(bytes@.skip(0) =~= bytes@);
    loop
        invariant
            pos <= bytes@.len(),
            group_at(bytes@) == match group_at(bytes@.skip(pos as int)) {
                Some(k) => Some((pos + k) as nat),
                None => None,
            },
        decreases bytes@.len() - pos,
    {
        let ghost s = bytes@.skip(pos as int);
        let rest = vstd::slice::slice_subrange(bytes, pos, bytes.len());
        assert(rest@ =~= s);
        let (_, wire, n) = match read_tag_unpack(rest) {
            Ok(tag) => tag,
            Err(_) => {
                return Err(WireError::Malformed);
            },
        };
        proof {
            lemma_tag_at_len(s);
        }
        if wire == 4 {
            return Ok(pos + n);
        }
        let body = vstd::slice::slice_subrange(rest, n, rest.len());
        assert(body@ =~= s.skip(n as int));
        let m = match read_unknown(body, wire) {
            Ok((_, m)) => m,
            Err(_) => {
                return Err(WireError::Malformed);
            },
        };
        proof {
            lemma_value_at_len(s.skip(n as int), wire);
            assert(s.skip(n as int).skip(m as int) =~= bytes@.skip(pos + n + m));
        }
        pos = pos + n + m;
    }
}

/// Whether every field `number` holds a number.
pub open spec fn holds_numbers(fields: Seq<Field>, number: u32) -> bool {
    forall|i: int|
        0 <= i < fields.len() && (#[trigger] fields[i]).number == number ==> fields[i].value is Varint
}

/// Whether every field `number` holds bytes.
pub open spec fn holds_bytes(fields: Seq<Field>, number: u32) -> bool {
    forall|i: int|
        0 <= i < fields.len() && (#[trigger] fields[i]).number == number ==> fields[i].value is Bytes
}

/// The 32-bit number in the last field `number`, zero where there is none.
pub open spec fn last_number(fields: Seq<Field>, number: u32) -> u32
    decreases fields.len(),
{
    if fields.len() == 0 {
        0
    } else if fields.last().number == number {
        low32(fields.last().value->Varint_0)
    } else {
        last_number(fields.drop_last(), number)
    }
}

/// The bytes in the last field `number`, empty where there is none.
pub open spec fn last_bytes(fields: Seq<Field>, number: u32) -> Seq<u8>
    decreases fields.len(),
{
    if fields.len() == 0 {
        Seq::empty()
    } else if fields.last().number == number {
        fields.last().value->Bytes_0
    } else {
        last_bytes(fields.drop_last(), number)
    }
}

/// The 32-bit number that the message gives field `number`, zero by default. A later field
/// replaces an earlier one.
pub fn uint32_field(fields: &Vec<WireField>, number: u32) -> (r: Result<u32, WireError>)
    ensures
        ({
            let spec_fields = fields@.map_values(|f: WireField| f@);
            r == if holds_numbers(spec_fields, number) {
                Ok::<u32, WireError>(last_number(spec_fields, number))
            } else {
                Err(WireError::WireType)
            }
        }),
{
    let ghost all = fields@.map_values(|f: WireField| f@);
    let mut out: u32 = 0;
    let mut i: usize = 0;
    while i < fields.len()
        invariant
            i <= fields@.len(),
            all == fields@.map_values(|f: WireField| f@),
            holds_numbers(all.take(i as int), number),
            out == last_number(all.take(i as int), number),
        decreases fields@.len() - i,
    {
        let field = &fields[i];
        assert(all[i as int] == field@);
        assert(all.take(i + 1).drop_last() =~= all.take(i as int));
        if field.number == number {
            match &field.value {
                WireValue::Varint(v) => {
                    out = (*v % 0x1_0000_0000) as u32;
                },
                _ => {
                    assert(!holds_numbers(all, number)) by {
                        assert(!(all[i as int].value is Varint));
                    }
                    return Err(WireError::WireType);
                },
            }
        }
        proof {
            assert forall|k: int|
                0 <= k < all.take(i + 1).len() && (#[trigger] all.take(i + 1)[k]).number
                    == number implies all.take(i + 1)[k].value is Varint by {
                if k < i {
                    assert(all.take(i as int)[k] == all[k]);
                }
            }
        }
        i = i + 1;
    }
    assert(all.take(i as int) =~= all);
    Ok(out)
}

/// The bytes that the message gives field `number`, none by default. A later field replaces an
/// earlier one.
pub fn bytes_in_field(fields: &Vec<WireField>, number: u32) -> (r: Result<Vec<u8>, WireError>)
    ensures
        ({
            let spec_fields = fields@.map_values(|f: WireField| f@);
            if holds_bytes(spec_fields, number) {
                r is Ok && r->Ok_0@ == last_bytes(spec_fields, number)
            } else {
                r == Err::<Vec<u8>, WireError>(WireError::WireType)
            }
        }),
{
    let ghost all = fields@.map_values(|f: WireField| f@);
    let mut out: Vec<u8> = Vec::new();
    let mut i: usize = 0;
    while i < fields.len()
        invariant
            i <= fields@.len(),
            all == fields@.map_values(|f: WireField| f@),
            holds_bytes(all.take(i as int), number),
            out@ == last_bytes(all.take(i as int), number),
        decreases fields@.len() - i,
    {
        let field = &fields[i];
        assert(all[i as int] == field@);
        assert(all.take(i + 1).drop_last() =~= all.take(i as int));
        if field.number == number {
            match &field.value {
                WireValue::Bytes(v) => {
                    out = vstd::slice::slice_to_vec(v.as_slice());
                },
                _ => {
                    assert(!holds_bytes(all, number)) by {
                        assert(!(all[i as int].value is Bytes));
                    }
                    return Err(WireError::WireType);
                },
            }
        }
        proof {
            assert forall|k: int|
                0 <= k < all.take(i + 1).len() && (#[trigger] all.take(i + 1)[k]).number
                    == number implies all.take(i + 1)[k].value is Bytes by {
                if k < i {
                    assert(all.take(i as int)[k] == all[k]);
                }
            }
        }
        i = i + 1;
    }
    assert(all.take(i as int) =~= all);
    Ok(out)
}

/// `128^n`.
spec fn base128_range(n: nat) -> nat
    decreases n,
{
    if n == 0 {
        1
    } else {
        128 * base128_range((n - 1) as nat)
    }
}

/// A number in base 128 is read back as it was written.
proof fn lemma_base128_round_trip(v: nat, rest: Seq<u8>, limit: nat)
    requires
        limit > 0,
        v < base128_range(limit),
    ensures
        base128(v).len() >= 1,
        base128_at(base128(v) + rest, limit) == Some((v, base128(v).len())),
    decreases limit,
{
    let s = base128(v) + rest;
    if v < 128 {
        assert(s[0] == v);
    } else {
        assert(limit > 1) by {
            reveal_with_fuel(base128_range, 2);
        }
        lemma_base128_round_trip(v / 128, rest, (limit - 1) as nat);
        assert(s[0] == v % 128 + 128);
        assert(s.skip(1) =~= base128(v / 128) + rest);
    }
}

/// A number of 64 bits fits in ten digits.
proof fn lemma_varint_round_trip(v: u64, rest: Seq<u8>)
    ensures
        base128(v as nat).len() >= 1,
        varint_at(base128(v as nat) + rest) == Some((v, base128(v as nat).len())),
{
    reveal_with_fuel(base128_range, 11);
    lemma_base128_round_trip(v as nat, rest, 10);
}

/// A number of 64 bits takes at most ten bytes.
pub proof fn lemma_base128_len(v: u64)
    ensures
        1 <= base128(v as nat).len() <= 10,
{
    reveal_with_fuel(base128_range, 11);
    lemma_base128_len_within(v as nat, 10);
}

/// A number that fits in `limit` digits has no more.
proof fn lemma_base128_len_within(v: nat, limit: nat)
    requires
        limit > 0,
        v < base128_range(limit),
    ensures
        1 <= base128(v).len() <= limit,
    decreases limit,
{
    if v >= 128 {
        assert(limit > 1) by {
            reveal_with_fuel(base128_range, 2);
        }
        lemma_base128_len_within(v / 128, (limit - 1) as nat);
    }
}

/// A field that holds a number is read back as it was written, in front of the fields that follow
/// it.
pub proof fn number_field_round_trip(number: u32, v: u64, rest: Seq<u8>)
    requires
        0 < number <= 0x1FFF_FFFF,
    ensures
        fields_of(number_field(number, v) + rest) == match fields_of(rest) {
            Some(fields) => Some(seq![Field { number, value: Value::Varint(v) }] + fields),
            None => None,
        },
{
    let s = number_field(number, v) + rest;
    let tag = (number * 8) as u64;
    let n = base128(tag as nat).len() as int;
    let body = base128(v as nat) + rest;
    assert(s =~= base128(tag as nat) + body);
    lemma_varint_round_trip(tag, body);
    lemma_varint_round_trip(v, rest);
    let m = base128(v as nat).len() as int;
    assert(s.skip(n) =~= body);
    assert(low32(tag) == number * 8);
    assert(field_at(s) == Some((Field { number, value: Value::Varint(v) }, (n + m) as nat))) by {
        reveal(field_at);
        assert(tag_at(s) == Some((number, 0u8, n as nat)));
        assert(value_at(body, 0) == Some((Value::Varint(v), m as nat)));
    }
    assert(s.skip(n + m) =~= rest);
}

/// A field that holds bytes is read back as it was written, in front of the fields that follow it.
pub proof fn bytes_field_round_trip(number: u32, v: Seq<u8>, rest: Seq<u8>)
    requires
        0 < number <= 0x1FFF_FFFF,
        v.len() <= u32::MAX,
    ensures
        fields_of(bytes_field(number, v) + rest) == match fields_of(rest) {
            Some(fields) => Some(seq![Field { number, value: Value::Bytes(v) }] + fields),
            None => None,
        },
{
    let s = bytes_field(number, v) + rest;
    let tag = (number * 8 + 2) as u64;
    let n = base128(tag as nat).len() as int;
    let len = v.len() as u64;
    let m = base128(len as nat).len() as int;
    let body = base128(len as nat) + (v + rest);
    assert(s =~= base128(tag as nat) + body);
    lemma_varint_round_trip(tag, body);
    lemma_varint_round_trip(len, v + rest);
    assert(s.skip(n) =~= body);
    assert(low32(tag) == number * 8 + 2);
    assert(low32(len) == len);
    assert(body.subrange(m, m + len) =~= v);
    assert(field_at(s) == Some((Field { number, value: Value::Bytes(v) }, (n + m + len) as nat))) by {
        reveal(field_at);
        assert(tag_at(s) == Some((number, 2u8, n as nat)));
        assert(value_at(body, 2) == Some((Value::Bytes(v), (m + len) as nat)));
    }
    assert(s.skip(n + m + len) =~= rest);
}

/// A number in base 128 is spelled by seven bits a byte, the low-order ones first, and every byte
/// but the last has its top bit set.
pub proof fn numbers_are_spelled(v: nat)
    ensures
        v < 0x80 ==> base128(v) == seq![v as u8],
        v >= 0x80 ==> base128(v) == seq![(0x80 + v % 0x80) as u8] + base128(v / 0x80),
{
}

/// A number in base 128 is read byte by byte: a byte below 0x80 ends it, and another one adds
/// seven bits below what follows it.
pub proof fn numbers_are_read(s: Seq<u8>, limit: nat)
    ensures
        s.len() == 0 || limit == 0 ==> base128_at(s, limit) is None,
        s.len() > 0 && limit > 0 && s[0] < 0x80 ==> base128_at(s, limit) == Some(
            (s[0] as nat, 1nat),
        ),
        s.len() > 0 && limit > 0 && s[0] >= 0x80 ==> match base128_at(
            s.skip(1),
            (limit - 1) as nat,
        ) {
            Some((v, n)) => base128_at(s, limit) == Some(
                ((s[0] - 0x80 + 0x80 * v) as nat, n + 1),
            ),
            None => base128_at(s, limit) is None,
        },
{
}

/// A tag is a number of at most ten bytes. Of its low 32 bits the last three are the wire type,
/// and the others the field number.
pub proof fn tags_are_read(s: Seq<u8>, v: nat, n: nat)
    requires
        base128_at(s, 10) == Some((v, n)),
    ensures
        v % 8 <= 5 && v % 0x1_0000_0000 >= 8 ==> tag_at(s) == Some(
            ((v % 0x1_0000_0000 / 8) as u32, (v % 8) as u8, n),
        ),
        v % 8 > 5 || v % 0x1_0000_0000 < 8 ==> tag_at(s) is None,
{
    lemma_low_bits(v);
}

/// Cutting a number to 64 bits leaves its low 32 bits as they were, and its low three bits.
proof fn lemma_low_bits(v: nat)
    ensures
        v % 0x1_0000_0000_0000_0000 % 0x1_0000_0000 == v % 0x1_0000_0000,
        v % 0x1_0000_0000 % 8 == v % 8,
{
    assert(0x1_0000_0000int * 0x1_0000_0000 == 0x1_0000_0000_0000_0000);
    assert(8int * 0x2000_0000 == 0x1_0000_0000);
    vstd::arithmetic::div_mod::lemma_mod_mod(v as int, 0x1_0000_0000, 0x1_0000_0000);
    vstd::arithmetic::div_mod::lemma_mod_mod(v as int, 8, 0x2000_0000);
}

/// A value of each wire type: a number of at most ten bytes, of which 64 bits count; eight or four
/// bytes, the low-order ones first; or a length and as many bytes.
pub proof fn values_are_read(s: Seq<u8>, wire: u8)
    ensures
        base128_at(s, 10) is None ==> tag_at(s) is None && value_at(s, 0) is None && value_at(
            s,
            2,
        ) is None,
        base128_at(s, 10) matches Some((v, n)) ==> value_at(s, 0) == Some(
            (Value::Varint((v % 0x1_0000_0000_0000_0000) as u64), n),
        ),
        s.len() >= 8 ==> value_at(s, 1) == Some(
            (
                Value::Fixed64(
                    (s[0] + 0x100 * s[1] + 0x1_0000 * s[2] + 0x100_0000 * s[3] + 0x1_0000_0000
                        * s[4] + 0x100_0000_0000 * s[5] + 0x1_0000_0000_0000 * s[6]
                        + 0x100_0000_0000_0000 * s[7]) as u64,
                ),
                8nat,
            ),
        ),
        s.len() < 8 ==> value_at(s, 1) is None,
        base128_at(s, 10) matches Some((v, n)) ==> value_at(s, 2) == if n + v % 0x1_0000_0000
            <= s.len() {
            Some(
                (
                    Value::Bytes(s.subrange(n as int, (n + v % 0x1_0000_0000) as int)),
                    n + v % 0x1_0000_0000,
                ),
            )
        } else {
            None
        },
        s.len() >= 4 ==> value_at(s, 5) == Some(
            (
                Value::Fixed32(
                    (s[0] + 0x100 * s[1] + 0x1_0000 * s[2] + 0x100_0000 * s[3]) as u32,
                ),
                4nat,
            ),
        ),
        s.len() < 4 ==> value_at(s, 5) is None,
        wire != 0 && wire != 1 && wire != 2 && wire != 5 ==> value_at(s, wire) is None,
{
    if let Some((v, _)) = base128_at(s, 10) {
        lemma_low_bits(v);
    }
    network::bytes_spell(s.take(8).reverse());
    network::bytes_spell(s.take(4).reverse());
}

/// A message is its first field and then the message of what follows. A field is a tag and a value
/// of the tag's wire type, or a tag that opens a group and the fields up to one that closes it.
pub proof fn fields_follow_each_other(s: Seq<u8>)
    ensures
        s.len() == 0 ==> fields_of(s) == Some(Seq::<Field>::empty()),
        s.len() > 0 && tag_at(s) is None ==> fields_of(s) is None && group_at(s) is None,
        s.len() > 0 ==> (tag_at(s) matches Some((number, wire, n)) ==> {
            let body = s.skip(n as int);
            &&& wire == 4 ==> group_at(s) == Some(n)
            &&& wire != 4 ==> group_at(s) == match value_at(body, wire) {
                Some((_, m)) => match group_at(body.skip(m as int)) {
                    Some(k) => Some(n + m + k),
                    None => None,
                },
                None => None,
            }
            &&& wire == 3 ==> fields_of(s) == match group_at(body) {
                Some(k) => match fields_of(body.skip(k as int)) {
                    Some(rest) => Some(seq![Field { number, value: Value::Group }] + rest),
                    None => None,
                },
                None => None,
            }
            &&& wire != 3 ==> fields_of(s) == match value_at(body, wire) {
                Some((value, m)) => match fields_of(body.skip(m as int)) {
                    Some(rest) => Some(seq![Field { number, value }] + rest),
                    None => None,
                },
                None => None,
            }
        }),
{
    reveal(field_at);
    if let Some((_, wire, n)) = tag_at(s) {
        let body = s.skip(n as int);
        lemma_tag_at_len(s);
        if wire == 3 {
            lemma_group_at_len(body);
            if let Some(k) = group_at(body) {
                assert(body.skip(k as int) =~= s.skip((n + k) as int));
            }
        } else {
            lemma_value_at_len(body, wire);
            if let Some((_, m)) = value_at(body, wire) {
                assert(body.skip(m as int) =~= s.skip((n + m) as int));
            }
        }
    }
}

/// The number of a message's field `number` is the one in the last such field, whatever fields of
/// other numbers stand around it.
pub proof fn lemma_last_number(fields: Seq<Field>, number: u32, i: int)
    requires
        0 <= i < fields.len(),
        fields[i].number == number,
        forall|j: int| i < j < fields.len() ==> (#[trigger] fields[j]).number != number,
    ensures
        last_number(fields, number) == low32(fields[i].value->Varint_0),
        last_bytes(fields, number) == fields[i].value->Bytes_0,
    decreases fields.len(),
{
    if i < fields.len() - 1 {
        assert(fields[fields.len() - 1].number != number);
        assert forall|j: int| i < j < fields.drop_last().len() implies (
        #[trigger] fields.drop_last()[j]).number != number by {
            assert(fields[j].number != number);
        }
        lemma_last_number(fields.drop_last(), number, i);
    }
}

/// Without such a field there is none that counts.
pub proof fn lemma_no_number(fields: Seq<Field>, number: u32)
    requires
        forall|j: int| 0 <= j < fields.len() ==> (#[trigger] fields[j]).number != number,
    ensures
        last_number(fields, number) == 0,
        last_bytes(fields, number) == Seq::<u8>::empty(),
    decreases fields.len(),
{
    if fields.len() > 0 {
        assert(fields[fields.len() - 1].number != number);
        assert forall|j: int| 0 <= j < fields.drop_last().len() implies (
        #[trigger] fields.drop_last()[j]).number != number by {
            assert(fields[j].number != number);
        }
        lemma_no_number(fields.drop_last(), number);
    }
}

/// The number that is read of a field is the one in the last field of that number, cut to 32 bits,
/// whatever fields of other numbers stand before or after it; zero where there is none; and it is
/// refused exactly where some field of that number holds something else.
pub proof fn last_number_counts(fields: &Vec<WireField>, number: u32, r: Result<u32, WireError>, i: int)
    requires
        call_ensures(uint32_field, (fields, number), r),
    ensures
        r is Err <==> exists|j: int|
            0 <= j < fields@.len() && (#[trigger] fields@[j]).number == number && !(
            fields@[j].value is Varint),
        r matches Err(e) ==> e == WireError::WireType,
        r is Ok && 0 <= i < fields@.len() && fields@[i].number == number && (forall|j: int|
            i < j < fields@.len() ==> (#[trigger] fields@[j]).number != number) ==> r->Ok_0
            == fields@[i].value->Varint_0 as nat % 0x1_0000_0000,
        r is Ok && (forall|j: int|
            0 <= j < fields@.len() ==> (#[trigger] fields@[j]).number != number) ==> r->Ok_0 == 0,
{
    let all = fields@.map_values(|f: WireField| f@);
    assert forall|j: int| 0 <= j < fields@.len() implies (#[trigger] fields@[j]).number
        == all[j].number && (fields@[j].value is Varint <==> all[j].value is Varint) by {}
    if r is Err {
        let j = choose|j: int|
            0 <= j < all.len() && (#[trigger] all[j]).number == number && !(
            all[j].value is Varint);
        assert(fields@[j].number == number);
    }
    if 0 <= i < fields@.len() && fields@[i].number == number && (forall|j: int|
        i < j < fields@.len() ==> (#[trigger] fields@[j]).number != number) {
        assert forall|j: int| i < j < all.len() implies (#[trigger] all[j]).number != number by {
            assert(fields@[j].number != number);
        }
        lemma_last_number(all, number, i);
        assert(all[i] == fields@[i]@);
    }
    if forall|j: int| 0 <= j < fields@.len() ==> (#[trigger] fields@[j]).number != number {
        assert forall|j: int| 0 <= j < all.len() implies (#[trigger] all[j]).number != number by {
            assert(fields@[j].number != number);
        }
        lemma_no_number(all, number);
    }
}

/// The bytes that are read of a field are those in the last field of that number, whatever fields
/// of other numbers stand before or after it; none where there is no such field; and they are
/// refused exactly where some field of that number holds something else.
pub proof fn last_bytes_count(
    fields: &Vec<WireField>,
    number: u32,
    r: Result<Vec<u8>, WireError>,
    i: int,
)
    requires
        call_ensures(bytes_in_field, (fields, number), r),
    ensures
        r is Err <==> exists|j: int|
            0 <= j < fields@.len() && (#[trigger] fields@[j]).number == number && !(
            fields@[j].value is Bytes),
        r matches Err(e) ==> e == WireError::WireType,
        r is Ok && 0 <= i < fields@.len() && fields@[i].number == number && (forall|j: int|
            i < j < fields@.len() ==> (#[trigger] fields@[j]).number != number) ==> r->Ok_0@
            == fields@[i].value->Bytes_0@,
        r is Ok && (forall|j: int|
            0 <= j < fields@.len() ==> (#[trigger] fields@[j]).number != number) ==> r->Ok_0@.len()
            == 0,
{
    let all = fields@.map_values(|f: WireField| f@);
    assert forall|j: int| 0 <= j < fields@.len() implies (#[trigger] fields@[j]).number
        == all[j].number && (fields@[j].value is Bytes <==> all[j].value is Bytes) by {}
    if r is Err {
        let j = choose|j: int|
            0 <= j < all.len() && (#[trigger] all[j]).number == number && !(all[j].value is Bytes);
        assert(fields@[j].number == number);
    }
    if r is Ok && 0 <= i < fields@.len() && fields@[i].number == number && (forall|j: int|
        i < j < fields@.len() ==> (#[trigger] fields@[j]).number != number) {
        assert forall|j: int| i < j < all.len() implies (#[trigger] all[j]).number != number by {
            assert(fields@[j].number != number);
        }
        lemma_last_number(all, number, i);
        assert(all[i] == fields@[i]@);
        assert(all[i].value is Bytes);
    }
    if forall|j: int| 0 <= j < fields@.len() ==> (#[trigger] fields@[j]).number != number {
        assert forall|j: int| 0 <= j < all.len() implies (#[trigger] all[j]).number != number by {
            assert(fields@[j].number != number);
        }
        lemma_no_number(all, number);
    }
}

/// What is parsed are the fields of the message, one for one, each with its number and its value.
pub proof fn fields_are_parsed(bytes: &[u8], r: Result<Vec<WireField>, WireError>, i: int)
    requires
        call_ensures(parse_fields, (bytes,), r),
    ensures
        r is Ok <==> fields_of(bytes@) is Some,
        r matches Err(e) ==> e == WireError::Malformed,
        r is Ok ==> r->Ok_0@.len() == fields_of(bytes@)->Some_0.len(),
        r is Ok && 0 <= i < r->Ok_0@.len() ==> {
            let field = fields_of(bytes@)->Some_0[i];
            &&& r->Ok_0@[i].number == field.number
            &&& match r->Ok_0@[i].value {
                WireValue::Varint(v) => field.value == Value::Varint(v),
                WireValue::Fixed64(v) => field.value == Value::Fixed64(v),
                WireValue::Bytes(v) => field.value == Value::Bytes(v@),
                WireValue::Group => field.value == Value::Group,
                WireValue::Fixed32(v) => field.value == Value::Fixed32(v),
            }
        },
{
    if r is Ok && 0 <= i < r->Ok_0@.len() {
        let field = fields_of(bytes@)->Some_0[i];
        assert(field == r->Ok_0@[i]@);
    }
}

} // verus!
