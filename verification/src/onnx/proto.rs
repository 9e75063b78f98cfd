//! The protobuf wire format, as far as reading and rewriting ONNX models
//! needs it.

use vstd::arithmetic::power::*;
use vstd::prelude::*;
use vstd::utf8::*;

verus! {

/// Why a message could not be read.
#[derive(Debug, Clone, Copy, PartialEq, Eq, Structural)]
pub enum ProtoError {
    VarintTruncated,
    VarintTooLong,
    ZeroFieldNumber,
    Fixed64OffsetOverflow,
    Fixed64ExceedsMessage,
    LengthTooLarge,
    LengthOffsetOverflow,
    LengthExceedsMessage,
    Fixed32OffsetOverflow,
    Fixed32ExceedsMessage,
    UnsupportedWireType { wire_type: u8 },
    NotLengthDelimited { number: u32 },
    InvalidUtf8 { number: u32 },
}

/// Where one field of a message stands: its key starts at `start`, its
/// payload spans `data_start..data_end`, and the next field starts at `end`.
#[derive(Clone, Copy, Debug, PartialEq, Eq, Structural)]
pub struct ProtoField {
    pub number: u32,
    pub wire_type: u8,
    pub start: usize,
    pub data_start: usize,
    pub data_end: usize,
    pub end: usize,
}

impl ProtoField {
    /// A length-delimited field with this number.
    pub open spec fn is_message(self, number: u32) -> bool {
        self.number == number && self.wire_type == 2
    }

    /// The field's spans lie in order within a message of `len` bytes.
    pub open spec fn within(self, len: nat) -> bool {
        self.start < self.data_start <= self.data_end <= self.end <= len
    }

    /// The field as it stands in `bytes`, its key included.
    pub open spec fn raw(self, bytes: Seq<u8>) -> Seq<u8> {
        bytes.subrange(self.start as int, self.end as int)
    }

    /// The field's payload in `bytes`.
    pub open spec fn payload(self, bytes: Seq<u8>) -> Seq<u8> {
        bytes.subrange(self.data_start as int, self.data_end as int)
    }
}

/// The most groups of seven bits that a 64-bit varint takes.
pub const MAX_VARINT_BYTES: usize = 10;

/// Where the varint at `position` ends, if it does within `groups` bytes.
pub open spec fn varint_end(bytes: Seq<u8>, position: int, groups: nat) -> Result<int, ProtoError>
    decreases groups,
{
    if groups == 0 {
        Err(ProtoError::VarintTooLong)
    } else if position >= bytes.len() {
        Err(ProtoError::VarintTruncated)
    } else if bytes[position] < 128 {
        Ok(position + 1)
    } else {
        varint_end(bytes, position + 1, (groups - 1) as nat)
    }
}

/// The number that groups of seven bits spell, the lowest group first.
pub open spec fn varint_sum(groups: Seq<u8>) -> nat
    decreases groups.len(),
{
    if groups.len() == 0 {
        0
    } else {
        (groups[0] % 128) as nat + 128 * varint_sum(groups.drop_first())
    }
}

/// The varint at `position`, modulo two to the sixty-fourth, and where it ends.
pub open spec fn varint_at(bytes: Seq<u8>, position: int) -> Result<(u64, int), ProtoError> {
    match varint_end(bytes, position, MAX_VARINT_BYTES as nat) {
        Ok(end) => Ok(
            (
                (varint_sum(bytes.subrange(position, end)) % 0x1_0000_0000_0000_0000) as u64,
                end,
            ),
        ),
        Err(error) => Err(error),
    }
}

/// The canonical encoding of a number as a varint.
pub open spec fn varint_bytes(value: nat) -> Seq<u8>
    decreases value,
{
    if value < 128 {
        seq![value as u8]
    } else {
        seq![(value % 128 + 128) as u8] + varint_bytes(value / 128)
    }
}

proof fn lemma_varint_end_bounds(bytes: Seq<u8>, position: int, groups: nat)
    requires
        0 <= position,
    ensures
        varint_end(bytes, position, groups) matches Ok(end) ==> position < end <= bytes.len()
            && end <= position + groups,
    decreases groups,
{
    if groups > 0 && position < bytes.len() && bytes[position] >= 128 {
        lemma_varint_end_bounds(bytes, position + 1, (groups - 1) as nat);
    }
}

proof fn lemma_varint_sum_push(groups: Seq<u8>, group: u8)
    ensures
        varint_sum(groups.push(group)) == varint_sum(groups) + (group % 128) * pow(
            128,
            groups.len(),
        ),
    decreases groups.len(),
{
    reveal(pow);
    if groups.len() == 0 {
        assert(groups.push(group).drop_first() =~= Seq::<u8>::empty());
        assert(varint_sum(Seq::<u8>::empty()) == 0);
    } else {
        let rest = groups.drop_first();
        assert(groups.push(group).drop_first() =~= rest.push(group));
        lemma_varint_sum_push(rest, group);
        let weight = pow(128, rest.len());
        let high = (group % 128) as int;
        assert(128 * (varint_sum(rest) + high * weight) == 128 * varint_sum(rest) + high * (128
            * weight)) by (nonlinear_arith);
    }
}

proof fn lemma_varint_sum_bound(groups: Seq<u8>)
    ensures
        varint_sum(groups) < pow(128, groups.len()),
    decreases groups.len(),
{
    reveal(pow);
    if groups.len() > 0 {
        lemma_varint_sum_bound(groups.drop_first());
    }
}

/// Seven bits more, as many groups up as have been read.
proof fn lemma_add_group(value: u64, group: u64, taken: u64)
    requires
        taken <= 9,
        group < 128,
        value < pow(128, taken as nat),
    ensures
        (value | (group << (7 * taken) as u64)) == (value + group * pow(128, taken as nat))
            % 0x1_0000_0000_0000_0000,
{
    reveal_with_fuel(pow, 11);
    let shift: u64 = (7 * taken) as u64;
    if taken < 9 {
        assert(value < 1u64 << shift && shift <= 56 && group < 128 ==> (value | (group << shift))
            == value + group * (1u64 << shift) && value + group * (1u64 << shift)
            <= 0x7fff_ffff_ffff_ffff) by (bit_vector);
    } else {
        assert(value < 1u64 << 63 && group < 128 ==> (value | (group << 63)) == value + (group % 2)
            * 0x8000_0000_0000_0000) by (bit_vector);
    }
    assert(1u64 << 0 == 1 && 1u64 << 7 == 128 && 1u64 << 14 == 16384 && 1u64 << 21 == 2097152
        && 1u64 << 28 == 268435456 && 1u64 << 35 == 34359738368 && 1u64 << 42 == 4398046511104
        && 1u64 << 49 == 562949953421312 && 1u64 << 56 == 72057594037927936 && 1u64 << 63
        == 9223372036854775808) by (bit_vector);
    assert(pow(128, 9) == 9223372036854775808);
}

/// Reads the varint that starts at `position`.
pub fn read_varint(bytes: &[u8], position: usize) -> (result: Result<(u64, usize), ProtoError>)
    ensures
        match (result, varint_at(bytes@, position as int)) {
            (Ok(read), Ok(expected)) => read.0 == expected.0 && read.1 == expected.1,
            (Err(error), Err(expected)) => error == expected,
            _ => false,
        },
        result matches Ok(read) ==> position < read.1 <= bytes@.len(),
{
    let mut value: u64 = 0;
    let mut taken: usize = 0;
    let mut next: usize = position;
    proof {
        reveal(pow);
        if position <= bytes@.len() {
            assert(bytes@.subrange(position as int, position as int) =~= Seq::<u8>::empty());
        }
    }
    while taken < MAX_VARINT_BYTES
        invariant
            taken <= 10,
            next == position + taken,
            taken > 0 ==> next <= bytes@.len(),
            forall|i: int| position <= i < next ==> bytes@[i] >= 128,
            taken <= 9 && next <= bytes@.len() ==> value == varint_sum(bytes@.subrange(position as int, next as int)),
            varint_end(bytes@, position as int, 10) == varint_end(
                bytes@,
                next as int,
                (10 - taken) as nat,
            ),
        decreases 10 - taken,
    {
        if next >= bytes.len() {
            return Err(ProtoError::VarintTruncated);
        }
        let byte: u8 = bytes[next];
        let group: u64 = (byte & 0x7f) as u64;
        assert(byte & 0x7f == byte % 128) by (bit_vector);
        assert(byte & 0x80 == 0 <==> byte < 128) by (bit_vector);
        let ghost read = bytes@.subrange(position as int, next as int);
        proof {
            lemma_varint_sum_bound(read);
            lemma_add_group(value, group, taken as u64);
            lemma_varint_sum_push(read, byte);
            assert(read.push(byte) =~= bytes@.subrange(position as int, next + 1));
            lemma_varint_sum_bound(read.push(byte));
            reveal_with_fuel(pow, 11);
        }
        value = value | (group << (7 * taken as u64));
        next = next + 1;
        taken = taken + 1;
        if byte & 0x80 == 0 {
            return Ok((value, next));
        }
    }
    Err(ProtoError::VarintTooLong)
}

/// Appends the canonical varint of `value`.
pub fn encode_varint(value: u64, out: &mut Vec<u8>)
    ensures
        final(out)@ == old(out)@ + varint_bytes(value as nat),
{
    let mut rest: u64 = value;
    while rest >= 0x80
        invariant
            out@ + varint_bytes(rest as nat) == old(out)@ + varint_bytes(value as nat),
        decreases rest,
    {
        let ghost before = out@;
        assert((rest as u8 & 0x7f) | 0x80 == (rest % 128) + 128) by (bit_vector);
        assert(rest >> 7 == rest / 128) by (bit_vector);
        out.push((rest as u8 & 0x7f) | 0x80);
        assert(out@ + varint_bytes(rest as nat / 128) =~= before + varint_bytes(rest as nat));
        rest = rest >> 7;
    }
    let ghost before = out@;
    out.push(rest as u8);
    assert(out@ =~= before + varint_bytes(rest as nat));
}

/// The field whose key starts at `position`.
pub open spec fn field_at(bytes: Seq<u8>, position: int) -> Result<ProtoField, ProtoError> {
    match varint_at(bytes, position) {
        Err(error) => Err(error),
        Ok((key, data)) => {
            let number = (key / 8 % 0x1_0000_0000) as u32;
            let wire_type = (key % 8) as u8;
            if number == 0 {
                Err(ProtoError::ZeroFieldNumber)
            } else if wire_type == 0 {
                match varint_at(bytes, data) {
                    Err(error) => Err(error),
                    Ok((_, end)) => Ok(spanning(number, wire_type, position, data, end)),
                }
            } else if wire_type == 1 {
                if data + 8 > usize::MAX {
                    Err(ProtoError::Fixed64OffsetOverflow)
                } else if data + 8 > bytes.len() {
                    Err(ProtoError::Fixed64ExceedsMessage)
                } else {
                    Ok(spanning(number, wire_type, position, data, data + 8))
                }
            } else if wire_type == 2 {
                match varint_at(bytes, data) {
                    Err(error) => Err(error),
                    Ok((len, payload)) => if len > usize::MAX {
                        Err(ProtoError::LengthTooLarge)
                    } else if payload + len > usize::MAX {
                        Err(ProtoError::LengthOffsetOverflow)
                    } else if payload + len > bytes.len() {
                        Err(ProtoError::LengthExceedsMessage)
                    } else {
                        Ok(spanning(number, wire_type, position, payload, payload + len))
                    },
                }
            } else if wire_type == 5 {
                if data + 4 > usize::MAX {
                    Err(ProtoError::Fixed32OffsetOverflow)
                } else if data + 4 > bytes.len() {
                    Err(ProtoError::Fixed32ExceedsMessage)
                } else {
                    Ok(spanning(number, wire_type, position, data, data + 4))
                }
            } else {
                Err(ProtoError::UnsupportedWireType { wire_type })
            }
        },
    }
}

/// A field whose payload is the last thing in it.
pub open spec fn spanning(
    number: u32,
    wire_type: u8,
    start: int,
    data_start: int,
    end: int,
) -> ProtoField {
    ProtoField {
        number,
        wire_type,
        start: start as usize,
        data_start: data_start as usize,
        data_end: end as usize,
        end: end as usize,
    }
}

proof fn lemma_varint_at_bounds(bytes: Seq<u8>, position: int)
    requires
        0 <= position,
    ensures
        varint_at(bytes, position) matches Ok((_, end)) ==> position < end <= bytes.len(),
{
    lemma_varint_end_bounds(bytes, position, MAX_VARINT_BYTES as nat);
}

/// A field that was read lies within the message and is not empty.
pub proof fn lemma_field_at_within(bytes: Seq<u8>, position: int)
    requires
        0 <= position,
        bytes.len() <= usize::MAX,
    ensures
        field_at(bytes, position) matches Ok(field) ==> field.within(bytes.len()) && field.start
            == position && field.data_end == field.end,
{
    lemma_varint_at_bounds(bytes, position);
    if let Ok((_, data)) = varint_at(bytes, position) {
        lemma_varint_at_bounds(bytes, data);
    }
}

/// The fields of a message from `position` on, up to its end.
pub open spec fn fields_from(bytes: Seq<u8>, position: int) -> Result<Seq<ProtoField>, ProtoError>
    decreases bytes.len() - position,
{
    if position >= bytes.len() {
        Ok(Seq::empty())
    } else {
        match field_at(bytes, position) {
            Err(error) => Err(error),
            Ok(field) => if position < field.end <= bytes.len() {
                match fields_from(bytes, field.end as int) {
                    Err(error) => Err(error),
                    Ok(rest) => Ok(seq![field] + rest),
                }
            } else {
                Err(ProtoError::LengthExceedsMessage)
            },
        }
    }
}

/// The fields of a message in the order in which they stand.
pub open spec fn proto_fields(bytes: Seq<u8>) -> Result<Seq<ProtoField>, ProtoError> {
    fields_from(bytes, 0)
}

/// The fields lie back to back from `position` to the end of the message.
pub open spec fn tiles(fields: Seq<ProtoField>, position: int, len: nat) -> bool {
    &&& forall|i: int| 0 <= i < fields.len() ==> (#[trigger] fields[i]).within(len)
    &&& forall|i: int, j: int|
        0 <= i < j < fields.len() ==> (#[trigger] fields[i]).end <= (#[trigger] fields[j]).start
            && (j == i + 1 ==> fields[i].end == fields[j].start)
    &&& if fields.len() == 0 {
        position >= len
    } else {
        fields.first().start == position && fields.last().end == len
    }
}

/// The fields of a message leave no gap and do not overlap.
pub proof fn law_fields_tile_the_message(bytes: Seq<u8>, position: int)
    requires
        0 <= position,
        bytes.len() <= usize::MAX,
    ensures
        fields_from(bytes, position) matches Ok(fields) ==> tiles(fields, position, bytes.len()),
    decreases bytes.len() - position,
{
    if position < bytes.len() {
        lemma_field_at_within(bytes, position);
        if let Ok(field) = field_at(bytes, position) {
            law_fields_tile_the_message(bytes, field.end as int);
            if let Ok(rest) = fields_from(bytes, field.end as int) {
                let fields = seq![field] + rest;
                assert forall|i: int| 0 <= i < fields.len() implies (#[trigger] fields[i]).within(
                    bytes.len(),
                ) by {
                    assert(i > 0 ==> fields[i] == rest[i - 1]);
                }
                assert forall|i: int, j: int| 0 <= i < j < fields.len() implies (
                #[trigger] fields[i]).end <= (#[trigger] fields[j]).start && (j == i + 1
                    ==> fields[i].end == fields[j].start) by {
                    assert(fields[j] == rest[j - 1]);
                    assert(rest[0].within(bytes.len()));
                    assert(i > 0 ==> fields[i] == rest[i - 1]);
                }
                assert(rest.len() > 0 ==> fields.last() == rest.last());
            }
        }
    }
}

/// Splits a message into its fields.
pub fn parse_proto_fields(bytes: &[u8]) -> (result: Result<Vec<ProtoField>, ProtoError>)
    ensures
        match (result, proto_fields(bytes@)) {
            (Ok(fields), Ok(expected)) => fields@ == expected,
            (Err(error), Err(expected)) => error == expected,
            _ => false,
        },
        result matches Ok(fields) ==> tiles(fields@, 0, bytes@.len()),
{
    let mut fields: Vec<ProtoField> = Vec::new();
    let mut position: usize = 0;
    let total: usize = bytes.len();
    proof {
        law_fields_tile_the_message(bytes@, 0);
    }
    while position < total
        invariant
            total == bytes@.len(),
            position <= total,
            match (proto_fields(bytes@), fields_from(bytes@, position as int)) {
                (Ok(all), Ok(rest)) => all == fields@ + rest,
                (Err(error), Err(later)) => error == later,
                _ => false,
            },
            proto_fields(bytes@) matches Ok(all) ==> tiles(all, 0, bytes@.len()),
        decreases bytes@.len() - position,
    {
        let start: usize = position;
        proof {
            lemma_field_at_within(bytes@, start as int);
        }
        let (key, data) = match read_varint(bytes, position) {
            Ok(read) => read,
            Err(error) => return Err(error),
        };
        assert(key >> 3 == key / 8) by (bit_vector);
        assert(key & 0x07 == key % 8) by (bit_vector);
        let shifted: u64 = key >> 3;
        assert(shifted as u32 == shifted % 0x1_0000_0000) by (bit_vector);
        let number: u32 = (key >> 3) as u32;
        let wire_type: u8 = (key & 0x07) as u8;
        if number == 0 {
            return Err(ProtoError::ZeroFieldNumber);
        }
        let (data_start, end): (usize, usize) = match wire_type {
            0 => match read_varint(bytes, data) {
                Ok((_, end)) => (data, end),
                Err(error) => return Err(error),
            },
            1 => match data.checked_add(8) {
                Some(end) => {
                    if end > total {
                        return Err(ProtoError::Fixed64ExceedsMessage);
                    }
                    (data, end)
                },
                None => return Err(ProtoError::Fixed64OffsetOverflow),
            },
            2 => match read_varint(bytes, data) {
                Ok((len, payload)) => {
                    if len > usize::MAX as u64 {
                        return Err(ProtoError::LengthTooLarge);
                    }
                    match payload.checked_add(len as usize) {
                        Some(end) => {
                            if end > total {
                                return Err(ProtoError::LengthExceedsMessage);
                            }
                            (payload, end)
                        },
                        None => return Err(ProtoError::LengthOffsetOverflow),
                    }
                },
                Err(error) => return Err(error),
            },
            5 => match data.checked_add(4) {
                Some(end) => {
                    if end > total {
                        return Err(ProtoError::Fixed32ExceedsMessage);
                    }
                    (data, end)
                },
                None => return Err(ProtoError::Fixed32OffsetOverflow),
            },
            _ => return Err(ProtoError::UnsupportedWireType { wire_type }),
        };
        let field = ProtoField { number, wire_type, start, data_start, data_end: end, end };
        assert(field_at(bytes@, start as int) == Ok::<ProtoField, ProtoError>(field));
        let ghost before = fields@;
        fields.push(field);
        proof {
            if let Ok(rest) = fields_from(bytes@, end as int) {
                assert(fields@ + rest =~= before + (seq![field] + rest));
            }
        }
        position = end;
    }
    assert(fields@ + Seq::<ProtoField>::empty() =~= fields@);
    Ok(fields)
}

/// The text that a length-delimited field holds.
pub open spec fn field_text(bytes: Seq<u8>, field: ProtoField) -> Result<Seq<char>, ProtoError> {
    if field.wire_type != 2 {
        Err(ProtoError::NotLengthDelimited { number: field.number })
    } else if valid_utf8(field.payload(bytes)) {
        Ok(decode_utf8(field.payload(bytes)))
    } else {
        Err(ProtoError::InvalidUtf8 { number: field.number })
    }
}

/// Calls `std::str::from_utf8`: it yields the text that the bytes encode
/// exactly when they are valid UTF-8.
#[verifier::external_body]
fn utf8_text(bytes: &[u8]) -> (result: Option<&str>)
    ensures
        result is Some <==> valid_utf8(bytes@),
        result matches Some(text) ==> text@ == decode_utf8(bytes@),
{
    std::str::from_utf8(bytes).ok()
}

/// Reads a field as text.
pub fn read_proto_string(bytes: &[u8], field: ProtoField) -> (result: Result<String, ProtoError>)
    requires
        field.data_start <= field.data_end <= bytes@.len(),
    ensures
        match (result, field_text(bytes@, field)) {
            (Ok(text), Ok(expected)) => text@ == expected,
            (Err(error), Err(expected)) => error == expected,
            _ => false,
        },
{
    if field.wire_type != 2 {
        return Err(ProtoError::NotLengthDelimited { number: field.number });
    }
    match utf8_text(&bytes[field.data_start..field.data_end]) {
        Some(text) => Ok(text.to_owned()),
        None => Err(ProtoError::InvalidUtf8 { number: field.number }),
    }
}

/// A field's key.
pub open spec fn key_bytes(number: u32, wire_type: u8) -> Seq<u8> {
    varint_bytes((number * 8 + wire_type) as nat)
}

/// A length-delimited field.
pub open spec fn message_field(number: u32, payload: Seq<u8>) -> Seq<u8> {
    key_bytes(number, 2) + varint_bytes(payload.len()) + payload
}

/// A length-delimited field that holds text.
pub open spec fn text_field(number: u32, text: Seq<char>) -> Seq<u8> {
    message_field(number, encode_utf8(text))
}

/// A varint field.
pub open spec fn varint_field(number: u32, value: u64) -> Seq<u8> {
    key_bytes(number, 0) + varint_bytes(value as nat)
}

fn encode_key(number: u32, wire_type: u8, out: &mut Vec<u8>)
    requires
        wire_type < 8,
    ensures
        final(out)@ == old(out)@ + key_bytes(number, wire_type),
{
    let wide: u64 = number as u64;
    let low: u64 = wire_type as u64;
    assert(wide <= 0xffff_ffff && low < 8 ==> ((wide << 3) | low) == wide * 8 + low)
        by (bit_vector);
    encode_varint((wide << 3) | low, out);
}

pub fn encode_length_delimited_field(number: u32, payload: &[u8], out: &mut Vec<u8>)
    ensures
        final(out)@ == old(out)@ + message_field(number, payload@),
{
    let ghost before = out@;
    encode_key(number, 2, out);
    encode_varint(payload.len() as u64, out);
    out.extend_from_slice(payload);
    assert(out@ =~= before + message_field(number, payload@));
}

pub fn encode_string_field(number: u32, value: &str, out: &mut Vec<u8>)
    ensures
        final(out)@ == old(out)@ + text_field(number, value@),
{
    encode_length_delimited_field(number, value.as_bytes(), out);
}

pub fn encode_varint_field(number: u32, value: u64, out: &mut Vec<u8>)
    ensures
        final(out)@ == old(out)@ + varint_field(number, value),
{
    let ghost before = out@;
    encode_key(number, 0, out);
    encode_varint(value, out);
    assert(out@ =~= before + varint_field(number, value));
}

proof fn lemma_varint_bytes_len(value: nat, groups: nat)
    requires
        groups > 0,
        value < pow(128, groups),
    ensures
        0 < varint_bytes(value).len() <= groups,
    decreases groups,
{
    reveal(pow);
    if value >= 128 {
        if groups == 1 {
            assert(pow(128, 1) == 128) by {
                assert(pow(128, 0) == 1);
            }
        }
        let rest = pow(128, (groups - 1) as nat);
        assert(value / 128 < rest) by (nonlinear_arith)
            requires
                value < 128 * rest,
        ;
        lemma_varint_bytes_len(value / 128, (groups - 1) as nat);
    }
}

proof fn lemma_varint_bytes_sum(value: nat)
    ensures
        varint_sum(varint_bytes(value)) == value,
    decreases value,
{
    let bytes = varint_bytes(value);
    if value < 128 {
        assert(bytes.drop_first() =~= Seq::<u8>::empty());
        assert(varint_sum(Seq::<u8>::empty()) == 0);
    } else {
        lemma_varint_bytes_sum(value / 128);
        assert(bytes.drop_first() =~= varint_bytes(value / 128));
        assert(bytes[0] % 128 == value % 128);
    }
}

proof fn lemma_varint_bytes_end(before: Seq<u8>, value: nat, after: Seq<u8>, groups: nat)
    requires
        varint_bytes(value).len() <= groups,
    ensures
        varint_end(before + varint_bytes(value) + after, before.len() as int, groups) == Ok::<
            int,
            ProtoError,
        >((before.len() + varint_bytes(value).len()) as int),
    decreases value,
{
    let bytes = before + varint_bytes(value) + after;
    if value >= 128 {
        let first = (value % 128 + 128) as u8;
        let rest = varint_bytes(value / 128);
        assert(bytes =~= before.push(first) + rest + after);
        lemma_varint_bytes_end(before.push(first), value / 128, after, (groups - 1) as nat);
    }
}

/// Reading gives back any 64-bit number that was written as a varint,
/// whatever stands before and after it.
pub proof fn law_varint_round_trip(before: Seq<u8>, value: u64, after: Seq<u8>)
    ensures
        varint_at(before + varint_bytes(value as nat) + after, before.len() as int) == Ok::<
            (u64, int),
            ProtoError,
        >((value, (before.len() + varint_bytes(value as nat).len()) as int)),
        0 < varint_bytes(value as nat).len() <= MAX_VARINT_BYTES,
{
    let middle = varint_bytes(value as nat);
    let bytes = before + middle + after;
    assert(value < pow(128, 10)) by {
        reveal_with_fuel(pow, 11);
    }
    lemma_varint_bytes_len(value as nat, 10);
    lemma_varint_bytes_end(before, value as nat, after, 10);
    lemma_varint_bytes_sum(value as nat);
    assert(bytes.subrange(before.len() as int, (before.len() + middle.len()) as int) =~= middle);
}

proof fn lemma_varint_end_elsewhere(
    here: Seq<u8>,
    position: int,
    there: Seq<u8>,
    target: int,
    groups: nat,
)
    requires
        0 <= position,
        0 <= target,
        varint_end(here, position, groups) is Ok,
        target + (varint_end(here, position, groups)->Ok_0 - position) <= there.len(),
        here.subrange(position, varint_end(here, position, groups)->Ok_0) == there.subrange(
            target,
            target + (varint_end(here, position, groups)->Ok_0 - position),
        ),
    ensures
        varint_end(there, target, groups) == Ok::<int, ProtoError>(
            target + (varint_end(here, position, groups)->Ok_0 - position),
        ),
    decreases groups,
{
    lemma_varint_end_bounds(here, position, groups);
    let end = varint_end(here, position, groups)->Ok_0;
    let shift = target - position;
    let ours = here.subrange(position, end);
    let theirs = there.subrange(target, end + shift);
    assert(ours[0] == theirs[0]);
    if here[position] >= 128 {
        lemma_varint_end_bounds(here, position + 1, (groups - 1) as nat);
        assert(here.subrange(position + 1, end) =~= ours.drop_first());
        assert(there.subrange(target + 1, end + shift) =~= theirs.drop_first());
        lemma_varint_end_elsewhere(here, position + 1, there, target + 1, (groups - 1) as nat);
    }
}

/// A varint reads the same wherever its bytes stand.
proof fn lemma_varint_at_elsewhere(here: Seq<u8>, position: int, there: Seq<u8>, target: int)
    requires
        0 <= position,
        0 <= target,
        varint_at(here, position) is Ok,
        target + (varint_at(here, position)->Ok_0.1 - position) <= there.len(),
        here.subrange(position, varint_at(here, position)->Ok_0.1) == there.subrange(
            target,
            target + (varint_at(here, position)->Ok_0.1 - position),
        ),
    ensures
        varint_at(there, target) == Ok::<(u64, int), ProtoError>(
            (
                varint_at(here, position)->Ok_0.0,
                target + (varint_at(here, position)->Ok_0.1 - position),
            ),
        ),
{
    lemma_varint_end_elsewhere(here, position, there, target, MAX_VARINT_BYTES as nat);
}

/// A field moved by `distance` bytes.
pub open spec fn moved(field: ProtoField, distance: int) -> ProtoField {
    ProtoField {
        number: field.number,
        wire_type: field.wire_type,
        start: (field.start + distance) as usize,
        data_start: (field.data_start + distance) as usize,
        data_end: (field.data_end + distance) as usize,
        end: (field.end + distance) as usize,
    }
}

/// A field reads the same wherever its bytes stand.
pub proof fn law_field_reads_the_same_elsewhere(
    here: Seq<u8>,
    position: int,
    there: Seq<u8>,
    target: int,
)
    requires
        0 <= position,
        0 <= target,
        here.len() <= usize::MAX,
        there.len() <= usize::MAX,
        field_at(here, position) is Ok,
        target + (field_at(here, position)->Ok_0.end - position) <= there.len(),
        field_at(here, position)->Ok_0.raw(here) == there.subrange(
            target,
            target + (field_at(here, position)->Ok_0.end - position),
        ),
    ensures
        field_at(there, target) == Ok::<ProtoField, ProtoError>(
            moved(field_at(here, position)->Ok_0, target - position),
        ),
{
    let field = field_at(here, position)->Ok_0;
    let shift = target - position;
    lemma_field_at_within(here, position);
    let ours = field.raw(here);
    let theirs = there.subrange(target, target + (field.end - position));
    let (key, data) = varint_at(here, position)->Ok_0;
    lemma_varint_at_bounds(here, position);
    lemma_varint_at_bounds(here, data);
    assert(here.subrange(position, data) =~= ours.subrange(0, data - position));
    assert(there.subrange(target, data + shift) =~= theirs.subrange(0, data - position));
    lemma_varint_at_elsewhere(here, position, there, target);
    if field.wire_type == 0 || field.wire_type == 2 {
        let after = varint_at(here, data)->Ok_0.1;
        assert(here.subrange(data, after) =~= ours.subrange(data - position, after - position));
        assert(there.subrange(data + shift, after + shift) =~= theirs.subrange(
            data - position,
            after - position,
        ));
        lemma_varint_at_elsewhere(here, data, there, data + shift);
    }
}

/// What a field says, without where it stands.
#[verifier::ext_equal]
pub struct FieldModel {
    pub number: u32,
    pub wire_type: u8,
    pub payload: Seq<u8>,
}

/// A length-delimited field.
pub open spec fn message_model(number: u32, payload: Seq<u8>) -> FieldModel {
    FieldModel { number, wire_type: 2, payload }
}

pub open spec fn model_of(bytes: Seq<u8>, field: ProtoField) -> FieldModel {
    FieldModel {
        number: field.number,
        wire_type: field.wire_type,
        payload: field.payload(bytes),
    }
}

pub open spec fn models_of(bytes: Seq<u8>, fields: Seq<ProtoField>) -> Seq<FieldModel> {
    Seq::new(fields.len(), |i: int| model_of(bytes, fields[i]))
}

/// The bytes are a message that says exactly this, field by field.
pub open spec fn says(bytes: Seq<u8>, models: Seq<FieldModel>) -> bool {
    &&& bytes.len() <= usize::MAX
    &&& proto_fields(bytes) matches Ok(fields) && models_of(bytes, fields) == models
}

/// The bytes are exactly one field.
pub open spec fn is_field(bytes: Seq<u8>, model: FieldModel) -> bool {
    &&& bytes.len() <= usize::MAX
    &&& field_at(bytes, 0) matches Ok(field) && field.end == bytes.len() && model_of(bytes, field)
        == model
}

/// Cutting a field out of a message keeps what it says.
pub proof fn lemma_raw_is_field(bytes: Seq<u8>, position: int)
    requires
        0 <= position,
        bytes.len() <= usize::MAX,
        field_at(bytes, position) is Ok,
    ensures
        ({
            let field = field_at(bytes, position)->Ok_0;
            is_field(field.raw(bytes), model_of(bytes, field))
        }),
{
    let field = field_at(bytes, position)->Ok_0;
    lemma_field_at_within(bytes, position);
    let raw = field.raw(bytes);
    assert(raw.subrange(0, field.end - position) =~= raw);
    law_field_reads_the_same_elsewhere(bytes, position, raw, 0);
    let cut = moved(field, -position);
    assert(cut.payload(raw) =~= field.payload(bytes));
}

/// An encoded length-delimited field says its number and its payload.
pub proof fn law_message_field_round_trip(number: u32, payload: Seq<u8>)
    requires
        number > 0,
        message_field(number, payload).len() <= usize::MAX,
    ensures
        is_field(message_field(number, payload), message_model(number, payload)),
{
    let key: u64 = (number * 8 + 2) as u64;
    let head = varint_bytes(key as nat);
    let len = varint_bytes(payload.len());
    let bytes = message_field(number, payload);
    law_varint_round_trip(Seq::empty(), key, len + payload);
    assert(Seq::<u8>::empty() + head + (len + payload) =~= bytes);
    law_varint_round_trip(head, payload.len() as u64, payload);
    assert(head + len + payload =~= bytes);
    assert(key / 8 == number && key % 8 == 2);
    let field = field_at(bytes, 0)->Ok_0;
    assert(field.payload(bytes) =~= payload);
}

/// An encoded varint field reads back as a varint field whose payload is the
/// varint of the value.
pub proof fn law_varint_field_round_trip(number: u32, value: u64)
    requires
        number > 0,
    ensures
        is_field(
            varint_field(number, value),
            FieldModel { number, wire_type: 0, payload: varint_bytes(value as nat) },
        ),
{
    let key: u64 = (number * 8) as u64;
    let head = varint_bytes(key as nat);
    let body = varint_bytes(value as nat);
    let bytes = varint_field(number, value);
    law_varint_round_trip(Seq::empty(), key, body);
    assert(Seq::<u8>::empty() + head + body =~= bytes);
    law_varint_round_trip(head, value, Seq::empty());
    assert(head + body + Seq::<u8>::empty() =~= bytes);
    assert(key / 8 == number && key % 8 == 0);
    let field = field_at(bytes, 0)->Ok_0;
    assert(field.payload(bytes) =~= body);
}

/// A field behind a message is read behind the message's own fields.
pub proof fn lemma_fields_of_concatenation(bytes: Seq<u8>, position: int, piece: Seq<u8>)
    requires
        0 <= position <= bytes.len(),
        bytes.len() + piece.len() <= usize::MAX,
        fields_from(bytes, position) is Ok,
        field_at(piece, 0) matches Ok(field) && field.end == piece.len(),
    ensures
        fields_from(bytes + piece, position) == Ok::<Seq<ProtoField>, ProtoError>(
            fields_from(bytes, position)->Ok_0.push(
                moved(field_at(piece, 0)->Ok_0, bytes.len() as int),
            ),
        ),
    decreases bytes.len() - position,
{
    let whole = bytes + piece;
    let last = moved(field_at(piece, 0)->Ok_0, bytes.len() as int);
    lemma_field_at_within(piece, 0);
    if position == bytes.len() {
        let field = field_at(piece, 0)->Ok_0;
        assert(whole.subrange(bytes.len() as int, bytes.len() + field.end) =~= piece);
        assert(field.raw(piece) =~= piece);
        law_field_reads_the_same_elsewhere(piece, 0, whole, bytes.len() as int);
        assert(last.end == whole.len());
        assert(fields_from(whole, last.end as int) == Ok::<Seq<ProtoField>, ProtoError>(
            Seq::empty(),
        ));
        assert(seq![last] + Seq::<ProtoField>::empty() =~= Seq::<ProtoField>::empty().push(last));
    } else {
        let field = field_at(bytes, position)->Ok_0;
        lemma_field_at_within(bytes, position);
        assert(field.raw(bytes) =~= whole.subrange(position, position + (field.end - position)));
        law_field_reads_the_same_elsewhere(bytes, position, whole, position);
        assert(moved(field, 0) == field);
        lemma_fields_of_concatenation(bytes, field.end as int, piece);
        let rest = fields_from(bytes, field.end as int)->Ok_0;
        assert(seq![field] + rest.push(last) =~= (seq![field] + rest).push(last));
    }
}

/// Appending a field to a message appends what the field says, and nothing
/// else changes.
pub proof fn law_appending_a_field(
    bytes: Seq<u8>,
    models: Seq<FieldModel>,
    piece: Seq<u8>,
    model: FieldModel,
)
    requires
        says(bytes, models),
        is_field(piece, model),
        bytes.len() + piece.len() <= usize::MAX,
    ensures
        says(bytes + piece, models.push(model)),
{
    let whole = bytes + piece;
    let fields = proto_fields(bytes)->Ok_0;
    let field = field_at(piece, 0)->Ok_0;
    let last = moved(field, bytes.len() as int);
    lemma_fields_of_concatenation(bytes, 0, piece);
    law_fields_tile_the_message(bytes, 0);
    lemma_field_at_within(piece, 0);
    assert(models_of(whole, fields.push(last)) =~= models.push(model)) by {
        assert forall|i: int| 0 <= i < fields.len() implies model_of(whole, fields[i])
            == #[trigger] models[i] by {
            assert(fields[i].within(bytes.len()));
            assert(models[i] == model_of(bytes, fields[i]));
            assert(fields[i].payload(whole) =~= fields[i].payload(bytes));
        }
        assert(last.payload(whole) =~= field.payload(piece));
    }
}

/// A varint ends with the first byte below 128, which is among its first ten. Each byte stands for
/// 128 times as much as the one before it, and its highest bit does not count.
pub proof fn law_varints_are_groups_of_seven_bits(bytes: Seq<u8>, position: int)
    requires
        0 <= position < bytes.len(),
    ensures
        bytes[position] < 128 ==> varint_at(bytes, position) == Ok::<(u64, int), ProtoError>(
            (bytes[position] as u64, position + 1),
        ),
        bytes[position] >= 128 && varint_at(bytes, position) is Ok ==> {
            let (value, end) = varint_at(bytes, position)->Ok_0;
            &&& varint_at(bytes, position + 1) is Ok
            &&& varint_at(bytes, position + 1)->Ok_0.1 == end
            &&& value == (bytes[position] - 128 + 128 * varint_at(bytes, position + 1)->Ok_0.0)
                % 0x1_0000_0000_0000_0000
        },
        varint_at(bytes, position) matches Ok((_, end)) ==> {
            &&& position < end <= position + 10
            &&& end <= bytes.len()
            &&& bytes[end - 1] < 128
            &&& forall|i: int| position <= i < end - 1 ==> #[trigger] bytes[i] >= 128
        },
{
    lemma_varint_end_is_first(bytes, position, MAX_VARINT_BYTES as nat);
    reveal_with_fuel(varint_sum, 2);
    if bytes[position] < 128 {
        let group = bytes.subrange(position, position + 1);
        assert(group.drop_first() =~= Seq::empty());
    } else if let Ok((value, end)) = varint_at(bytes, position) {
        lemma_varint_end_within(bytes, position + 1, (MAX_VARINT_BYTES - 1) as nat);
        let groups = bytes.subrange(position, end);
        let rest = bytes.subrange(position + 1, end);
        assert(groups.drop_first() =~= rest);
        let sum = varint_sum(rest) as int;
        let modulus = 0x1_0000_0000_0000_0000int;
        let first = bytes[position] - 128;
        assert(bytes[position] % 128 == first);
        vstd::arithmetic::div_mod::lemma_fundamental_div_mod(sum, modulus);
        let high = sum / modulus;
        assert(first + 128 * sum == first + 128 * (sum % modulus) + (128 * high) * modulus)
            by (nonlinear_arith)
            requires
                sum == modulus * high + sum % modulus,
        ;
        vstd::arithmetic::div_mod::lemma_mod_multiples_vanish(
            128 * high,
            first + 128 * (sum % modulus),
            modulus,
        );
        vstd::arithmetic::mul::lemma_mul_is_commutative(128 * high, modulus);
    }
}

proof fn lemma_varint_end_is_first(bytes: Seq<u8>, position: int, groups: nat)
    requires
        0 <= position,
    ensures
        varint_end(bytes, position, groups) matches Ok(end) ==> {
            &&& position < end <= position + groups
            &&& end <= bytes.len()
            &&& bytes[end - 1] < 128
            &&& forall|i: int| position <= i < end - 1 ==> #[trigger] bytes[i] >= 128
        },
    decreases groups,
{
    if groups > 0 && position < bytes.len() && bytes[position] >= 128 {
        lemma_varint_end_is_first(bytes, position + 1, (groups - 1) as nat);
    }
}

/// A varint that ends within some bytes ends within one more.
proof fn lemma_varint_end_within(bytes: Seq<u8>, position: int, groups: nat)
    requires
        0 <= position,
        varint_end(bytes, position, groups) is Ok,
    ensures
        varint_end(bytes, position, groups + 1) == varint_end(bytes, position, groups),
    decreases groups,
{
    if groups > 0 && position < bytes.len() && bytes[position] >= 128 {
        lemma_varint_end_within(bytes, position + 1, (groups - 1) as nat);
    }
}

/// A field's key is eight times its number and its wire type. A field of wire type one has eight
/// bytes behind its key, and one of wire type five has four.
pub proof fn law_fixed_fields_are_read(number: u32, wide: bool, payload: Seq<u8>)
    requires
        number > 0,
        payload.len() == (if wide {
            8
        } else {
            4int
        }),
    ensures
        ({
            let wire_type = if wide {
                1u8
            } else {
                5u8
            };
            is_field(
                varint_bytes((number * 8 + wire_type) as nat) + payload,
                FieldModel { number, wire_type, payload },
            )
        }),
{
    let wire_type = if wide {
        1u8
    } else {
        5u8
    };
    let key: u64 = (number * 8 + wire_type) as u64;
    let head = varint_bytes(key as nat);
    let bytes = head + payload;
    law_varint_round_trip(Seq::empty(), key, payload);
    assert(Seq::<u8>::empty() + head + payload =~= bytes);
    lemma_varint_end_is_first(bytes, 0, MAX_VARINT_BYTES as nat);
    assert(key / 8 == number && key % 8 == wire_type);
    let field = field_at(bytes, 0)->Ok_0;
    assert(field.payload(bytes) =~= payload);
}

} // verus!
