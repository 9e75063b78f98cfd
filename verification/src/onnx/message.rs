//! Looking fields up in a message, and putting a message together again from
//! the pieces of another.

use crate::onnx::proto;
use crate::onnx::proto::{
    encode_length_delimited_field, parse_proto_fields, read_proto_string, FieldModel, ProtoError,
    ProtoField,
};
use vstd::prelude::*;

verus! {

/// The first field from `from` on with this number and, where one is asked
/// for, this wire type.
pub open spec fn first_from(
    fields: Seq<ProtoField>,
    from: int,
    number: u32,
    wire_type: Option<u8>,
) -> Option<int>
    decreases fields.len() - from,
{
    if from < 0 || from >= fields.len() {
        None
    } else if is_wanted(fields[from], number, wire_type) {
        Some(from)
    } else {
        first_from(fields, from + 1, number, wire_type)
    }
}

pub open spec fn is_wanted(field: ProtoField, number: u32, wire_type: Option<u8>) -> bool {
    field.number == number && (wire_type matches Some(wire_type) ==> field.wire_type == wire_type)
}

pub proof fn lemma_first_from(
    fields: Seq<ProtoField>,
    from: int,
    number: u32,
    wire_type: Option<u8>,
)
    requires
        0 <= from,
    ensures
        first_from(fields, from, number, wire_type) matches Some(at) ==> from <= at < fields.len()
            && is_wanted(fields[at], number, wire_type),
        first_from(fields, from, number, wire_type) is None ==> forall|i: int|
            from <= i < fields.len() ==> !is_wanted(#[trigger] fields[i], number, wire_type),
    decreases fields.len() - from,
{
    if from < fields.len() && !is_wanted(fields[from], number, wire_type) {
        lemma_first_from(fields, from + 1, number, wire_type);
    }
}

pub fn find_field(fields: &Vec<ProtoField>, number: u32, wire_type: Option<u8>) -> (found: Option<
    usize,
>)
    ensures
        match (found, first_from(fields@, 0, number, wire_type)) {
            (Some(at), Some(expected)) => at == expected && at < fields@.len() && is_wanted(
                fields@[at as int],
                number,
                wire_type,
            ),
            (None, None) => true,
            _ => false,
        },
{
    let mut at: usize = 0;
    while at < fields.len()
        invariant
            at <= fields@.len(),
            first_from(fields@, 0, number, wire_type) == first_from(
                fields@,
                at as int,
                number,
                wire_type,
            ),
        decreases fields@.len() - at,
    {
        let field = fields[at];
        let fits = match wire_type {
            Some(wire_type) => field.wire_type == wire_type,
            None => true,
        };
        if field.number == number && fits {
            return Some(at);
        }
        at = at + 1;
    }
    None
}

/// How many of the first `count` fields are length-delimited with this number.
pub open spec fn messages_before(fields: Seq<ProtoField>, count: int, number: u32) -> int
    decreases count,
{
    if count <= 0 {
        0
    } else {
        messages_before(fields, count - 1, number) + if fields[count - 1].is_message(number) {
            1int
        } else {
            0int
        }
    }
}

/// Counts the length-delimited fields with this number.
pub fn count_messages(fields: &Vec<ProtoField>, number: u32) -> (count: usize)
    ensures
        count == messages_before(fields@, fields@.len() as int, number),
{
    let mut count: usize = 0;
    let mut at: usize = 0;
    while at < fields.len()
        invariant
            at <= fields@.len(),
            count <= at,
            count == messages_before(fields@, at as int, number),
        decreases fields@.len() - at,
    {
        if fields[at].number == number && fields[at].wire_type == 2 {
            count = count + 1;
        }
        at = at + 1;
    }
    count
}

/// The text of the first field with this number.
pub open spec fn first_text(bytes: Seq<u8>, number: u32) -> Result<Option<Seq<char>>, ProtoError> {
    match proto::proto_fields(bytes) {
        Err(error) => Err(error),
        Ok(fields) => match first_from(fields, 0, number, None) {
            None => Ok(None),
            Some(at) => match proto::field_text(bytes, fields[at]) {
                Ok(text) => Ok(Some(text)),
                Err(error) => Err(error),
            },
        },
    }
}

/// Reads the text of the first field with this number.
pub fn read_first_text(bytes: &[u8], number: u32) -> (result: Result<Option<String>, ProtoError>)
    ensures
        match (result, first_text(bytes@, number)) {
            (Ok(text), Ok(expected)) => text.deep_view() == expected,
            (Err(error), Err(expected)) => error == expected,
            _ => false,
        },
{
    let fields = match parse_proto_fields(bytes) {
        Ok(fields) => fields,
        Err(error) => return Err(error),
    };
    match find_field(&fields, number, None) {
        None => Ok(None),
        Some(at) => {
            assert(fields@[at as int].within(bytes@.len()));
            match read_proto_string(bytes, fields[at]) {
                Ok(text) => Ok(Some(text)),
                Err(error) => Err(error),
            }
        },
    }
}

/// A copy of some bytes.
pub fn copy_bytes(bytes: &[u8]) -> (copy: Vec<u8>)
    ensures
        copy@ == bytes@,
{
    let mut copy: Vec<u8> = Vec::with_capacity(bytes.len());
    copy.extend_from_slice(bytes);
    assert(copy@ =~= bytes@);
    copy
}

/// The pieces for the first `count` fields, one behind the other.
pub open spec fn joined(count: nat, piece: spec_fn(int) -> Seq<u8>) -> Seq<u8>
    decreases count,
{
    if count == 0 {
        Seq::empty()
    } else {
        joined((count - 1) as nat, piece) + piece(count - 1)
    }
}

/// What the pieces for the first `count` fields say, where `None` stands for a
/// field that is left out.
pub open spec fn kept(count: nat, model: spec_fn(int) -> Option<FieldModel>) -> Seq<FieldModel>
    decreases count,
{
    if count == 0 {
        Seq::empty()
    } else {
        let before = kept((count - 1) as nat, model);
        match model(count - 1) {
            None => before,
            Some(last) => before.push(last),
        }
    }
}

/// Each piece is one field, or nothing where the field is left out.
pub open spec fn pieces_say(
    count: nat,
    piece: spec_fn(int) -> Seq<u8>,
    model: spec_fn(int) -> Option<FieldModel>,
) -> bool {
    forall|i: int|
        0 <= i < count ==> match model(i) {
            None => (#[trigger] piece(i)).len() == 0,
            Some(last) => proto::is_field(piece(i), last),
        }
}

/// A message that is joined from pieces says what the pieces say.
pub proof fn law_joined_pieces(
    count: nat,
    piece: spec_fn(int) -> Seq<u8>,
    model: spec_fn(int) -> Option<FieldModel>,
)
    requires
        pieces_say(count, piece, model),
        joined(count, piece).len() <= usize::MAX,
    ensures
        proto::says(joined(count, piece), kept(count, model)),
    decreases count,
{
    if count == 0 {
        assert(proto::models_of(Seq::empty(), Seq::empty()) =~= Seq::empty());
    } else {
        let before = (count - 1) as nat;
        law_joined_pieces(before, piece, model);
        match model(count - 1) {
            None => {
                assert(piece(count - 1).len() == 0);
                assert(joined(count, piece) =~= joined(before, piece));
            },
            Some(last) => {
                assert(proto::is_field(piece(count - 1), last));
                proto::law_appending_a_field(joined(before, piece), kept(before, model), piece(count - 1), last);
            },
        }
    }
}

/// A message is its own fields joined again.
pub proof fn law_fields_join_to_the_message(bytes: Seq<u8>, count: nat)
    requires
        bytes.len() <= usize::MAX,
        proto::proto_fields(bytes) is Ok,
        count <= proto::proto_fields(bytes)->Ok_0.len(),
    ensures
        ({
            let fields = proto::proto_fields(bytes)->Ok_0;
            joined(count, |i: int| fields[i].raw(bytes)) == bytes.subrange(
                0,
                if count == 0 {
                    0
                } else {
                    fields[count - 1].end as int
                },
            )
        }),
    decreases count,
{
    proto::law_fields_tile_the_message(bytes, 0);
    let fields = proto::proto_fields(bytes)->Ok_0;
    if count > 0 {
        law_fields_join_to_the_message(bytes, (count - 1) as nat);
        assert(fields[count - 1].within(bytes.len()));
        if count > 1 {
            assert(fields[count - 2].end == fields[count - 1].start);
            assert(fields[count - 2].within(bytes.len()));
        }
        let end = fields[count - 1].end as int;
        let start = fields[count - 1].start as int;
        assert(bytes.subrange(0, start) + bytes.subrange(start, end) =~= bytes.subrange(0, end));
    }
}

/// Every field of a message stands where it was read.
pub proof fn lemma_fields_stand(bytes: Seq<u8>, position: int)
    requires
        0 <= position,
        bytes.len() <= usize::MAX,
        proto::fields_from(bytes, position) is Ok,
    ensures
        ({
            let fields = proto::fields_from(bytes, position)->Ok_0;
            forall|i: int|
                0 <= i < fields.len() ==> proto::field_at(bytes, (#[trigger] fields[i]).start as int)
                    == Ok::<ProtoField, ProtoError>(fields[i])
        }),
    decreases bytes.len() - position,
{
    if position < bytes.len() {
        let field = proto::field_at(bytes, position)->Ok_0;
        proto::lemma_field_at_within(bytes, position);
        lemma_fields_stand(bytes, field.end as int);
        let rest = proto::fields_from(bytes, field.end as int)->Ok_0;
        let fields = proto::fields_from(bytes, position)->Ok_0;
        assert forall|i: int| 0 <= i < fields.len() implies proto::field_at(
            bytes,
            (#[trigger] fields[i]).start as int,
        ) == Ok::<ProtoField, ProtoError>(fields[i]) by {
            if i > 0 {
                assert(fields[i] == rest[i - 1]);
            }
        }
    }
}

/// A field of a message is one field wherever it is copied to.
pub proof fn lemma_raw_field_says(bytes: Seq<u8>, at: int)
    requires
        bytes.len() <= usize::MAX,
        proto::proto_fields(bytes) is Ok,
        0 <= at < proto::proto_fields(bytes)->Ok_0.len(),
    ensures
        ({
            let field = proto::proto_fields(bytes)->Ok_0[at];
            proto::is_field(field.raw(bytes), proto::model_of(bytes, field))
        }),
{
    lemma_fields_stand(bytes, 0);
    let field = proto::proto_fields(bytes)->Ok_0[at];
    proto::lemma_raw_is_field(bytes, field.start as int);
}

/// The message with one field's place taken by a length-delimited field.
pub open spec fn with_field(
    bytes: Seq<u8>,
    fields: Seq<ProtoField>,
    at: int,
    number: u32,
    payload: Seq<u8>,
) -> Seq<u8> {
    joined(fields.len(), replacing(bytes, fields, at, number, payload))
}

/// Each field as it stands, but for the one at `at`.
pub open spec fn replacing(
    bytes: Seq<u8>,
    fields: Seq<ProtoField>,
    at: int,
    number: u32,
    payload: Seq<u8>,
) -> spec_fn(int) -> Seq<u8> {
    |i: int|
        if i == at {
            proto::message_field(number, payload)
        } else {
            fields[i].raw(bytes)
        }
}

/// Copies a message with one field's place taken by a length-delimited field.
pub fn replace_field(
    bytes: &[u8],
    fields: &Vec<ProtoField>,
    at: usize,
    number: u32,
    payload: &[u8],
) -> (out: Vec<u8>)
    requires
        proto::tiles(fields@, 0, bytes@.len()),
    ensures
        out@ == with_field(bytes@, fields@, at as int, number, payload@),
{
    let ghost piece = replacing(bytes@, fields@, at as int, number, payload@);
    let mut out: Vec<u8> = Vec::with_capacity(bytes.len());
    let mut index: usize = 0;
    while index < fields.len()
        invariant
            index <= fields@.len(),
            proto::tiles(fields@, 0, bytes@.len()),
            piece == replacing(bytes@, fields@, at as int, number, payload@),
            out@ == joined(index as nat, piece),
        decreases fields@.len() - index,
    {
        let field = fields[index];
        assert(field.within(bytes@.len()));
        if index == at {
            encode_length_delimited_field(number, payload, &mut out);
        } else {
            out.extend_from_slice(&bytes[field.start..field.end]);
        }
        assert(out@ =~= joined(index as nat, piece) + piece(index as int));
        index = index + 1;
    }
    out
}

/// The piece is exactly one field.
pub open spec fn is_one_field(piece: Seq<u8>) -> bool {
    &&& piece.len() <= usize::MAX
    &&& proto::field_at(piece, 0) matches Ok(field) && field.end == piece.len()
}

/// A message that is joined from fields has these fields, byte for byte.
pub proof fn lemma_joined_fields_stand(count: nat, piece: spec_fn(int) -> Seq<u8>)
    requires
        forall|i: int| 0 <= i < count ==> is_one_field(#[trigger] piece(i)),
        joined(count, piece).len() <= usize::MAX,
    ensures
        proto::proto_fields(joined(count, piece)) is Ok,
        ({
            let whole = joined(count, piece);
            let fields = proto::proto_fields(whole)->Ok_0;
            &&& fields.len() == count
            &&& forall|i: int|
                0 <= i < count ==> (#[trigger] fields[i]).raw(whole) == piece(i)
                    && fields[i].number == proto::field_at(piece(i), 0)->Ok_0.number
                    && fields[i].wire_type == proto::field_at(piece(i), 0)->Ok_0.wire_type
        }),
    decreases count,
{
    if count > 0 {
        let before = (count - 1) as nat;
        let fewer = joined(before, piece);
        let whole = joined(count, piece);
        let last = piece(count - 1);
        lemma_joined_fields_stand(before, piece);
        assert(is_one_field(last));
        proto::lemma_fields_of_concatenation(fewer, 0, last);
        proto::law_fields_tile_the_message(fewer, 0);
        proto::lemma_field_at_within(last, 0);
        let fields = proto::proto_fields(whole)->Ok_0;
        let earlier = proto::proto_fields(fewer)->Ok_0;
        assert forall|i: int| 0 <= i < count implies (#[trigger] fields[i]).raw(whole) == piece(i)
            && fields[i].number == proto::field_at(piece(i), 0)->Ok_0.number && fields[i].wire_type
            == proto::field_at(piece(i), 0)->Ok_0.wire_type by {
            if i < before {
                assert(fields[i] == earlier[i]);
                assert(earlier[i].within(fewer.len()));
                assert(earlier[i].raw(whole) =~= earlier[i].raw(fewer));
            } else {
                assert(fields[i].raw(whole) =~= last);
            }
        }
    }
}

/// Equal pieces join to equal messages.
pub proof fn lemma_joined_equal(
    count: nat,
    piece: spec_fn(int) -> Seq<u8>,
    other: spec_fn(int) -> Seq<u8>,
)
    requires
        forall|i: int| 0 <= i < count ==> #[trigger] piece(i) == other(i),
    ensures
        joined(count, piece) == joined(count, other),
    decreases count,
{
    if count > 0 {
        lemma_joined_equal((count - 1) as nat, piece, other);
        assert(piece(count - 1) == other(count - 1));
    }
}

/// Replacing a field changes what that field says and nothing else.
pub proof fn law_replacing_a_field(bytes: Seq<u8>, at: int, number: u32, payload: Seq<u8>)
    requires
        bytes.len() <= usize::MAX,
        proto::proto_fields(bytes) is Ok,
        0 <= at < proto::proto_fields(bytes)->Ok_0.len(),
        number > 0,
        with_field(bytes, proto::proto_fields(bytes)->Ok_0, at, number, payload).len() <= usize::MAX,
    ensures
        ({
            let fields = proto::proto_fields(bytes)->Ok_0;
            proto::says(
                with_field(bytes, fields, at, number, payload),
                proto::models_of(bytes, fields).update(at, proto::message_model(number, payload)),
            )
        }),
{
    let fields = proto::proto_fields(bytes)->Ok_0;
    let piece = replacing(bytes, fields, at, number, payload);
    let expected = proto::models_of(bytes, fields).update(at, proto::message_model(number, payload));
    let model = |i: int| Some(expected[i]);
    assert forall|i: int| 0 <= i < fields.len() implies proto::is_field(
        #[trigger] piece(i),
        expected[i],
    ) by {
        lemma_joined_bounds(fields.len(), piece, i);
        if i == at {
            proto::law_message_field_round_trip(number, payload);
        } else {
            lemma_raw_field_says(bytes, i);
        }
    }
    law_joined_pieces(fields.len(), piece, model);
    lemma_kept_all(fields.len(), expected);
    assert(expected.take(fields.len() as int) =~= expected);
}

pub proof fn lemma_kept_all(count: nat, models: Seq<FieldModel>)
    requires
        count <= models.len(),
    ensures
        kept(count, |i: int| Some(models[i])) == models.take(count as int),
    decreases count,
{
    if count > 0 {
        lemma_kept_all((count - 1) as nat, models);
        assert(models.take(count - 1).push(models[count - 1]) =~= models.take(count as int));
    }
}

/// What is kept was said by one of the pieces.
pub proof fn lemma_kept_comes_from(
    count: nat,
    model: spec_fn(int) -> Option<FieldModel>,
    at: int,
) -> (from: int)
    requires
        0 <= at < kept(count, model).len(),
    ensures
        0 <= from < count,
        model(from) == Some(kept(count, model)[at]),
    decreases count,
{
    let before = kept((count - 1) as nat, model);
    if at < before.len() {
        lemma_kept_comes_from((count - 1) as nat, model, at)
    } else {
        count - 1
    }
}

/// No piece is longer than the whole.
pub proof fn lemma_joined_bounds(count: nat, piece: spec_fn(int) -> Seq<u8>, at: int)
    requires
        0 <= at < count,
    ensures
        piece(at).len() <= joined(count, piece).len(),
    decreases count,
{
    if at < count - 1 {
        lemma_joined_bounds((count - 1) as nat, piece, at);
    }
}

} // verus!
