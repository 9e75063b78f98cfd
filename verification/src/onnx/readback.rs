//! What can be read out of a model again once it was prepared.
//!
//! A message is read here by its parts alone: the payloads of its fields of one number, in
//! their order.

use crate::onnx::dimensions;
use crate::onnx::dimensions::{SizedInput, SizedMessage};
use crate::onnx::graph;
use crate::onnx::graph::GraphPlace;
use crate::onnx::identity;
use crate::onnx::identity::{Identity, Search};
use crate::onnx::liveness;
use crate::onnx::message;
use crate::onnx::node;
use crate::onnx::node::{Inspection, NodeModel};
use crate::onnx::prepare;
use crate::onnx::prepare::{PatchMessage, Prepared, RetryError};
use crate::onnx::proto;
use crate::onnx::proto::{FieldModel, ProtoError, ProtoField};
use crate::onnx::reason::PatchError;
use vstd::prelude::*;
use vstd::string::*;

verus! {

/// A length-delimited field of a number.
pub open spec fn is_part(number: u32) -> spec_fn(FieldModel) -> bool {
    |model: FieldModel| model.number == number && model.wire_type == 2
}

/// What a message's fields say, in their order.
pub open spec fn fields_of(bytes: Seq<u8>) -> Seq<FieldModel> {
    match proto::proto_fields(bytes) {
        Ok(fields) => proto::models_of(bytes, fields),
        Err(_) => Seq::empty(),
    }
}

/// The payloads of a message's length-delimited fields of a number, in their order.
pub open spec fn parts(bytes: Seq<u8>, number: u32) -> Seq<FieldModel> {
    fields_of(bytes).filter(is_part(number))
}

/// The payload of a message's field of a number that has so many of that number before it.
pub open spec fn part(bytes: Seq<u8>, number: u32, index: int) -> Option<Seq<u8>> {
    if 0 <= index < parts(bytes, number).len() {
        Some(parts(bytes, number)[index].payload)
    } else {
        None
    }
}

/// The value of a dimension, where it has one.
pub open spec fn dimension_value(dimension: Seq<u8>) -> Option<u64> {
    match proto::proto_fields(dimension) {
        Err(_) => None,
        Ok(fields) => match message::first_from(fields, 0, 1, Some(0u8)) {
            None => None,
            Some(at) => match proto::varint_at(dimension, fields[at].data_start as int) {
                Ok((value, _)) => Some(value),
                Err(_) => None,
            },
        },
    }
}

/// The value of a shape's dimension that has so many before it.
pub open spec fn shape_dimension(shape: Seq<u8>, index: int) -> Option<u64> {
    match part(shape, 1, index) {
        Some(dimension) => dimension_value(dimension),
        None => None,
    }
}

/// The same of the shape that a tensor type has.
pub open spec fn tensor_dimension(tensor: Seq<u8>, index: int) -> Option<u64> {
    match part(tensor, 2, 0) {
        Some(shape) => shape_dimension(shape, index),
        None => None,
    }
}

/// The same of the tensor type that a type is.
pub open spec fn type_dimension(kind: Seq<u8>, index: int) -> Option<u64> {
    match part(kind, 1, 0) {
        Some(tensor) => tensor_dimension(tensor, index),
        None => None,
    }
}

/// The same of the type that a graph's input has.
pub open spec fn input_dimension(input: Seq<u8>, index: int) -> Option<u64> {
    match part(input, 2, 0) {
        Some(kind) => type_dimension(kind, index),
        None => None,
    }
}

/// An input that is named as the picture is, with this height as its third dimension and
/// this width as its fourth.
pub open spec fn is_source_of_size(input: Seq<u8>, width: u32, height: u32) -> bool {
    &&& message::first_text(input, 1) == Ok::<Option<Seq<char>>, ProtoError>(Some("src"@))
    &&& input_dimension(input, 2) == Some(height as u64)
    &&& input_dimension(input, 3) == Some(width as u64)
}

/// A message has a length-delimited field of this number and payload.
pub open spec fn holds(bytes: Seq<u8>, number: u32, payload: Seq<u8>) -> bool {
    fields_of(bytes).contains(proto::message_model(number, payload))
}

/// A graph has an input for pictures of this size.
pub open spec fn graph_takes_size(graph: Seq<u8>, width: u32, height: u32) -> bool {
    exists|input: Seq<u8>| #[trigger]
        holds(graph, 11, input) && is_source_of_size(input, width, height)
}

/// A model has one graph, and that has an input for pictures of this size.
pub open spec fn model_takes_size(model: Seq<u8>, width: u32, height: u32) -> bool {
    parts(model, 7).len() == 1 && graph_takes_size(parts(model, 7)[0].payload, width, height)
}

proof fn lemma_filter_position(
    models: Seq<FieldModel>,
    wanted: spec_fn(FieldModel) -> bool,
    at: int,
)
    requires
        0 <= at < models.len(),
        wanted(models[at]),
    ensures
        models.take(at).filter(wanted).len() < models.filter(wanted).len(),
        models.filter(wanted)[models.take(at).filter(wanted).len() as int] == models[at],
    decreases models.len(),
{
    reveal(Seq::filter);
    let fewer = models.drop_last();
    if at == models.len() - 1 {
        assert(models.take(at) =~= fewer);
    } else {
        lemma_filter_position(fewer, wanted, at);
        assert(fewer.take(at) =~= models.take(at));
    }
}

proof fn lemma_filter_comes_from(
    models: Seq<FieldModel>,
    wanted: spec_fn(FieldModel) -> bool,
    index: int,
) -> (at: int)
    requires
        0 <= index < models.filter(wanted).len(),
    ensures
        0 <= at < models.len(),
        wanted(models[at]),
        models.take(at).filter(wanted).len() == index,
        models.filter(wanted)[index] == models[at],
    decreases models.len(),
{
    reveal(Seq::filter);
    let fewer = models.drop_last();
    if index < fewer.filter(wanted).len() {
        let at = lemma_filter_comes_from(fewer, wanted, index);
        assert(fewer.take(at) =~= models.take(at));
        at
    } else {
        assert(models.take(models.len() - 1) =~= fewer);
        models.len() - 1
    }
}

proof fn lemma_filter_counts_alike(
    models: Seq<FieldModel>,
    others: Seq<FieldModel>,
    wanted: spec_fn(FieldModel) -> bool,
    count: int,
)
    requires
        models.len() == others.len(),
        0 <= count <= models.len(),
        forall|i: int|
            0 <= i < models.len() ==> wanted(#[trigger] models[i]) == wanted(others[i]),
    ensures
        models.take(count).filter(wanted).len() == others.take(count).filter(wanted).len(),
    decreases count,
{
    reveal(Seq::filter);
    if count > 0 {
        lemma_filter_counts_alike(models, others, wanted, count - 1);
        assert(models.take(count).drop_last() =~= models.take(count - 1));
        assert(others.take(count).drop_last() =~= others.take(count - 1));
        assert(wanted(models[count - 1]) == wanted(others[count - 1]));
    }
}

proof fn lemma_messages_before_is_a_filter(
    bytes: Seq<u8>,
    fields: Seq<ProtoField>,
    count: int,
    number: u32,
)
    requires
        0 <= count <= fields.len(),
    ensures
        proto::models_of(bytes, fields).take(count).filter(is_part(number)).len()
            == message::messages_before(fields, count, number),
    decreases count,
{
    reveal(Seq::filter);
    let models = proto::models_of(bytes, fields);
    if count > 0 {
        lemma_messages_before_is_a_filter(bytes, fields, count - 1, number);
        assert(models.take(count).drop_last() =~= models.take(count - 1));
        assert(models.take(count).last() == models[count - 1]);
    }
}

/// Where one field of a message is changed and stays of its number, only that part changes.
proof fn lemma_changed_part(
    models: Seq<FieldModel>,
    at: int,
    number: u32,
    payload: Seq<u8>,
    other: u32,
    index: int,
)
    requires
        0 <= at < models.len(),
        is_part(number)(models[at]),
    ensures
        ({
            let changed = models.update(at, proto::message_model(number, payload));
            let rank = models.take(at).filter(is_part(number)).len() as int;
            let before = models.filter(is_part(other));
            let after = changed.filter(is_part(other));
            &&& before.len() == after.len()
            &&& 0 <= index < before.len() && !(other == number && index == rank) ==> after[index]
                == before[index]
            &&& 0 <= rank < models.filter(is_part(number)).len()
            &&& changed.filter(is_part(number)).len() == models.filter(is_part(number)).len()
            &&& changed.filter(is_part(number))[rank] == proto::message_model(number, payload)
        }),
{
    let changed = models.update(at, proto::message_model(number, payload));
    let rank = models.take(at).filter(is_part(number)).len() as int;
    let count = models.len() as int;
    assert(models.take(count) =~= models);
    assert(changed.take(count) =~= changed);
    lemma_filter_counts_alike(models, changed, is_part(number), count);
    lemma_filter_counts_alike(models, changed, is_part(number), at);
    lemma_filter_counts_alike(models, changed, is_part(other), count);
    lemma_filter_position(models, is_part(number), at);
    lemma_filter_position(changed, is_part(number), at);
    if 0 <= index < models.filter(is_part(other)).len() && !(other == number && index == rank) {
        let from = lemma_filter_comes_from(models, is_part(other), index);
        lemma_filter_counts_alike(models, changed, is_part(other), from);
        assert(from != at);
        assert(changed[from] == models[from]);
        lemma_filter_position(changed, is_part(other), from);
    }
}

/// Where a message's first field of a number is replaced, it has the new payload, and its
/// parts of other numbers stay.
proof fn lemma_replaced_part(bytes: Seq<u8>, at: int, number: u32, payload: Seq<u8>)
    requires
        bytes.len() <= usize::MAX,
        number > 0,
        proto::proto_fields(bytes) matches Ok(fields) && message::first_from(
            fields,
            0,
            number,
            Some(2u8),
        ) == Some(at),
        message::with_field(
            bytes,
            proto::proto_fields(bytes)->Ok_0,
            at,
            number,
            payload,
        ).len() <= usize::MAX,
    ensures
        ({
            let out = message::with_field(
                bytes,
                proto::proto_fields(bytes)->Ok_0,
                at,
                number,
                payload,
            );
            &&& payload.len() <= usize::MAX
            &&& part(out, number, 0) == Some(payload)
            &&& fields_of(out) == fields_of(bytes).update(at, proto::message_model(number, payload))
            &&& 0 <= at < fields_of(bytes).len()
            &&& is_part(number)(fields_of(bytes)[at])
            &&& parts(out, number).len() == parts(bytes, number).len()
        }),
{
    let fields = proto::proto_fields(bytes)->Ok_0;
    let models = proto::models_of(bytes, fields);
    message::lemma_first_from(fields, 0, number, Some(2u8));
    let piece = message::replacing(bytes, fields, at, number, payload);
    message::lemma_joined_bounds(fields.len(), piece, at);
    assert(piece(at) == proto::message_field(number, payload));
    message::law_replacing_a_field(bytes, at, number, payload);
    lemma_messages_before_is_a_filter(bytes, fields, at, number);
    lemma_none_before_first(fields, 0, at, number);
    lemma_changed_part(models, at, number, payload, number, 0);
}

proof fn lemma_none_before_first(fields: Seq<ProtoField>, from: int, at: int, number: u32)
    requires
        0 <= from,
        message::first_from(fields, from, number, Some(2u8)) == Some(at),
        message::messages_before(fields, from, number) == 0,
    ensures
        message::messages_before(fields, at, number) == 0,
    decreases fields.len() - from,
{
    if from < fields.len() && !message::is_wanted(fields[from], number, Some(2u8)) {
        lemma_none_before_first(fields, from + 1, at, number);
    }
}

/// Where a field of another number is replaced, the text of the first field of a number
/// stays.
proof fn lemma_text_stays(bytes: Seq<u8>, at: int, number: u32, payload: Seq<u8>, wanted: u32)
    requires
        bytes.len() <= usize::MAX,
        number > 0,
        number != wanted,
        proto::proto_fields(bytes) is Ok,
        0 <= at < proto::proto_fields(bytes)->Ok_0.len(),
        proto::proto_fields(bytes)->Ok_0[at].is_message(number),
        message::with_field(
            bytes,
            proto::proto_fields(bytes)->Ok_0,
            at,
            number,
            payload,
        ).len() <= usize::MAX,
    ensures
        message::first_text(
            message::with_field(bytes, proto::proto_fields(bytes)->Ok_0, at, number, payload),
            wanted,
        ) == message::first_text(bytes, wanted),
{
    let fields = proto::proto_fields(bytes)->Ok_0;
    let out = message::with_field(bytes, fields, at, number, payload);
    message::law_replacing_a_field(bytes, at, number, payload);
    let others = proto::proto_fields(out)->Ok_0;
    let models = proto::models_of(bytes, fields);
    let changed = models.update(at, proto::message_model(number, payload));
    assert(proto::models_of(out, others).len() == changed.len());
    assert forall|i: int| 0 <= i < fields.len() implies (#[trigger] fields[i]).number
        == others[i].number && fields[i].wire_type == others[i].wire_type && (i != at
        ==> others[i].payload(out) == fields[i].payload(bytes)) by {
        assert(proto::models_of(out, others)[i] == changed[i]);
        assert(models[i] == proto::model_of(bytes, fields[i]));
    }
    lemma_first_of_any_type(fields, others, 0, wanted);
    message::lemma_first_from(fields, 0, wanted, None);
}

proof fn lemma_first_of_any_type(
    fields: Seq<ProtoField>,
    others: Seq<ProtoField>,
    from: int,
    number: u32,
)
    requires
        0 <= from,
        fields.len() == others.len(),
        forall|i: int| 0 <= i < fields.len() ==> (#[trigger] fields[i]).number == others[i].number,
    ensures
        message::first_from(fields, from, number, None) == message::first_from(
            others,
            from,
            number,
            None,
        ),
    decreases fields.len() - from,
{
    if from < fields.len() {
        lemma_first_of_any_type(fields, others, from + 1, number);
        assert(fields[from].number == others[from].number);
    }
}

/// A dimension with a fixed value has that value.
pub proof fn law_fixed_dimensions_have_their_value(value: u32)
    ensures
        dimension_value(dimensions::dim_value(value)) == Some(value as u64),
{
    let bytes = dimensions::dim_value(value);
    proto::law_varint_field_round_trip(1, value as u64);
    let field = proto::field_at(bytes, 0)->Ok_0;
    proto::lemma_field_at_within(bytes, 0);
    let rest = proto::fields_from(bytes, field.end as int);
    assert(rest == Ok::<Seq<ProtoField>, ProtoError>(Seq::empty()));
    let fields = proto::proto_fields(bytes)->Ok_0;
    assert(fields =~= seq![field]);
    let head = proto::varint_bytes(8);
    let body = proto::varint_bytes(value as nat);
    proto::law_varint_round_trip(Seq::empty(), 8, body);
    assert(Seq::<u8>::empty() + head + body =~= bytes);
    proto::law_varint_round_trip(head, value as u64, Seq::empty());
    assert(head + body + Seq::<u8>::empty() =~= bytes);
    assert(message::first_from(fields, 0, 1, Some(0u8)) == Some(0int));
}

/// A shape whose size was fixed has the height as its third dimension and the width as its
/// fourth, and as many dimensions as before, of which the others stay.
pub proof fn law_sized_shapes_have_height_and_width(
    bytes: Seq<u8>,
    width: u32,
    height: u32,
    sized: Seq<u8>,
    index: int,
)
    requires
        bytes.len() <= usize::MAX,
        sized.len() <= usize::MAX,
        dimensions::sized_shape(bytes, width, height) == Ok::<Option<Seq<u8>>, ProtoError>(
            Some(sized),
        ),
    ensures
        shape_dimension(sized, 2) == Some(height as u64),
        shape_dimension(sized, 3) == Some(width as u64),
        parts(sized, 1).len() == parts(bytes, 1).len() >= 4,
        index != 2 && index != 3 ==> part(sized, 1, index) == part(bytes, 1, index),
{
    let fields = proto::proto_fields(bytes)->Ok_0;
    let models = proto::models_of(bytes, fields);
    dimensions::law_sized_shape_holds_the_size(bytes, width, height);
    let changed = Seq::new(
        fields.len(),
        |i: int| dimensions::sized_dimension_model(bytes, fields, i, width, height),
    );
    let wanted = is_part(1);
    let count = fields.len() as int;
    assert(models.take(count) =~= models);
    assert(changed.take(count) =~= changed);
    assert forall|i: int| 0 <= i < models.len() implies wanted(#[trigger] models[i]) == wanted(
        changed[i],
    ) by {}
    lemma_messages_before_is_a_filter(bytes, fields, count, 1);
    lemma_filter_counts_alike(models, changed, wanted, count);
    lemma_shape_part(bytes, width, height, 2);
    lemma_shape_part(bytes, width, height, 3);
    law_fixed_dimensions_have_their_value(height);
    law_fixed_dimensions_have_their_value(width);
    if index != 2 && index != 3 && 0 <= index < models.filter(wanted).len() {
        lemma_shape_part(bytes, width, height, index);
    }
}

proof fn lemma_shape_part(bytes: Seq<u8>, width: u32, height: u32, index: int)
    requires
        proto::proto_fields(bytes) is Ok,
        0 <= index < proto::models_of(bytes, proto::proto_fields(bytes)->Ok_0).filter(
            is_part(1),
        ).len(),
    ensures
        ({
            let fields = proto::proto_fields(bytes)->Ok_0;
            let models = proto::models_of(bytes, fields);
            let changed = Seq::new(
                fields.len(),
                |i: int| dimensions::sized_dimension_model(bytes, fields, i, width, height),
            );
            &&& index < changed.filter(is_part(1)).len()
            &&& index == 2 ==> changed.filter(is_part(1))[index].payload == dimensions::dim_value(
                height,
            )
            &&& index == 3 ==> changed.filter(is_part(1))[index].payload == dimensions::dim_value(
                width,
            )
            &&& index != 2 && index != 3 ==> changed.filter(is_part(1))[index] == models.filter(
                is_part(1),
            )[index]
        }),
{
    let fields = proto::proto_fields(bytes)->Ok_0;
    let models = proto::models_of(bytes, fields);
    let changed = Seq::new(
        fields.len(),
        |i: int| dimensions::sized_dimension_model(bytes, fields, i, width, height),
    );
    let wanted = is_part(1);
    assert forall|i: int| 0 <= i < models.len() implies wanted(#[trigger] models[i]) == wanted(
        changed[i],
    ) by {}
    let at = lemma_filter_comes_from(models, wanted, index);
    lemma_messages_before_is_a_filter(bytes, fields, at, 1);
    lemma_filter_counts_alike(models, changed, wanted, at);
    lemma_filter_position(changed, wanted, at);
    assert(changed[at] == dimensions::sized_dimension_model(bytes, fields, at, width, height));
}

/// An input whose size was fixed is the picture's, with this height and this width.
pub proof fn law_sized_inputs_have_height_and_width(
    bytes: Seq<u8>,
    width: u32,
    height: u32,
    sized: Seq<u8>,
    element: u64,
)
    requires
        bytes.len() <= usize::MAX,
        sized.len() <= usize::MAX,
        dimensions::sized_input(bytes, width, height) == Ok::<SizedInput, ProtoError>(
            SizedInput::Applied { input: sized, element },
        ),
    ensures
        is_source_of_size(sized, width, height),
{
    reveal_strlit("src");
    let fields = proto::proto_fields(bytes)->Ok_0;
    proto::law_fields_tile_the_message(bytes, 0);
    let at = message::first_from(fields, 0, 2, Some(2u8))->0;
    message::lemma_first_from(fields, 0, 2, Some(2u8));
    assert(fields[at].within(bytes.len()));
    let kind = fields[at].payload(bytes);
    let (sized_kind, _) = dimensions::sized_type(kind, width, height)->Ok_0->0;
    lemma_replaced_part(bytes, at, 2, sized_kind);
    lemma_text_stays(bytes, at, 2, sized_kind, 1);
    let kinds = proto::proto_fields(kind)->Ok_0;
    proto::law_fields_tile_the_message(kind, 0);
    let tensor_at = message::first_from(kinds, 0, 1, Some(2u8))->0;
    message::lemma_first_from(kinds, 0, 1, Some(2u8));
    assert(kinds[tensor_at].within(kind.len()));
    let tensor = kinds[tensor_at].payload(kind);
    let (sized_tensor, _) = dimensions::sized_tensor_type(tensor, width, height)->Ok_0->0;
    lemma_replaced_part(kind, tensor_at, 1, sized_tensor);
    let tensors = proto::proto_fields(tensor)->Ok_0;
    proto::law_fields_tile_the_message(tensor, 0);
    let shape_at = message::first_from(tensors, 0, 2, Some(2u8))->0;
    message::lemma_first_from(tensors, 0, 2, Some(2u8));
    assert(tensors[shape_at].within(tensor.len()));
    let shape = tensors[shape_at].payload(tensor);
    let sized_shape = dimensions::sized_shape(shape, width, height)->Ok_0->0;
    lemma_replaced_part(tensor, shape_at, 2, sized_shape);
    law_sized_shapes_have_height_and_width(shape, width, height, sized_shape, 0);
}

proof fn lemma_kept_contains(
    count: nat,
    model: spec_fn(int) -> Option<FieldModel>,
    at: int,
)
    requires
        0 <= at < count,
        model(at) is Some,
    ensures
        message::kept(count, model).contains(model(at)->0),
    decreases count,
{
    let all = message::kept(count, model);
    let before = message::kept((count - 1) as nat, model);
    if at == count - 1 {
        assert(all[before.len() as int] == model(at)->0);
    } else {
        lemma_kept_contains((count - 1) as nat, model, at);
        let i = choose|i: int| 0 <= i < before.len() && before[i] == model(at)->0;
        assert(all[i] == model(at)->0);
    }
}

proof fn lemma_sized_input_stands(
    bytes: Seq<u8>,
    fields: Seq<ProtoField>,
    count: int,
    width: u32,
    height: u32,
) -> (at: int)
    requires
        0 <= count <= fields.len(),
        dimensions::last_element_type(bytes, fields, count, width, height) is Some,
    ensures
        0 <= at < count,
        dimensions::sized_graph_input(bytes, fields[at], width, height) matches Ok(
            SizedInput::Applied { .. },
        ),
    decreases count,
{
    match dimensions::sized_graph_input(bytes, fields[count - 1], width, height) {
        Ok(SizedInput::Applied { .. }) => count - 1,
        _ => lemma_sized_input_stands(bytes, fields, count - 1, width, height),
    }
}

/// A graph whose source input's size was fixed has an input for pictures of that size.
pub proof fn law_sized_graphs_take_the_size(bytes: Seq<u8>, width: u32, height: u32)
    requires
        bytes.len() <= usize::MAX,
        dimensions::sized_graph(bytes, width, height) matches Ok(sized) && sized.applied
            && sized.bytes.len() <= usize::MAX,
    ensures
        graph_takes_size(
            dimensions::sized_graph(bytes, width, height)->Ok_0.bytes,
            width,
            height,
        ),
{
    let fields = proto::proto_fields(bytes)->Ok_0;
    let out = dimensions::sized_graph(bytes, width, height)->Ok_0.bytes;
    dimensions::law_sized_graph_keeps_the_rest(bytes, width, height);
    proto::law_fields_tile_the_message(bytes, 0);
    let at = lemma_sized_input_stands(bytes, fields, fields.len() as int, width, height);
    assert(fields[at].within(bytes.len()));
    let model = dimensions::sized_graph_model(bytes, fields, width, height);
    lemma_kept_contains(fields.len(), model, at);
    let applied = dimensions::sized_graph_input(bytes, fields[at], width, height)->Ok_0;
    let input = applied->input;
    let piece = dimensions::sized_graph_field(bytes, fields, width, height);
    message::lemma_joined_bounds(fields.len(), piece, at);
    assert(piece(at) == proto::message_field(11, input));
    law_sized_inputs_have_height_and_width(
        fields[at].payload(bytes),
        width,
        height,
        input,
        applied->element,
    );
    assert(holds(out, 11, input));
}

/// A model with one graph has it where it was found.
proof fn lemma_one_graph(bytes: Seq<u8>, place: usize)
    requires
        bytes.len() <= usize::MAX,
        proto::proto_fields(bytes) is Ok,
        graph::graph_place(proto::proto_fields(bytes)->Ok_0) == GraphPlace::At(place),
    ensures
        message::first_from(proto::proto_fields(bytes)->Ok_0, 0, 7, Some(2u8)) == Some(
            place as int,
        ),
        parts(bytes, 7).len() == 1,
        parts(bytes, 7)[0].payload == proto::proto_fields(bytes)->Ok_0[place as int].payload(bytes),
        proto::proto_fields(bytes)->Ok_0[place as int].within(bytes.len()),
{
    let fields = proto::proto_fields(bytes)->Ok_0;
    let models = proto::models_of(bytes, fields);
    graph::lemma_graph_stands(bytes, place);
    proto::law_fields_tile_the_message(bytes, 0);
    assert(fields[place as int].within(bytes.len()));
    lemma_messages_before_is_a_filter(bytes, fields, fields.len() as int, 7);
    assert(models.take(fields.len() as int) =~= models);
    lemma_messages_before_is_a_filter(bytes, fields, place as int, 7);
    lemma_none_before_first(fields, 0, place as int, 7);
    lemma_filter_position(models, is_part(7), place as int);
}

/// A model whose one graph is replaced has the new graph, and no other.
proof fn lemma_replaced_graph(bytes: Seq<u8>, place: usize, patched: Seq<u8>)
    requires
        bytes.len() <= usize::MAX,
        proto::proto_fields(bytes) is Ok,
        graph::graph_place(proto::proto_fields(bytes)->Ok_0) == GraphPlace::At(place),
        message::with_field(
            bytes,
            proto::proto_fields(bytes)->Ok_0,
            place as int,
            7,
            patched,
        ).len() <= usize::MAX,
    ensures
        ({
            let out = message::with_field(
                bytes,
                proto::proto_fields(bytes)->Ok_0,
                place as int,
                7,
                patched,
            );
            &&& patched.len() <= usize::MAX
            &&& parts(out, 7).len() == 1
            &&& parts(out, 7)[0].payload == patched
        }),
{
    lemma_one_graph(bytes, place);
    lemma_replaced_part(bytes, place as int, 7, patched);
    let out = message::with_field(
        bytes,
        proto::proto_fields(bytes)->Ok_0,
        place as int,
        7,
        patched,
    );
    assert(part(out, 7, 0) == Some(patched));
}

/// A model whose source input's size was fixed takes pictures of that size.
pub proof fn law_sized_models_take_the_size(bytes: Seq<u8>, width: u32, height: u32)
    requires
        bytes.len() <= usize::MAX,
        dimensions::sized_model(bytes, width, height) matches Ok(sized) && sized.applied
            && sized.bytes.len() <= usize::MAX,
    ensures
        model_takes_size(
            dimensions::sized_model(bytes, width, height)->Ok_0.bytes,
            width,
            height,
        ),
{
    let fields = proto::proto_fields(bytes)->Ok_0;
    let place = graph::graph_place(fields)->At_0;
    lemma_one_graph(bytes, place);
    let inner = fields[place as int].payload(bytes);
    let sized = dimensions::sized_graph(inner, width, height)->Ok_0;
    lemma_replaced_graph(bytes, place, sized.bytes);
    law_sized_graphs_take_the_size(inner, width, height);
}

/// A graph whose resize node is replaced keeps its inputs, but for the downsample ratio.
pub proof fn law_patched_graphs_keep_their_inputs(
    bytes: Seq<u8>,
    element_type: u64,
    input: Seq<u8>,
)
    requires
        bytes.len() <= usize::MAX,
        identity::identity_graph(bytes, element_type) matches Ok(Identity::Applied(patched))
            && patched.len() <= usize::MAX,
        holds(bytes, 11, input),
        message::first_text(input, 1) != Ok::<Option<Seq<char>>, ProtoError>(
            Some("downsample_ratio"@),
        ),
    ensures
        holds(identity::identity_graph(bytes, element_type)->Ok_0->Applied_0, 11, input),
{
    reveal_strlit("downsample_ratio");
    let patched = identity::identity_graph(bytes, element_type)->Ok_0->Applied_0;
    let found = identity::lemma_patched_graph_was_rebuilt(bytes, element_type);
    let fields = proto::proto_fields(bytes)->Ok_0;
    let initializer = identity::identity_initializer(element_type)->0;
    identity::law_identity_graph_keeps_the_rest(bytes, found, initializer);
    let wanted = proto::message_model(11, input);
    let at = choose|at: int| 0 <= at < fields_of(bytes).len() && fields_of(bytes)[at] == wanted;
    assert(fields_of(bytes)[at] == proto::model_of(bytes, fields[at]));
    let output = node::node_model(fields[found].payload(bytes))->Ok_0.outputs[0];
    let dead = identity::dead_nodes(bytes, fields, found);
    let model = identity::identity_field_model(bytes, fields, found, output, dead);
    assert(model(at) == Some(wanted));
    lemma_kept_contains(fields.len(), model, at);
    let kept = message::kept(fields.len(), model);
    let all = identity::identity_graph_models(bytes, fields, found, initializer);
    let i = choose|i: int| 0 <= i < kept.len() && kept[i] == wanted;
    assert(all[i] == wanted);
}

/// A model that is prepared for frames of a size, where its source input could be fixed,
/// takes pictures of that size: read out of the bytes that are loaded, the third dimension of
/// the one graph's input is the frames' height, and the fourth their width.
pub proof fn law_prepared_models_take_the_frames(
    bytes: Seq<u8>,
    width: u32,
    height: u32,
    near_one: bool,
    prepared: Prepared,
)
    requires
        bytes.len() <= usize::MAX,
        prepare::prepared_primary(bytes, width, height, near_one) == Ok::<Prepared, PatchError>(
            prepared,
        ),
        prepared.messages.len() > 0 && prepared.messages[0] is SourcePatched,
        dimensions::sized_model(bytes, width, height) matches Ok(sized) ==> sized.bytes.len()
            <= usize::MAX,
        prepared.bytes matches Some(out) ==> out.len() <= usize::MAX,
    ensures
        prepared.bytes matches Some(out) && model_takes_size(out, width, height),
        prepared.messages[0] == (PatchMessage::<Seq<char>>::SourcePatched { width, height }),
{
    let sized = dimensions::sized_model(bytes, width, height)->Ok_0;
    let patch = identity::identity_model(sized.bytes, sized.element_type);
    lemma_prepared_bytes(sized, patch, width, height, near_one, prepared);
    law_sized_models_take_the_size(bytes, width, height);
    if prepared.bytes != Some(sized.bytes) {
        lemma_identity_model_takes_the_size(
            sized.bytes,
            sized.element_type,
            width,
            height,
            prepared.bytes->0,
        );
    }
}

/// The bytes of a prepared model are those with the size fixed, or those with the resize node
/// replaced in them.
proof fn lemma_prepared_bytes(
    sized: SizedMessage,
    patch: Result<Identity, PatchError>,
    width: u32,
    height: u32,
    near_one: bool,
    prepared: Prepared,
)
    requires
        prepare::prepared_of(sized, patch, width, height, near_one) == Ok::<Prepared, PatchError>(
            prepared,
        ),
        prepared.messages.len() > 0 && prepared.messages[0] is SourcePatched,
    ensures
        sized.applied,
        prepared.messages[0] == (PatchMessage::<Seq<char>>::SourcePatched { width, height }),
        prepared.bytes is Some,
        prepared.bytes == Some(sized.bytes) || patch == Ok::<Identity, PatchError>(
            Identity::Applied(prepared.bytes->0),
        ),
{
    let first = prepare::source_messages(sized, width, height);
    assert(first.len() >= 1);
    assert(prepared.messages[0] == first[0]);
}

proof fn lemma_identity_model_takes_the_size(
    bytes: Seq<u8>,
    element_type: Option<u64>,
    width: u32,
    height: u32,
    patched: Seq<u8>,
)
    requires
        bytes.len() <= usize::MAX,
        patched.len() <= usize::MAX,
        model_takes_size(bytes, width, height),
        identity::identity_model(bytes, element_type) == Ok::<Identity, PatchError>(
            Identity::Applied(patched),
        ),
    ensures
        model_takes_size(patched, width, height),
{
    let fields = proto::proto_fields(bytes)->Ok_0;
    let place = graph::graph_place(fields)->At_0;
    lemma_one_graph(bytes, place);
    let inner = fields[place as int].payload(bytes);
    let element = element_type->0;
    let graph = identity::identity_graph(inner, element)->Ok_0->Applied_0;
    lemma_replaced_graph(bytes, place, graph);
    let input = choose|input: Seq<u8>| #[trigger]
        holds(inner, 11, input) && is_source_of_size(input, width, height);
    reveal_strlit("src");
    reveal_strlit("downsample_ratio");
    assert("src"@.len() != "downsample_ratio"@.len());
    law_patched_graphs_keep_their_inputs(inner, element, input);
}

/// Fields that a change of a message leaves alone stay, in their order.
proof fn lemma_kept_filter(
    count: nat,
    models: Seq<FieldModel>,
    model: spec_fn(int) -> Option<FieldModel>,
    wanted: spec_fn(FieldModel) -> bool,
)
    requires
        count <= models.len(),
        forall|i: int|
            0 <= i < count ==> match #[trigger] model(i) {
                None => !wanted(models[i]),
                Some(changed) => wanted(changed) == wanted(models[i]) && (wanted(changed)
                    ==> changed == models[i]),
            },
    ensures
        message::kept(count, model).filter(wanted) == models.take(count as int).filter(wanted),
    decreases count,
{
    reveal(Seq::filter);
    if count > 0 {
        let before = (count - 1) as nat;
        lemma_kept_filter(before, models, model, wanted);
        assert(models.take(count as int).drop_last() =~= models.take(before as int));
        assert(models.take(count as int).last() == models[before as int]);
        let fewer = message::kept(before, model);
        match model(before as int) {
            None => {},
            Some(last) => {
                assert(fewer.push(last).drop_last() =~= fewer);
            },
        }
    } else {
        assert(models.take(0) =~= Seq::empty());
    }
}

proof fn lemma_filter_push(
    models: Seq<FieldModel>,
    last: FieldModel,
    wanted: spec_fn(FieldModel) -> bool,
)
    ensures
        models.push(last).filter(wanted) == (if wanted(last) {
            models.filter(wanted).push(last)
        } else {
            models.filter(wanted)
        }),
{
    reveal(Seq::filter);
    assert(models.push(last).drop_last() =~= models);
}

/// A field that is neither a graph's input nor a shape annotation.
pub open spec fn is_no_input() -> spec_fn(FieldModel) -> bool {
    |model: FieldModel| !(model.wire_type == 2 && (model.number == 11 || model.number == 13))
}

/// An input that is not named as the picture is.
pub open spec fn is_other_input() -> spec_fn(FieldModel) -> bool {
    |model: FieldModel|
        model.number == 11 && model.wire_type == 2 && message::first_text(model.payload, 1) is Ok
            && message::first_text(model.payload, 1)->Ok_0 != Some("src"@)
}

/// A graph whose source input's size was fixed has no shape annotations, and everything else but
/// that input as it was, in its order: its nodes, its tensors, its outputs and its other inputs.
/// As many annotations are gone as there were.
pub proof fn law_sized_graphs_keep_everything_else(bytes: Seq<u8>, width: u32, height: u32)
    requires
        bytes.len() <= usize::MAX,
        dimensions::sized_graph(bytes, width, height) matches Ok(sized) && sized.bytes.len()
            <= usize::MAX,
    ensures
        ({
            let sized = dimensions::sized_graph(bytes, width, height)->Ok_0;
            &&& fields_of(sized.bytes).filter(is_no_input()) == fields_of(bytes).filter(
                is_no_input(),
            )
            &&& fields_of(sized.bytes).filter(is_other_input()) == fields_of(bytes).filter(
                is_other_input(),
            )
            &&& parts(sized.bytes, 13).len() == 0
            &&& sized.removed_value_info == parts(bytes, 13).len()
        }),
{
    reveal_strlit("src");
    let fields = proto::proto_fields(bytes)->Ok_0;
    let models = proto::models_of(bytes, fields);
    let model = dimensions::sized_graph_model(bytes, fields, width, height);
    let piece = dimensions::sized_graph_field(bytes, fields, width, height);
    let out = dimensions::sized_graph(bytes, width, height)->Ok_0.bytes;
    dimensions::law_sized_graph_keeps_the_rest(bytes, width, height);
    proto::law_fields_tile_the_message(bytes, 0);
    assert(models.take(fields.len() as int) =~= models);
    lemma_messages_before_is_a_filter(bytes, fields, fields.len() as int, 13);
    assert forall|i: int| 0 <= i < fields.len() implies match #[trigger] model(i) {
        None => !is_other_input()(models[i]),
        Some(changed) => is_other_input()(changed) == is_other_input()(models[i])
            && (is_other_input()(changed) ==> changed == models[i]),
    } by {
        assert(fields[i].within(bytes.len()));
        if !fields[i].is_message(13) {
            if let Ok(SizedInput::Applied { input, element }) = dimensions::sized_graph_input(
                bytes,
                fields[i],
                width,
                height,
            ) {
                message::lemma_joined_bounds(fields.len(), piece, i);
                assert(piece(i) == proto::message_field(11, input));
                law_sized_inputs_have_height_and_width(
                    fields[i].payload(bytes),
                    width,
                    height,
                    input,
                    element,
                );
            }
        }
    }
    lemma_kept_filter(fields.len(), models, model, is_other_input());
    assert forall|i: int| 0 <= i < fields.len() implies match #[trigger] model(i) {
        None => !is_no_input()(models[i]),
        Some(changed) => is_no_input()(changed) == is_no_input()(models[i]) && (is_no_input()(
            changed,
        ) ==> changed == models[i]),
    } by {}
    lemma_kept_filter(fields.len(), models, model, is_no_input());
    let kept = message::kept(fields.len(), model);
    if kept.filter(is_part(13)).len() > 0 {
        let at = lemma_filter_comes_from(kept, is_part(13), 0);
        let from = message::lemma_kept_comes_from(fields.len(), model, at);
        assert(false);
    }
}

/// A pruned model has one graph without shape annotations, with everything else in it as it was
/// and in its order, and everything outside the graph as it was. As many annotations are gone
/// as there were.
pub proof fn law_pruned_models_lose_only_annotations(bytes: Seq<u8>, pruned: Seq<u8>, removed: int)
    requires
        bytes.len() <= usize::MAX,
        pruned.len() <= usize::MAX,
        graph::pruned_model(bytes) == Ok::<(Seq<u8>, int), PatchError>((pruned, removed)),
        parts(bytes, 7).len() == 1,
    ensures
        parts(pruned, 7).len() == 1,
        ({
            let before = parts(bytes, 7)[0].payload;
            let after = parts(pruned, 7)[0].payload;
            &&& fields_of(after) == fields_of(before).filter(
                |model: FieldModel| !(model.number == 13 && model.wire_type == 2),
            )
            &&& removed == parts(before, 13).len()
        }),
        fields_of(pruned).len() == fields_of(bytes).len(),
        forall|i: int|
            0 <= i < fields_of(bytes).len() && !is_part(7)(#[trigger] fields_of(bytes)[i])
                ==> fields_of(pruned)[i] == fields_of(bytes)[i],
{
    let fields = proto::proto_fields(bytes)->Ok_0;
    let models = proto::models_of(bytes, fields);
    assert(models.take(fields.len() as int) =~= models);
    lemma_messages_before_is_a_filter(bytes, fields, fields.len() as int, 7);
    let place = graph::graph_place(fields)->At_0;
    lemma_one_graph(bytes, place);
    let inner = fields[place as int].payload(bytes);
    let inner_fields = proto::proto_fields(inner)->Ok_0;
    let patched = graph::pruned_graph(inner, inner_fields);
    lemma_replaced_graph(bytes, place, patched);
    lemma_replaced_part(bytes, place as int, 7, patched);
    graph::law_pruned_graph_keeps_the_rest(inner);
    let inner_models = proto::models_of(inner, inner_fields);
    assert(inner_models.take(inner_fields.len() as int) =~= inner_models);
    lemma_messages_before_is_a_filter(inner, inner_fields, inner_fields.len() as int, 13);
}

/// A model without one graph is left as it is by pruning.
pub proof fn law_models_without_one_graph_are_not_pruned(bytes: Seq<u8>)
    requires
        bytes.len() <= usize::MAX,
        proto::proto_fields(bytes) is Ok,
        parts(bytes, 7).len() != 1,
    ensures
        graph::pruned_model(bytes) == Ok::<(Seq<u8>, int), PatchError>((bytes, 0)),
{
    let fields = proto::proto_fields(bytes)->Ok_0;
    let models = proto::models_of(bytes, fields);
    assert(models.take(fields.len() as int) =~= models);
    lemma_messages_before_is_a_filter(bytes, fields, fields.len() as int, 7);
}

/// A field that is neither a graph's node nor its input.
pub open spec fn is_no_node_nor_input() -> spec_fn(FieldModel) -> bool {
    |model: FieldModel| !(model.wire_type == 2 && (model.number == 1 || model.number == 11))
}

/// An input that is not named as the downsample ratio is.
pub open spec fn is_no_ratio() -> spec_fn(FieldModel) -> bool {
    |model: FieldModel|
        model.number == 11 && model.wire_type == 2 && message::first_text(model.payload, 1) != Ok::<
            Option<Seq<char>>,
            ProtoError,
        >(Some("downsample_ratio"@))
}

/// A graph whose resize node is replaced keeps its tensors, its outputs and whatever else is
/// neither node nor input, in their order, with the identity tensor behind them; and of its inputs
/// it keeps all but the downsample ratio, in their order.
pub proof fn law_patched_graphs_keep_everything_else(
    bytes: Seq<u8>,
    element_type: u64,
    patched: Seq<u8>,
)
    requires
        bytes.len() <= usize::MAX,
        patched.len() <= usize::MAX,
        identity::identity_graph(bytes, element_type) == Ok::<Identity, PatchError>(
            Identity::Applied(patched),
        ),
    ensures
        fields_of(patched).filter(is_no_node_nor_input()) == fields_of(bytes).filter(
            is_no_node_nor_input(),
        ).push(proto::message_model(5, identity::identity_initializer(element_type)->0)),
        parts(patched, 11) == fields_of(bytes).filter(is_no_ratio()),
{
    reveal_strlit("downsample_ratio");
    let found = identity::lemma_patched_graph_was_rebuilt(bytes, element_type);
    let fields = proto::proto_fields(bytes)->Ok_0;
    let models = proto::models_of(bytes, fields);
    let initializer = identity::identity_initializer(element_type)->0;
    identity::law_identity_graph_keeps_the_rest(bytes, found, initializer);
    let output = node::node_model(fields[found].payload(bytes))->Ok_0.outputs[0];
    let dead = identity::dead_nodes(bytes, fields, found);
    let model = identity::identity_field_model(bytes, fields, found, output, dead);
    let kept = message::kept(fields.len(), model);
    assert(models.take(fields.len() as int) =~= models);
    lemma_kept_filter(fields.len(), models, model, is_no_node_nor_input());
    lemma_filter_push(kept, proto::message_model(5, initializer), is_no_node_nor_input());
    assert forall|i: int| 0 <= i < fields.len() implies match #[trigger] model(i) {
        None => !is_no_ratio()(models[i]),
        Some(changed) => is_no_ratio()(changed) == is_no_ratio()(models[i]) && (is_no_ratio()(
            changed,
        ) ==> changed == models[i]),
    } by {}
    lemma_kept_filter(fields.len(), models, model, is_no_ratio());
    lemma_filter_push(kept, proto::message_model(5, initializer), is_part(11));
    lemma_kept_inputs_are_no_ratio(fields.len(), model, bytes, fields, found, output, dead);
}

proof fn lemma_kept_inputs_are_no_ratio(
    count: nat,
    model: spec_fn(int) -> Option<FieldModel>,
    bytes: Seq<u8>,
    fields: Seq<ProtoField>,
    found: int,
    output: Seq<char>,
    dead: Set<int>,
)
    requires
        count <= fields.len(),
        model == identity::identity_field_model(bytes, fields, found, output, dead),
    ensures
        message::kept(count, model).filter(is_part(11)) == message::kept(count, model).filter(
            is_no_ratio(),
        ),
    decreases count,
{
    reveal(Seq::filter);
    reveal_strlit("downsample_ratio");
    if count > 0 {
        let before = (count - 1) as nat;
        lemma_kept_inputs_are_no_ratio(before, model, bytes, fields, found, output, dead);
        let fewer = message::kept(before, model);
        if let Some(last) = model(before as int) {
            assert(fewer.push(last).drop_last() =~= fewer);
            assert(is_part(11)(last) == is_no_ratio()(last));
        }
    }
}

/// The search for the resize node finds the one node that looks as expected; no other node has
/// its name.
proof fn lemma_found_is_the_resize_node(
    bytes: Seq<u8>,
    fields: Seq<ProtoField>,
    count: int,
    found: int,
    other: int,
)
    requires
        0 <= count <= fields.len(),
        identity::resize_search(bytes, fields, count) == Ok::<Search, PatchError>(
            Search::Found(Some(found)),
        ),
    ensures
        0 <= found < count,
        fields[found].is_message(1),
        node::node_model(fields[found].payload(bytes)) matches Ok(model) && node::inspection(
            model,
        ) is Valid,
        0 <= other < count && other != found && fields[other].is_message(1) ==> (node::node_model(
            fields[other].payload(bytes),
        ) matches Ok(model) && node::inspection(model) is NotResize3),
    decreases count,
{
    if count > 0 {
        match identity::resize_search(bytes, fields, count - 1) {
            Ok(Search::Found(Some(earlier))) => {
                lemma_found_is_the_resize_node(bytes, fields, count - 1, earlier, other);
            },
            Ok(Search::Found(None)) => {
                lemma_none_is_the_resize_node(bytes, fields, count - 1, other);
            },
            _ => {},
        }
    }
}

proof fn lemma_none_is_the_resize_node(
    bytes: Seq<u8>,
    fields: Seq<ProtoField>,
    count: int,
    other: int,
)
    requires
        0 <= count <= fields.len(),
        identity::resize_search(bytes, fields, count) == Ok::<Search, PatchError>(
            Search::Found(None),
        ),
    ensures
        0 <= other < count && fields[other].is_message(1) ==> (node::node_model(
            fields[other].payload(bytes),
        ) matches Ok(model) && node::inspection(model) is NotResize3),
    decreases count,
{
    if count > 0 {
        lemma_none_is_the_resize_node(bytes, fields, count - 1, other);
    }
}

/// A node is replaced exactly if it is named Resize_3 and resizes the picture: an operation Resize
/// of no domain of its own, with three inputs at least of which the first is the picture, with one
/// output, and with the three attributes of a resize by nearest neighbours. It then gives up all
/// its inputs but the first.
pub proof fn law_resize_nodes_look_as_expected(model: NodeModel)
    ensures
        node::inspection(model) is NotResize3 <==> model.name != Some("Resize_3"@),
        node::inspection(model) is Valid <==> {
            &&& model.name == Some("Resize_3"@)
            &&& model.op_type == Some("Resize"@)
            &&& model.domain is None || model.domain->0.len() == 0
            &&& model.inputs.len() >= 3 && model.inputs[0] == "src"@
            &&& model.outputs.len() == 1
            &&& model.attribute_names.contains("coordinate_transformation_mode"@)
            &&& model.attribute_names.contains("mode"@)
            &&& model.attribute_names.contains("nearest_mode"@)
        },
        node::inspection(model) matches Inspection::Valid { kept, dead } ==> kept
            == model.outputs[0] && dead == model.inputs.subrange(1, model.inputs.len() as int),
{
    assert(model.inputs.len() > 0 ==> model.inputs.drop_first() =~= model.inputs.subrange(
        1,
        model.inputs.len() as int,
    ));
}

/// A graph that is patched had one node named Resize_3, which resized the picture; in its place it
/// has a multiplication of the picture by the identity tensor, of the same name, which gives what
/// the resize gave.
pub proof fn law_resize_nodes_are_replaced(
    bytes: Seq<u8>,
    element_type: u64,
    patched: Seq<u8>,
) -> (nodes: (Seq<u8>, Seq<u8>))
    requires
        bytes.len() <= usize::MAX,
        patched.len() <= usize::MAX,
        identity::identity_graph(bytes, element_type) == Ok::<Identity, PatchError>(
            Identity::Applied(patched),
        ),
    ensures
        holds(bytes, 1, nodes.0),
        holds(patched, 1, nodes.1),
        node::node_model(nodes.0) is Ok,
        ({
            let before = node::node_model(nodes.0)->Ok_0;
            &&& before.name == Some("Resize_3"@)
            &&& before.op_type == Some("Resize"@)
            &&& before.inputs[0] == "src"@
            &&& before.outputs.len() == 1
            &&& node::node_model(nodes.1) == Ok::<NodeModel, PatchError>(
                NodeModel {
                    inputs: seq!["src"@, "__segmenter_resize_3_identity_scale"@],
                    outputs: seq![before.outputs[0]],
                    name: Some("Resize_3"@),
                    op_type: Some("Mul"@),
                    domain: None,
                    attribute_names: Seq::empty(),
                },
            )
        }),
{
    let fields = proto::proto_fields(bytes)->Ok_0;
    let found = identity::lemma_patched_graph_was_rebuilt(bytes, element_type);
    lemma_found_is_the_resize_node(bytes, fields, fields.len() as int, found, 0);
    let resize = fields[found].payload(bytes);
    let before = node::node_model(resize)->Ok_0;
    law_resize_nodes_look_as_expected(before);
    let output = before.outputs[0];
    let initializer = identity::identity_initializer(element_type)->0;
    identity::law_identity_graph_keeps_the_rest(bytes, found, initializer);
    let dead = identity::dead_nodes(bytes, fields, found);
    let model = identity::identity_field_model(bytes, fields, found, output, dead);
    let piece = identity::identity_field(bytes, fields, found, output, dead);
    let replaced = identity::identity_node(output);
    message::lemma_joined_bounds(fields.len(), piece, found);
    assert(piece(found) == proto::message_field(1, replaced));
    identity::law_identity_node_reads_back(output);
    assert(model(found) == Some(proto::message_model(1, replaced)));
    lemma_kept_contains(fields.len(), model, found);
    let kept = message::kept(fields.len(), model);
    let all = identity::identity_graph_models(bytes, fields, found, initializer);
    let i = choose|i: int|
        0 <= i < kept.len() && kept[i] == proto::message_model(1, replaced);
    assert(all[i] == proto::message_model(1, replaced));
    assert(fields_of(bytes)[found] == proto::message_model(1, resize));
    (resize, replaced)
}

/// The identity tensor is one: as a single-precision number its bits, the lowest byte first, have
/// the exponent of one and no fraction, and so have they as a half-precision number.
pub proof fn law_the_identity_tensor_is_one(element_type: u64)
    ensures
        identity::one_bytes(element_type) is Some <==> element_type == 1 || element_type == 10,
        element_type == 1 ==> {
            let bytes = identity::one_bytes(element_type)->0;
            &&& bytes.len() == 4
            &&& bytes[0] + 0x100 * bytes[1] + 0x1_0000 * bytes[2] + 0x100_0000 * bytes[3] == 127
                * 0x80_0000
        },
        element_type == 10 ==> {
            let bytes = identity::one_bytes(element_type)->0;
            &&& bytes.len() == 2
            &&& bytes[0] + 0x100 * bytes[1] == 15 * 0x400
        },
{
}

/// A graph that is patched loses the nodes from which something leads to what the resize node read
/// behind the picture, node by node, and no others: every other node stays as it was, and there is
/// no node that was not there but the one that takes the resize node's place.
pub proof fn law_patched_graphs_keep_their_other_nodes(
    bytes: Seq<u8>,
    element_type: u64,
    patched: Seq<u8>,
    node: Seq<u8>,
) -> (found: int)
    requires
        bytes.len() <= usize::MAX,
        patched.len() <= usize::MAX,
        identity::identity_graph(bytes, element_type) == Ok::<Identity, PatchError>(
            Identity::Applied(patched),
        ),
    ensures
        ({
            let fields = proto::proto_fields(bytes)->Ok_0;
            let nodes = identity::graph_nodes(bytes, fields, fields.len() as int);
            let resize = node::node_model(fields[found].payload(bytes))->Ok_0;
            let lost = liveness::dead_starts(
                nodes,
                fields[found].start as int,
                resize.inputs.subrange(1, resize.inputs.len() as int),
            );
            &&& 0 <= found < fields.len()
            &&& resize.name == Some("Resize_3"@)
            &&& forall|i: int|
                0 <= i < fields.len() && i != found && (#[trigger] fields[i]).is_message(1)
                    && !lost.contains(fields[i].start as int) ==> holds(
                    patched,
                    1,
                    fields[i].payload(bytes),
                )
            &&& holds(patched, 1, node) ==> node == identity::identity_node(resize.outputs[0])
                || exists|i: int|
                0 <= i < fields.len() && i != found && (#[trigger] fields[i]).is_message(1)
                    && !lost.contains(fields[i].start as int) && fields[i].payload(bytes) == node
        }),
{
    let fields = proto::proto_fields(bytes)->Ok_0;
    let found = identity::lemma_patched_graph_was_rebuilt(bytes, element_type);
    lemma_found_is_the_resize_node(bytes, fields, fields.len() as int, found, 0);
    let resize = node::node_model(fields[found].payload(bytes))->Ok_0;
    law_resize_nodes_look_as_expected(resize);
    assert(resize.inputs.drop_first() =~= resize.inputs.subrange(1, resize.inputs.len() as int));
    let output = resize.outputs[0];
    let initializer = identity::identity_initializer(element_type)->0;
    identity::law_identity_graph_keeps_the_rest(bytes, found, initializer);
    let dead = identity::dead_nodes(bytes, fields, found);
    let model = identity::identity_field_model(bytes, fields, found, output, dead);
    let kept = message::kept(fields.len(), model);
    let all = identity::identity_graph_models(bytes, fields, found, initializer);
    assert(fields_of(patched) == all);
    assert forall|i: int|
        0 <= i < fields.len() && i != found && (#[trigger] fields[i]).is_message(1)
            && !dead.contains(fields[i].start as int) implies holds(
        patched,
        1,
        fields[i].payload(bytes),
    ) by {
        let stays = proto::message_model(1, fields[i].payload(bytes));
        assert(model(i) == Some(stays));
        lemma_kept_contains(fields.len(), model, i);
        let j = choose|j: int| 0 <= j < kept.len() && kept[j] == stays;
        assert(all[j] == stays);
    }
    if holds(patched, 1, node) {
        let wanted = proto::message_model(1, node);
        let j = choose|j: int| 0 <= j < all.len() && all[j] == wanted;
        assert(j < kept.len());
        let from = message::lemma_kept_comes_from(fields.len(), model, j);
        assert(model(from) == Some(wanted));
        if from != found {
            assert(fields[from].is_message(1));
            assert(fields[from].payload(bytes) == node);
        }
    }
    found
}

/// A graph without shape annotations has none once its resize node is replaced.
proof fn lemma_patched_graph_has_no_annotations(
    bytes: Seq<u8>,
    element_type: u64,
    patched: Seq<u8>,
)
    requires
        bytes.len() <= usize::MAX,
        patched.len() <= usize::MAX,
        identity::identity_graph(bytes, element_type) == Ok::<Identity, PatchError>(
            Identity::Applied(patched),
        ),
        forall|i: int| 0 <= i < fields_of(bytes).len() ==> !is_part(13)(#[trigger] fields_of(bytes)[i]),
    ensures
        parts(patched, 13).len() == 0,
{
    law_patched_graphs_keep_everything_else(bytes, element_type, patched);
    if parts(patched, 13).len() > 0 {
        let at = lemma_filter_comes_from(fields_of(patched), is_part(13), 0);
        lemma_filter_position(fields_of(patched), is_no_node_nor_input(), at);
        let kept = fields_of(patched).filter(is_no_node_nor_input());
        let index = fields_of(patched).take(at).filter(is_no_node_nor_input()).len() as int;
        let before = fields_of(bytes).filter(is_no_node_nor_input());
        assert(kept[index] == fields_of(patched)[at]);
        if index < before.len() {
            let from = lemma_filter_comes_from(fields_of(bytes), is_no_node_nor_input(), index);
            assert(fields_of(bytes)[from] == before[index]);
        }
    }
}

/// A model that is prepared for a second attempt has one graph, without shape annotations and
/// without the downsample ratio among its inputs, and it takes no ratio.
pub proof fn law_retried_models_take_no_ratio(
    bytes: Seq<u8>,
    element_type: Option<u64>,
    prepared: Prepared,
    index: int,
)
    requires
        bytes.len() <= usize::MAX,
        prepare::prepared_retry(bytes, element_type) == Ok::<Prepared, RetryError<Seq<char>>>(
            prepared,
        ),
        graph::pruned_model(bytes) matches Ok(pruned) ==> pruned.0.len() <= usize::MAX,
        prepared.bytes matches Some(out) ==> out.len() <= usize::MAX,
    ensures
        !prepared.uses_ratio,
        prepared.bytes is Some,
        parts(prepared.bytes->0, 7).len() == 1,
        ({
            let patched = parts(prepared.bytes->0, 7)[0].payload;
            &&& parts(patched, 13).len() == 0
            &&& 0 <= index < parts(patched, 11).len() ==> message::first_text(
                parts(patched, 11)[index].payload,
                1,
            ) != Ok::<Option<Seq<char>>, ProtoError>(Some("downsample_ratio"@))
        }),
{
    let (pruned, removed) = graph::pruned_model(bytes)->Ok_0;
    let out = prepared.bytes->0;
    let fields = proto::proto_fields(pruned)->Ok_0;
    let place = graph::graph_place(fields)->At_0;
    lemma_one_graph(pruned, place);
    let inner = fields[place as int].payload(pruned);
    let element = element_type->0;
    let patched = identity::identity_graph(inner, element)->Ok_0->Applied_0;
    lemma_replaced_graph(pruned, place, patched);
    lemma_pruned_graph_has_no_annotations(bytes, pruned, removed);
    lemma_patched_graph_has_no_annotations(inner, element, patched);
    law_patched_graphs_keep_everything_else(inner, element, patched);
    if 0 <= index < parts(patched, 11).len() {
        let at = lemma_filter_comes_from(fields_of(inner), is_no_ratio(), index);
    }
}

proof fn lemma_pruned_graph_has_no_annotations(bytes: Seq<u8>, pruned: Seq<u8>, removed: int)
    requires
        bytes.len() <= usize::MAX,
        pruned.len() <= usize::MAX,
        graph::pruned_model(bytes) == Ok::<(Seq<u8>, int), PatchError>((pruned, removed)),
        parts(pruned, 7).len() == 1,
    ensures
        ({
            let inner = parts(pruned, 7)[0].payload;
            forall|i: int|
                0 <= i < fields_of(inner).len() ==> !is_part(13)(#[trigger] fields_of(inner)[i])
        }),
{
    let inner = parts(pruned, 7)[0].payload;
    let stays = |model: FieldModel| !(model.number == 13 && model.wire_type == 2);
    if parts(bytes, 7).len() != 1 {
        law_models_without_one_graph_are_not_pruned(bytes);
    } else {
        law_pruned_models_lose_only_annotations(bytes, pruned, removed);
        let before = fields_of(parts(bytes, 7)[0].payload);
        assert forall|i: int| 0 <= i < fields_of(inner).len() implies !is_part(13)(
            #[trigger] fields_of(inner)[i],
        ) by {
            before.lemma_filter_pred(stays, i);
        }
    }
}

/// A shape is sized exactly if it has four dimensions or more.
pub proof fn law_shapes_of_four_dimensions_are_sized(bytes: Seq<u8>, width: u32, height: u32)
    requires
        proto::proto_fields(bytes) is Ok,
    ensures
        dimensions::sized_shape(bytes, width, height) matches Ok(sized) && (sized is Some <==> parts(
            bytes,
            1,
        ).len() >= 4),
{
    let fields = proto::proto_fields(bytes)->Ok_0;
    let models = proto::models_of(bytes, fields);
    assert(models.take(fields.len() as int) =~= models);
    lemma_messages_before_is_a_filter(bytes, fields, fields.len() as int, 1);
}

/// An input is sized only if it is named as the picture is; one that is named otherwise, or not at
/// all, is left.
pub proof fn law_only_the_picture_is_sized(bytes: Seq<u8>, width: u32, height: u32)
    ensures
        dimensions::sized_input(bytes, width, height) == Ok::<SizedInput, ProtoError>(
            SizedInput::NotSrc,
        ) <==> message::first_text(bytes, 1) is Ok && message::first_text(bytes, 1)->Ok_0 != Some(
            "src"@,
        ),
{
    reveal_strlit("src");
}

/// The element type of a sized tensor is the number in its first varint field of the first number,
/// and the tensor keeps all its parts but the shape.
pub proof fn law_sized_tensors_keep_their_element_type(
    bytes: Seq<u8>,
    width: u32,
    height: u32,
    sized: Seq<u8>,
    element: u64,
)
    requires
        bytes.len() <= usize::MAX,
        sized.len() <= usize::MAX,
        dimensions::sized_tensor_type(bytes, width, height) == Ok::<
            Option<(Seq<u8>, u64)>,
            ProtoError,
        >(Some((sized, element))),
    ensures
        dimension_value(bytes) == Some(element),
        fields_of(sized).len() == fields_of(bytes).len(),
        part(sized, 2, 0) != part(bytes, 2, 0) || fields_of(sized) == fields_of(bytes),
        forall|i: int|
            0 <= i < fields_of(bytes).len() && !is_part(2)(#[trigger] fields_of(bytes)[i])
                ==> fields_of(sized)[i] == fields_of(bytes)[i],
{
    let fields = proto::proto_fields(bytes)->Ok_0;
    let at = message::first_from(fields, 0, 2, Some(2u8))->0;
    let shape = dimensions::sized_shape(fields[at].payload(bytes), width, height)->Ok_0->0;
    lemma_replaced_part(bytes, at, 2, shape);
    message::lemma_first_from(fields, 0, 2, Some(2u8));
    let models = proto::models_of(bytes, fields);
    lemma_messages_before_is_a_filter(bytes, fields, at, 2);
    lemma_none_before_first(fields, 0, at, 2);
    lemma_filter_position(models, is_part(2), at);
    if part(sized, 2, 0) == part(bytes, 2, 0) {
        assert(models[at] == proto::message_model(2, shape));
        assert(fields_of(sized) =~= fields_of(bytes));
    }
}

/// A graph is patched where its source is of a known number format, it does not hold the identity
/// tensor, its nodes and the names of its inputs can be read, and one node in it is named Resize_3
/// and resizes the picture.
pub proof fn law_graphs_with_one_resize_node_are_patched(
    bytes: Seq<u8>,
    element_type: u64,
    found: int,
)
    requires
        element_type == 1 || element_type == 10,
        proto::proto_fields(bytes) is Ok,
        ({
            let fields = proto::proto_fields(bytes)->Ok_0;
            &&& 0 <= found < fields.len()
            &&& fields[found].is_message(1)
            &&& forall|i: int|
                0 <= i < fields.len() && (#[trigger] fields[i]).is_message(1) ==> {
                    let model = node::node_model(fields[i].payload(bytes));
                    &&& model is Ok
                    &&& if i == found {
                        node::inspection(model->Ok_0) is Valid
                    } else {
                        model->Ok_0.name != Some("Resize_3"@)
                    }
                }
            &&& forall|i: int|
                0 <= i < fields.len() && (#[trigger] fields[i]).is_message(11)
                    ==> message::first_text(fields[i].payload(bytes), 1) is Ok
            &&& forall|i: int|
                0 <= i < fields.len() && (#[trigger] fields[i]).is_message(5)
                    ==> message::first_text(fields[i].payload(bytes), 8) != Ok::<
                    Option<Seq<char>>,
                    ProtoError,
                >(Some("__segmenter_resize_3_identity_scale"@))
        }),
    ensures
        identity::identity_graph(bytes, element_type) matches Ok(Identity::Applied(_)),
{
    let fields = proto::proto_fields(bytes)->Ok_0;
    lemma_search_finds(bytes, fields, fields.len() as int, found);
    lemma_names_are_read(bytes, fields, fields.len() as int);
    assert(!identity::has_identity_initializer(bytes, fields));
}

proof fn lemma_search_finds(
    bytes: Seq<u8>,
    fields: Seq<ProtoField>,
    count: int,
    found: int,
)
    requires
        0 <= count <= fields.len(),
        0 <= found < fields.len(),
        fields[found].is_message(1),
        forall|i: int|
            0 <= i < fields.len() && (#[trigger] fields[i]).is_message(1) ==> {
                let model = node::node_model(fields[i].payload(bytes));
                &&& model is Ok
                &&& if i == found {
                    node::inspection(model->Ok_0) is Valid
                } else {
                    model->Ok_0.name != Some("Resize_3"@)
                }
            },
    ensures
        identity::resize_search(bytes, fields, count) == Ok::<Search, PatchError>(
            Search::Found(
                if found < count {
                    Some(found)
                } else {
                    None
                },
            ),
        ),
    decreases count,
{
    if count > 0 {
        lemma_search_finds(bytes, fields, count - 1, found);
        if fields[count - 1].is_message(1) {
            law_resize_nodes_look_as_expected(
                node::node_model(fields[count - 1].payload(bytes))->Ok_0,
            );
        }
    }
}

proof fn lemma_names_are_read(bytes: Seq<u8>, fields: Seq<ProtoField>, count: int)
    requires
        0 <= count <= fields.len(),
        forall|i: int|
            0 <= i < fields.len() && (#[trigger] fields[i]).is_message(11) ==> message::first_text(
                fields[i].payload(bytes),
                1,
            ) is Ok,
    ensures
        identity::first_name_error(bytes, fields, count) is None,
    decreases count,
{
    if count > 0 {
        lemma_names_are_read(bytes, fields, count - 1);
    }
}

/// A graph's source is sized where one of its inputs can be sized and none of them is unreadable.
pub proof fn law_graphs_with_a_source_are_sized(
    bytes: Seq<u8>,
    width: u32,
    height: u32,
    at: int,
)
    requires
        proto::proto_fields(bytes) is Ok,
        ({
            let fields = proto::proto_fields(bytes)->Ok_0;
            &&& 0 <= at < fields.len()
            &&& fields[at].is_message(11)
            &&& dimensions::sized_input(fields[at].payload(bytes), width, height) matches Ok(
                SizedInput::Applied { .. },
            )
            &&& forall|i: int|
                0 <= i < fields.len() && (#[trigger] fields[i]).is_message(11)
                    ==> dimensions::sized_input(fields[i].payload(bytes), width, height) is Ok
        }),
    ensures
        dimensions::sized_graph(bytes, width, height) matches Ok(sized) && sized.applied,
{
    let fields = proto::proto_fields(bytes)->Ok_0;
    lemma_inputs_are_read(bytes, fields, fields.len() as int, width, height);
    lemma_element_type_is_found(bytes, fields, fields.len() as int, width, height, at);
}

proof fn lemma_inputs_are_read(
    bytes: Seq<u8>,
    fields: Seq<ProtoField>,
    count: int,
    width: u32,
    height: u32,
)
    requires
        0 <= count <= fields.len(),
        forall|i: int|
            0 <= i < fields.len() && (#[trigger] fields[i]).is_message(11)
                ==> dimensions::sized_input(fields[i].payload(bytes), width, height) is Ok,
    ensures
        dimensions::first_input_error(bytes, fields, count, width, height) is None,
    decreases count,
{
    if count > 0 {
        lemma_inputs_are_read(bytes, fields, count - 1, width, height);
        assert(dimensions::sized_graph_input(bytes, fields[count - 1], width, height) is Ok);
    }
}

proof fn lemma_element_type_is_found(
    bytes: Seq<u8>,
    fields: Seq<ProtoField>,
    count: int,
    width: u32,
    height: u32,
    at: int,
)
    requires
        0 <= at < count <= fields.len(),
        fields[at].is_message(11),
        dimensions::sized_input(fields[at].payload(bytes), width, height) matches Ok(
            SizedInput::Applied { .. },
        ),
    ensures
        dimensions::last_element_type(bytes, fields, count, width, height) is Some,
    decreases count,
{
    if at < count - 1 {
        lemma_element_type_is_found(bytes, fields, count - 1, width, height, at);
    }
}

/// An input that is named as the picture is can be sized where it has a type, which is a tensor's,
/// with an element type and a shape of four dimensions or more.
pub proof fn law_pictures_of_four_dimensions_are_sized(bytes: Seq<u8>, width: u32, height: u32)
    requires
        bytes.len() <= usize::MAX,
        message::first_text(bytes, 1) == Ok::<Option<Seq<char>>, ProtoError>(Some("src"@)),
        part(bytes, 2, 0) is Some,
        part(part(bytes, 2, 0)->0, 1, 0) is Some,
        dimension_value(part(part(bytes, 2, 0)->0, 1, 0)->0) is Some,
        part(part(part(bytes, 2, 0)->0, 1, 0)->0, 2, 0) is Some,
        parts(part(part(part(bytes, 2, 0)->0, 1, 0)->0, 2, 0)->0, 1).len() >= 4,
    ensures
        dimensions::sized_input(bytes, width, height) matches Ok(SizedInput::Applied { .. }),
{
    reveal_strlit("src");
    let kind = part(bytes, 2, 0)->0;
    let tensor = part(kind, 1, 0)->0;
    let shape = part(tensor, 2, 0)->0;
    lemma_first_part(bytes, 2);
    lemma_first_part(kind, 1);
    lemma_first_part(tensor, 2);
    assert(proto::proto_fields(shape) is Ok) by {
        if proto::proto_fields(shape) is Err {
            reveal(Seq::filter);
            assert(parts(shape, 1).len() == 0);
        }
    }
    law_shapes_of_four_dimensions_are_sized(shape, width, height);
}

proof fn lemma_first_part(bytes: Seq<u8>, number: u32)
    requires
        part(bytes, number, 0) is Some,
    ensures
        proto::proto_fields(bytes) is Ok,
        message::first_from(proto::proto_fields(bytes)->Ok_0, 0, number, Some(2u8)) matches Some(at)
            && proto::proto_fields(bytes)->Ok_0[at].payload(bytes) == part(bytes, number, 0)->0,
{
    if proto::proto_fields(bytes) is Err {
        reveal(Seq::filter);
        assert(parts(bytes, number).len() == 0);
    }
    let fields = proto::proto_fields(bytes)->Ok_0;
    let models = proto::models_of(bytes, fields);
    let from = lemma_filter_comes_from(models, is_part(number), 0);
    message::lemma_first_from(fields, 0, number, Some(2u8));
    assert(message::is_wanted(fields[from], number, Some(2u8)));
    let at = message::first_from(fields, 0, number, Some(2u8))->0;
    lemma_messages_before_is_a_filter(bytes, fields, at, number);
    lemma_none_before_first(fields, 0, at, number);
    lemma_filter_position(models, is_part(number), at);
}

/// A model is sized in its one graph alone: everything outside the graph stays as it was, in its
/// place. A model without one graph stays as it is and is not sized.
pub proof fn law_models_are_sized_in_their_graph(bytes: Seq<u8>, width: u32, height: u32)
    requires
        bytes.len() <= usize::MAX,
        dimensions::sized_model(bytes, width, height) matches Ok(sized) && sized.bytes.len()
            <= usize::MAX,
    ensures
        ({
            let sized = dimensions::sized_model(bytes, width, height)->Ok_0;
            &&& parts(bytes, 7).len() != 1 ==> sized.bytes == bytes && !sized.applied
                && sized.removed_value_info == 0
            &&& parts(bytes, 7).len() == 1 ==> {
                let graph = dimensions::sized_graph(parts(bytes, 7)[0].payload, width, height);
                &&& graph is Ok
                &&& parts(sized.bytes, 7).len() == 1
                &&& parts(sized.bytes, 7)[0].payload == graph->Ok_0.bytes
                &&& sized.applied == graph->Ok_0.applied
                &&& sized.removed_value_info == graph->Ok_0.removed_value_info
                &&& sized.element_type == graph->Ok_0.element_type
                &&& fields_of(sized.bytes).len() == fields_of(bytes).len()
                &&& forall|i: int|
                    0 <= i < fields_of(bytes).len() && !is_part(7)(#[trigger] fields_of(bytes)[i])
                        ==> fields_of(sized.bytes)[i] == fields_of(bytes)[i]
            }
        }),
{
    let fields = proto::proto_fields(bytes)->Ok_0;
    let models = proto::models_of(bytes, fields);
    assert(models.take(fields.len() as int) =~= models);
    lemma_messages_before_is_a_filter(bytes, fields, fields.len() as int, 7);
    if let GraphPlace::At(place) = graph::graph_place(fields) {
        lemma_one_graph(bytes, place);
        let inner = fields[place as int].payload(bytes);
        let sized = dimensions::sized_graph(inner, width, height)->Ok_0;
        lemma_replaced_graph(bytes, place, sized.bytes);
        lemma_replaced_part(bytes, place as int, 7, sized.bytes);
    }
}

/// A model's resize node is replaced in its one graph alone: everything outside the graph stays as it
/// was, in its place. A model without one graph, or of which the number format is not known, is not
/// patched.
pub proof fn law_models_are_patched_in_their_graph(
    bytes: Seq<u8>,
    element_type: Option<u64>,
    patched: Seq<u8>,
)
    requires
        bytes.len() <= usize::MAX,
        patched.len() <= usize::MAX,
        identity::identity_model(bytes, element_type) == Ok::<Identity, PatchError>(
            Identity::Applied(patched),
        ),
    ensures
        element_type is Some,
        parts(bytes, 7).len() == 1,
        parts(patched, 7).len() == 1,
        identity::identity_graph(parts(bytes, 7)[0].payload, element_type->0) == Ok::<
            Identity,
            PatchError,
        >(Identity::Applied(parts(patched, 7)[0].payload)),
        fields_of(patched).len() == fields_of(bytes).len(),
        forall|i: int|
            0 <= i < fields_of(bytes).len() && !is_part(7)(#[trigger] fields_of(bytes)[i])
                ==> fields_of(patched)[i] == fields_of(bytes)[i],
{
    let fields = proto::proto_fields(bytes)->Ok_0;
    let place = graph::graph_place(fields)->At_0;
    lemma_one_graph(bytes, place);
    let inner = fields[place as int].payload(bytes);
    let graph = identity::identity_graph(inner, element_type->0)->Ok_0->Applied_0;
    lemma_replaced_graph(bytes, place, graph);
    lemma_replaced_part(bytes, place as int, 7, graph);
}

/// A model with one graph that can be patched is patched.
pub proof fn law_models_with_a_graph_to_patch_are_patched(bytes: Seq<u8>, element_type: u64)
    requires
        bytes.len() <= usize::MAX,
        proto::proto_fields(bytes) is Ok,
        parts(bytes, 7).len() == 1,
        identity::identity_graph(parts(bytes, 7)[0].payload, element_type) matches Ok(
            Identity::Applied(_),
        ),
    ensures
        identity::identity_model(bytes, Some(element_type)) matches Ok(Identity::Applied(_)),
{
    let fields = proto::proto_fields(bytes)->Ok_0;
    let models = proto::models_of(bytes, fields);
    assert(models.take(fields.len() as int) =~= models);
    lemma_messages_before_is_a_filter(bytes, fields, fields.len() as int, 7);
    let place = graph::graph_place(fields)->At_0;
    lemma_one_graph(bytes, place);
}

/// The nodes that the first fields of a graph leave when the node at `found` is replaced and some are
/// lost: each in its turn, with the new one in the place of the old.
pub open spec fn nodes_left(
    bytes: Seq<u8>,
    fields: Seq<ProtoField>,
    count: int,
    found: int,
    replaced: Seq<u8>,
    lost: Set<int>,
) -> Seq<FieldModel>
    decreases count,
{
    if count <= 0 {
        Seq::empty()
    } else {
        let before = nodes_left(bytes, fields, count - 1, found, replaced, lost);
        let field = fields[count - 1];
        if !field.is_message(1) {
            before
        } else if count - 1 == found {
            before.push(proto::message_model(1, replaced))
        } else if lost.contains(field.start as int) {
            before
        } else {
            before.push(proto::message_model(1, field.payload(bytes)))
        }
    }
}

/// The nodes of a patched graph stand in the order in which they stood, with the new one in the place
/// of the resize node.
pub proof fn law_patched_nodes_keep_their_order(
    bytes: Seq<u8>,
    element_type: u64,
    patched: Seq<u8>,
) -> (found: int)
    requires
        bytes.len() <= usize::MAX,
        patched.len() <= usize::MAX,
        identity::identity_graph(bytes, element_type) == Ok::<Identity, PatchError>(
            Identity::Applied(patched),
        ),
    ensures
        ({
            let fields = proto::proto_fields(bytes)->Ok_0;
            let nodes = identity::graph_nodes(bytes, fields, fields.len() as int);
            let resize = node::node_model(fields[found].payload(bytes))->Ok_0;
            let lost = liveness::dead_starts(
                nodes,
                fields[found].start as int,
                resize.inputs.subrange(1, resize.inputs.len() as int),
            );
            &&& 0 <= found < fields.len() && fields[found].is_message(1)
            &&& resize.name == Some("Resize_3"@)
            &&& parts(patched, 1) == nodes_left(
                bytes,
                fields,
                fields.len() as int,
                found,
                identity::identity_node(resize.outputs[0]),
                lost,
            )
        }),
{
    let fields = proto::proto_fields(bytes)->Ok_0;
    let found = identity::lemma_patched_graph_was_rebuilt(bytes, element_type);
    lemma_found_is_the_resize_node(bytes, fields, fields.len() as int, found, 0);
    let resize = node::node_model(fields[found].payload(bytes))->Ok_0;
    law_resize_nodes_look_as_expected(resize);
    assert(resize.inputs.drop_first() =~= resize.inputs.subrange(1, resize.inputs.len() as int));
    let output = resize.outputs[0];
    let initializer = identity::identity_initializer(element_type)->0;
    identity::law_identity_graph_keeps_the_rest(bytes, found, initializer);
    let dead = identity::dead_nodes(bytes, fields, found);
    let model = identity::identity_field_model(bytes, fields, found, output, dead);
    lemma_nodes_left(bytes, fields, fields.len(), found, output, dead);
    lemma_filter_push(
        message::kept(fields.len(), model),
        proto::message_model(5, initializer),
        is_part(1),
    );
    found
}

proof fn lemma_nodes_left(
    bytes: Seq<u8>,
    fields: Seq<ProtoField>,
    count: nat,
    found: int,
    output: Seq<char>,
    dead: Set<int>,
)
    requires
        count <= fields.len(),
    ensures
        message::kept(
            count,
            identity::identity_field_model(bytes, fields, found, output, dead),
        ).filter(is_part(1)) == nodes_left(
            bytes,
            fields,
            count as int,
            found,
            identity::identity_node(output),
            dead,
        ),
    decreases count,
{
    let model = identity::identity_field_model(bytes, fields, found, output, dead);
    if count > 0 {
        let before = (count - 1) as nat;
        lemma_nodes_left(bytes, fields, before, found, output, dead);
        if let Some(last) = model(before as int) {
            lemma_filter_push(message::kept(before, model), last, is_part(1));
        }
    } else {
        reveal(Seq::filter);
    }
}

} // verus!
