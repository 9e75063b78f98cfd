//! Fixing the size of the model's source input, and dropping the shape
//! annotations that the fixed size makes stale.

use crate::onnx::constants::SRC_INPUT;
use crate::onnx::graph;
use crate::onnx::graph::{find_graph, GraphPlace};
use crate::onnx::message;
use crate::onnx::message::{copy_bytes, count_messages, find_field, read_first_text, replace_field};
use crate::onnx::proto;
use crate::onnx::proto::{
    encode_length_delimited_field, encode_varint_field, parse_proto_fields, read_varint, FieldModel,
    ProtoError, ProtoField,
};
use crate::onnx::reason::{PatchError, SkipReason};
use crate::text::some_text_is;
use vstd::prelude::*;

verus! {

/// The payload of a dimension with a fixed value.
pub open spec fn dim_value(value: u32) -> Seq<u8> {
    proto::varint_field(1, value as u64)
}

/// Encodes a dimension with a fixed value.
pub fn dim_value_proto(value: u32) -> (dim: Vec<u8>)
    ensures
        dim@ == dim_value(value),
{
    let mut dim: Vec<u8> = Vec::new();
    encode_varint_field(1, value as u64, &mut dim);
    assert(dim@ =~= dim_value(value));
    dim
}

/// A shape's field at `at` once its third dimension is the height and its
/// fourth the width.
pub open spec fn sized_dimension(
    bytes: Seq<u8>,
    fields: Seq<ProtoField>,
    width: u32,
    height: u32,
) -> spec_fn(int) -> Seq<u8> {
    |at: int|
        if fields[at].is_message(1) && message::messages_before(fields, at, 1) == 2 {
            proto::message_field(1, dim_value(height))
        } else if fields[at].is_message(1) && message::messages_before(fields, at, 1) == 3 {
            proto::message_field(1, dim_value(width))
        } else {
            fields[at].raw(bytes)
        }
}

/// A tensor shape with its height and width fixed, where it has four
/// dimensions or more.
pub open spec fn sized_shape(bytes: Seq<u8>, width: u32, height: u32) -> Result<
    Option<Seq<u8>>,
    ProtoError,
> {
    match proto::proto_fields(bytes) {
        Err(error) => Err(error),
        Ok(fields) => if message::messages_before(fields, fields.len() as int, 1) < 4 {
            Ok(None)
        } else {
            Ok(
                Some(
                    message::joined(fields.len(), sized_dimension(bytes, fields, width, height)),
                ),
            )
        },
    }
}

/// Fixes the height and width in a tensor shape.
pub fn patch_tensor_shape_dimensions(shape_bytes: &[u8], width: u32, height: u32) -> (result:
    Result<Option<Vec<u8>>, ProtoError>)
    ensures
        match (result, sized_shape(shape_bytes@, width, height)) {
            (Ok(patched), Ok(expected)) => patched.deep_view() == expected,
            (Err(error), Err(expected)) => error == expected,
            _ => false,
        },
{
    let fields = match parse_proto_fields(shape_bytes) {
        Ok(fields) => fields,
        Err(error) => return Err(error),
    };
    if count_messages(&fields, 1) < 4 {
        return Ok(None);
    }
    let ghost piece = sized_dimension(shape_bytes@, fields@, width, height);
    let mut patched: Vec<u8> = Vec::with_capacity(shape_bytes.len());
    let mut dim_index: usize = 0;
    let mut at: usize = 0;
    while at < fields.len()
        invariant
            at <= fields@.len(),
            proto::tiles(fields@, 0, shape_bytes@.len()),
            dim_index <= at,
            dim_index == message::messages_before(fields@, at as int, 1),
            piece == sized_dimension(shape_bytes@, fields@, width, height),
            patched@ == message::joined(at as nat, piece),
        decreases fields@.len() - at,
    {
        let field = fields[at];
        assert(field.within(shape_bytes@.len()));
        if field.number == 1 && field.wire_type == 2 {
            if dim_index == 2 {
                let dim = dim_value_proto(height);
                encode_length_delimited_field(1, &dim, &mut patched);
            } else if dim_index == 3 {
                let dim = dim_value_proto(width);
                encode_length_delimited_field(1, &dim, &mut patched);
            } else {
                patched.extend_from_slice(&shape_bytes[field.start..field.end]);
            }
            dim_index = dim_index + 1;
        } else {
            patched.extend_from_slice(&shape_bytes[field.start..field.end]);
        }
        assert(patched@ =~= message::joined(at as nat, piece) + piece(at as int));
        at = at + 1;
    }
    assert(patched.deep_view() =~= patched@);
    Ok(Some(patched))
}

/// A message whose size is fixed, and the type of the tensor's elements.
pub struct DimensionPatch {
    pub bytes: Vec<u8>,
    pub element_type: u64,
}

pub open spec fn patch_view(patch: Option<DimensionPatch>) -> Option<(Seq<u8>, u64)> {
    match patch {
        None => None,
        Some(patch) => Some((patch.bytes@, patch.element_type)),
    }
}

/// A tensor type with its shape's height and width fixed, and its element
/// type. There is none without an element type or a shape of four dimensions.
pub open spec fn sized_tensor_type(bytes: Seq<u8>, width: u32, height: u32) -> Result<
    Option<(Seq<u8>, u64)>,
    ProtoError,
> {
    match proto::proto_fields(bytes) {
        Err(error) => Err(error),
        Ok(fields) => match message::first_from(fields, 0, 1, Some(0u8)) {
            None => Ok(None),
            Some(kind) => match proto::varint_at(bytes, fields[kind].data_start as int) {
                Err(error) => Err(error),
                Ok((element_type, _)) => match message::first_from(fields, 0, 2, Some(2u8)) {
                    None => Ok(None),
                    Some(at) => match sized_shape(fields[at].payload(bytes), width, height) {
                        Err(error) => Err(error),
                        Ok(None) => Ok(None),
                        Ok(Some(shape)) => Ok(
                            Some((message::with_field(bytes, fields, at, 2, shape), element_type)),
                        ),
                    },
                },
            },
        },
    }
}

/// Fixes the height and width in a tensor type.
pub fn patch_tensor_type_dimensions(tensor_bytes: &[u8], width: u32, height: u32) -> (result:
    Result<Option<DimensionPatch>, ProtoError>)
    ensures
        match (result, sized_tensor_type(tensor_bytes@, width, height)) {
            (Ok(patch), Ok(expected)) => patch_view(patch) == expected,
            (Err(error), Err(expected)) => error == expected,
            _ => false,
        },
{
    let fields = match parse_proto_fields(tensor_bytes) {
        Ok(fields) => fields,
        Err(error) => return Err(error),
    };
    let kind = match find_field(&fields, 1, Some(0)) {
        Some(kind) => kind,
        None => return Ok(None),
    };
    let element_type: u64 = match read_varint(tensor_bytes, fields[kind].data_start) {
        Ok((value, _)) => value,
        Err(error) => return Err(error),
    };
    let at = match find_field(&fields, 2, Some(2)) {
        Some(at) => at,
        None => return Ok(None),
    };
    let field = fields[at];
    assert(field.within(tensor_bytes@.len()));
    match patch_tensor_shape_dimensions(
        &tensor_bytes[field.data_start..field.data_end],
        width,
        height,
    ) {
        Err(error) => Err(error),
        Ok(None) => Ok(None),
        Ok(Some(shape)) => {
            assert(shape.deep_view() =~= shape@);
            let bytes = replace_field(tensor_bytes, &fields, at, 2, &shape);
            Ok(Some(DimensionPatch { bytes, element_type }))
        },
    }
}

/// A type with its tensor's height and width fixed, where it is a tensor type.
pub open spec fn sized_type(bytes: Seq<u8>, width: u32, height: u32) -> Result<
    Option<(Seq<u8>, u64)>,
    ProtoError,
> {
    match proto::proto_fields(bytes) {
        Err(error) => Err(error),
        Ok(fields) => match message::first_from(fields, 0, 1, Some(2u8)) {
            None => Ok(None),
            Some(at) => match sized_tensor_type(fields[at].payload(bytes), width, height) {
                Err(error) => Err(error),
                Ok(None) => Ok(None),
                Ok(Some((tensor, element_type))) => Ok(
                    Some((message::with_field(bytes, fields, at, 1, tensor), element_type)),
                ),
            },
        },
    }
}

/// Fixes the height and width in a type.
pub fn patch_type_proto_dimensions(type_bytes: &[u8], width: u32, height: u32) -> (result: Result<
    Option<DimensionPatch>,
    ProtoError,
>)
    ensures
        match (result, sized_type(type_bytes@, width, height)) {
            (Ok(patch), Ok(expected)) => patch_view(patch) == expected,
            (Err(error), Err(expected)) => error == expected,
            _ => false,
        },
{
    let fields = match parse_proto_fields(type_bytes) {
        Ok(fields) => fields,
        Err(error) => return Err(error),
    };
    let at = match find_field(&fields, 1, Some(2)) {
        Some(at) => at,
        None => return Ok(None),
    };
    let field = fields[at];
    assert(field.within(type_bytes@.len()));
    match patch_tensor_type_dimensions(
        &type_bytes[field.data_start..field.data_end],
        width,
        height,
    ) {
        Err(error) => Err(error),
        Ok(None) => Ok(None),
        Ok(Some(tensor)) => {
            let bytes = replace_field(type_bytes, &fields, at, 1, &tensor.bytes);
            Ok(Some(DimensionPatch { bytes, element_type: tensor.element_type }))
        },
    }
}

/// What became of one graph input.
pub enum ValueInfoDimensionPatch {
    NotSrc,
    Applied { bytes: Vec<u8>, element_type: u64 },
    Invalid(SkipReason<String>),
}

/// What becomes of one graph input.
pub enum SizedInput {
    NotSrc,
    Applied { input: Seq<u8>, element: u64 },
    Invalid(SkipReason<Seq<char>>),
}

impl View for ValueInfoDimensionPatch {
    type V = SizedInput;

    open spec fn view(&self) -> SizedInput {
        match *self {
            ValueInfoDimensionPatch::NotSrc => SizedInput::NotSrc,
            ValueInfoDimensionPatch::Applied { bytes, element_type } => {
                SizedInput::Applied { input: bytes@, element: element_type }
            },
            ValueInfoDimensionPatch::Invalid(reason) => SizedInput::Invalid(reason@),
        }
    }
}

/// The source input with its height and width fixed; other inputs stay as
/// they are.
pub open spec fn sized_input(bytes: Seq<u8>, width: u32, height: u32) -> Result<
    SizedInput,
    ProtoError,
> {
    match message::first_text(bytes, 1) {
        Err(error) => Err(error),
        Ok(name) => if name != Some(SRC_INPUT@) {
            Ok(SizedInput::NotSrc)
        } else {
            let fields = proto::proto_fields(bytes)->Ok_0;
            match message::first_from(fields, 0, 2, Some(2u8)) {
                None => Ok(SizedInput::Invalid(SkipReason::SrcTypeMissing)),
                Some(at) => match sized_type(fields[at].payload(bytes), width, height) {
                    Err(error) => Err(error),
                    Ok(None) => Ok(SizedInput::Invalid(SkipReason::SrcShapeUnpatchable)),
                    Ok(Some((sized, element))) => Ok(
                        SizedInput::Applied {
                            input: message::with_field(bytes, fields, at, 2, sized),
                            element,
                        },
                    ),
                },
            }
        },
    }
}

/// Fixes the height and width of a graph input if it is the source.
pub fn patch_src_value_info_dimensions(value_info_bytes: &[u8], width: u32, height: u32) -> (result:
    Result<ValueInfoDimensionPatch, ProtoError>)
    ensures
        match (result, sized_input(value_info_bytes@, width, height)) {
            (Ok(patch), Ok(expected)) => patch@ == expected,
            (Err(error), Err(expected)) => error == expected,
            _ => false,
        },
{
    let name = match read_first_text(value_info_bytes, 1) {
        Ok(name) => name,
        Err(error) => return Err(error),
    };
    if !some_text_is(&name, SRC_INPUT) {
        return Ok(ValueInfoDimensionPatch::NotSrc);
    }
    let fields = match parse_proto_fields(value_info_bytes) {
        Ok(fields) => fields,
        Err(error) => return Err(error),
    };
    let at = match find_field(&fields, 2, Some(2)) {
        Some(at) => at,
        None => return Ok(ValueInfoDimensionPatch::Invalid(SkipReason::SrcTypeMissing)),
    };
    let field = fields[at];
    assert(field.within(value_info_bytes@.len()));
    match patch_type_proto_dimensions(
        &value_info_bytes[field.data_start..field.data_end],
        width,
        height,
    ) {
        Err(error) => Err(error),
        Ok(None) => Ok(ValueInfoDimensionPatch::Invalid(SkipReason::SrcShapeUnpatchable)),
        Ok(Some(sized)) => {
            let bytes = replace_field(value_info_bytes, &fields, at, 2, &sized.bytes);
            Ok(ValueInfoDimensionPatch::Applied { bytes, element_type: sized.element_type })
        },
    }
}

/// What becomes of a graph's field, where only inputs can change.
pub open spec fn sized_graph_input(
    bytes: Seq<u8>,
    field: ProtoField,
    width: u32,
    height: u32,
) -> Result<SizedInput, ProtoError> {
    if field.is_message(11) {
        sized_input(field.payload(bytes), width, height)
    } else {
        Ok(SizedInput::NotSrc)
    }
}

/// A graph's field at `at` once the source input's size is fixed: shape
/// annotations are gone, and a source input that could be sized is replaced.
pub open spec fn sized_graph_field(
    bytes: Seq<u8>,
    fields: Seq<ProtoField>,
    width: u32,
    height: u32,
) -> spec_fn(int) -> Seq<u8> {
    |at: int|
        if fields[at].is_message(13) {
            Seq::empty()
        } else {
            match sized_graph_input(bytes, fields[at], width, height) {
                Ok(SizedInput::Applied { input, .. }) => proto::message_field(11, input),
                _ => fields[at].raw(bytes),
            }
        }
}

/// The error of the first of these fields that cannot be read as an input.
pub open spec fn first_input_error(
    bytes: Seq<u8>,
    fields: Seq<ProtoField>,
    count: int,
    width: u32,
    height: u32,
) -> Option<ProtoError>
    decreases count,
{
    if count <= 0 {
        None
    } else {
        match first_input_error(bytes, fields, count - 1, width, height) {
            Some(error) => Some(error),
            None => match sized_graph_input(bytes, fields[count - 1], width, height) {
                Err(error) => Some(error),
                Ok(_) => None,
            },
        }
    }
}

/// Why the first of these source inputs that could not be sized was left.
pub open spec fn first_invalid_input(
    bytes: Seq<u8>,
    fields: Seq<ProtoField>,
    count: int,
    width: u32,
    height: u32,
) -> Option<SkipReason<Seq<char>>>
    decreases count,
{
    if count <= 0 {
        None
    } else {
        match first_invalid_input(bytes, fields, count - 1, width, height) {
            Some(reason) => Some(reason),
            None => match sized_graph_input(bytes, fields[count - 1], width, height) {
                Ok(SizedInput::Invalid(reason)) => Some(reason),
                _ => None,
            },
        }
    }
}

/// The element type of the last of these source inputs that was sized.
pub open spec fn last_element_type(
    bytes: Seq<u8>,
    fields: Seq<ProtoField>,
    count: int,
    width: u32,
    height: u32,
) -> Option<u64>
    decreases count,
{
    if count <= 0 {
        None
    } else {
        match sized_graph_input(bytes, fields[count - 1], width, height) {
            Ok(SizedInput::Applied { element, .. }) => Some(element),
            _ => last_element_type(bytes, fields, count - 1, width, height),
        }
    }
}

/// A graph or a model whose source input's size is fixed.
pub struct SizedMessage {
    pub bytes: Seq<u8>,
    pub applied: bool,
    pub skip_reason: Option<SkipReason<Seq<char>>>,
    pub removed_value_info: int,
    pub element_type: Option<u64>,
}

/// A graph with the source input's size fixed and its shape annotations gone.
pub open spec fn sized_graph(bytes: Seq<u8>, width: u32, height: u32) -> Result<
    SizedMessage,
    PatchError,
> {
    match proto::proto_fields(bytes) {
        Err(error) => Err(PatchError::Graph(error)),
        Ok(fields) => {
            let count = fields.len() as int;
            match first_input_error(bytes, fields, count, width, height) {
                Some(error) => Err(PatchError::Inside(error)),
                None => {
                    let element_type = last_element_type(bytes, fields, count, width, height);
                    let invalid = first_invalid_input(bytes, fields, count, width, height);
                    Ok(
                        SizedMessage {
                            bytes: message::joined(
                                fields.len(),
                                sized_graph_field(bytes, fields, width, height),
                            ),
                            applied: element_type is Some,
                            skip_reason: if element_type is None && invalid is None {
                                Some(SkipReason::SrcInputMissing)
                            } else {
                                invalid
                            },
                            removed_value_info: message::messages_before(fields, count, 13),
                            element_type,
                        },
                    )
                },
            }
        },
    }
}

/// A graph or a model whose source input's size was to be fixed.
pub struct SourceDimensionPatchResult {
    pub bytes: Vec<u8>,
    pub applied: bool,
    pub skip_reason: Option<SkipReason<String>>,
    pub removed_value_info: usize,
    pub src_element_type: Option<u64>,
}

pub open spec fn reason_view(reason: Option<SkipReason<String>>) -> Option<SkipReason<Seq<char>>> {
    match reason {
        None => None,
        Some(reason) => Some(reason@),
    }
}

impl View for SourceDimensionPatchResult {
    type V = SizedMessage;

    open spec fn view(&self) -> SizedMessage {
        SizedMessage {
            bytes: self.bytes@,
            applied: self.applied,
            skip_reason: reason_view(self.skip_reason),
            removed_value_info: self.removed_value_info as int,
            element_type: self.src_element_type,
        }
    }
}

/// Fixes the size of a graph's source input and drops its shape annotations.
pub fn patch_graph_src_input_dimensions(graph_bytes: &[u8], width: u32, height: u32) -> (result:
    Result<SourceDimensionPatchResult, PatchError>)
    ensures
        match (result, sized_graph(graph_bytes@, width, height)) {
            (Ok(patch), Ok(expected)) => patch@ == expected,
            (Err(error), Err(expected)) => error == expected,
            _ => false,
        },
{
    let fields = match parse_proto_fields(graph_bytes) {
        Ok(fields) => fields,
        Err(error) => return Err(PatchError::Graph(error)),
    };
    let ghost piece = sized_graph_field(graph_bytes@, fields@, width, height);
    let mut patched: Vec<u8> = Vec::with_capacity(graph_bytes.len());
    let mut applied = false;
    let mut saw_src = false;
    let mut skip_reason: Option<SkipReason<String>> = None;
    let mut removed_value_info: usize = 0;
    let mut src_element_type: Option<u64> = None;
    let mut at: usize = 0;
    while at < fields.len()
        invariant
            at <= fields@.len(),
            proto::proto_fields(graph_bytes@) == Ok::<Seq<ProtoField>, ProtoError>(fields@),
            proto::tiles(fields@, 0, graph_bytes@.len()),
            piece == sized_graph_field(graph_bytes@, fields@, width, height),
            patched@ == message::joined(at as nat, piece),
            first_input_error(graph_bytes@, fields@, at as int, width, height) is None,
            src_element_type == last_element_type(graph_bytes@, fields@, at as int, width, height),
            reason_view(skip_reason) == first_invalid_input(
                graph_bytes@,
                fields@,
                at as int,
                width,
                height,
            ),
            applied == (src_element_type is Some),
            saw_src == (applied || skip_reason is Some),
            removed_value_info <= at,
            removed_value_info == message::messages_before(fields@, at as int, 13),
        decreases fields@.len() - at,
    {
        let field = fields[at];
        assert(field.within(graph_bytes@.len()));
        if field.number == 13 && field.wire_type == 2 {
            removed_value_info = removed_value_info + 1;
        } else if field.number == 11 && field.wire_type == 2 {
            match patch_src_value_info_dimensions(
                &graph_bytes[field.data_start..field.data_end],
                width,
                height,
            ) {
                Err(error) => {
                    proof {
                        lemma_first_input_error_stays(
                            graph_bytes@,
                            fields@,
                            at + 1,
                            fields@.len() as int,
                            width,
                            height,
                        );
                    }
                    return Err(PatchError::Inside(error));
                },
                Ok(ValueInfoDimensionPatch::NotSrc) => {
                    patched.extend_from_slice(&graph_bytes[field.start..field.end]);
                },
                Ok(ValueInfoDimensionPatch::Applied { bytes, element_type }) => {
                    saw_src = true;
                    applied = true;
                    src_element_type = Some(element_type);
                    encode_length_delimited_field(11, &bytes, &mut patched);
                },
                Ok(ValueInfoDimensionPatch::Invalid(reason)) => {
                    saw_src = true;
                    if skip_reason.is_none() {
                        skip_reason = Some(reason);
                    }
                    patched.extend_from_slice(&graph_bytes[field.start..field.end]);
                },
            }
        } else {
            patched.extend_from_slice(&graph_bytes[field.start..field.end]);
        }
        assert(patched@ =~= message::joined(at as nat, piece) + piece(at as int));
        at = at + 1;
    }
    if !saw_src {
        skip_reason = Some(SkipReason::SrcInputMissing);
    }
    Ok(
        SourceDimensionPatchResult {
            bytes: patched,
            applied,
            skip_reason,
            removed_value_info,
            src_element_type,
        },
    )
}

proof fn lemma_first_input_error_stays(
    bytes: Seq<u8>,
    fields: Seq<ProtoField>,
    count: int,
    all: int,
    width: u32,
    height: u32,
)
    requires
        count <= all,
        first_input_error(bytes, fields, count, width, height) is Some,
    ensures
        first_input_error(bytes, fields, all, width, height) == first_input_error(
            bytes,
            fields,
            count,
            width,
            height,
        ),
    decreases all - count,
{
    if count < all {
        lemma_first_input_error_stays(bytes, fields, count, all - 1, width, height);
    }
}

/// A model with the source input's size fixed and its graph's shape
/// annotations gone. A model without one graph stays as it is.
pub open spec fn sized_model(bytes: Seq<u8>, width: u32, height: u32) -> Result<
    SizedMessage,
    PatchError,
> {
    match proto::proto_fields(bytes) {
        Err(error) => Err(PatchError::Model(error)),
        Ok(fields) => match graph::graph_place(fields) {
            GraphPlace::Missing => Ok(unsized_model(bytes, SkipReason::GraphMissing)),
            GraphPlace::Multiple => Ok(unsized_model(bytes, SkipReason::MultipleGraphs)),
            GraphPlace::At(at) => match sized_graph(
                fields[at as int].payload(bytes),
                width,
                height,
            ) {
                Err(error) => Err(error),
                Ok(sized) => Ok(
                    SizedMessage {
                        bytes: message::with_field(bytes, fields, at as int, 7, sized.bytes),
                        ..sized
                    },
                ),
            },
        },
    }
}

pub open spec fn unsized_model(bytes: Seq<u8>, reason: SkipReason<Seq<char>>) -> SizedMessage {
    SizedMessage {
        bytes,
        applied: false,
        skip_reason: Some(reason),
        removed_value_info: 0,
        element_type: None,
    }
}

fn leave_unsized(model_bytes: &[u8], reason: SkipReason<String>) -> (patch:
    SourceDimensionPatchResult)
    ensures
        patch@ == unsized_model(model_bytes@, reason@),
{
    SourceDimensionPatchResult {
        bytes: copy_bytes(model_bytes),
        applied: false,
        skip_reason: Some(reason),
        removed_value_info: 0,
        src_element_type: None,
    }
}

/// Fixes the size of a model's source input and drops its graph's shape
/// annotations.
pub fn patch_src_input_dimensions(model_bytes: &[u8], width: u32, height: u32) -> (result: Result<
    SourceDimensionPatchResult,
    PatchError,
>)
    ensures
        match (result, sized_model(model_bytes@, width, height)) {
            (Ok(patch), Ok(expected)) => patch@ == expected,
            (Err(error), Err(expected)) => error == expected,
            _ => false,
        },
{
    let fields = match parse_proto_fields(model_bytes) {
        Ok(fields) => fields,
        Err(error) => return Err(PatchError::Model(error)),
    };
    let at: usize = match find_graph(&fields) {
        GraphPlace::Missing => return Ok(leave_unsized(model_bytes, SkipReason::GraphMissing)),
        GraphPlace::Multiple => return Ok(leave_unsized(model_bytes, SkipReason::MultipleGraphs)),
        GraphPlace::At(at) => at,
    };
    let field = fields[at];
    assert(field.within(model_bytes@.len()));
    match patch_graph_src_input_dimensions(
        &model_bytes[field.data_start..field.data_end],
        width,
        height,
    ) {
        Err(error) => Err(error),
        Ok(graph) => {
            let bytes = replace_field(model_bytes, &fields, at, 7, &graph.bytes);
            Ok(
                SourceDimensionPatchResult {
                    bytes,
                    applied: graph.applied,
                    skip_reason: graph.skip_reason,
                    removed_value_info: graph.removed_value_info,
                    src_element_type: graph.src_element_type,
                },
            )
        },
    }
}

/// A shape whose size was fixed says what it said before, but for its third
/// dimension, which is the height, and its fourth, which is the width.
pub proof fn law_sized_shape_holds_the_size(bytes: Seq<u8>, width: u32, height: u32)
    requires
        bytes.len() <= usize::MAX,
        sized_shape(bytes, width, height) matches Ok(Some(sized)) && sized.len() <= usize::MAX,
    ensures
        ({
            let fields = proto::proto_fields(bytes)->Ok_0;
            proto::says(
                sized_shape(bytes, width, height)->Ok_0->0,
                Seq::new(
                    fields.len(),
                    |i: int| sized_dimension_model(bytes, fields, i, width, height),
                ),
            )
        }),
{
    let fields = proto::proto_fields(bytes)->Ok_0;
    let piece = sized_dimension(bytes, fields, width, height);
    let expected = Seq::new(
        fields.len(),
        |i: int| sized_dimension_model(bytes, fields, i, width, height),
    );
    let model = |i: int| Some(expected[i]);
    assert forall|i: int| 0 <= i < fields.len() implies proto::is_field(
        #[trigger] piece(i),
        expected[i],
    ) by {
        message::lemma_joined_bounds(fields.len(), piece, i);
        message::lemma_raw_field_says(bytes, i);
        if fields[i].is_message(1) && message::messages_before(fields, i, 1) == 2 {
            proto::law_message_field_round_trip(1, dim_value(height));
        } else if fields[i].is_message(1) && message::messages_before(fields, i, 1) == 3 {
            proto::law_message_field_round_trip(1, dim_value(width));
        }
    }
    message::law_joined_pieces(fields.len(), piece, model);
    message::lemma_kept_all(fields.len(), expected);
    assert(expected.take(fields.len() as int) =~= expected);
}

/// What a shape's field says once the shape's size is fixed.
pub open spec fn sized_dimension_model(
    bytes: Seq<u8>,
    fields: Seq<ProtoField>,
    at: int,
    width: u32,
    height: u32,
) -> FieldModel {
    if fields[at].is_message(1) && message::messages_before(fields, at, 1) == 2 {
        proto::message_model(1, dim_value(height))
    } else if fields[at].is_message(1) && message::messages_before(fields, at, 1) == 3 {
        proto::message_model(1, dim_value(width))
    } else {
        proto::model_of(bytes, fields[at])
    }
}

/// What a graph's field says once the source input's size is fixed, if it
/// stays.
pub open spec fn sized_graph_model(
    bytes: Seq<u8>,
    fields: Seq<ProtoField>,
    width: u32,
    height: u32,
) -> spec_fn(int) -> Option<FieldModel> {
    |at: int|
        if fields[at].is_message(13) {
            None
        } else {
            match sized_graph_input(bytes, fields[at], width, height) {
                Ok(SizedInput::Applied { input, .. }) => Some(proto::message_model(11, input)),
                _ => Some(proto::model_of(bytes, fields[at])),
            }
        }
}

/// Fixing the size of a graph's source input changes that input, drops the
/// shape annotations, and keeps everything else as it was, in its place.
pub proof fn law_sized_graph_keeps_the_rest(bytes: Seq<u8>, width: u32, height: u32)
    requires
        bytes.len() <= usize::MAX,
        sized_graph(bytes, width, height) matches Ok(sized) && sized.bytes.len() <= usize::MAX,
    ensures
        ({
            let fields = proto::proto_fields(bytes)->Ok_0;
            proto::says(
                sized_graph(bytes, width, height)->Ok_0.bytes,
                message::kept(fields.len(), sized_graph_model(bytes, fields, width, height)),
            )
        }),
{
    let fields = proto::proto_fields(bytes)->Ok_0;
    let piece = sized_graph_field(bytes, fields, width, height);
    let model = sized_graph_model(bytes, fields, width, height);
    assert forall|i: int| 0 <= i < fields.len() implies match model(i) {
        None => (#[trigger] piece(i)).len() == 0,
        Some(last) => proto::is_field(piece(i), last),
    } by {
        message::lemma_joined_bounds(fields.len(), piece, i);
        message::lemma_raw_field_says(bytes, i);
        if !fields[i].is_message(13) {
            if let Ok(SizedInput::Applied { input, .. }) = sized_graph_input(
                bytes,
                fields[i],
                width,
                height,
            ) {
                proto::law_message_field_round_trip(11, input);
            }
        }
    }
    message::law_joined_pieces(fields.len(), piece, model);
}

} // verus!
