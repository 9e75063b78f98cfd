//! Replacing the resize node by a multiplication with one, so that the model
//! needs no downsample ratio.

use crate::onnx::constants::{
    ARITHMETIC_IDENTITY_OP_TYPE, DOWNSAMPLE_RATIO_INPUT, ONNX_TENSOR_FLOAT, ONNX_TENSOR_FLOAT16,
    RESIZE_IDENTITY_INITIALIZER, RESIZE_IDENTITY_NODE_NAME, SRC_INPUT,
};
use crate::onnx::graph;
use crate::onnx::graph::{find_graph, GraphPlace};
use crate::onnx::liveness;
use crate::onnx::liveness::{contains_start, dead_producer_node_starts, GraphNode};
use crate::onnx::message;
use crate::onnx::message::replace_field;
use crate::onnx::node;
use crate::onnx::node::{
    inspect_resize_3_node, read_node_info, tensor_initializer_name, value_info_name, Inspection,
    NodeInfo, NodeModel, ResizeNodeInspection,
};
use crate::onnx::proto;
use crate::onnx::proto::{
    encode_length_delimited_field, encode_string_field, encode_varint_field, parse_proto_fields,
    FieldModel, ProtoError, ProtoField,
};
use crate::onnx::reason::{PatchError, SkipReason};
use crate::text::some_text_is;
use vstd::prelude::*;
use vstd::utf8::*;

verus! {

/// A multiplication of the source by the identity tensor, named as the resize
/// node was.
pub open spec fn identity_node(output: Seq<char>) -> Seq<u8> {
    proto::text_field(1, SRC_INPUT@) + proto::text_field(1, RESIZE_IDENTITY_INITIALIZER@)
        + proto::text_field(2, output) + proto::text_field(3, RESIZE_IDENTITY_NODE_NAME@)
        + proto::text_field(4, ARITHMETIC_IDENTITY_OP_TYPE@)
}

/// Encodes the node that takes the resize node's place.
pub fn encode_identity_node(output: &str) -> (node: Vec<u8>)
    ensures
        node@ == identity_node(output@),
{
    let mut node: Vec<u8> = Vec::new();
    encode_string_field(1, SRC_INPUT, &mut node);
    encode_string_field(1, RESIZE_IDENTITY_INITIALIZER, &mut node);
    encode_string_field(2, output, &mut node);
    encode_string_field(3, RESIZE_IDENTITY_NODE_NAME, &mut node);
    encode_string_field(4, ARITHMETIC_IDENTITY_OP_TYPE, &mut node);
    assert(node@ =~= identity_node(output@));
    node
}

/// The number one in an element type that the patch supports, in little-endian
/// bytes.
pub open spec fn one_bytes(element_type: u64) -> Option<Seq<u8>> {
    if element_type == ONNX_TENSOR_FLOAT {
        Some(seq![0x00u8, 0x00u8, 0x80u8, 0x3fu8])
    } else if element_type == ONNX_TENSOR_FLOAT16 {
        Some(seq![0x00u8, 0x3cu8])
    } else {
        None
    }
}

/// A tensor of one element, which is one.
pub open spec fn identity_initializer(element_type: u64) -> Option<Seq<u8>> {
    match one_bytes(element_type) {
        None => None,
        Some(one) => Some(
            proto::varint_field(1, 1) + proto::varint_field(2, element_type) + proto::text_field(
                8,
                RESIZE_IDENTITY_INITIALIZER@,
            ) + proto::message_field(9, one),
        ),
    }
}

/// Encodes the tensor that the source is multiplied with.
pub fn encode_identity_initializer(element_type: u64) -> (tensor: Option<Vec<u8>>)
    ensures
        tensor.deep_view() == identity_initializer(element_type),
{
    let mut raw_data: Vec<u8> = Vec::new();
    if element_type == ONNX_TENSOR_FLOAT {
        raw_data.push(0x00);
        raw_data.push(0x00);
        raw_data.push(0x80);
        raw_data.push(0x3f);
    } else if element_type == ONNX_TENSOR_FLOAT16 {
        raw_data.push(0x00);
        raw_data.push(0x3c);
    } else {
        return None;
    }
    assert(Some(raw_data@) =~= one_bytes(element_type));
    let mut tensor: Vec<u8> = Vec::new();
    encode_varint_field(1, 1, &mut tensor);
    encode_varint_field(2, element_type, &mut tensor);
    encode_string_field(8, RESIZE_IDENTITY_INITIALIZER, &mut tensor);
    encode_length_delimited_field(9, &raw_data, &mut tensor);
    assert(tensor@ =~= identity_initializer(element_type)->0);
    assert(tensor.deep_view() =~= tensor@);
    Some(tensor)
}

/// A graph or a model that was to be patched.
pub enum IdentityPatchResult {
    Applied(Vec<u8>),
    Skipped(SkipReason<String>),
}

/// A graph or a model once patched, or why it is not.
pub enum Identity {
    Applied(Seq<u8>),
    Skipped(SkipReason<Seq<char>>),
}

impl View for IdentityPatchResult {
    type V = Identity;

    open spec fn view(&self) -> Identity {
        match *self {
            IdentityPatchResult::Applied(bytes) => Identity::Applied(bytes@),
            IdentityPatchResult::Skipped(reason) => Identity::Skipped(reason@),
        }
    }
}

/// A graph's tensor that is named as the identity tensor is.
pub open spec fn is_identity_initializer(bytes: Seq<u8>, field: ProtoField) -> bool {
    field.is_message(5) && message::first_text(field.payload(bytes), 8) == Ok::<
        Option<Seq<char>>,
        ProtoError,
    >(Some(RESIZE_IDENTITY_INITIALIZER@))
}

pub open spec fn has_identity_initializer(bytes: Seq<u8>, fields: Seq<ProtoField>) -> bool {
    exists|i: int| 0 <= i < fields.len() && is_identity_initializer(bytes, #[trigger] fields[i])
}

/// What a search for the resize node came to.
pub enum Search {
    Skipped(SkipReason<Seq<char>>),
    Found(Option<int>),
}

/// The search for the one resize node among the first `count` fields. It ends
/// at a node that cannot be read, at a resize node that cannot be replaced,
/// and at a second resize node.
pub open spec fn resize_search(bytes: Seq<u8>, fields: Seq<ProtoField>, count: int) -> Result<
    Search,
    PatchError,
>
    decreases count,
{
    if count <= 0 {
        Ok(Search::Found(None))
    } else {
        match resize_search(bytes, fields, count - 1) {
            Err(error) => Err(error),
            Ok(Search::Skipped(reason)) => Ok(Search::Skipped(reason)),
            Ok(Search::Found(found)) => if !fields[count - 1].is_message(1) {
                Ok(Search::Found(found))
            } else {
                match node::node_model(fields[count - 1].payload(bytes)) {
                    Err(error) => Err(error),
                    Ok(model) => match node::inspection(model) {
                        Inspection::NotResize3 => Ok(Search::Found(found)),
                        Inspection::Invalid(reason) => Ok(Search::Skipped(reason)),
                        Inspection::Valid { .. } => if found is Some {
                            Ok(Search::Skipped(SkipReason::MultipleNodes))
                        } else {
                            Ok(Search::Found(Some(count - 1)))
                        },
                    },
                }
            },
        }
    }
}

/// The nodes among the first `count` fields.
pub open spec fn graph_nodes(bytes: Seq<u8>, fields: Seq<ProtoField>, count: int) -> Seq<GraphNode>
    decreases count,
{
    if count <= 0 {
        Seq::empty()
    } else {
        let before = graph_nodes(bytes, fields, count - 1);
        if fields[count - 1].is_message(1) {
            before.push(
                GraphNode {
                    start: fields[count - 1].start as int,
                    node: node::node_model(fields[count - 1].payload(bytes))->Ok_0,
                },
            )
        } else {
            before
        }
    }
}

/// The graph's input for the downsample ratio.
pub open spec fn is_ratio_input(bytes: Seq<u8>, field: ProtoField) -> bool {
    field.is_message(11) && message::first_text(field.payload(bytes), 1) == Ok::<
        Option<Seq<char>>,
        ProtoError,
    >(Some(DOWNSAMPLE_RATIO_INPUT@))
}

/// The error of the first of these graph inputs whose name cannot be read.
pub open spec fn first_name_error(bytes: Seq<u8>, fields: Seq<ProtoField>, count: int) -> Option<
    ProtoError,
>
    decreases count,
{
    if count <= 0 {
        None
    } else {
        match first_name_error(bytes, fields, count - 1) {
            Some(error) => Some(error),
            None => if fields[count - 1].is_message(11) {
                match message::first_text(fields[count - 1].payload(bytes), 1) {
                    Err(error) => Some(error),
                    Ok(_) => None,
                }
            } else {
                None
            },
        }
    }
}

/// A graph's field once the node at `found` is the identity: the nodes that
/// fed only that node are gone, and so is the downsample ratio.
pub open spec fn identity_field(
    bytes: Seq<u8>,
    fields: Seq<ProtoField>,
    found: int,
    output: Seq<char>,
    dead: Set<int>,
) -> spec_fn(int) -> Seq<u8> {
    |at: int|
        if fields[at].is_message(1) && at == found {
            proto::message_field(1, identity_node(output))
        } else if fields[at].is_message(1) && dead.contains(fields[at].start as int) {
            Seq::empty()
        } else if is_ratio_input(bytes, fields[at]) {
            Seq::empty()
        } else {
            fields[at].raw(bytes)
        }
}

/// The nodes that go with the resize node at `found`.
pub open spec fn dead_nodes(bytes: Seq<u8>, fields: Seq<ProtoField>, found: int) -> Set<int> {
    let model = node::node_model(fields[found].payload(bytes))->Ok_0;
    liveness::dead_starts(
        graph_nodes(bytes, fields, fields.len() as int),
        fields[found].start as int,
        model.inputs.drop_first(),
    )
}

/// A graph in which the resize node at `found` is the identity, with the
/// identity tensor behind everything else.
pub open spec fn rebuilt_graph(
    bytes: Seq<u8>,
    fields: Seq<ProtoField>,
    found: int,
    initializer: Seq<u8>,
) -> Seq<u8> {
    let model = node::node_model(fields[found].payload(bytes))->Ok_0;
    message::joined(
        fields.len(),
        identity_field(
            bytes,
            fields,
            found,
            model.outputs[0],
            dead_nodes(bytes, fields, found),
        ),
    ) + proto::message_field(5, initializer)
}

/// A graph with its resize node replaced by the identity.
pub open spec fn identity_graph(bytes: Seq<u8>, element_type: u64) -> Result<Identity, PatchError> {
    match identity_initializer(element_type) {
        None => Ok(Identity::Skipped(SkipReason::UnsupportedElementType { element_type })),
        Some(initializer) => match proto::proto_fields(bytes) {
            Err(error) => Err(PatchError::Graph(error)),
            Ok(fields) => if has_identity_initializer(bytes, fields) {
                Ok(Identity::Skipped(SkipReason::InitializerExists))
            } else {
                match resize_search(bytes, fields, fields.len() as int) {
                    Err(error) => Err(error),
                    Ok(Search::Skipped(reason)) => Ok(Identity::Skipped(reason)),
                    Ok(Search::Found(None)) => Ok(Identity::Skipped(SkipReason::NodeMissing)),
                    Ok(Search::Found(Some(found))) => match first_name_error(
                        bytes,
                        fields,
                        fields.len() as int,
                    ) {
                        Some(error) => Err(PatchError::Inside(error)),
                        None => Ok(
                            Identity::Applied(rebuilt_graph(bytes, fields, found, initializer)),
                        ),
                    },
                }
            },
        },
    }
}

proof fn lemma_search_end_stays(bytes: Seq<u8>, fields: Seq<ProtoField>, count: int, all: int)
    requires
        count <= all,
        !(resize_search(bytes, fields, count) matches Ok(Search::Found(_))),
    ensures
        resize_search(bytes, fields, all) == resize_search(bytes, fields, count),
    decreases all - count,
{
    if count < all {
        lemma_search_end_stays(bytes, fields, count, all - 1);
    }
}

proof fn lemma_name_error_stays(bytes: Seq<u8>, fields: Seq<ProtoField>, count: int, all: int)
    requires
        count <= all,
        first_name_error(bytes, fields, count) is Some,
    ensures
        first_name_error(bytes, fields, all) == first_name_error(bytes, fields, count),
    decreases all - count,
{
    if count < all {
        lemma_name_error_stays(bytes, fields, count, all - 1);
    }
}

/// The nodes of a graph stand in the order of their places.
proof fn lemma_graph_nodes_ascend(bytes: Seq<u8>, fields: Seq<ProtoField>, count: int, len: nat)
    requires
        0 <= count <= fields.len(),
        proto::tiles(fields, 0, len),
    ensures
        liveness::distinct_starts(graph_nodes(bytes, fields, count)),
        forall|i: int|
            0 <= i < graph_nodes(bytes, fields, count).len() ==> (#[trigger] graph_nodes(
                bytes,
                fields,
                count,
            )[i]).start < (if count == fields.len() {
                len as int
            } else {
                fields[count].start as int
            }),
    decreases count,
{
    if count > 0 {
        lemma_graph_nodes_ascend(bytes, fields, count - 1, len);
        assert(fields[count - 1].within(len));
        if count < fields.len() {
            assert(fields[count - 1].end <= fields[count].start);
        }
    }
}

fn holds_identity_initializer(graph_bytes: &[u8], fields: &Vec<ProtoField>) -> (found: bool)
    requires
        proto::tiles(fields@, 0, graph_bytes@.len()),
    ensures
        found == has_identity_initializer(graph_bytes@, fields@),
{
    let mut at: usize = 0;
    while at < fields.len()
        invariant
            at <= fields@.len(),
            proto::tiles(fields@, 0, graph_bytes@.len()),
            forall|i: int|
                0 <= i < at ==> !is_identity_initializer(graph_bytes@, #[trigger] fields@[i]),
        decreases fields@.len() - at,
    {
        let field = fields[at];
        assert(field.within(graph_bytes@.len()));
        if field.number == 5 && field.wire_type == 2 {
            if let Ok(name) = tensor_initializer_name(
                &graph_bytes[field.data_start..field.data_end],
            ) {
                if some_text_is(&name, RESIZE_IDENTITY_INITIALIZER) {
                    assert(is_identity_initializer(graph_bytes@, fields@[at as int]));
                    return true;
                }
            }
        }
        at = at + 1;
    }
    false
}

/// The one resize node of a graph: where it stands, what it gives and what it alone
/// may have been fed by, with all the graph's nodes.
struct ResizeNode {
    nodes: Vec<(ProtoField, NodeInfo)>,
    at: usize,
    output: String,
    dead_inputs: Vec<String>,
}

impl ResizeNode {
    /// The graph's node at `at` is this resize node.
    spec fn stands(self, bytes: Seq<u8>, fields: Seq<ProtoField>) -> bool {
        &&& self.at < fields.len()
        &&& fields[self.at as int].is_message(1)
        &&& liveness::graph_node_views(self.nodes@) == graph_nodes(
            bytes,
            fields,
            fields.len() as int,
        )
        &&& node::node_model(fields[self.at as int].payload(bytes)) matches Ok(model)
        &&& self.output@ == model.outputs[0]
        &&& self.dead_inputs.deep_view() == model.inputs.drop_first()
    }
}

/// What a search for the resize node found.
enum NodeSearch {
    Skipped(SkipReason<String>),
    Missing,
    Found(ResizeNode),
}

impl NodeSearch {
    /// The search found what there is to find.
    spec fn is_search(
        result: Result<NodeSearch, PatchError>,
        bytes: Seq<u8>,
        fields: Seq<ProtoField>,
    ) -> bool {
        match (result, resize_search(bytes, fields, fields.len() as int)) {
            (Err(error), Err(expected)) => error == expected,
            (Ok(NodeSearch::Skipped(reason)), Ok(Search::Skipped(expected))) => reason@ == expected,
            (Ok(NodeSearch::Missing), Ok(Search::Found(None))) => true,
            (Ok(NodeSearch::Found(node)), Ok(Search::Found(Some(at)))) => node.at == at
                && node.stands(bytes, fields),
            _ => false,
        }
    }
}

/// Searches a graph for its resize node.
#[verifier::spinoff_prover]
fn search_resize_3(graph_bytes: &[u8], fields: &Vec<ProtoField>) -> (result: Result<
    NodeSearch,
    PatchError,
>)
    requires
        proto::tiles(fields@, 0, graph_bytes@.len()),
    ensures
        NodeSearch::is_search(result, graph_bytes@, fields@),
{
    let ghost bytes = graph_bytes@;
    let mut nodes: Vec<(ProtoField, NodeInfo)> = Vec::new();
    let mut match_to_patch: Option<(usize, String, Vec<String>)> = None;
    let mut at: usize = 0;
    assert(liveness::graph_node_views(nodes@) =~= graph_nodes(bytes, fields@, 0));
    while at < fields.len()
        invariant
            at <= fields@.len(),
            bytes == graph_bytes@,
            proto::tiles(fields@, 0, bytes.len()),
            liveness::graph_node_views(nodes@) == graph_nodes(bytes, fields@, at as int),
            match match_to_patch {
                None => resize_search(bytes, fields@, at as int) == Ok::<Search, PatchError>(
                    Search::Found(None),
                ),
                Some((found, output, dead_inputs)) => {
                    &&& found < at
                    &&& resize_search(bytes, fields@, at as int) == Ok::<Search, PatchError>(
                        Search::Found(Some(found as int)),
                    )
                    &&& fields@[found as int].is_message(1)
                    &&& node::node_model(fields@[found as int].payload(bytes)) matches Ok(model)
                    &&& output@ == model.outputs[0]
                    &&& dead_inputs.deep_view() == model.inputs.drop_first()
                },
            },
        decreases fields@.len() - at,
    {
        let field = fields[at];
        assert(field.within(bytes.len()));
        if field.number == 1 && field.wire_type == 2 {
            proof {
                if !(resize_search(bytes, fields@, at + 1) matches Ok(Search::Found(_))) {
                    lemma_search_end_stays(bytes, fields@, at + 1, fields@.len() as int);
                }
            }
            let info = match read_node_info(&graph_bytes[field.data_start..field.data_end]) {
                Ok(info) => info,
                Err(error) => return Err(error),
            };
            match inspect_resize_3_node(&info) {
                ResizeNodeInspection::NotResize3 => {},
                ResizeNodeInspection::Invalid(reason) => {
                    return Ok(NodeSearch::Skipped(reason));
                },
                ResizeNodeInspection::Valid { output, dead_inputs } => {
                    if match_to_patch.is_some() {
                        return Ok(NodeSearch::Skipped(SkipReason::MultipleNodes));
                    }
                    match_to_patch = Some((at, output, dead_inputs));
                },
            }
            let ghost before = nodes@;
            let ghost model = info@;
            nodes.push((field, info));
            assert(liveness::graph_node_views(nodes@) =~= liveness::graph_node_views(before).push(
                GraphNode { start: field.start as int, node: model },
            ));
        }
        at = at + 1;
    }
    match match_to_patch {
        Some((at, output, dead_inputs)) => Ok(
            NodeSearch::Found(ResizeNode { nodes, at, output, dead_inputs }),
        ),
        None => Ok(NodeSearch::Missing),
    }
}

/// Copies a graph's fields with the node at `found` as the identity, without the nodes
/// that go with it and without the downsample ratio.
#[verifier::spinoff_prover]
fn rebuild_fields(
    graph_bytes: &[u8],
    fields: &Vec<ProtoField>,
    found: usize,
    output: &str,
    removed_starts: &Vec<usize>,
) -> (result: Result<Vec<u8>, PatchError>)
    requires
        proto::tiles(fields@, 0, graph_bytes@.len()),
    ensures
        match (result, first_name_error(graph_bytes@, fields@, fields@.len() as int)) {
            (Ok(patched), None) => patched@ == message::joined(
                fields@.len(),
                identity_field(
                    graph_bytes@,
                    fields@,
                    found as int,
                    output@,
                    liveness::starts_of(removed_starts@),
                ),
            ),
            (Err(error), Some(expected)) => error == PatchError::Inside(expected),
            _ => false,
        },
{
    let ghost bytes = graph_bytes@;
    let ghost dead = liveness::starts_of(removed_starts@);
    let identity = encode_identity_node(output);
    let ghost piece = identity_field(bytes, fields@, found as int, output@, dead);
    let mut patched: Vec<u8> = Vec::with_capacity(graph_bytes.len());
    let mut index: usize = 0;
    while index < fields.len()
        invariant
            index <= fields@.len(),
            bytes == graph_bytes@,
            proto::tiles(fields@, 0, bytes.len()),
            dead == liveness::starts_of(removed_starts@),
            identity@ == identity_node(output@),
            piece == identity_field(bytes, fields@, found as int, output@, dead),
            first_name_error(bytes, fields@, index as int) is None,
            patched@ == message::joined(index as nat, piece),
        decreases fields@.len() - index,
    {
        let field = fields[index];
        assert(field.within(bytes.len()));
        if field.number == 1 && field.wire_type == 2 {
            if index == found {
                encode_length_delimited_field(1, &identity, &mut patched);
            } else if !contains_start(removed_starts, field.start) {
                patched.extend_from_slice(&graph_bytes[field.start..field.end]);
            }
        } else if field.number == 11 && field.wire_type == 2 {
            match value_info_name(&graph_bytes[field.data_start..field.data_end]) {
                Err(error) => {
                    proof {
                        lemma_name_error_stays(bytes, fields@, index + 1, fields@.len() as int);
                    }
                    return Err(PatchError::Inside(error));
                },
                Ok(name) => {
                    if !some_text_is(&name, DOWNSAMPLE_RATIO_INPUT) {
                        patched.extend_from_slice(&graph_bytes[field.start..field.end]);
                    }
                },
            }
        } else {
            patched.extend_from_slice(&graph_bytes[field.start..field.end]);
        }
        assert(patched@ =~= message::joined(index as nat, piece) + piece(index as int));
        index = index + 1;
    }
    Ok(patched)
}

/// Replaces the resize node of a graph by the identity.
pub fn patch_graph_resize_3_to_identity(graph_bytes: &[u8], src_element_type: u64) -> (result:
    Result<IdentityPatchResult, PatchError>)
    ensures
        match (result, identity_graph(graph_bytes@, src_element_type)) {
            (Ok(patch), Ok(expected)) => patch@ == expected,
            (Err(error), Err(expected)) => error == expected,
            _ => false,
        },
{
    let initializer = match encode_identity_initializer(src_element_type) {
        Some(initializer) => initializer,
        None => return Ok(
            IdentityPatchResult::Skipped(
                SkipReason::UnsupportedElementType { element_type: src_element_type },
            ),
        ),
    };
    assert(initializer.deep_view() =~= initializer@);
    let fields = match parse_proto_fields(graph_bytes) {
        Ok(fields) => fields,
        Err(error) => return Err(PatchError::Graph(error)),
    };
    if holds_identity_initializer(graph_bytes, &fields) {
        return Ok(IdentityPatchResult::Skipped(SkipReason::InitializerExists));
    }
    let found = match search_resize_3(graph_bytes, &fields) {
        Err(error) => return Err(error),
        Ok(NodeSearch::Skipped(reason)) => return Ok(IdentityPatchResult::Skipped(reason)),
        Ok(NodeSearch::Missing) => {
            return Ok(IdentityPatchResult::Skipped(SkipReason::NodeMissing));
        },
        Ok(NodeSearch::Found(found)) => found,
    };
    let ghost bytes = graph_bytes@;
    proof {
        lemma_graph_nodes_ascend(bytes, fields@, fields@.len() as int, bytes.len());
    }
    let at: usize = found.at;
    let removed_starts = dead_producer_node_starts(
        &found.nodes,
        fields[at].start,
        found.dead_inputs,
    );
    assert(liveness::starts_of(removed_starts@) == dead_nodes(bytes, fields@, at as int));
    let output = found.output.as_str();
    let mut patched = match rebuild_fields(graph_bytes, &fields, at, output, &removed_starts) {
        Ok(patched) => patched,
        Err(error) => return Err(error),
    };
    encode_length_delimited_field(5, &initializer, &mut patched);
    Ok(IdentityPatchResult::Applied(patched))
}

/// A model whose graph's resize node is replaced by the identity.
pub open spec fn identity_model(bytes: Seq<u8>, element_type: Option<u64>) -> Result<
    Identity,
    PatchError,
> {
    match element_type {
        None => Ok(Identity::Skipped(SkipReason::ElementTypeUnavailable)),
        Some(element_type) => match proto::proto_fields(bytes) {
            Err(error) => Err(PatchError::Model(error)),
            Ok(fields) => match graph::graph_place(fields) {
                GraphPlace::Missing => Ok(Identity::Skipped(SkipReason::GraphMissing)),
                GraphPlace::Multiple => Ok(Identity::Skipped(SkipReason::MultipleGraphs)),
                GraphPlace::At(at) => match identity_graph(
                    fields[at as int].payload(bytes),
                    element_type,
                ) {
                    Err(error) => Err(error),
                    Ok(Identity::Skipped(reason)) => Ok(Identity::Skipped(reason)),
                    Ok(Identity::Applied(patched)) => Ok(
                        Identity::Applied(
                            message::with_field(bytes, fields, at as int, 7, patched),
                        ),
                    ),
                },
            },
        },
    }
}

/// Replaces the resize node of a model by the identity.
pub fn patch_resize_3_to_identity(model_bytes: &[u8], src_element_type: Option<u64>) -> (result:
    Result<IdentityPatchResult, PatchError>)
    ensures
        match (result, identity_model(model_bytes@, src_element_type)) {
            (Ok(patch), Ok(expected)) => patch@ == expected,
            (Err(error), Err(expected)) => error == expected,
            _ => false,
        },
{
    let element_type: u64 = match src_element_type {
        Some(element_type) => element_type,
        None => return Ok(IdentityPatchResult::Skipped(SkipReason::ElementTypeUnavailable)),
    };
    let fields = match parse_proto_fields(model_bytes) {
        Ok(fields) => fields,
        Err(error) => return Err(PatchError::Model(error)),
    };
    let at: usize = match find_graph(&fields) {
        GraphPlace::Missing => {
            return Ok(IdentityPatchResult::Skipped(SkipReason::GraphMissing));
        },
        GraphPlace::Multiple => {
            return Ok(IdentityPatchResult::Skipped(SkipReason::MultipleGraphs));
        },
        GraphPlace::At(at) => at,
    };
    let field = fields[at];
    assert(field.within(model_bytes@.len()));
    match patch_graph_resize_3_to_identity(
        &model_bytes[field.data_start..field.data_end],
        element_type,
    ) {
        Err(error) => Err(error),
        Ok(IdentityPatchResult::Skipped(reason)) => Ok(IdentityPatchResult::Skipped(reason)),
        Ok(IdentityPatchResult::Applied(patched_graph)) => Ok(
            IdentityPatchResult::Applied(
                replace_field(model_bytes, &fields, at, 7, &patched_graph),
            ),
        ),
    }
}

/// A text field that was read says its text.
proof fn lemma_text_of_model(bytes: Seq<u8>, field: ProtoField, number: u32, text: Seq<char>)
    requires
        proto::model_of(bytes, field) == proto::message_model(number, encode_utf8(text)),
    ensures
        proto::field_text(bytes, field) == Ok::<Seq<char>, ProtoError>(text),
{
    encode_utf8_valid_utf8(text);
    encode_utf8_decode_utf8(text);
}

/// The numbers of an identity node's fields.
spec fn identity_node_numbers() -> Seq<u32> {
    seq![1, 1, 2, 3, 4]
}

/// What an identity node's fields say.
spec fn identity_node_texts(output: Seq<char>) -> Seq<Seq<char>> {
    seq![
        SRC_INPUT@,
        RESIZE_IDENTITY_INITIALIZER@,
        output,
        RESIZE_IDENTITY_NODE_NAME@,
        ARITHMETIC_IDENTITY_OP_TYPE@,
    ]
}

/// An identity node reads back as five fields with their texts.
#[verifier::spinoff_prover]
proof fn lemma_identity_node_fields(output: Seq<char>)
    requires
        identity_node(output).len() <= usize::MAX,
    ensures
        proto::proto_fields(identity_node(output)) matches Ok(fields) && fields.len() == 5
            && forall|i: int|
            0 <= i < 5 ==> (#[trigger] fields[i]).number == identity_node_numbers()[i]
                && proto::field_text(identity_node(output), fields[i]) == Ok::<
                Seq<char>,
                ProtoError,
            >(identity_node_texts(output)[i]),
{
    let numbers = identity_node_numbers();
    let texts = identity_node_texts(output);
    let bytes = identity_node(output);
    let piece = |i: int| proto::text_field(numbers[i], texts[i]);
    let models = Seq::new(5, |i: int| proto::message_model(numbers[i], encode_utf8(texts[i])));
    let model = |i: int| Some(models[i]);
    assert(message::joined(5, piece) =~= bytes) by {
        reveal_with_fuel(message::joined, 6);
    }
    assert forall|i: int| 0 <= i < 5 implies proto::is_field(#[trigger] piece(i), models[i]) by {
        message::lemma_joined_bounds(5, piece, i);
        proto::law_message_field_round_trip(numbers[i], encode_utf8(texts[i]));
    }
    message::law_joined_pieces(5, piece, model);
    message::lemma_kept_all(5, models);
    assert(models.take(5) =~= models);
    let fields = proto::proto_fields(bytes)->Ok_0;
    assert(proto::models_of(bytes, fields).len() == 5);
    assert forall|i: int| 0 <= i < 5 implies (#[trigger] fields[i]).number == numbers[i]
        && proto::field_text(bytes, fields[i]) == Ok::<Seq<char>, ProtoError>(texts[i]) by {
        assert(proto::models_of(bytes, fields)[i] == models[i]);
        lemma_text_of_model(bytes, fields[i], numbers[i], texts[i]);
    }
}

/// A field that holds a text adds it to what is read of a node.
proof fn lemma_node_text(
    bytes: Seq<u8>,
    fields: Seq<ProtoField>,
    count: int,
    before: NodeModel,
    text: Seq<char>,
)
    requires
        0 <= count < fields.len(),
        node::node_fields(bytes, fields, count) == Ok::<NodeModel, PatchError>(before),
        1 <= fields[count].number <= 4,
        proto::field_text(bytes, fields[count]) == Ok::<Seq<char>, ProtoError>(text),
    ensures
        node::node_fields(bytes, fields, count + 1) == Ok::<NodeModel, PatchError>(
            match fields[count].number {
                1 => NodeModel { inputs: before.inputs.push(text), ..before },
                2 => NodeModel { outputs: before.outputs.push(text), ..before },
                3 => NodeModel { name: Some(text), ..before },
                _ => NodeModel { op_type: Some(text), ..before },
            },
        ),
{
}

/// A node of two inputs, an output, a name and an operator, in this order.
proof fn lemma_node_of_five_texts(
    bytes: Seq<u8>,
    fields: Seq<ProtoField>,
    texts: Seq<Seq<char>>,
)
    requires
        fields.len() == 5,
        fields[0].number == 1 && fields[1].number == 1 && fields[2].number == 2
            && fields[3].number == 3 && fields[4].number == 4,
        forall|i: int|
            0 <= i < 5 ==> proto::field_text(bytes, #[trigger] fields[i]) == Ok::<
                Seq<char>,
                ProtoError,
            >(texts[i]),
    ensures
        node::node_fields(bytes, fields, 5) == Ok::<NodeModel, PatchError>(
            NodeModel {
                inputs: seq![texts[0], texts[1]],
                outputs: seq![texts[2]],
                name: Some(texts[3]),
                op_type: Some(texts[4]),
                domain: None,
                attribute_names: Seq::empty(),
            },
        ),
{
    let none = node::empty_node();
    let one = NodeModel { inputs: none.inputs.push(texts[0]), ..none };
    let two = NodeModel { inputs: one.inputs.push(texts[1]), ..one };
    let three = NodeModel { outputs: two.outputs.push(texts[2]), ..two };
    let four = NodeModel { name: Some(texts[3]), ..three };
    assert(node::node_fields(bytes, fields, 0) == Ok::<NodeModel, PatchError>(none));
    lemma_node_text(bytes, fields, 0, none, texts[0]);
    lemma_node_text(bytes, fields, 1, one, texts[1]);
    lemma_node_text(bytes, fields, 2, two, texts[2]);
    lemma_node_text(bytes, fields, 3, three, texts[3]);
    lemma_node_text(bytes, fields, 4, four, texts[4]);
    assert(two.inputs =~= seq![texts[0], texts[1]]);
    assert(three.outputs =~= seq![texts[2]]);
}

/// The node that takes the resize node's place reads back as a multiplication
/// of the source by the identity tensor, with the output it was given.
#[verifier::spinoff_prover]
pub proof fn law_identity_node_reads_back(output: Seq<char>)
    requires
        identity_node(output).len() <= usize::MAX,
    ensures
        node::node_model(identity_node(output)) == Ok::<NodeModel, PatchError>(
            NodeModel {
                inputs: seq![SRC_INPUT@, RESIZE_IDENTITY_INITIALIZER@],
                outputs: seq![output],
                name: Some(RESIZE_IDENTITY_NODE_NAME@),
                op_type: Some(ARITHMETIC_IDENTITY_OP_TYPE@),
                domain: None,
                attribute_names: Seq::empty(),
            },
        ),
{
    lemma_identity_node_fields(output);
    let bytes = identity_node(output);
    let fields = proto::proto_fields(bytes)->Ok_0;
    let texts = identity_node_texts(output);
    assert(fields[0].number == 1 && fields[1].number == 1 && fields[2].number == 2
        && fields[3].number == 3 && fields[4].number == 4);
    lemma_node_of_five_texts(bytes, fields, texts);
    assert(seq![texts[0], texts[1]] =~= seq![SRC_INPUT@, RESIZE_IDENTITY_INITIALIZER@]);
    assert(seq![texts[2]] =~= seq![output]);
}

/// The identity tensor reads back under its name.
proof fn lemma_identity_initializer_name(element_type: u64)
    requires
        identity_initializer(element_type) matches Some(tensor) && tensor.len() <= usize::MAX,
    ensures
        message::first_text(identity_initializer(element_type)->0, 8) == Ok::<
            Option<Seq<char>>,
            ProtoError,
        >(Some(RESIZE_IDENTITY_INITIALIZER@)),
{
    let bytes = identity_initializer(element_type)->0;
    let name = encode_utf8(RESIZE_IDENTITY_INITIALIZER@);
    let one = one_bytes(element_type)->0;
    let models = seq![
        FieldModel { number: 1, wire_type: 0, payload: proto::varint_bytes(1) },
        FieldModel {
            number: 2,
            wire_type: 0,
            payload: proto::varint_bytes(element_type as nat),
        },
        proto::message_model(8, name),
        proto::message_model(9, one),
    ];
    let pieces = seq![
        proto::varint_field(1, 1),
        proto::varint_field(2, element_type),
        proto::message_field(8, name),
        proto::message_field(9, one),
    ];
    let piece = |i: int| pieces[i];
    let model = |i: int| Some(models[i]);
    assert(message::joined(4, piece) =~= bytes) by {
        reveal_with_fuel(message::joined, 5);
    }
    assert forall|i: int| 0 <= i < 4 implies proto::is_field(#[trigger] piece(i), models[i]) by {
        message::lemma_joined_bounds(4, piece, i);
        proto::law_varint_field_round_trip(1, 1);
        proto::law_varint_field_round_trip(2, element_type);
        if i == 2 {
            proto::law_message_field_round_trip(8, name);
        }
        if i == 3 {
            proto::law_message_field_round_trip(9, one);
        }
    }
    message::law_joined_pieces(4, piece, model);
    message::lemma_kept_all(4, models);
    assert(models.take(4) =~= models);
    let fields = proto::proto_fields(bytes)->Ok_0;
    assert(proto::models_of(bytes, fields).len() == 4);
    assert(proto::models_of(bytes, fields)[0] == models[0]);
    assert(proto::models_of(bytes, fields)[1] == models[1]);
    assert(proto::models_of(bytes, fields)[2] == models[2]);
    lemma_text_of_model(bytes, fields[2], 8, RESIZE_IDENTITY_INITIALIZER@);
    reveal_with_fuel(message::first_from, 4);
}

/// What a graph's field says once the node at `found` is the identity, if it
/// stays.
pub open spec fn identity_field_model(
    bytes: Seq<u8>,
    fields: Seq<ProtoField>,
    found: int,
    output: Seq<char>,
    dead: Set<int>,
) -> spec_fn(int) -> Option<FieldModel> {
    |at: int|
        if fields[at].is_message(1) && at == found {
            Some(proto::message_model(1, identity_node(output)))
        } else if fields[at].is_message(1) && dead.contains(fields[at].start as int) {
            None
        } else if is_ratio_input(bytes, fields[at]) {
            None
        } else {
            Some(proto::model_of(bytes, fields[at]))
        }
}

/// What a graph says in which the resize node at `found` is the identity.
pub open spec fn identity_graph_models(
    bytes: Seq<u8>,
    fields: Seq<ProtoField>,
    found: int,
    initializer: Seq<u8>,
) -> Seq<FieldModel> {
    let model = node::node_model(fields[found].payload(bytes))->Ok_0;
    message::kept(
        fields.len(),
        identity_field_model(
            bytes,
            fields,
            found,
            model.outputs[0],
            dead_nodes(bytes, fields, found),
        ),
    ).push(proto::message_model(5, initializer))
}

/// Patching a graph replaces the resize node, drops the dead nodes and the
/// downsample ratio, adds the identity tensor, and keeps everything else as it
/// was, in its place.
pub proof fn law_identity_graph_keeps_the_rest(
    bytes: Seq<u8>,
    found: int,
    initializer: Seq<u8>,
)
    requires
        bytes.len() <= usize::MAX,
        proto::proto_fields(bytes) is Ok,
        rebuilt_graph(bytes, proto::proto_fields(bytes)->Ok_0, found, initializer).len()
            <= usize::MAX,
    ensures
        ({
            let fields = proto::proto_fields(bytes)->Ok_0;
            proto::says(
                rebuilt_graph(bytes, fields, found, initializer),
                identity_graph_models(bytes, fields, found, initializer),
            )
        }),
{
    let fields = proto::proto_fields(bytes)->Ok_0;
    let output = node::node_model(fields[found].payload(bytes))->Ok_0.outputs[0];
    let dead = dead_nodes(bytes, fields, found);
    let piece = identity_field(bytes, fields, found, output, dead);
    let model = identity_field_model(bytes, fields, found, output, dead);
    assert forall|i: int| 0 <= i < fields.len() implies match model(i) {
        None => (#[trigger] piece(i)).len() == 0,
        Some(last) => proto::is_field(piece(i), last),
    } by {
        message::lemma_joined_bounds(fields.len(), piece, i);
        message::lemma_raw_field_says(bytes, i);
        if fields[i].is_message(1) && i == found {
            proto::law_message_field_round_trip(1, identity_node(output));
        }
    }
    message::law_joined_pieces(fields.len(), piece, model);
    proto::law_message_field_round_trip(5, initializer);
    proto::law_appending_a_field(
        message::joined(fields.len(), piece),
        message::kept(fields.len(), model),
        proto::message_field(5, initializer),
        proto::message_model(5, initializer),
    );
}

/// Where a graph was patched, it was rebuilt round one resize node.
pub proof fn lemma_patched_graph_was_rebuilt(bytes: Seq<u8>, element_type: u64) -> (found: int)
    requires
        identity_graph(bytes, element_type) matches Ok(Identity::Applied(_)),
    ensures
        identity_initializer(element_type) is Some,
        proto::proto_fields(bytes) is Ok,
        identity_graph(bytes, element_type)->Ok_0->Applied_0 == rebuilt_graph(
            bytes,
            proto::proto_fields(bytes)->Ok_0,
            found,
            identity_initializer(element_type)->0,
        ),
        resize_search(
            bytes,
            proto::proto_fields(bytes)->Ok_0,
            proto::proto_fields(bytes)->Ok_0.len() as int,
        ) == Ok::<Search, PatchError>(Search::Found(Some(found))),
{
    let fields = proto::proto_fields(bytes)->Ok_0;
    resize_search(bytes, fields, fields.len() as int)->Ok_0->Found_0->0
}

proof fn lemma_holds_identity_initializer(
    bytes: Seq<u8>,
    before: Seq<FieldModel>,
    element_type: u64,
)
    requires
        identity_initializer(element_type) is Some,
        proto::says(
            bytes,
            before.push(proto::message_model(5, identity_initializer(element_type)->0)),
        ),
        identity_initializer(element_type)->0.len() <= usize::MAX,
    ensures
        has_identity_initializer(bytes, proto::proto_fields(bytes)->Ok_0),
{
    lemma_identity_initializer_name(element_type);
    let fields = proto::proto_fields(bytes)->Ok_0;
    let last = fields.len() - 1;
    let models = before.push(proto::message_model(5, identity_initializer(element_type)->0));
    assert(proto::models_of(bytes, fields).len() == models.len());
    assert(proto::models_of(bytes, fields)[last] == models[last]);
    assert(is_identity_initializer(bytes, fields[last]));
}

/// A graph that was patched is not patched a second time.
pub proof fn law_patched_graph_is_left_alone(bytes: Seq<u8>, element_type: u64, again: u64)
    requires
        bytes.len() <= usize::MAX,
        identity_graph(bytes, element_type) matches Ok(Identity::Applied(patched)) && patched.len()
            <= usize::MAX,
        identity_initializer(again) is Some,
    ensures
        identity_graph(identity_graph(bytes, element_type)->Ok_0->Applied_0, again) == Ok::<
            Identity,
            PatchError,
        >(Identity::Skipped(SkipReason::InitializerExists)),
{
    let patched = identity_graph(bytes, element_type)->Ok_0->Applied_0;
    let found = lemma_patched_graph_was_rebuilt(bytes, element_type);
    let fields = proto::proto_fields(bytes)->Ok_0;
    let initializer = identity_initializer(element_type)->0;
    law_identity_graph_keeps_the_rest(bytes, found, initializer);
    let models = identity_graph_models(bytes, fields, found, initializer);
    assert(models.drop_last().push(proto::message_model(5, initializer)) =~= models);
    assert(initializer.len() <= patched.len());
    lemma_holds_identity_initializer(patched, models.drop_last(), element_type);
    lemma_held_initializer_skips(patched, again);
}

proof fn lemma_held_initializer_skips(bytes: Seq<u8>, element_type: u64)
    requires
        identity_initializer(element_type) is Some,
        proto::proto_fields(bytes) matches Ok(fields) && has_identity_initializer(bytes, fields),
    ensures
        identity_graph(bytes, element_type) == Ok::<Identity, PatchError>(
            Identity::Skipped(SkipReason::InitializerExists),
        ),
{
}

/// A patched graph takes no downsample ratio.
pub proof fn law_patched_graph_takes_no_ratio(bytes: Seq<u8>, element_type: u64, at: int)
    requires
        bytes.len() <= usize::MAX,
        identity_graph(bytes, element_type) matches Ok(Identity::Applied(patched)) && patched.len()
            <= usize::MAX,
    ensures
        ({
            let patched = identity_graph(bytes, element_type)->Ok_0->Applied_0;
            proto::proto_fields(patched) matches Ok(fields) && (0 <= at < fields.len()
                ==> !is_ratio_input(patched, fields[at]))
        }),
{
    let patched = identity_graph(bytes, element_type)->Ok_0->Applied_0;
    let found = lemma_patched_graph_was_rebuilt(bytes, element_type);
    let fields = proto::proto_fields(bytes)->Ok_0;
    let initializer = identity_initializer(element_type)->0;
    law_identity_graph_keeps_the_rest(bytes, found, initializer);
    let models = identity_graph_models(bytes, fields, found, initializer);
    let inner = proto::proto_fields(patched)->Ok_0;
    if 0 <= at < inner.len() {
        assert(proto::models_of(patched, inner)[at] == models[at]);
        if at < models.len() - 1 {
            lemma_kept_field_is_no_ratio(bytes, fields, found, at);
        }
    }
}

proof fn lemma_kept_field_is_no_ratio(
    bytes: Seq<u8>,
    fields: Seq<ProtoField>,
    found: int,
    at: int,
)
    requires
        0 <= at < identity_graph_models(bytes, fields, found, Seq::empty()).len() - 1,
    ensures
        ({
            let model = identity_graph_models(bytes, fields, found, Seq::empty())[at];
            !(model.number == 11 && model.wire_type == 2 && message::first_text(model.payload, 1)
                == Ok::<Option<Seq<char>>, ProtoError>(Some(DOWNSAMPLE_RATIO_INPUT@)))
        }),
{
    let output = node::node_model(fields[found].payload(bytes))->Ok_0.outputs[0];
    let dead = dead_nodes(bytes, fields, found);
    let model = identity_field_model(bytes, fields, found, output, dead);
    let from = message::lemma_kept_comes_from(fields.len(), model, at);
}

} // verus!
