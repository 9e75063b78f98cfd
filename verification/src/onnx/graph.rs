//! The graph of a model, and dropping its shape annotations.

use crate::onnx::message;
use crate::onnx::message::{copy_bytes, count_messages, find_field, replace_field};
use crate::onnx::proto;
use crate::onnx::proto::{parse_proto_fields, FieldModel, ProtoField};
use crate::onnx::reason::PatchError;
use vstd::prelude::*;

verus! {

/// Where the graph stands among a model's fields.
#[derive(Debug, Clone, Copy, PartialEq, Eq, Structural)]
pub enum GraphPlace {
    Missing,
    Multiple,
    At(usize),
}

pub open spec fn graph_place(fields: Seq<ProtoField>) -> GraphPlace {
    let count = message::messages_before(fields, fields.len() as int, 7);
    if count == 0 {
        GraphPlace::Missing
    } else if count > 1 {
        GraphPlace::Multiple
    } else {
        GraphPlace::At(message::first_from(fields, 0, 7, Some(2u8))->0 as usize)
    }
}

proof fn lemma_no_match_counts_nothing(fields: Seq<ProtoField>, count: int, number: u32)
    requires
        0 <= count <= fields.len(),
        forall|i: int| 0 <= i < count ==> !(#[trigger] fields[i]).is_message(number),
    ensures
        message::messages_before(fields, count, number) == 0,
    decreases count,
{
    if count > 0 {
        lemma_no_match_counts_nothing(fields, count - 1, number);
    }
}

/// Finds the graph among a model's fields.
pub fn find_graph(fields: &Vec<ProtoField>) -> (place: GraphPlace)
    ensures
        place == graph_place(fields@),
        place matches GraphPlace::At(at) ==> at < fields@.len() && fields@[at as int].is_message(7)
            && message::first_from(fields@, 0, 7, Some(2u8)) == Some(at as int),
{
    let count = count_messages(fields, 7);
    if count == 0 {
        return GraphPlace::Missing;
    }
    if count > 1 {
        return GraphPlace::Multiple;
    }
    match find_field(fields, 7, Some(2)) {
        Some(at) => GraphPlace::At(at),
        None => {
            proof {
                message::lemma_first_from(fields@, 0, 7, Some(2u8));
                lemma_no_match_counts_nothing(fields@, fields@.len() as int, 7);
            }
            GraphPlace::Missing
        },
    }
}

/// A graph's field at `at`, gone if it is a shape annotation.
pub open spec fn pruned_field(bytes: Seq<u8>, fields: Seq<ProtoField>) -> spec_fn(int) -> Seq<u8> {
    |at: int|
        if fields[at].is_message(13) {
            Seq::empty()
        } else {
            fields[at].raw(bytes)
        }
}

/// A graph without its shape annotations.
pub open spec fn pruned_graph(bytes: Seq<u8>, fields: Seq<ProtoField>) -> Seq<u8> {
    message::joined(fields.len(), pruned_field(bytes, fields))
}

/// A model without its graph's shape annotations, and how many there were. A
/// model without one graph stays as it is.
pub open spec fn pruned_model(bytes: Seq<u8>) -> Result<(Seq<u8>, int), PatchError> {
    match proto::proto_fields(bytes) {
        Err(error) => Err(PatchError::Model(error)),
        Ok(fields) => match graph_place(fields) {
            GraphPlace::At(at) => {
                let graph = fields[at as int].payload(bytes);
                match proto::proto_fields(graph) {
                    Err(error) => Err(PatchError::Graph(error)),
                    Ok(inner) => Ok(
                        (
                            message::with_field(
                                bytes,
                                fields,
                                at as int,
                                7,
                                pruned_graph(graph, inner),
                            ),
                            message::messages_before(inner, inner.len() as int, 13),
                        ),
                    ),
                }
            },
            _ => Ok((bytes, 0)),
        },
    }
}

/// A model without its graph's shape annotations.
pub struct PruneValueInfoResult {
    pub model_bytes: Vec<u8>,
    pub removed_value_info: usize,
}

impl PruneValueInfoResult {
    pub open spec fn spec_parts(self) -> (Seq<u8>, int) {
        (self.model_bytes@, self.removed_value_info as int)
    }
}

/// Drops the shape annotations from a model's graph.
pub fn prune_graph_value_info(model_bytes: &[u8]) -> (result: Result<
    PruneValueInfoResult,
    PatchError,
>)
    ensures
        match (result, pruned_model(model_bytes@)) {
            (Ok(pruned), Ok(expected)) => pruned.spec_parts() == expected,
            (Err(error), Err(expected)) => error == expected,
            _ => false,
        },
{
    let fields = match parse_proto_fields(model_bytes) {
        Ok(fields) => fields,
        Err(error) => return Err(PatchError::Model(error)),
    };
    let at: usize = match find_graph(&fields) {
        GraphPlace::At(at) => at,
        _ => {
            return Ok(
                PruneValueInfoResult { model_bytes: copy_bytes(model_bytes), removed_value_info: 0 },
            );
        },
    };
    let field = fields[at];
    assert(field.within(model_bytes@.len()));
    let graph: &[u8] = &model_bytes[field.data_start..field.data_end];
    let inner = match parse_proto_fields(graph) {
        Ok(inner) => inner,
        Err(error) => return Err(PatchError::Graph(error)),
    };
    let ghost piece = pruned_field(graph@, inner@);
    let mut patched: Vec<u8> = Vec::with_capacity(graph.len());
    let mut removed: usize = 0;
    let mut index: usize = 0;
    while index < inner.len()
        invariant
            index <= inner@.len(),
            proto::tiles(inner@, 0, graph@.len()),
            piece == pruned_field(graph@, inner@),
            patched@ == message::joined(index as nat, piece),
            removed <= index,
            removed == message::messages_before(inner@, index as int, 13),
        decreases inner@.len() - index,
    {
        let entry = inner[index];
        assert(entry.within(graph@.len()));
        if entry.number == 13 && entry.wire_type == 2 {
            removed = removed + 1;
        } else {
            patched.extend_from_slice(&graph[entry.start..entry.end]);
        }
        assert(patched@ =~= message::joined(index as nat, piece) + piece(index as int));
        index = index + 1;
    }
    let bytes = replace_field(model_bytes, &fields, at, 7, &patched);
    Ok(PruneValueInfoResult { model_bytes: bytes, removed_value_info: removed })
}

/// Pruning a graph keeps every other field as it was, in its place.
pub proof fn law_pruned_graph_keeps_the_rest(bytes: Seq<u8>)
    requires
        bytes.len() <= usize::MAX,
        proto::proto_fields(bytes) is Ok,
        pruned_graph(bytes, proto::proto_fields(bytes)->Ok_0).len() <= usize::MAX,
    ensures
        ({
            let fields = proto::proto_fields(bytes)->Ok_0;
            proto::says(
                pruned_graph(bytes, fields),
                proto::models_of(bytes, fields).filter(
                    |model: FieldModel| !(model.number == 13 && model.wire_type == 2),
                ),
            )
        }),
{
    let fields = proto::proto_fields(bytes)->Ok_0;
    let models = proto::models_of(bytes, fields);
    let stays = |model: FieldModel| !(model.number == 13 && model.wire_type == 2);
    let piece = pruned_field(bytes, fields);
    let model = |i: int|
        if stays(models[i]) {
            Some(models[i])
        } else {
            None
        };
    assert forall|i: int| 0 <= i < fields.len() implies match model(i) {
        None => (#[trigger] piece(i)).len() == 0,
        Some(last) => proto::is_field(piece(i), last),
    } by {
        message::lemma_raw_field_says(bytes, i);
    }
    message::law_joined_pieces(fields.len(), piece, model);
    lemma_kept_filter(fields.len(), models, stays, model);
    assert(models.take(fields.len() as int) =~= models);
}

proof fn lemma_kept_filter(
    count: nat,
    models: Seq<FieldModel>,
    stays: spec_fn(FieldModel) -> bool,
    model: spec_fn(int) -> Option<FieldModel>,
)
    requires
        count <= models.len(),
        model == (|i: int|
            if stays(models[i]) {
                Some(models[i])
            } else {
                None
            }),
    ensures
        message::kept(count, model) == models.take(count as int).filter(stays),
    decreases count,
{
    reveal(Seq::filter);
    if count > 0 {
        lemma_kept_filter((count - 1) as nat, models, stays, model);
        assert(models.take(count as int).drop_last() =~= models.take(count - 1));
    }
}

/// A message has no more fields than bytes.
proof fn lemma_fields_are_not_empty(bytes: Seq<u8>, position: int)
    requires
        0 <= position <= bytes.len(),
        bytes.len() <= usize::MAX,
        proto::fields_from(bytes, position) is Ok,
    ensures
        proto::fields_from(bytes, position)->Ok_0.len() <= bytes.len() - position,
    decreases bytes.len() - position,
{
    if position < bytes.len() {
        let field = proto::field_at(bytes, position)->Ok_0;
        proto::lemma_field_at_within(bytes, position);
        lemma_fields_are_not_empty(bytes, field.end as int);
    }
}

/// Fields of the same numbers and wire types are counted and found alike.
proof fn lemma_alike_fields(
    fields: Seq<ProtoField>,
    others: Seq<ProtoField>,
    count: int,
    from: int,
    number: u32,
)
    requires
        fields.len() == others.len(),
        0 <= from,
        0 <= count <= fields.len(),
        forall|i: int|
            0 <= i < fields.len() ==> (#[trigger] fields[i]).number == others[i].number
                && fields[i].wire_type == others[i].wire_type,
    ensures
        message::messages_before(fields, count, number) == message::messages_before(
            others,
            count,
            number,
        ),
        message::first_from(fields, from, number, Some(2u8)) == message::first_from(
            others,
            from,
            number,
            Some(2u8),
        ),
    decreases count, fields.len() - from,
{
    if count > 0 {
        lemma_alike_fields(fields, others, count - 1, from, number);
        assert(fields[count - 1].is_message(number) == others[count - 1].is_message(number));
    } else if from < fields.len() {
        lemma_alike_fields(fields, others, count, from + 1, number);
        assert(message::is_wanted(fields[from], number, Some(2u8)) == message::is_wanted(
            others[from],
            number,
            Some(2u8),
        ));
    }
}

/// Where a model's one graph stands.
pub proof fn lemma_graph_stands(bytes: Seq<u8>, at: usize)
    requires
        bytes.len() <= usize::MAX,
        proto::proto_fields(bytes) is Ok,
        graph_place(proto::proto_fields(bytes)->Ok_0) == GraphPlace::At(at),
    ensures
        at < proto::proto_fields(bytes)->Ok_0.len(),
        proto::proto_fields(bytes)->Ok_0[at as int].is_message(7),
        message::first_from(proto::proto_fields(bytes)->Ok_0, 0, 7, Some(2u8)) == Some(at as int),
{
    let fields = proto::proto_fields(bytes)->Ok_0;
    message::lemma_first_from(fields, 0, 7, Some(2u8));
    if message::first_from(fields, 0, 7, Some(2u8)) is None {
        lemma_no_match_counts_nothing(fields, fields.len() as int, 7);
    }
    lemma_fields_are_not_empty(bytes, 0);
}

/// A graph that was pruned has nothing left to prune.
proof fn lemma_pruned_graph_stays(graph: Seq<u8>)
    requires
        graph.len() <= usize::MAX,
        proto::proto_fields(graph) is Ok,
        pruned_graph(graph, proto::proto_fields(graph)->Ok_0).len() <= usize::MAX,
    ensures
        ({
            let pruned = pruned_graph(graph, proto::proto_fields(graph)->Ok_0);
            &&& proto::proto_fields(pruned) matches Ok(inner)
            &&& pruned_graph(pruned, inner) == pruned
            &&& message::messages_before(inner, inner.len() as int, 13) == 0
        }),
{
    let fields = proto::proto_fields(graph)->Ok_0;
    let pruned = pruned_graph(graph, fields);
    let stays = |model: FieldModel| !(model.number == 13 && model.wire_type == 2);
    let models = proto::models_of(graph, fields).filter(stays);
    law_pruned_graph_keeps_the_rest(graph);
    let inner = proto::proto_fields(pruned)->Ok_0;
    assert forall|i: int| 0 <= i < inner.len() implies !(#[trigger] inner[i]).is_message(13) by {
        assert(proto::models_of(pruned, inner)[i] == models[i]);
        proto::models_of(graph, fields).lemma_filter_pred(stays, i);
    }
    lemma_no_match_counts_nothing(inner, inner.len() as int, 13);
    let raw = |i: int| inner[i].raw(pruned);
    message::lemma_joined_equal(inner.len(), pruned_field(pruned, inner), raw);
    message::law_fields_join_to_the_message(pruned, inner.len());
    proto::law_fields_tile_the_message(pruned, 0);
    assert(pruned.subrange(0, pruned.len() as int) =~= pruned);
}

/// Pruning a model twice is pruning it once: the second time nothing is dropped and
/// every byte stays.
pub proof fn law_pruning_twice_changes_nothing(bytes: Seq<u8>)
    requires
        bytes.len() <= usize::MAX,
        pruned_model(bytes) matches Ok(pruned) && pruned.0.len() <= usize::MAX,
    ensures
        pruned_model(pruned_model(bytes)->Ok_0.0) == Ok::<(Seq<u8>, int), PatchError>(
            (pruned_model(bytes)->Ok_0.0, 0),
        ),
{
    let fields = proto::proto_fields(bytes)->Ok_0;
    if let GraphPlace::At(place) = graph_place(fields) {
        let at = place as int;
        lemma_graph_stands(bytes, place);
        proto::law_fields_tile_the_message(bytes, 0);
        let graph = fields[at].payload(bytes);
        assert(fields[at].within(bytes.len()));
        let pruned = pruned_graph(graph, proto::proto_fields(graph)->Ok_0);
        let piece = message::replacing(bytes, fields, at, 7, pruned);
        let model = message::with_field(bytes, fields, at, 7, pruned);
        message::lemma_joined_bounds(fields.len(), piece, at);
        assert(piece(at) == proto::message_field(7, pruned));
        lemma_pruned_graph_stays(graph);
        proto::law_message_field_round_trip(7, pruned);
        assert forall|i: int| 0 <= i < fields.len() implies message::is_one_field(
            #[trigger] piece(i),
        ) && proto::field_at(piece(i), 0)->Ok_0.number == fields[i].number && proto::field_at(
            piece(i),
            0,
        )->Ok_0.wire_type == fields[i].wire_type by {
            if i != at {
                message::lemma_raw_field_says(bytes, i);
            }
        }
        message::lemma_joined_fields_stand(fields.len(), piece);
        message::law_replacing_a_field(bytes, at, 7, pruned);
        let others = proto::proto_fields(model)->Ok_0;
        assert forall|i: int| 0 <= i < fields.len() implies (#[trigger] fields[i]).number
            == others[i].number && fields[i].wire_type == others[i].wire_type by {
            assert(message::is_one_field(piece(i)));
            assert(others[i].raw(model) == piece(i));
        }
        lemma_alike_fields(fields, others, fields.len() as int, 0, 7);
        assert(graph_place(others) == GraphPlace::At(place));
        assert(others[at].payload(model) == pruned) by {
            assert(proto::models_of(model, others)[at] == proto::message_model(7, pruned));
        }
        let again = message::replacing(model, others, at, 7, pruned);
        let raw = |i: int| others[i].raw(model);
        assert forall|i: int| 0 <= i < others.len() implies #[trigger] again(i) == raw(i) by {
            assert(others[i].raw(model) == piece(i));
        }
        message::lemma_joined_equal(others.len(), again, raw);
        message::law_fields_join_to_the_message(model, others.len());
        proto::law_fields_tile_the_message(model, 0);
        assert(model.subrange(0, model.len() as int) =~= model);
    }
}

} // verus!
