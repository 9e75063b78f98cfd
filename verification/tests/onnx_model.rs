use segmenter::onnx::constants::{
    ARITHMETIC_IDENTITY_OP_TYPE, DOWNSAMPLE_RATIO_INPUT, ONNX_TENSOR_FLOAT, ONNX_TENSOR_FLOAT16,
    RESIZE_IDENTITY_INITIALIZER, RESIZE_IDENTITY_NODE_NAME, RESIZE_OP_TYPE, SRC_INPUT,
};
use segmenter::onnx::dimensions::{
    dim_value_proto, patch_src_input_dimensions, patch_tensor_shape_dimensions,
};
use segmenter::onnx::graph::prune_graph_value_info;
use segmenter::onnx::identity::{
    encode_identity_initializer, encode_identity_node, patch_resize_3_to_identity,
    IdentityPatchResult,
};
use segmenter::onnx::liveness::dead_producer_node_starts;
use segmenter::onnx::message::replace_field;
use segmenter::onnx::node::{
    inspect_resize_3_node, read_node_info, tensor_initializer_name, value_info_name, NodeInfo,
    ResizeNodeInspection,
};
use segmenter::onnx::prepare::{
    prepare_identity_retry_model, prepare_primary_model, EffectiveRatio, PreparedModelSource,
    RetryError,
};
use segmenter::onnx::proto::{
    encode_length_delimited_field, encode_string_field, encode_varint, encode_varint_field,
    parse_proto_fields, read_proto_string, read_varint, ProtoError,
};
use segmenter::onnx::reason::{PatchError, SkipReason};

#[test]
fn resize_3_patch_rewrites_node_to_identity_and_preserves_output() {
    let model = model_with_node(resize_node(
        RESIZE_IDENTITY_NODE_NAME,
        RESIZE_OP_TYPE,
        "389",
    ));
    let patched = match patch_resize_3_to_identity(&model, Some(ONNX_TENSOR_FLOAT16)).unwrap() {
        IdentityPatchResult::Applied(patched) => patched,
        IdentityPatchResult::Skipped(reason) => panic!("patch skipped: {}", reason.text()),
    };

    let info = only_node_info(&patched);
    assert_eq!(info.name.as_deref(), Some(RESIZE_IDENTITY_NODE_NAME));
    assert_eq!(info.op_type.as_deref(), Some(ARITHMETIC_IDENTITY_OP_TYPE));
    assert_eq!(info.inputs, vec![SRC_INPUT, RESIZE_IDENTITY_INITIALIZER]);
    assert_eq!(info.outputs, vec!["389"]);
    assert!(info.attribute_names.is_empty());
}

#[test]
fn resize_3_patch_skips_when_node_is_not_found() {
    let model = model_with_node(resize_node("Resize_9", RESIZE_OP_TYPE, "389"));

    match patch_resize_3_to_identity(&model, Some(ONNX_TENSOR_FLOAT16)).unwrap() {
        IdentityPatchResult::Applied(_) => panic!("unexpected patch"),
        IdentityPatchResult::Skipped(reason) => {
            assert!(reason.text().contains("Resize_3 node was not found"));
        }
    }
}

#[test]
fn resize_3_patch_skips_when_node_shape_is_unexpected() {
    let model = model_with_node(resize_node(
        RESIZE_IDENTITY_NODE_NAME,
        ARITHMETIC_IDENTITY_OP_TYPE,
        "389",
    ));

    match patch_resize_3_to_identity(&model, Some(ONNX_TENSOR_FLOAT16)).unwrap() {
        IdentityPatchResult::Applied(_) => panic!("unexpected patch"),
        IdentityPatchResult::Skipped(reason) => {
            assert!(reason.text().contains("op_type"));
        }
    }
}

#[test]
fn runtime_patches_static_src_and_remove_dead_resize_scale_chain() {
    let model = model_with_graph(test_graph_with_resize_scale_chain());
    let source_patch = patch_src_input_dimensions(&model, 480, 270).unwrap();

    assert!(source_patch.applied);
    assert_eq!(source_patch.src_element_type, Some(ONNX_TENSOR_FLOAT16));
    assert_eq!(source_patch.removed_value_info, 1);

    let patched = match patch_resize_3_to_identity(
        &source_patch.bytes,
        source_patch.src_element_type,
    )
    .unwrap()
    {
        IdentityPatchResult::Applied(patched) => patched,
        IdentityPatchResult::Skipped(reason) => panic!("patch skipped: {}", reason.text()),
    };

    let graph = only_graph_bytes(&patched);
    let input_names = graph_input_names(graph);
    assert!(input_names.contains(&SRC_INPUT.to_string()));
    assert!(!input_names.contains(&DOWNSAMPLE_RATIO_INPUT.to_string()));

    let nodes = graph_node_infos(graph);
    assert!(!nodes
        .iter()
        .any(|node| node.name.as_deref() == Some("Constant_0")));
    assert!(!nodes
        .iter()
        .any(|node| node.name.as_deref() == Some("Constant_1")));
    assert!(!nodes
        .iter()
        .any(|node| node.name.as_deref() == Some("Concat_2")));
    assert!(nodes.iter().any(|node| {
        node.name.as_deref() == Some(RESIZE_IDENTITY_NODE_NAME)
            && node.op_type.as_deref() == Some(ARITHMETIC_IDENTITY_OP_TYPE)
    }));

    assert!(graph_initializer_names(graph).contains(&RESIZE_IDENTITY_INITIALIZER.to_string()));
}

fn model_with_node(node: Vec<u8>) -> Vec<u8> {
    let mut graph = Vec::new();
    encode_length_delimited_field(1, &node, &mut graph);

    model_with_graph(graph)
}

fn model_with_graph(graph: Vec<u8>) -> Vec<u8> {
    let mut model = Vec::new();
    encode_length_delimited_field(7, &graph, &mut model);
    model
}

fn resize_node(name: &str, op_type: &str, output: &str) -> Vec<u8> {
    let mut node = Vec::new();
    encode_string_field(1, SRC_INPUT, &mut node);
    encode_string_field(1, "386", &mut node);
    encode_string_field(1, "388", &mut node);
    encode_string_field(2, output, &mut node);
    encode_string_field(3, name, &mut node);
    encode_string_field(4, op_type, &mut node);
    for attribute in ["coordinate_transformation_mode", "mode", "nearest_mode"] {
        encode_length_delimited_field(5, &attribute_proto(attribute), &mut node);
    }
    node
}

fn attribute_proto(name: &str) -> Vec<u8> {
    let mut attribute = Vec::new();
    encode_string_field(1, name, &mut attribute);
    attribute
}

fn test_graph_with_resize_scale_chain() -> Vec<u8> {
    let mut graph = Vec::new();
    encode_length_delimited_field(
        1,
        &node("Constant_0", "Constant", &[], &["386"]),
        &mut graph,
    );
    encode_length_delimited_field(
        1,
        &node("Constant_1", "Constant", &[], &["387"]),
        &mut graph,
    );
    encode_length_delimited_field(
        1,
        &node(
            "Concat_2",
            "Concat",
            &["387", DOWNSAMPLE_RATIO_INPUT, DOWNSAMPLE_RATIO_INPUT],
            &["388"],
        ),
        &mut graph,
    );
    encode_length_delimited_field(
        1,
        &resize_node(RESIZE_IDENTITY_NODE_NAME, RESIZE_OP_TYPE, "389"),
        &mut graph,
    );
    encode_length_delimited_field(11, &src_value_info(), &mut graph);
    encode_length_delimited_field(
        11,
        &value_info_with_name(DOWNSAMPLE_RATIO_INPUT),
        &mut graph,
    );
    encode_length_delimited_field(13, &value_info_with_name("stale_value_info"), &mut graph);
    graph
}

fn node(name: &str, op_type: &str, inputs: &[&str], outputs: &[&str]) -> Vec<u8> {
    let mut node = Vec::new();
    for input in inputs {
        encode_string_field(1, input, &mut node);
    }
    for output in outputs {
        encode_string_field(2, output, &mut node);
    }
    encode_string_field(3, name, &mut node);
    encode_string_field(4, op_type, &mut node);
    node
}

fn src_value_info() -> Vec<u8> {
    let mut shape = Vec::new();
    encode_length_delimited_field(1, &dim_value_proto(1), &mut shape);
    encode_length_delimited_field(1, &dim_value_proto(3), &mut shape);
    encode_length_delimited_field(1, &dim_param_proto("height"), &mut shape);
    encode_length_delimited_field(1, &dim_param_proto("width"), &mut shape);

    let mut tensor = Vec::new();
    encode_varint_field(1, ONNX_TENSOR_FLOAT16, &mut tensor);
    encode_length_delimited_field(2, &shape, &mut tensor);

    let mut type_proto = Vec::new();
    encode_length_delimited_field(1, &tensor, &mut type_proto);

    let mut value_info = value_info_with_name(SRC_INPUT);
    encode_length_delimited_field(2, &type_proto, &mut value_info);
    value_info
}

fn dim_param_proto(value: &str) -> Vec<u8> {
    let mut dim = Vec::new();
    encode_string_field(2, value, &mut dim);
    dim
}

fn value_info_with_name(name: &str) -> Vec<u8> {
    let mut value_info = Vec::new();
    encode_string_field(1, name, &mut value_info);
    value_info
}

fn only_node_info(model: &[u8]) -> NodeInfo {
    let graph = only_graph_bytes(model);
    let graph_fields = parse_proto_fields(graph).unwrap();
    let node_field = graph_fields
        .iter()
        .find(|field| field.number == 1 && field.wire_type == 2)
        .unwrap();
    read_node_info(&graph[node_field.data_start..node_field.data_end]).unwrap()
}

fn only_graph_bytes(model: &[u8]) -> &[u8] {
    let model_fields = parse_proto_fields(model).unwrap();
    let graph_field = model_fields
        .iter()
        .find(|field| field.number == 7 && field.wire_type == 2)
        .unwrap();
    &model[graph_field.data_start..graph_field.data_end]
}

fn graph_input_names(graph: &[u8]) -> Vec<String> {
    let graph_fields = parse_proto_fields(graph).unwrap();
    graph_fields
        .iter()
        .filter(|field| field.number == 11 && field.wire_type == 2)
        .filter_map(|field| value_info_name(&graph[field.data_start..field.data_end]).unwrap())
        .collect()
}

fn graph_node_infos(graph: &[u8]) -> Vec<NodeInfo> {
    let graph_fields = parse_proto_fields(graph).unwrap();
    graph_fields
        .iter()
        .filter(|field| field.number == 1 && field.wire_type == 2)
        .map(|field| read_node_info(&graph[field.data_start..field.data_end]).unwrap())
        .collect()
}

fn graph_initializer_names(graph: &[u8]) -> Vec<String> {
    let graph_fields = parse_proto_fields(graph).unwrap();
    graph_fields
        .iter()
        .filter(|field| field.number == 5 && field.wire_type == 2)
        .filter_map(|field| {
            tensor_initializer_name(&graph[field.data_start..field.data_end]).unwrap()
        })
        .collect()
}

#[test]
fn varints_come_back() {
    for value in [0, 1, 127, 128, 300, u32::MAX as u64, u64::MAX] {
        let mut bytes = vec![9];
        encode_varint(value, &mut bytes);
        assert_eq!(read_varint(&bytes, 1), Ok((value, bytes.len())));
    }
    let mut bytes = Vec::new();
    encode_varint(300, &mut bytes);
    assert_eq!(bytes, vec![0xac, 0x02]);
    assert_eq!(read_varint(&[0x80], 0), Err(ProtoError::VarintTruncated));
    assert_eq!(read_varint(&[], 0), Err(ProtoError::VarintTruncated));
    assert_eq!(read_varint(&[0x80; 11], 0), Err(ProtoError::VarintTooLong));
}

#[test]
fn fields_tile_a_message() {
    let mut message = Vec::new();
    encode_varint_field(1, 300, &mut message);
    encode_string_field(2, "name", &mut message);
    message.extend_from_slice(&[(3 << 3) | 1, 1, 2, 3, 4, 5, 6, 7, 8]);
    message.extend_from_slice(&[(4 << 3) | 5, 1, 2, 3, 4]);
    let fields = parse_proto_fields(&message).unwrap();
    let numbers: Vec<(u32, u8)> = fields.iter().map(|f| (f.number, f.wire_type)).collect();
    assert_eq!(numbers, vec![(1, 0), (2, 2), (3, 1), (4, 5)]);
    let mut at = 0;
    for field in &fields {
        assert_eq!(field.start, at);
        at = field.end;
    }
    assert_eq!(at, message.len());
    assert_eq!(read_proto_string(&message, fields[1]), Ok("name".to_string()));
    assert_eq!(&message[fields[2].data_start..fields[2].data_end], [1, 2, 3, 4, 5, 6, 7, 8]);
}

#[test]
fn broken_messages_are_refused() {
    for (bytes, error) in [
        (vec![0x00], ProtoError::ZeroFieldNumber),
        (vec![(1 << 3) | 1, 1, 2], ProtoError::Fixed64ExceedsMessage),
        (vec![(1 << 3) | 5, 1, 2], ProtoError::Fixed32ExceedsMessage),
        (vec![(1 << 3) | 2, 9, 2], ProtoError::LengthExceedsMessage),
        (vec![(1 << 3) | 3], ProtoError::UnsupportedWireType { wire_type: 3 }),
        (vec![0x08], ProtoError::VarintTruncated),
    ] {
        assert_eq!(parse_proto_fields(&bytes), Err(error));
    }
    let mut far = vec![(1 << 3) | 2];
    encode_varint(u64::MAX, &mut far);
    assert_eq!(parse_proto_fields(&far), Err(ProtoError::LengthOffsetOverflow));
    let mut number = Vec::new();
    encode_varint_field(6, 5, &mut number);
    let field = parse_proto_fields(&number).unwrap()[0];
    assert_eq!(
        read_proto_string(&number, field),
        Err(ProtoError::NotLengthDelimited { number: 6 })
    );
    let mut garbled = Vec::new();
    encode_length_delimited_field(6, &[0xff, 0xfe], &mut garbled);
    let field = parse_proto_fields(&garbled).unwrap()[0];
    assert_eq!(
        read_proto_string(&garbled, field),
        Err(ProtoError::InvalidUtf8 { number: 6 })
    );
    let mut umlauts = Vec::new();
    encode_string_field(6, "Größe ✓", &mut umlauts);
    let field = parse_proto_fields(&umlauts).unwrap()[0];
    assert_eq!(read_proto_string(&umlauts, field), Ok("Größe ✓".to_string()));
}

#[test]
fn replacing_a_field_keeps_its_neighbours() {
    let mut message = Vec::new();
    encode_string_field(1, "first", &mut message);
    encode_string_field(2, "second", &mut message);
    encode_string_field(3, "third", &mut message);
    let fields = parse_proto_fields(&message).unwrap();
    let replaced = replace_field(&message, &fields, 1, 2, b"changed and longer");
    let texts: Vec<String> = parse_proto_fields(&replaced)
        .unwrap()
        .iter()
        .map(|field| read_proto_string(&replaced, *field).unwrap())
        .collect();
    assert_eq!(texts, vec!["first", "changed and longer", "third"]);
}

#[test]
fn dimensions_are_written_into_the_shape() {
    let model = model_with_graph(test_graph_with_resize_scale_chain());
    let patched = patch_src_input_dimensions(&model, 480, 270).unwrap();
    assert!(patched.skip_reason.is_none());
    let text: Vec<u8> = patched.bytes;
    let mut expected = Vec::new();
    for value in [1, 3, 270, 480] {
        encode_length_delimited_field(1, &dim_value_proto(value), &mut expected);
    }
    assert!(text.windows(expected.len()).any(|window| window == expected.as_slice()));
    assert!(!text.windows(6).any(|window| window == b"height"));
    assert_eq!(
        patch_tensor_shape_dimensions(&expected, 7, 9).unwrap().unwrap()[..4],
        expected[..4]
    );
    assert_eq!(patch_tensor_shape_dimensions(&[], 7, 9), Ok(None));
}

#[test]
fn models_without_their_parts_are_left_alone() {
    let nothing = patch_src_input_dimensions(&[], 4, 4).unwrap();
    assert!(!nothing.applied);
    assert!(matches!(nothing.skip_reason, Some(SkipReason::GraphMissing)));
    let mut twice = model_with_graph(Vec::new());
    let once = twice.clone();
    twice.extend_from_slice(&once);
    assert!(matches!(
        patch_src_input_dimensions(&twice, 4, 4).unwrap().skip_reason,
        Some(SkipReason::MultipleGraphs)
    ));
    assert!(matches!(
        patch_src_input_dimensions(&once, 4, 4).unwrap().skip_reason,
        Some(SkipReason::SrcInputMissing)
    ));
    assert!(matches!(
        patch_resize_3_to_identity(&once, None).unwrap(),
        IdentityPatchResult::Skipped(SkipReason::ElementTypeUnavailable)
    ));
    assert!(matches!(
        patch_src_input_dimensions(&[0x00], 4, 4),
        Err(PatchError::Model(ProtoError::ZeroFieldNumber))
    ));
    assert!(matches!(
        patch_src_input_dimensions(&model_with_graph(vec![0x00]), 4, 4),
        Err(PatchError::Graph(ProtoError::ZeroFieldNumber))
    ));
}

#[test]
fn a_patched_model_is_not_patched_again() {
    let model = model_with_graph(test_graph_with_resize_scale_chain());
    let patched = match patch_resize_3_to_identity(&model, Some(ONNX_TENSOR_FLOAT)).unwrap() {
        IdentityPatchResult::Applied(patched) => patched,
        IdentityPatchResult::Skipped(reason) => panic!("patch skipped: {}", reason.text()),
    };
    match patch_resize_3_to_identity(&patched, Some(ONNX_TENSOR_FLOAT)).unwrap() {
        IdentityPatchResult::Applied(_) => panic!("patched twice"),
        IdentityPatchResult::Skipped(reason) => {
            assert!(matches!(reason, SkipReason::InitializerExists));
        }
    }
}

#[test]
fn identity_parts_are_encoded() {
    let node = read_node_info(&encode_identity_node("out")).unwrap();
    assert_eq!(node.inputs, vec![SRC_INPUT, RESIZE_IDENTITY_INITIALIZER]);
    assert_eq!(node.outputs, vec!["out"]);
    let single = encode_identity_initializer(ONNX_TENSOR_FLOAT).unwrap();
    assert_eq!(&single[single.len() - 4..], 1.0f32.to_le_bytes());
    let half = encode_identity_initializer(ONNX_TENSOR_FLOAT16).unwrap();
    assert_eq!(&half[half.len() - 2..], [0x00, 0x3c]);
    assert_eq!(
        tensor_initializer_name(&half).unwrap().as_deref(),
        Some(RESIZE_IDENTITY_INITIALIZER)
    );
    assert!(encode_identity_initializer(7).is_none());
}

#[test]
fn nodes_that_do_not_fit_say_why() {
    let bytes = resize_node(RESIZE_IDENTITY_NODE_NAME, RESIZE_OP_TYPE, "389");
    let whole = read_node_info(&bytes).unwrap();
    match inspect_resize_3_node(&whole) {
        ResizeNodeInspection::Valid { output, dead_inputs } => {
            assert_eq!(output, "389");
            assert_eq!(dead_inputs, vec!["386", "388"]);
        }
        _ => panic!("a whole node was refused"),
    }
    for (change, sentence) in [
        (0, "Resize_3 op_type was Some(\"Sum\"), expected Resize"),
        (1, "Resize_3 used non-default ONNX domain Some(\"com.example\")"),
        (2, "Resize_3 had 1 inputs, expected at least 3"),
        (3, "Resize_3 first input was Some(\"x\\\"y\"), expected src"),
        (4, "Resize_3 had 2 outputs, expected 1"),
        (5, "Resize_3 was missing expected Resize attribute mode"),
    ] {
        let mut info = read_node_info(&bytes).unwrap();
        match change {
            0 => info.op_type = Some("Sum".to_string()),
            1 => info.domain = Some("com.example".to_string()),
            2 => info.inputs.truncate(1),
            3 => info.inputs[0] = "x\"y".to_string(),
            4 => info.outputs.push("more".to_string()),
            _ => info.attribute_names.retain(|name| name != "mode"),
        }
        match inspect_resize_3_node(&info) {
            ResizeNodeInspection::Invalid(reason) => assert_eq!(reason.text(), sentence),
            _ => panic!("a broken node was accepted"),
        }
    }
    let other = read_node_info(&node("Sum_1", "Sum", &["a"], &["b"])).unwrap();
    assert!(matches!(inspect_resize_3_node(&other), ResizeNodeInspection::NotResize3));
}

#[test]
fn producers_of_dead_values_are_dead() {
    let graph = test_graph_with_resize_scale_chain();
    let nodes: Vec<_> = parse_proto_fields(&graph)
        .unwrap()
        .into_iter()
        .filter(|field| field.number == 1)
        .map(|field| {
            let info = read_node_info(&graph[field.data_start..field.data_end]).unwrap();
            (field, info)
        })
        .collect();
    let starts: Vec<usize> = nodes.iter().map(|(field, _)| field.start).collect();
    let mut dead = dead_producer_node_starts(&nodes, starts[3], vec!["388".to_string()]);
    dead.sort();
    assert_eq!(dead, vec![starts[1], starts[2]]);
    assert!(dead_producer_node_starts(&nodes, starts[3], Vec::new()).is_empty());
}

#[test]
fn value_info_is_pruned() {
    let model = model_with_graph(test_graph_with_resize_scale_chain());
    let pruned = prune_graph_value_info(&model).unwrap();
    assert_eq!(pruned.removed_value_info, 1);
    let graph = only_graph_bytes(&pruned.model_bytes);
    assert!(parse_proto_fields(graph).unwrap().iter().all(|field| field.number != 13));
    assert_eq!(graph_node_infos(graph).len(), 4);
    let again = prune_graph_value_info(&pruned.model_bytes).unwrap();
    assert_eq!(again.removed_value_info, 0);
    assert_eq!(again.model_bytes, pruned.model_bytes);
}

#[test]
fn models_are_prepared_for_their_ratio() {
    let model = model_with_graph(test_graph_with_resize_scale_chain());
    let near = prepare_primary_model(&model, 480, 270, true).unwrap();
    assert!(matches!(near.source, PreparedModelSource::Bytes(_)));
    assert!(!near.uses_downsample_ratio);
    assert_eq!(near.effective_downsample_ratio, EffectiveRatio::One);
    assert_eq!(near.src_element_type, Some(ONNX_TENSOR_FLOAT16));
    let texts: Vec<String> =
        near.messages.iter().map(|message| message.text("0.999999", "0.00001")).collect();
    assert_eq!(
        texts[0],
        "Patched ONNX src input to fixed dimensions width=480 height=270"
    );
    assert!(texts.iter().any(|text| text
        == "Removed 1 ONNX graph value_info entries before session creation"));
    assert!(texts.iter().any(|text| text.contains("ratio 0.999999 is within 0.00001 of 1.0")));
    assert!(texts
        .iter()
        .any(|text| text == "Applied ONNX arithmetic identity patch for Resize_3"));

    let far = prepare_primary_model(&model, 480, 270, false).unwrap();
    assert!(far.uses_downsample_ratio);
    assert_eq!(far.effective_downsample_ratio, EffectiveRatio::Requested);
    assert!(matches!(far.source, PreparedModelSource::Bytes(_)));

    let empty = prepare_primary_model(&[], 480, 270, false).unwrap();
    assert!(matches!(empty.source, PreparedModelSource::OriginalFile));
    assert!(empty.uses_downsample_ratio);

    let retry = prepare_identity_retry_model(&model, Some(ONNX_TENSOR_FLOAT16));
    match retry {
        Ok(retry) => {
            assert!(!retry.uses_downsample_ratio);
            assert_eq!(retry.effective_downsample_ratio, EffectiveRatio::One);
        }
        Err(_) => panic!("the retry was refused"),
    }
    assert!(matches!(
        prepare_identity_retry_model(&model, None),
        Err(RetryError::NotPatched(SkipReason::ElementTypeUnavailable))
    ));
}
