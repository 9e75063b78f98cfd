//! Reading a graph's nodes, and telling the resize node that may be replaced.

use crate::onnx::constants::{RESIZE_IDENTITY_NODE_NAME, RESIZE_OP_TYPE, SRC_INPUT};
use crate::onnx::message;
use crate::onnx::message::read_first_text;
use crate::onnx::proto;
use crate::onnx::proto::{parse_proto_fields, read_proto_string, ProtoError, ProtoField};
use crate::onnx::reason::{PatchError, ResizeAttribute, SkipReason};
use crate::text::{some_text_is, text_is};
use vstd::prelude::*;
use vstd::utf8::*;

verus! {

/// What is read of a node.
#[derive(Debug)]
pub struct NodeInfo {
    pub inputs: Vec<String>,
    pub outputs: Vec<String>,
    pub name: Option<String>,
    pub op_type: Option<String>,
    pub domain: Option<String>,
    pub attribute_names: Vec<String>,
}

/// What a node says.
#[verifier::ext_equal]
pub struct NodeModel {
    pub inputs: Seq<Seq<char>>,
    pub outputs: Seq<Seq<char>>,
    pub name: Option<Seq<char>>,
    pub op_type: Option<Seq<char>>,
    pub domain: Option<Seq<char>>,
    pub attribute_names: Seq<Seq<char>>,
}

impl View for NodeInfo {
    type V = NodeModel;

    open spec fn view(&self) -> NodeModel {
        NodeModel {
            inputs: self.inputs.deep_view(),
            outputs: self.outputs.deep_view(),
            name: self.name.deep_view(),
            op_type: self.op_type.deep_view(),
            domain: self.domain.deep_view(),
            attribute_names: self.attribute_names.deep_view(),
        }
    }
}

/// A node of which nothing has been read.
pub open spec fn empty_node() -> NodeModel {
    NodeModel {
        inputs: Seq::empty(),
        outputs: Seq::empty(),
        name: None,
        op_type: None,
        domain: None,
        attribute_names: Seq::empty(),
    }
}

/// A node with one more field read.
pub open spec fn with_node_field(node: NodeModel, bytes: Seq<u8>, field: ProtoField) -> Result<
    NodeModel,
    PatchError,
> {
    let text = proto::field_text(bytes, field);
    if field.number == 1 || field.number == 2 || field.number == 3 || field.number == 4
        || field.number == 7 {
        match text {
            Err(error) => Err(PatchError::Inside(error)),
            Ok(text) => Ok(
                if field.number == 1 {
                    NodeModel { inputs: node.inputs.push(text), ..node }
                } else if field.number == 2 {
                    NodeModel { outputs: node.outputs.push(text), ..node }
                } else if field.number == 3 {
                    NodeModel { name: Some(text), ..node }
                } else if field.number == 4 {
                    NodeModel { op_type: Some(text), ..node }
                } else {
                    NodeModel { domain: Some(text), ..node }
                },
            ),
        }
    } else if field.number == 5 {
        if field.wire_type != 2 {
            Err(PatchError::AttributeNotLengthDelimited)
        } else {
            match message::first_text(field.payload(bytes), 1) {
                Err(error) => Err(PatchError::Inside(error)),
                Ok(None) => Ok(node),
                Ok(Some(name)) => Ok(
                    NodeModel { attribute_names: node.attribute_names.push(name), ..node },
                ),
            }
        }
    } else {
        Ok(node)
    }
}

/// What the first `count` fields of a node say.
pub open spec fn node_fields(bytes: Seq<u8>, fields: Seq<ProtoField>, count: int) -> Result<
    NodeModel,
    PatchError,
>
    decreases count,
{
    if count <= 0 {
        Ok(empty_node())
    } else {
        match node_fields(bytes, fields, count - 1) {
            Err(error) => Err(error),
            Ok(node) => with_node_field(node, bytes, fields[count - 1]),
        }
    }
}

/// What a node says.
pub open spec fn node_model(bytes: Seq<u8>) -> Result<NodeModel, PatchError> {
    match proto::proto_fields(bytes) {
        Err(error) => Err(PatchError::Inside(error)),
        Ok(fields) => node_fields(bytes, fields, fields.len() as int),
    }
}

proof fn lemma_node_error_stays(
    bytes: Seq<u8>,
    fields: Seq<ProtoField>,
    count: int,
    all: int,
)
    requires
        count <= all,
        node_fields(bytes, fields, count) is Err,
    ensures
        node_fields(bytes, fields, all) == node_fields(bytes, fields, count),
    decreases all - count,
{
    if count < all {
        lemma_node_error_stays(bytes, fields, count, all - 1);
    }
}

/// Reads the name of a node's attribute.
pub fn read_attribute_name(attribute_bytes: &[u8]) -> (result: Result<Option<String>, ProtoError>)
    ensures
        match (result, message::first_text(attribute_bytes@, 1)) {
            (Ok(name), Ok(expected)) => name.deep_view() == expected,
            (Err(error), Err(expected)) => error == expected,
            _ => false,
        },
{
    read_first_text(attribute_bytes, 1)
}

/// Reads the name of a graph input or output.
pub fn value_info_name(value_info_bytes: &[u8]) -> (result: Result<Option<String>, ProtoError>)
    ensures
        match (result, message::first_text(value_info_bytes@, 1)) {
            (Ok(name), Ok(expected)) => name.deep_view() == expected,
            (Err(error), Err(expected)) => error == expected,
            _ => false,
        },
{
    read_first_text(value_info_bytes, 1)
}

/// Reads the name of a tensor that a graph holds.
pub fn tensor_initializer_name(tensor_bytes: &[u8]) -> (result: Result<Option<String>, ProtoError>)
    ensures
        match (result, message::first_text(tensor_bytes@, 8)) {
            (Ok(name), Ok(expected)) => name.deep_view() == expected,
            (Err(error), Err(expected)) => error == expected,
            _ => false,
        },
{
    read_first_text(tensor_bytes, 8)
}

/// Reads a node.
pub fn read_node_info(node_bytes: &[u8]) -> (result: Result<NodeInfo, PatchError>)
    ensures
        match (result, node_model(node_bytes@)) {
            (Ok(node), Ok(expected)) => node@ == expected,
            (Err(error), Err(expected)) => error == expected,
            _ => false,
        },
{
    let fields = match parse_proto_fields(node_bytes) {
        Ok(fields) => fields,
        Err(error) => return Err(PatchError::Inside(error)),
    };
    let mut info = NodeInfo {
        inputs: Vec::new(),
        outputs: Vec::new(),
        name: None,
        op_type: None,
        domain: None,
        attribute_names: Vec::new(),
    };
    assert(info@ =~= empty_node());
    let mut at: usize = 0;
    while at < fields.len()
        invariant
            at <= fields@.len(),
            proto::proto_fields(node_bytes@) == Ok::<Seq<ProtoField>, ProtoError>(fields@),
            proto::tiles(fields@, 0, node_bytes@.len()),
            node_fields(node_bytes@, fields@, at as int) == Ok::<NodeModel, PatchError>(info@),
        decreases fields@.len() - at,
    {
        let field = fields[at];
        assert(field.within(node_bytes@.len()));
        proof {
            if node_fields(node_bytes@, fields@, at + 1) is Err {
                lemma_node_error_stays(node_bytes@, fields@, at + 1, fields@.len() as int);
            }
        }
        let ghost before = info@;
        let number: u32 = field.number;
        if number == 1 || number == 2 || number == 3 || number == 4 || number == 7 {
            match read_proto_string(node_bytes, field) {
                Err(error) => return Err(PatchError::Inside(error)),
                Ok(text) => {
                    if number == 1 {
                        info.inputs.push(text);
                        assert(info@.inputs =~= before.inputs.push(text@));
                    } else if number == 2 {
                        info.outputs.push(text);
                        assert(info@.outputs =~= before.outputs.push(text@));
                    } else if number == 3 {
                        info.name = Some(text);
                    } else if number == 4 {
                        info.op_type = Some(text);
                    } else {
                        info.domain = Some(text);
                    }
                },
            }
        } else if number == 5 {
            if field.wire_type != 2 {
                return Err(PatchError::AttributeNotLengthDelimited);
            }
            match read_attribute_name(&node_bytes[field.data_start..field.data_end]) {
                Err(error) => return Err(PatchError::Inside(error)),
                Ok(None) => {},
                Ok(Some(name)) => {
                    info.attribute_names.push(name);
                    assert(info@.attribute_names =~= before.attribute_names.push(name@));
                },
            }
        }
        at = at + 1;
    }
    Ok(info)
}

/// What a node is to the identity patch.
pub enum ResizeNodeInspection {
    NotResize3,
    Valid { output: String, dead_inputs: Vec<String> },
    Invalid(SkipReason<String>),
}

/// What a node is to the identity patch, in words.
pub enum Inspection {
    NotResize3,
    Valid { kept: Seq<char>, dead: Seq<Seq<char>> },
    Invalid(SkipReason<Seq<char>>),
}

impl View for ResizeNodeInspection {
    type V = Inspection;

    open spec fn view(&self) -> Inspection {
        match *self {
            ResizeNodeInspection::NotResize3 => Inspection::NotResize3,
            ResizeNodeInspection::Valid { output, dead_inputs } => {
                Inspection::Valid { kept: output@, dead: dead_inputs.deep_view() }
            },
            ResizeNodeInspection::Invalid(reason) => Inspection::Invalid(reason@),
        }
    }
}

/// The first expected attribute that a node lacks.
pub open spec fn missing_attribute(names: Seq<Seq<char>>) -> Option<ResizeAttribute> {
    if !names.contains(ResizeAttribute::CoordinateTransformationMode.spec_name()) {
        Some(ResizeAttribute::CoordinateTransformationMode)
    } else if !names.contains(ResizeAttribute::Mode.spec_name()) {
        Some(ResizeAttribute::Mode)
    } else if !names.contains(ResizeAttribute::NearestMode.spec_name()) {
        Some(ResizeAttribute::NearestMode)
    } else {
        None
    }
}

/// A node is replaced if it is the resize node by name and looks exactly as
/// expected; its inputs behind the first are then no longer needed by it.
pub open spec fn inspection(node: NodeModel) -> Inspection {
    let first = if node.inputs.len() > 0 {
        Some(node.inputs[0])
    } else {
        None
    };
    if node.name != Some(RESIZE_IDENTITY_NODE_NAME@) {
        Inspection::NotResize3
    } else if node.op_type != Some(RESIZE_OP_TYPE@) {
        Inspection::Invalid(SkipReason::UnexpectedOpType { op_type: node.op_type })
    } else if node.domain matches Some(domain) && domain.len() > 0 {
        Inspection::Invalid(SkipReason::NonDefaultDomain { domain: node.domain })
    } else if node.inputs.len() < 3 {
        Inspection::Invalid(SkipReason::TooFewInputs { inputs: node.inputs.len() as usize })
    } else if first != Some(SRC_INPUT@) {
        Inspection::Invalid(SkipReason::UnexpectedFirstInput { first })
    } else if node.outputs.len() != 1 {
        Inspection::Invalid(SkipReason::WrongOutputCount { outputs: node.outputs.len() as usize })
    } else {
        match missing_attribute(node.attribute_names) {
            Some(attribute) => Inspection::Invalid(SkipReason::MissingAttribute { attribute }),
            None => Inspection::Valid { kept: node.outputs[0], dead: node.inputs.drop_first() },
        }
    }
}

/// Whether a text occurs among others.
pub fn contains_text(texts: &Vec<String>, wanted: &str) -> (found: bool)
    ensures
        found == texts.deep_view().contains(wanted@),
{
    let mut at: usize = 0;
    while at < texts.len()
        invariant
            at <= texts@.len(),
            forall|i: int| 0 <= i < at ==> (#[trigger] texts.deep_view()[i]) != wanted@,
        decreases texts@.len() - at,
    {
        if text_is(&texts[at], wanted) {
            assert(texts.deep_view()[at as int] == wanted@);
            return true;
        }
        at = at + 1;
    }
    false
}

fn find_missing_attribute(names: &Vec<String>) -> (missing: Option<ResizeAttribute>)
    ensures
        missing == missing_attribute(names.deep_view()),
{
    if !contains_text(names, ResizeAttribute::CoordinateTransformationMode.name()) {
        return Some(ResizeAttribute::CoordinateTransformationMode);
    }
    if !contains_text(names, ResizeAttribute::Mode.name()) {
        return Some(ResizeAttribute::Mode);
    }
    if !contains_text(names, ResizeAttribute::NearestMode.name()) {
        return Some(ResizeAttribute::NearestMode);
    }
    None
}

/// Tells whether a node is the resize node that can be replaced.
pub fn inspect_resize_3_node(info: &NodeInfo) -> (result: ResizeNodeInspection)
    ensures
        result@ == inspection(info@),
{
    if !some_text_is(&info.name, RESIZE_IDENTITY_NODE_NAME) {
        return ResizeNodeInspection::NotResize3;
    }
    if !some_text_is(&info.op_type, RESIZE_OP_TYPE) {
        return ResizeNodeInspection::Invalid(
            SkipReason::UnexpectedOpType { op_type: info.op_type.clone() },
        );
    }
    let foreign = match &info.domain {
        Some(domain) => !text_is(domain, ""),
        None => false,
    };
    proof {
        reveal_strlit("");
        if let Some(domain) = &info.domain {
            assert(domain@ == ""@ <==> domain@.len() == 0) by {
                assert(domain@.len() == 0 ==> domain@ =~= ""@);
            }
        }
    }
    if foreign {
        return ResizeNodeInspection::Invalid(
            SkipReason::NonDefaultDomain { domain: info.domain.clone() },
        );
    }
    if info.inputs.len() < 3 {
        return ResizeNodeInspection::Invalid(
            SkipReason::TooFewInputs { inputs: info.inputs.len() },
        );
    }
    assert(info@.inputs[0] == info.inputs@[0]@);
    if !text_is(&info.inputs[0], SRC_INPUT) {
        return ResizeNodeInspection::Invalid(
            SkipReason::UnexpectedFirstInput { first: Some(info.inputs[0].clone()) },
        );
    }
    if info.outputs.len() != 1 {
        return ResizeNodeInspection::Invalid(
            SkipReason::WrongOutputCount { outputs: info.outputs.len() },
        );
    }
    assert(info@.outputs[0] == info.outputs@[0]@);
    match find_missing_attribute(&info.attribute_names) {
        Some(attribute) => ResizeNodeInspection::Invalid(
            SkipReason::MissingAttribute { attribute },
        ),
        None => {
            let mut dead_inputs: Vec<String> = Vec::new();
            let mut at: usize = 1;
            while at < info.inputs.len()
                invariant
                    1 <= at <= info.inputs@.len(),
                    dead_inputs.deep_view() == info@.inputs.subrange(1, at as int),
                decreases info.inputs@.len() - at,
            {
                let ghost before = dead_inputs.deep_view();
                dead_inputs.push(info.inputs[at].clone());
                assert(dead_inputs.deep_view() =~= before.push(info@.inputs[at as int]));
                assert(before.push(info@.inputs[at as int]) =~= info@.inputs.subrange(1, at + 1));
                at = at + 1;
            }
            assert(info@.inputs.drop_first() =~= info@.inputs.subrange(1, at as int));
            ResizeNodeInspection::Valid { output: info.outputs[0].clone(), dead_inputs }
        },
    }
}

/// The texts of fields of a number, in their order.
pub open spec fn texts_of(bytes: Seq<u8>, fields: Seq<ProtoField>, number: u32) -> Seq<Seq<char>>
    decreases fields.len(),
{
    if fields.len() == 0 {
        Seq::empty()
    } else {
        let rest = texts_of(bytes, fields.drop_last(), number);
        if fields.last().number == number {
            rest.push(decode_utf8(fields.last().payload(bytes)))
        } else {
            rest
        }
    }
}

/// The text of the last field of a number, if there is one.
pub open spec fn last_text_of(bytes: Seq<u8>, fields: Seq<ProtoField>, number: u32) -> Option<
    Seq<char>,
> {
    let texts = texts_of(bytes, fields, number);
    if texts.len() == 0 {
        None
    } else {
        Some(texts.last())
    }
}

/// A node that can be read has the texts of its fields: the first number has the inputs and the
/// second the outputs, in their order, and the third, the fourth and the seventh have the name, the
/// operation and the domain, the last of each if there are several.
pub proof fn law_nodes_say_their_fields(bytes: Seq<u8>, fields: Seq<ProtoField>, count: int)
    requires
        0 <= count <= fields.len(),
        node_fields(bytes, fields, count) is Ok,
    ensures
        ({
            let model = node_fields(bytes, fields, count)->Ok_0;
            let read = fields.take(count);
            &&& model.inputs == texts_of(bytes, read, 1)
            &&& model.outputs == texts_of(bytes, read, 2)
            &&& model.name == last_text_of(bytes, read, 3)
            &&& model.op_type == last_text_of(bytes, read, 4)
            &&& model.domain == last_text_of(bytes, read, 7)
        }),
    decreases count,
{
    if count > 0 {
        law_nodes_say_their_fields(bytes, fields, count - 1);
        assert(fields.take(count).drop_last() =~= fields.take(count - 1));
        assert(fields.take(count).last() == fields[count - 1]);
    } else {
        assert(fields.take(0) =~= Seq::empty());
    }
}

/// A field of a node can be read: a text that is one, or an attribute that is a message with a name
/// that can be read. Other fields are not looked into.
pub open spec fn is_readable_field(bytes: Seq<u8>, field: ProtoField) -> bool {
    &&& (field.number == 1 || field.number == 2 || field.number == 3 || field.number == 4
        || field.number == 7) ==> field.wire_type == 2 && valid_utf8(field.payload(bytes))
    &&& field.number == 5 ==> field.wire_type == 2 && message::first_text(
        field.payload(bytes),
        1,
    ) is Ok
}

/// A node can be read exactly if each of its fields can.
pub proof fn law_nodes_are_read_if_their_fields_are(
    bytes: Seq<u8>,
    fields: Seq<ProtoField>,
    count: int,
)
    requires
        0 <= count <= fields.len(),
    ensures
        node_fields(bytes, fields, count) is Ok <==> forall|i: int|
            0 <= i < count ==> is_readable_field(bytes, #[trigger] fields[i]),
    decreases count,
{
    if count > 0 {
        law_nodes_are_read_if_their_fields_are(bytes, fields, count - 1);
        if node_fields(bytes, fields, count) is Ok {
            assert forall|i: int| 0 <= i < count implies is_readable_field(
                bytes,
                #[trigger] fields[i],
            ) by {
                if i == count - 1 {
                    assert(node_fields(bytes, fields, count - 1) is Ok);
                }
            }
        } else if forall|i: int|
            0 <= i < count ==> is_readable_field(bytes, #[trigger] fields[i]) {
            assert(is_readable_field(bytes, fields[count - 1]));
        }
    }
}

} // verus!
