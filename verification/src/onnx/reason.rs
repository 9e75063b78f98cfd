//! Why a model was not patched, and what is told about it.

use crate::onnx::constants::{
    RESIZE_IDENTITY_INITIALIZER, RESIZE_IDENTITY_NODE_NAME, RESIZE_OP_TYPE, SRC_INPUT,
};
use crate::onnx::proto::ProtoError;
use crate::text;
use crate::text::decimal_text;
use vstd::prelude::*;
use vstd::string::*;

verus! {

/// Why a model could not be patched at all.
#[derive(Debug, Clone, Copy, PartialEq, Eq, Structural)]
pub enum PatchError {
    /// The model's own fields could not be read.
    Model(ProtoError),
    /// The graph's fields could not be read.
    Graph(ProtoError),
    /// Something inside the graph could not be read.
    Inside(ProtoError),
    /// A node's attribute is not a message.
    AttributeNotLengthDelimited,
}

/// An attribute that the resize node has to carry.
#[derive(Debug, Clone, Copy, PartialEq, Eq, Structural)]
pub enum ResizeAttribute {
    CoordinateTransformationMode,
    Mode,
    NearestMode,
}

impl ResizeAttribute {
    pub open spec fn spec_name(self) -> Seq<char> {
        match self {
            ResizeAttribute::CoordinateTransformationMode => "coordinate_transformation_mode"@,
            ResizeAttribute::Mode => "mode"@,
            ResizeAttribute::NearestMode => "nearest_mode"@,
        }
    }

    pub fn name(self) -> (name: &'static str)
        ensures
            name@ == self.spec_name(),
    {
        match self {
            ResizeAttribute::CoordinateTransformationMode => "coordinate_transformation_mode",
            ResizeAttribute::Mode => "mode",
            ResizeAttribute::NearestMode => "nearest_mode",
        }
    }
}

/// Why a patch was left out, with texts of type `S`.
#[derive(Debug)]
pub enum SkipReason<S> {
    GraphMissing,
    MultipleGraphs,
    SrcInputMissing,
    SrcTypeMissing,
    SrcShapeUnpatchable,
    ElementTypeUnavailable,
    UnsupportedElementType { element_type: u64 },
    InitializerExists,
    NodeMissing,
    MultipleNodes,
    UnexpectedOpType { op_type: Option<S> },
    NonDefaultDomain { domain: Option<S> },
    TooFewInputs { inputs: usize },
    UnexpectedFirstInput { first: Option<S> },
    WrongOutputCount { outputs: usize },
    MissingAttribute { attribute: ResizeAttribute },
}

impl View for SkipReason<String> {
    type V = SkipReason<Seq<char>>;

    open spec fn view(&self) -> SkipReason<Seq<char>> {
        match *self {
            SkipReason::GraphMissing => SkipReason::GraphMissing,
            SkipReason::MultipleGraphs => SkipReason::MultipleGraphs,
            SkipReason::SrcInputMissing => SkipReason::SrcInputMissing,
            SkipReason::SrcTypeMissing => SkipReason::SrcTypeMissing,
            SkipReason::SrcShapeUnpatchable => SkipReason::SrcShapeUnpatchable,
            SkipReason::ElementTypeUnavailable => SkipReason::ElementTypeUnavailable,
            SkipReason::UnsupportedElementType { element_type } => {
                SkipReason::UnsupportedElementType { element_type }
            },
            SkipReason::InitializerExists => SkipReason::InitializerExists,
            SkipReason::NodeMissing => SkipReason::NodeMissing,
            SkipReason::MultipleNodes => SkipReason::MultipleNodes,
            SkipReason::UnexpectedOpType { op_type } => {
                SkipReason::UnexpectedOpType { op_type: op_type.deep_view() }
            },
            SkipReason::NonDefaultDomain { domain } => {
                SkipReason::NonDefaultDomain { domain: domain.deep_view() }
            },
            SkipReason::TooFewInputs { inputs } => SkipReason::TooFewInputs { inputs },
            SkipReason::UnexpectedFirstInput { first } => {
                SkipReason::UnexpectedFirstInput { first: first.deep_view() }
            },
            SkipReason::WrongOutputCount { outputs } => SkipReason::WrongOutputCount { outputs },
            SkipReason::MissingAttribute { attribute } => {
                SkipReason::MissingAttribute { attribute }
            },
        }
    }
}

/// What `{:?}` writes of a text that may be missing.
pub uninterp spec fn debug_text(value: Option<Seq<char>>) -> Seq<char>;

/// Writes a text that may be missing as `std::fmt::Debug` does. What that
/// looks like, quotes and escapes included, depends on the text alone.
#[verifier::external_body]
fn write_debug(value: &Option<String>) -> (text: String)
    ensures
        text@ == debug_text(value.deep_view()),
{
    format!("{:?}", value)
}

/// The sentence for a reason.
pub open spec fn skip_text(reason: SkipReason<Seq<char>>) -> Seq<char> {
    match reason {
        SkipReason::GraphMissing => "ONNX ModelProto graph field was not found"@,
        SkipReason::MultipleGraphs => "ONNX ModelProto had multiple graph fields"@,
        SkipReason::SrcInputMissing => "src graph input was not found"@,
        SkipReason::SrcTypeMissing => "src ValueInfoProto did not contain a tensor type"@,
        SkipReason::SrcShapeUnpatchable => {
            "src TypeProto did not contain a patchable tensor shape"@
        },
        SkipReason::ElementTypeUnavailable => {
            "src element type was not available for arithmetic identity initializer"@
        },
        SkipReason::UnsupportedElementType { element_type } => {
            "unsupported src tensor element type "@ + text::decimal(element_type as nat)
                + " for arithmetic identity patch"@
        },
        SkipReason::InitializerExists => {
            "initializer "@ + RESIZE_IDENTITY_INITIALIZER@ + " already exists"@
        },
        SkipReason::NodeMissing => RESIZE_IDENTITY_NODE_NAME@ + " node was not found"@,
        SkipReason::MultipleNodes => "found multiple "@ + RESIZE_IDENTITY_NODE_NAME@ + " nodes"@,
        SkipReason::UnexpectedOpType { op_type } => {
            RESIZE_IDENTITY_NODE_NAME@ + " op_type was "@ + debug_text(op_type) + ", expected "@
                + RESIZE_OP_TYPE@
        },
        SkipReason::NonDefaultDomain { domain } => {
            RESIZE_IDENTITY_NODE_NAME@ + " used non-default ONNX domain "@ + debug_text(domain)
        },
        SkipReason::TooFewInputs { inputs } => {
            RESIZE_IDENTITY_NODE_NAME@ + " had "@ + text::decimal(inputs as nat)
                + " inputs, expected at least 3"@
        },
        SkipReason::UnexpectedFirstInput { first } => {
            RESIZE_IDENTITY_NODE_NAME@ + " first input was "@ + debug_text(first) + ", expected "@
                + SRC_INPUT@
        },
        SkipReason::WrongOutputCount { outputs } => {
            RESIZE_IDENTITY_NODE_NAME@ + " had "@ + text::decimal(outputs as nat)
                + " outputs, expected 1"@
        },
        SkipReason::MissingAttribute { attribute } => {
            RESIZE_IDENTITY_NODE_NAME@ + " was missing expected Resize attribute "@
                + attribute.spec_name()
        },
    }
}

/// Three texts, one behind the other.
fn concat3(first: &str, second: &str, third: &str) -> (text: String)
    ensures
        text@ == first@ + second@ + third@,
{
    let mut text = first.to_owned();
    text.append(second);
    text.append(third);
    text
}

impl SkipReason<String> {
    /// The sentence for this reason.
    pub fn text(&self) -> (text: String)
        ensures
            text@ == skip_text(self@),
    {
        match self {
            SkipReason::GraphMissing => "ONNX ModelProto graph field was not found".to_owned(),
            SkipReason::MultipleGraphs => "ONNX ModelProto had multiple graph fields".to_owned(),
            SkipReason::SrcInputMissing => "src graph input was not found".to_owned(),
            SkipReason::SrcTypeMissing => {
                "src ValueInfoProto did not contain a tensor type".to_owned()
            },
            SkipReason::SrcShapeUnpatchable => {
                "src TypeProto did not contain a patchable tensor shape".to_owned()
            },
            SkipReason::ElementTypeUnavailable => {
                "src element type was not available for arithmetic identity initializer".to_owned()
            },
            SkipReason::UnsupportedElementType { element_type } => {
                let number = decimal_text(*element_type);
                concat3(
                    "unsupported src tensor element type ",
                    number.as_str(),
                    " for arithmetic identity patch",
                )
            },
            SkipReason::InitializerExists => {
                concat3("initializer ", RESIZE_IDENTITY_INITIALIZER, " already exists")
            },
            SkipReason::NodeMissing => {
                let mut text = RESIZE_IDENTITY_NODE_NAME.to_owned();
                text.append(" node was not found");
                text
            },
            SkipReason::MultipleNodes => {
                concat3("found multiple ", RESIZE_IDENTITY_NODE_NAME, " nodes")
            },
            SkipReason::UnexpectedOpType { op_type } => {
                let found = write_debug(op_type);
                let mut text = concat3(RESIZE_IDENTITY_NODE_NAME, " op_type was ", found.as_str());
                text.append(", expected ");
                text.append(RESIZE_OP_TYPE);
                text
            },
            SkipReason::NonDefaultDomain { domain } => {
                let found = write_debug(domain);
                concat3(
                    RESIZE_IDENTITY_NODE_NAME,
                    " used non-default ONNX domain ",
                    found.as_str(),
                )
            },
            SkipReason::TooFewInputs { inputs } => {
                let number = decimal_text(*inputs as u64);
                let mut text = concat3(RESIZE_IDENTITY_NODE_NAME, " had ", number.as_str());
                text.append(" inputs, expected at least 3");
                text
            },
            SkipReason::UnexpectedFirstInput { first } => {
                let found = write_debug(first);
                let mut text = concat3(
                    RESIZE_IDENTITY_NODE_NAME,
                    " first input was ",
                    found.as_str(),
                );
                text.append(", expected ");
                text.append(SRC_INPUT);
                text
            },
            SkipReason::WrongOutputCount { outputs } => {
                let number = decimal_text(*outputs as u64);
                let mut text = concat3(RESIZE_IDENTITY_NODE_NAME, " had ", number.as_str());
                text.append(" outputs, expected 1");
                text
            },
            SkipReason::MissingAttribute { attribute } => {
                concat3(
                    RESIZE_IDENTITY_NODE_NAME,
                    " was missing expected Resize attribute ",
                    (*attribute).name(),
                )
            },
        }
    }
}

} // verus!
