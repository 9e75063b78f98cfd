//! What is loaded in place of a model file, and what is told about it.

use crate::onnx::constants::RESIZE_IDENTITY_NODE_NAME;
use crate::onnx::dimensions;
use crate::onnx::dimensions::{patch_src_input_dimensions, SizedMessage};
use crate::onnx::graph;
use crate::onnx::graph::prune_graph_value_info;
use crate::onnx::identity;
use crate::onnx::identity::{patch_resize_3_to_identity, Identity, IdentityPatchResult};
use crate::onnx::reason;
use crate::onnx::reason::{PatchError, SkipReason};
use crate::text;
use crate::text::decimal_text;
use vstd::prelude::*;
use vstd::string::*;

verus! {

/// What is loaded: the file as it is, or these bytes.
pub enum PreparedModelSource {
    OriginalFile,
    Bytes(Vec<u8>),
}

/// The downsample ratio that the model is fed.
#[derive(Debug, Clone, Copy, PartialEq, Eq, Structural)]
pub enum EffectiveRatio {
    /// The one that was asked for.
    Requested,
    /// One exactly.
    One,
}

/// Something to tell about how a model was prepared, with texts of type `S`.
pub enum PatchMessage<S> {
    SourcePatched { width: u32, height: u32 },
    SourceSkipped(SkipReason<S>),
    SourceNotPatched,
    ValueInfoRemoved { removed: usize },
    RatioWithinTolerance,
    IdentityApplied,
    IdentitySkipped(SkipReason<S>),
    RatioOutsideTolerance,
    RetryValueInfoRemoved { pruned: usize },
    RetryIdentityApplied,
}

impl View for PatchMessage<String> {
    type V = PatchMessage<Seq<char>>;

    open spec fn view(&self) -> PatchMessage<Seq<char>> {
        match *self {
            PatchMessage::SourcePatched { width, height } => {
                PatchMessage::SourcePatched { width, height }
            },
            PatchMessage::SourceSkipped(reason) => PatchMessage::SourceSkipped(reason@),
            PatchMessage::SourceNotPatched => PatchMessage::SourceNotPatched,
            PatchMessage::ValueInfoRemoved { removed } => {
                PatchMessage::ValueInfoRemoved { removed }
            },
            PatchMessage::RatioWithinTolerance => PatchMessage::RatioWithinTolerance,
            PatchMessage::IdentityApplied => PatchMessage::IdentityApplied,
            PatchMessage::IdentitySkipped(reason) => PatchMessage::IdentitySkipped(reason@),
            PatchMessage::RatioOutsideTolerance => PatchMessage::RatioOutsideTolerance,
            PatchMessage::RetryValueInfoRemoved { pruned } => {
                PatchMessage::RetryValueInfoRemoved { pruned }
            },
            PatchMessage::RetryIdentityApplied => PatchMessage::RetryIdentityApplied,
        }
    }
}

/// The sentence for a message, given how the requested ratio and the tolerance
/// are written.
pub open spec fn message_text(
    message: PatchMessage<Seq<char>>,
    ratio: Seq<char>,
    tolerance: Seq<char>,
) -> Seq<char> {
    match message {
        PatchMessage::SourcePatched { width, height } => {
            "Patched ONNX src input to fixed dimensions width="@ + text::decimal(width as nat)
                + " height="@ + text::decimal(height as nat)
        },
        PatchMessage::SourceSkipped(reason) => {
            "Skipped ONNX src fixed-dimension patch: "@ + reason::skip_text(reason)
        },
        PatchMessage::SourceNotPatched => {
            "Skipped ONNX src fixed-dimension patch: "@ + "src input was not patched"@
        },
        PatchMessage::ValueInfoRemoved { removed } => {
            "Removed "@ + text::decimal(removed as nat)
                + " ONNX graph value_info entries before session creation"@
        },
        PatchMessage::RatioWithinTolerance => {
            "RVM downsample ratio "@ + ratio + " is within "@ + tolerance
                + " of 1.0; feeding 1.0 and attempting "@ + RESIZE_IDENTITY_NODE_NAME@
                + " identity patch"@
        },
        PatchMessage::IdentityApplied => {
            "Applied ONNX arithmetic identity patch for "@ + RESIZE_IDENTITY_NODE_NAME@
        },
        PatchMessage::IdentitySkipped(reason) => {
            "Skipped ONNX identity patch for "@ + RESIZE_IDENTITY_NODE_NAME@ + ": "@
                + reason::skip_text(reason)
        },
        PatchMessage::RatioOutsideTolerance => {
            "RVM downsample ratio "@ + ratio + " is outside "@ + tolerance
                + " identity tolerance; loading model without "@ + RESIZE_IDENTITY_NODE_NAME@
                + " patch"@
        },
        PatchMessage::RetryValueInfoRemoved { pruned } => {
            "Removed "@ + text::decimal(pruned as nat)
                + " ONNX graph value_info entries for identity-patch retry"@
        },
        PatchMessage::RetryIdentityApplied => {
            "Applied ONNX arithmetic identity patch for "@ + RESIZE_IDENTITY_NODE_NAME@
                + " on retry"@
        },
    }
}

impl PatchMessage<String> {
    /// The sentence for this message.
    pub fn text(&self, ratio: &str, tolerance: &str) -> (text: String)
        ensures
            text@ == message_text(self@, ratio@, tolerance@),
    {
        match self {
            PatchMessage::SourcePatched { width, height } => {
                let mut text = "Patched ONNX src input to fixed dimensions width=".to_owned();
                let number = decimal_text(*width as u64);
                text.append(number.as_str());
                text.append(" height=");
                let number = decimal_text(*height as u64);
                text.append(number.as_str());
                text
            },
            PatchMessage::SourceSkipped(reason) => {
                let mut text = "Skipped ONNX src fixed-dimension patch: ".to_owned();
                let sentence = reason.text();
                text.append(sentence.as_str());
                text
            },
            PatchMessage::SourceNotPatched => {
                let mut text = "Skipped ONNX src fixed-dimension patch: ".to_owned();
                text.append("src input was not patched");
                text
            },
            PatchMessage::ValueInfoRemoved { removed } => {
                let mut text = "Removed ".to_owned();
                let number = decimal_text(*removed as u64);
                text.append(number.as_str());
                text.append(" ONNX graph value_info entries before session creation");
                text
            },
            PatchMessage::RatioWithinTolerance => {
                let mut text = "RVM downsample ratio ".to_owned();
                text.append(ratio);
                text.append(" is within ");
                text.append(tolerance);
                text.append(" of 1.0; feeding 1.0 and attempting ");
                text.append(RESIZE_IDENTITY_NODE_NAME);
                text.append(" identity patch");
                text
            },
            PatchMessage::IdentityApplied => {
                let mut text = "Applied ONNX arithmetic identity patch for ".to_owned();
                text.append(RESIZE_IDENTITY_NODE_NAME);
                text
            },
            PatchMessage::IdentitySkipped(reason) => {
                let mut text = "Skipped ONNX identity patch for ".to_owned();
                text.append(RESIZE_IDENTITY_NODE_NAME);
                text.append(": ");
                let sentence = reason.text();
                text.append(sentence.as_str());
                text
            },
            PatchMessage::RatioOutsideTolerance => {
                let mut text = "RVM downsample ratio ".to_owned();
                text.append(ratio);
                text.append(" is outside ");
                text.append(tolerance);
                text.append(" identity tolerance; loading model without ");
                text.append(RESIZE_IDENTITY_NODE_NAME);
                text.append(" patch");
                text
            },
            PatchMessage::RetryValueInfoRemoved { pruned } => {
                let mut text = "Removed ".to_owned();
                let number = decimal_text(*pruned as u64);
                text.append(number.as_str());
                text.append(" ONNX graph value_info entries for identity-patch retry");
                text
            },
            PatchMessage::RetryIdentityApplied => {
                let mut text = "Applied ONNX arithmetic identity patch for ".to_owned();
                text.append(RESIZE_IDENTITY_NODE_NAME);
                text.append(" on retry");
                text
            },
        }
    }
}

/// A model that is ready to load.
pub struct PreparedModel {
    pub source: PreparedModelSource,
    pub uses_downsample_ratio: bool,
    pub effective_downsample_ratio: EffectiveRatio,
    pub src_element_type: Option<u64>,
    pub messages: Vec<PatchMessage<String>>,
}

/// A model that is ready to load; without bytes of its own, the file is loaded.
pub struct Prepared {
    pub bytes: Option<Seq<u8>>,
    pub uses_ratio: bool,
    pub ratio: EffectiveRatio,
    pub element_type: Option<u64>,
    pub messages: Seq<PatchMessage<Seq<char>>>,
}

pub open spec fn message_views(messages: Seq<PatchMessage<String>>) -> Seq<PatchMessage<Seq<char>>> {
    Seq::new(messages.len(), |i: int| messages[i]@)
}

impl View for PreparedModel {
    type V = Prepared;

    open spec fn view(&self) -> Prepared {
        Prepared {
            bytes: match self.source {
                PreparedModelSource::OriginalFile => None,
                PreparedModelSource::Bytes(bytes) => Some(bytes@),
            },
            uses_ratio: self.uses_downsample_ratio,
            ratio: self.effective_downsample_ratio,
            element_type: self.src_element_type,
            messages: message_views(self.messages@),
        }
    }
}

/// What is told about fixing the source input's size.
pub open spec fn source_messages(sized: SizedMessage, width: u32, height: u32) -> Seq<
    PatchMessage<Seq<char>>,
> {
    let first: PatchMessage<Seq<char>> = if sized.applied {
        PatchMessage::SourcePatched { width, height }
    } else {
        match sized.skip_reason {
            Some(reason) => PatchMessage::SourceSkipped(reason),
            None => PatchMessage::SourceNotPatched,
        }
    };
    if sized.removed_value_info > 0 {
        seq![
            first,
            PatchMessage::ValueInfoRemoved { removed: sized.removed_value_info as usize },
        ]
    } else {
        seq![first]
    }
}

/// What is made of a model with the source input's size fixed, and of what replacing the
/// resize node in it comes to, where the ratio is as good as one. If neither changed anything
/// the file is loaded as it is.
pub open spec fn prepared_of(
    sized: SizedMessage,
    patch: Result<Identity, PatchError>,
    width: u32,
    height: u32,
    near_one: bool,
) -> Result<Prepared, PatchError> {
    let messages = source_messages(sized, width, height);
    let sized_bytes = if sized.applied || sized.removed_value_info > 0 {
        Some(sized.bytes)
    } else {
        None
    };
    if near_one {
        let messages = messages.push(PatchMessage::RatioWithinTolerance);
        match patch {
            Err(error) => Err(error),
            Ok(Identity::Applied(patched)) => Ok(
                Prepared {
                    bytes: Some(patched),
                    uses_ratio: false,
                    ratio: EffectiveRatio::One,
                    element_type: sized.element_type,
                    messages: messages.push(PatchMessage::IdentityApplied),
                },
            ),
            Ok(Identity::Skipped(reason)) => Ok(
                Prepared {
                    bytes: sized_bytes,
                    uses_ratio: true,
                    ratio: EffectiveRatio::One,
                    element_type: sized.element_type,
                    messages: messages.push(PatchMessage::IdentitySkipped(reason)),
                },
            ),
        }
    } else {
        Ok(
            Prepared {
                bytes: sized_bytes,
                uses_ratio: true,
                ratio: EffectiveRatio::Requested,
                element_type: sized.element_type,
                messages: messages.push(PatchMessage::RatioOutsideTolerance),
            },
        )
    }
}

/// A model with the source input's size fixed and, where the ratio is as good
/// as one, the resize node replaced.
pub open spec fn prepared_primary(bytes: Seq<u8>, width: u32, height: u32, near_one: bool) -> Result<
    Prepared,
    PatchError,
> {
    match dimensions::sized_model(bytes, width, height) {
        Err(error) => Err(error),
        Ok(sized) => prepared_of(
            sized,
            identity::identity_model(sized.bytes, sized.element_type),
            width,
            height,
            near_one,
        ),
    }
}

fn tell(messages: &mut Vec<PatchMessage<String>>, message: PatchMessage<String>)
    ensures
        message_views(final(messages)@) == message_views(old(messages)@).push(message@),
{
    let ghost before = messages@;
    messages.push(message);
    assert(message_views(messages@) =~= message_views(before).push(message@));
}

/// Prepares a model for frames of one size. `near_one` says whether the
/// requested downsample ratio is within the tolerance of one.
pub fn prepare_primary_model(
    original_model_bytes: &[u8],
    width: u32,
    height: u32,
    near_one: bool,
) -> (result: Result<PreparedModel, PatchError>)
    ensures
        match (result, prepared_primary(original_model_bytes@, width, height, near_one)) {
            (Ok(prepared), Ok(expected)) => prepared@ == expected,
            (Err(error), Err(expected)) => error == expected,
            _ => false,
        },
{
    let source_patch = match patch_src_input_dimensions(original_model_bytes, width, height) {
        Ok(source_patch) => source_patch,
        Err(error) => return Err(error),
    };
    let ghost sized = source_patch@;
    let mut model_bytes = source_patch.bytes;
    let mut changed_model = source_patch.applied || source_patch.removed_value_info > 0;
    let mut uses_downsample_ratio = true;
    let mut effective_downsample_ratio = EffectiveRatio::Requested;
    let mut messages: Vec<PatchMessage<String>> = Vec::new();
    assert(message_views(messages@) =~= Seq::empty());
    if source_patch.applied {
        tell(&mut messages, PatchMessage::SourcePatched { width, height });
    } else {
        match source_patch.skip_reason {
            Some(reason) => tell(&mut messages, PatchMessage::SourceSkipped(reason)),
            None => tell(&mut messages, PatchMessage::SourceNotPatched),
        }
    }
    if source_patch.removed_value_info > 0 {
        tell(
            &mut messages,
            PatchMessage::ValueInfoRemoved { removed: source_patch.removed_value_info },
        );
    }
    assert(message_views(messages@) =~= source_messages(sized, width, height));
    if near_one {
        effective_downsample_ratio = EffectiveRatio::One;
        tell(&mut messages, PatchMessage::RatioWithinTolerance);
        match patch_resize_3_to_identity(&model_bytes, source_patch.src_element_type) {
            Err(error) => return Err(error),
            Ok(IdentityPatchResult::Applied(patched)) => {
                model_bytes = patched;
                changed_model = true;
                uses_downsample_ratio = false;
                tell(&mut messages, PatchMessage::IdentityApplied);
            },
            Ok(IdentityPatchResult::Skipped(reason)) => {
                tell(&mut messages, PatchMessage::IdentitySkipped(reason));
            },
        }
    } else {
        tell(&mut messages, PatchMessage::RatioOutsideTolerance);
    }
    Ok(
        PreparedModel {
            source: if changed_model {
                PreparedModelSource::Bytes(model_bytes)
            } else {
                PreparedModelSource::OriginalFile
            },
            uses_downsample_ratio,
            effective_downsample_ratio,
            src_element_type: source_patch.src_element_type,
            messages,
        },
    )
}

/// Why a model could not be prepared for a second attempt.
pub enum RetryError<S> {
    Patch(PatchError),
    NotPatched(SkipReason<S>),
}

impl View for RetryError<String> {
    type V = RetryError<Seq<char>>;

    open spec fn view(&self) -> RetryError<Seq<char>> {
        match *self {
            RetryError::Patch(error) => RetryError::Patch(error),
            RetryError::NotPatched(reason) => RetryError::NotPatched(reason@),
        }
    }
}

/// A model without its shape annotations and with its resize node replaced.
pub open spec fn prepared_retry(bytes: Seq<u8>, element_type: Option<u64>) -> Result<
    Prepared,
    RetryError<Seq<char>>,
> {
    match graph::pruned_model(bytes) {
        Err(error) => Err(RetryError::Patch(error)),
        Ok((pruned, removed)) => match identity::identity_model(pruned, element_type) {
            Err(error) => Err(RetryError::Patch(error)),
            Ok(Identity::Skipped(reason)) => Err(RetryError::NotPatched(reason)),
            Ok(Identity::Applied(patched)) => Ok(
                Prepared {
                    bytes: Some(patched),
                    uses_ratio: false,
                    ratio: EffectiveRatio::One,
                    element_type,
                    messages: if removed > 0 {
                        seq![
                            PatchMessage::RetryValueInfoRemoved { pruned: removed as usize },
                            PatchMessage::RetryIdentityApplied,
                        ]
                    } else {
                        seq![PatchMessage::RetryIdentityApplied]
                    },
                },
            ),
        },
    }
}

/// Prepares a model for a second attempt, without fixing its source input's
/// size.
pub fn prepare_identity_retry_model(
    original_model_bytes: &[u8],
    src_element_type: Option<u64>,
) -> (result: Result<PreparedModel, RetryError<String>>)
    ensures
        match (result, prepared_retry(original_model_bytes@, src_element_type)) {
            (Ok(prepared), Ok(expected)) => prepared@ == expected,
            (Err(error), Err(expected)) => error@ == expected,
            _ => false,
        },
{
    let prune = match prune_graph_value_info(original_model_bytes) {
        Ok(prune) => prune,
        Err(error) => return Err(RetryError::Patch(error)),
    };
    let mut messages: Vec<PatchMessage<String>> = Vec::new();
    assert(message_views(messages@) =~= Seq::empty());
    if prune.removed_value_info > 0 {
        tell(
            &mut messages,
            PatchMessage::RetryValueInfoRemoved { pruned: prune.removed_value_info },
        );
    }
    match patch_resize_3_to_identity(&prune.model_bytes, src_element_type) {
        Err(error) => Err(RetryError::Patch(error)),
        Ok(IdentityPatchResult::Skipped(reason)) => Err(RetryError::NotPatched(reason)),
        Ok(IdentityPatchResult::Applied(patched)) => {
            tell(&mut messages, PatchMessage::RetryIdentityApplied);
            proof {
                let expected = prepared_retry(original_model_bytes@, src_element_type)->Ok_0;
                assert(message_views(messages@) =~= expected.messages);
            }
            Ok(
                PreparedModel {
                    source: PreparedModelSource::Bytes(patched),
                    uses_downsample_ratio: false,
                    effective_downsample_ratio: EffectiveRatio::One,
                    src_element_type,
                    messages,
                },
            )
        },
    }
}

/// A model that takes no ratio is one that was changed, for a ratio near one, and it
/// runs at one exactly. A file that is loaded as it is takes the ratio.
pub proof fn law_ratio_is_left_out_for_one_only(
    bytes: Seq<u8>,
    width: u32,
    height: u32,
    near_one: bool,
    prepared: Prepared,
)
    requires
        prepared_primary(bytes, width, height, near_one) == Ok::<Prepared, PatchError>(prepared),
    ensures
        prepared.ratio == EffectiveRatio::One <==> near_one,
        !prepared.uses_ratio ==> near_one && prepared.bytes is Some,
        prepared.bytes is None ==> prepared.uses_ratio,
{
}

/// A file is loaded as it is exactly if nothing was changed in it: neither the source input's size
/// nor its shape annotations nor the resize node. A model whose resize node was replaced is loaded
/// with that, and takes no ratio.
pub proof fn law_changed_models_are_loaded(
    sized: SizedMessage,
    patch: Result<Identity, PatchError>,
    width: u32,
    height: u32,
    near_one: bool,
    prepared: Prepared,
)
    requires
        prepared_of(sized, patch, width, height, near_one) == Ok::<Prepared, PatchError>(prepared),
    ensures
        ({
            let replaced = near_one && patch is Ok && patch->Ok_0 is Applied;
            &&& prepared.bytes is None <==> !sized.applied && sized.removed_value_info <= 0
                && !replaced
            &&& replaced ==> prepared.bytes == Some(patch->Ok_0->Applied_0) && !prepared.uses_ratio
            &&& !replaced ==> prepared.uses_ratio && (prepared.bytes is Some ==> prepared.bytes
                == Some(sized.bytes))
        }),
        prepared.element_type == sized.element_type,
{
}

} // verus!
