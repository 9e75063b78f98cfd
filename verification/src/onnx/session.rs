//! What a session for the matting model has to offer, and when one is built.

use crate::onnx::constants::{
    DOWNSAMPLE_RATIO_INPUT, PHA_OUTPUT, R1_INPUT, R1_OUTPUT, R2_INPUT, R2_OUTPUT, R3_INPUT,
    R3_OUTPUT, R4_INPUT, R4_OUTPUT, SRC_INPUT,
};
use crate::frame;
use vstd::prelude::*;
use vstd::string::*;

verus! {

/// What a tensor is made of.
#[derive(Debug, Clone, Copy, PartialEq, Eq, Structural)]
pub enum ElementType {
    Float16,
    Float32,
    Other,
}

/// An input or an output of a model. One that is no tensor has no element type.
#[derive(Debug)]
pub struct Port {
    pub name: String,
    pub element_type: Option<ElementType>,
}

/// The number format that a model computes in.
#[derive(Debug, Clone, Copy, PartialEq, Eq, Structural)]
pub enum RvmPrecision {
    Float16,
    Float32,
}

/// Why a model does not fit.
#[derive(Debug, Clone, Copy, PartialEq, Eq, Structural)]
pub enum SessionError<S> {
    MissingInput(S),
    InputNotTensor(S),
    MissingOutput(S),
    OutputNotTensor(S),
    RatioNotFloat32,
    SourceNotFloat,
    InputSizeOverflow,
}

/// The first port of a name.
pub open spec fn first_named(ports: Seq<Port>, name: Seq<char>) -> Option<Port>
    decreases ports.len(),
{
    if ports.len() == 0 {
        None
    } else if ports[0].name@ == name {
        Some(ports[0])
    } else {
        first_named(ports.drop_first(), name)
    }
}

/// Why a lookup did not find a tensor.
#[derive(Debug, Clone, Copy, PartialEq, Eq, Structural)]
pub enum LookupError {
    Missing,
    NotTensor,
}

/// The element type of the first port of a name.
pub open spec fn named_type(ports: Seq<Port>, name: Seq<char>) -> Result<ElementType, LookupError> {
    match first_named(ports, name) {
        None => Err(LookupError::Missing),
        Some(port) => match port.element_type {
            Some(element_type) => Ok(element_type),
            None => Err(LookupError::NotTensor),
        },
    }
}

/// Finds the element type of the first port of a name.
pub fn tensor_type(ports: &[Port], name: &str) -> (result: Result<ElementType, LookupError>)
    ensures
        result == named_type(ports@, name@),
{
    let wanted: String = name.to_owned();
    let mut at: usize = 0;
    assert(ports@.skip(0) =~= ports@);
    while at < ports.len()
        invariant
            at <= ports@.len(),
            wanted@ == name@,
            first_named(ports@, name@) == first_named(ports@.skip(at as int), name@),
        decreases ports@.len() - at,
    {
        assert(ports@.skip(at as int).drop_first() =~= ports@.skip(at + 1));
        if ports[at].name == wanted {
            return match ports[at].element_type {
                Some(element_type) => Ok(element_type),
                None => Err(LookupError::NotTensor),
            };
        }
        at = at + 1;
    }
    Err(LookupError::Missing)
}

/// The inputs that a model has in any case.
pub open spec fn needed_inputs() -> Seq<&'static str> {
    seq![SRC_INPUT, R1_INPUT, R2_INPUT, R3_INPUT, R4_INPUT]
}

/// The outputs that a model has.
pub open spec fn needed_outputs() -> Seq<&'static str> {
    seq![PHA_OUTPUT, R1_OUTPUT, R2_OUTPUT, R3_OUTPUT, R4_OUTPUT]
}

/// The first of some names that is no tensor among the ports.
pub open spec fn first_unfit(ports: Seq<Port>, names: Seq<&'static str>) -> Option<
    (Seq<char>, LookupError),
>
    decreases names.len(),
{
    if names.len() == 0 {
        None
    } else {
        match named_type(ports, names[0]@) {
            Err(error) => Some((names[0]@, error)),
            Ok(_) => first_unfit(ports, names.drop_first()),
        }
    }
}

fn find_unfit(ports: &[Port], names: &[&'static str]) -> (unfit: Option<(&'static str, LookupError)>)
    ensures
        match (unfit, first_unfit(ports@, names@)) {
            (Some((name, error)), Some((expected, why))) => name@ == expected && error == why,
            (None, None) => true,
            _ => false,
        },
{
    let mut at: usize = 0;
    assert(names@.skip(0) =~= names@);
    while at < names.len()
        invariant
            at <= names@.len(),
            first_unfit(ports@, names@) == first_unfit(ports@, names@.skip(at as int)),
        decreases names@.len() - at,
    {
        assert(names@.skip(at as int).drop_first() =~= names@.skip(at + 1));
        if let Err(error) = tensor_type(ports, names[at]) {
            return Some((names[at], error));
        }
        at = at + 1;
    }
    None
}

/// What a model lacks: inputs come before outputs, and whether the ratio is a
/// 32-bit number is asked last.
pub open spec fn io_check(inputs: Seq<Port>, outputs: Seq<Port>, uses_ratio: bool) -> Option<
    SessionError<Seq<char>>,
> {
    let wanted = if uses_ratio {
        needed_inputs().push(DOWNSAMPLE_RATIO_INPUT)
    } else {
        needed_inputs()
    };
    match first_unfit(inputs, wanted) {
        Some((name, LookupError::Missing)) => Some(SessionError::MissingInput(name)),
        Some((name, LookupError::NotTensor)) => Some(SessionError::InputNotTensor(name)),
        None => match first_unfit(outputs, needed_outputs()) {
            Some((name, LookupError::Missing)) => Some(SessionError::MissingOutput(name)),
            Some((name, LookupError::NotTensor)) => Some(SessionError::OutputNotTensor(name)),
            None => if uses_ratio && named_type(inputs, DOWNSAMPLE_RATIO_INPUT@) != Ok::<
                ElementType,
                LookupError,
            >(ElementType::Float32) {
                Some(SessionError::RatioNotFloat32)
            } else {
                None
            },
        },
    }
}

impl SessionError<&'static str> {
    /// The error with its name as plain text.
    pub open spec fn text_view(self) -> SessionError<Seq<char>> {
        match self {
            SessionError::MissingInput(name) => SessionError::MissingInput(name@),
            SessionError::InputNotTensor(name) => SessionError::InputNotTensor(name@),
            SessionError::MissingOutput(name) => SessionError::MissingOutput(name@),
            SessionError::OutputNotTensor(name) => SessionError::OutputNotTensor(name@),
            SessionError::RatioNotFloat32 => SessionError::RatioNotFloat32,
            SessionError::SourceNotFloat => SessionError::SourceNotFloat,
            SessionError::InputSizeOverflow => SessionError::InputSizeOverflow,
        }
    }
}

/// Checks that a model has the inputs and outputs of the matting model.
pub fn validate_io_names(inputs: &[Port], outputs: &[Port], uses_ratio: bool) -> (result: Result<
    (),
    SessionError<&'static str>,
>)
    ensures
        match (result, io_check(inputs@, outputs@, uses_ratio)) {
            (Ok(_), None) => true,
            (Err(error), Some(expected)) => error.text_view() == expected,
            _ => false,
        },
{
    let mut wanted: Vec<&'static str> = Vec::new();
    wanted.push(SRC_INPUT);
    wanted.push(R1_INPUT);
    wanted.push(R2_INPUT);
    wanted.push(R3_INPUT);
    wanted.push(R4_INPUT);
    assert(wanted@ =~= needed_inputs());
    if uses_ratio {
        wanted.push(DOWNSAMPLE_RATIO_INPUT);
    }
    match find_unfit(inputs, wanted.as_slice()) {
        Some((name, LookupError::Missing)) => return Err(SessionError::MissingInput(name)),
        Some((name, LookupError::NotTensor)) => return Err(SessionError::InputNotTensor(name)),
        None => {},
    }
    let mut given: Vec<&'static str> = Vec::new();
    given.push(PHA_OUTPUT);
    given.push(R1_OUTPUT);
    given.push(R2_OUTPUT);
    given.push(R3_OUTPUT);
    given.push(R4_OUTPUT);
    assert(given@ =~= needed_outputs());
    match find_unfit(outputs, given.as_slice()) {
        Some((name, LookupError::Missing)) => return Err(SessionError::MissingOutput(name)),
        Some((name, LookupError::NotTensor)) => return Err(SessionError::OutputNotTensor(name)),
        None => {},
    }
    if uses_ratio {
        match tensor_type(inputs, DOWNSAMPLE_RATIO_INPUT) {
            Ok(ElementType::Float32) => {},
            _ => return Err(SessionError::RatioNotFloat32),
        }
    }
    Ok(())
}

/// Tells in which number format a model computes, by its picture input.
pub fn model_precision(inputs: &[Port]) -> (result: Result<
    RvmPrecision,
    SessionError<&'static str>,
>)
    ensures
        match (result, named_type(inputs@, SRC_INPUT@)) {
            (Ok(precision), Ok(ElementType::Float16)) => precision == RvmPrecision::Float16,
            (Ok(precision), Ok(ElementType::Float32)) => precision == RvmPrecision::Float32,
            (Err(error), Ok(ElementType::Other)) => error.text_view()
                == SessionError::<Seq<char>>::SourceNotFloat,
            (Err(error), Err(LookupError::Missing)) => error.text_view()
                == SessionError::MissingInput(SRC_INPUT@),
            (Err(error), Err(LookupError::NotTensor)) => error.text_view()
                == SessionError::InputNotTensor(SRC_INPUT@),
            _ => false,
        },
{
    match tensor_type(inputs, SRC_INPUT) {
        Ok(ElementType::Float16) => Ok(RvmPrecision::Float16),
        Ok(ElementType::Float32) => Ok(RvmPrecision::Float32),
        Ok(ElementType::Other) => Err(SessionError::SourceNotFloat),
        Err(LookupError::Missing) => Err(SessionError::MissingInput(SRC_INPUT)),
        Err(LookupError::NotTensor) => Err(SessionError::InputNotTensor(SRC_INPUT)),
    }
}

/// A model that passed has every tensor that it is going to be asked for, and
/// its ratio, where it takes one, is a 32-bit number.
pub proof fn law_checked_models_have_their_tensors(
    inputs: Seq<Port>,
    outputs: Seq<Port>,
    uses_ratio: bool,
)
    requires
        io_check(inputs, outputs, uses_ratio) is None,
    ensures
        forall|i: int|
            0 <= i < needed_inputs().len() ==> named_type(
                inputs,
                (#[trigger] needed_inputs()[i])@,
            ) is Ok,
        forall|i: int|
            0 <= i < needed_outputs().len() ==> named_type(
                outputs,
                (#[trigger] needed_outputs()[i])@,
            ) is Ok,
        uses_ratio ==> named_type(inputs, DOWNSAMPLE_RATIO_INPUT@) == Ok::<ElementType, LookupError>(
            ElementType::Float32,
        ),
{
    let wanted = if uses_ratio {
        needed_inputs().push(DOWNSAMPLE_RATIO_INPUT)
    } else {
        needed_inputs()
    };
    lemma_none_unfit(inputs, wanted);
    lemma_none_unfit(outputs, needed_outputs());
    assert forall|i: int| 0 <= i < needed_inputs().len() implies named_type(
        inputs,
        (#[trigger] needed_inputs()[i])@,
    ) is Ok by {
        assert(wanted[i] == needed_inputs()[i]);
    }
}

proof fn lemma_none_unfit(ports: Seq<Port>, names: Seq<&'static str>)
    requires
        first_unfit(ports, names) is None,
    ensures
        forall|i: int| 0 <= i < names.len() ==> named_type(ports, (#[trigger] names[i])@) is Ok,
    decreases names.len(),
{
    if names.len() > 0 {
        lemma_none_unfit(ports, names.drop_first());
        assert forall|i: int| 0 <= i < names.len() implies named_type(
            ports,
            (#[trigger] names[i])@,
        ) is Ok by {
            if i > 0 {
                assert(names.drop_first()[i - 1] == names[i]);
            }
        }
    }
}

/// How many numbers a picture has as a model's input: three for each pixel.
pub fn input_len(width: u32, height: u32) -> (result: Result<usize, SessionError<&'static str>>)
    ensures
        match result {
            Ok(len) => len == width * height * 3,
            Err(error) => width * height * 3 > usize::MAX && error.text_view() == SessionError::<
                Seq<char>,
            >::InputSizeOverflow,
        },
{
    proof {
        frame::lemma_u32_product(width, height);
    }
    let pixels: usize = match (width as usize).checked_mul(height as usize) {
        Some(pixels) => pixels,
        None => return Err(SessionError::InputSizeOverflow),
    };
    match pixels.checked_mul(3) {
        Some(len) => Ok(len),
        None => Err(SessionError::InputSizeOverflow),
    }
}

/// Whether a session serves a frame.
#[derive(Debug, Clone, Copy, PartialEq, Eq, Structural)]
pub enum SessionStep {
    Ready,
    Initialize,
    /// It was built for frames of this other size.
    Mismatch { width: u32, height: u32 },
}

/// Decides what a frame of a size needs of the session.
pub fn session_step(built_for: Option<(u32, u32)>, width: u32, height: u32) -> (step: SessionStep)
    ensures
        step == (match built_for {
            None => SessionStep::Initialize,
            Some(size) => if size.0 == width && size.1 == height {
                SessionStep::Ready
            } else {
                SessionStep::Mismatch { width: size.0, height: size.1 }
            },
        }),
{
    match built_for {
        None => SessionStep::Initialize,
        Some((built_width, built_height)) => {
            if built_width != width || built_height != height {
                return SessionStep::Mismatch { width: built_width, height: built_height };
            }
            SessionStep::Ready
        },
    }
}

/// What follows an attempt to build a session.
#[derive(Debug, Clone, Copy, PartialEq, Eq, Structural)]
pub enum BuildStep {
    Keep,
    /// Try once more with the identity patch alone.
    Retry,
    Fail,
}

/// Decides what follows an attempt to build a session. Only the first attempt is
/// followed by another, and only for a ratio near one.
pub fn after_build(built: bool, first_attempt: bool, near_one: bool) -> (step: BuildStep)
    ensures
        step == (if built {
            BuildStep::Keep
        } else if first_attempt && near_one {
            BuildStep::Retry
        } else {
            BuildStep::Fail
        }),
{
    if built {
        BuildStep::Keep
    } else if first_attempt && near_one {
        BuildStep::Retry
    } else {
        BuildStep::Fail
    }
}

/// The first port of a name is found, and it says what a tensor of that name is made of.
pub proof fn law_the_first_port_of_a_name_counts(ports: Seq<Port>, name: Seq<char>, at: int)
    requires
        0 <= at < ports.len(),
        ports[at].name@ == name,
        forall|i: int| 0 <= i < at ==> (#[trigger] ports[i]).name@ != name,
    ensures
        named_type(ports, name) == (match ports[at].element_type {
            Some(element_type) => Ok::<ElementType, LookupError>(element_type),
            None => Err::<ElementType, LookupError>(LookupError::NotTensor),
        }),
    decreases ports.len(),
{
    if at > 0 {
        let rest = ports.drop_first();
        assert(ports[0].name@ != name);
        assert forall|i: int| 0 <= i < at - 1 implies (#[trigger] rest[i]).name@ != name by {
            assert(rest[i] == ports[i + 1]);
        }
        law_the_first_port_of_a_name_counts(rest, name, at - 1);
    }
}

/// A name that no port has is missing.
pub proof fn law_names_without_a_port_are_missing(ports: Seq<Port>, name: Seq<char>)
    requires
        forall|i: int| 0 <= i < ports.len() ==> (#[trigger] ports[i]).name@ != name,
    ensures
        named_type(ports, name) == Err::<ElementType, LookupError>(LookupError::Missing),
    decreases ports.len(),
{
    if ports.len() > 0 {
        let rest = ports.drop_first();
        assert(ports[0].name@ != name);
        assert forall|i: int| 0 <= i < rest.len() implies (#[trigger] rest[i]).name@ != name by {
            assert(rest[i] == ports[i + 1]);
        }
        law_names_without_a_port_are_missing(rest, name);
    }
}

/// A model fits exactly if its picture and its four states come in as tensors, its alpha and
/// its four states come out as tensors, and the ratio, where it takes one, is a 32-bit number.
pub proof fn law_models_fit_by_their_tensors(
    inputs: Seq<Port>,
    outputs: Seq<Port>,
    uses_ratio: bool,
)
    ensures
        io_check(inputs, outputs, uses_ratio) is None <==> {
            &&& named_type(inputs, "src"@) is Ok
            &&& named_type(inputs, "r1i"@) is Ok
            &&& named_type(inputs, "r2i"@) is Ok
            &&& named_type(inputs, "r3i"@) is Ok
            &&& named_type(inputs, "r4i"@) is Ok
            &&& named_type(outputs, "pha"@) is Ok
            &&& named_type(outputs, "r1o"@) is Ok
            &&& named_type(outputs, "r2o"@) is Ok
            &&& named_type(outputs, "r3o"@) is Ok
            &&& named_type(outputs, "r4o"@) is Ok
            &&& uses_ratio ==> named_type(inputs, "downsample_ratio"@) == Ok::<
                ElementType,
                LookupError,
            >(ElementType::Float32)
        },
{
    let needed = needed_inputs();
    let wanted = if uses_ratio {
        needed.push(DOWNSAMPLE_RATIO_INPUT)
    } else {
        needed
    };
    lemma_unfit_exactly(inputs, wanted);
    lemma_unfit_exactly(outputs, needed_outputs());
    assert(wanted[0] == SRC_INPUT && wanted[1] == R1_INPUT && wanted[2] == R2_INPUT && wanted[3]
        == R3_INPUT && wanted[4] == R4_INPUT);
    assert(uses_ratio ==> wanted[5] == DOWNSAMPLE_RATIO_INPUT);
    let given = needed_outputs();
    assert(given[0] == PHA_OUTPUT && given[1] == R1_OUTPUT && given[2] == R2_OUTPUT && given[3]
        == R3_OUTPUT && given[4] == R4_OUTPUT);
}

proof fn lemma_unfit_exactly(ports: Seq<Port>, names: Seq<&'static str>)
    ensures
        first_unfit(ports, names) is None <==> forall|i: int|
            0 <= i < names.len() ==> named_type(ports, (#[trigger] names[i])@) is Ok,
    decreases names.len(),
{
    if first_unfit(ports, names) is None {
        lemma_none_unfit(ports, names);
    } else {
        let rest = names.drop_first();
        if named_type(ports, names[0]@) is Ok {
            lemma_unfit_exactly(ports, rest);
            let i = choose|i: int|
                0 <= i < rest.len() && !(named_type(ports, (#[trigger] rest[i])@) is Ok);
            assert(names[i + 1] == rest[i]);
        }
    }
}

} // verus!
