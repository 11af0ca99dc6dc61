use vstd::prelude::*;

use crate::handle::{InputId, OutputId};

verus! {

/// Closed sum over the two parameter-handle categories, letting a caller
/// hold either while recovering the concrete category when needed.
#[derive(Clone, Copy, PartialEq, Eq, Hash, Debug)]
pub enum AnyParameterId {
    Input(InputId),
    Output(OutputId),
}

impl AnyParameterId {
    /// The input handle held by an `Input` value. Presenting an `Output`
    /// value here is a category error, so the caller must know the variant.
    pub fn assume_input(&self) -> (r: InputId)
        requires
            self is Input,
        ensures
            *self == AnyParameterId::Input(r),
    {
        match self {
            AnyParameterId::Input(input) => *input,
            AnyParameterId::Output(_) => unreached(),
        }
    }

    /// The output handle held by an `Output` value. Presenting an `Input`
    /// value here is a category error, so the caller must know the variant.
    pub fn assume_output(&self) -> (r: OutputId)
        requires
            self is Output,
        ensures
            *self == AnyParameterId::Output(r),
    {
        match self {
            AnyParameterId::Output(output) => *output,
            AnyParameterId::Input(_) => unreached(),
        }
    }
}

impl From<OutputId> for AnyParameterId {
    fn from(output: OutputId) -> (r: Self) {
        AnyParameterId::Output(output)
    }
}

impl vstd::std_specs::convert::FromSpecImpl<OutputId> for AnyParameterId {
    open spec fn obeys_from_spec() -> bool {
        true
    }

    open spec fn from_spec(output: OutputId) -> Self {
        AnyParameterId::Output(output)
    }
}

impl From<InputId> for AnyParameterId {
    fn from(input: InputId) -> (r: Self) {
        AnyParameterId::Input(input)
    }
}

impl vstd::std_specs::convert::FromSpecImpl<InputId> for AnyParameterId {
    open spec fn obeys_from_spec() -> bool {
        true
    }

    open spec fn from_spec(input: InputId) -> Self {
        AnyParameterId::Input(input)
    }
}

/// Wrapping a handle and narrowing back to its category recovers the
/// handle, and a wrapped input handle is never an `Output` value (nor the
/// other way round), so narrowing to the opposite category is ruled out.
pub proof fn lemma_parameter_roundtrip(x: InputId, y: OutputId)
    ensures
        <AnyParameterId as vstd::std_specs::convert::FromSpec<InputId>>::from_spec(x)
            == AnyParameterId::Input(x),
        <AnyParameterId as vstd::std_specs::convert::FromSpec<OutputId>>::from_spec(y)
            == AnyParameterId::Output(y),
        AnyParameterId::Input(x) is Input && !(AnyParameterId::Input(x) is Output),
        AnyParameterId::Output(y) is Output && !(AnyParameterId::Output(y) is Input),
{
}

} // verus!
