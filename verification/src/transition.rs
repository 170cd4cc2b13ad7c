//! Transitions: the inputs that one function call consumes and the outputs
//! that it produces.

use vstd::prelude::*;
use crate::error::Error;
use crate::field::{Field, Group};
use crate::ident::{Identifier, ProgramID};
use crate::leaf::TransitionLeaf;
use crate::network::{leaf_seqs, Network};
use crate::state_path::TRANSITION_DEPTH;

verus! {

/// An input of a transition, as the ledger sees it.
#[derive(Clone, Copy, Debug, PartialEq, Eq, Structural)]
pub enum Input {
    /// The hash of a constant.
    Constant(Field),
    /// The hash of a public value.
    Public(Field),
    /// The hash of the ciphertext of a private value.
    Private(Field),
    /// The serial number and the tag of a consumed record.
    Record(Field, Field),
    /// The commitment to a record of another program.
    ExternalRecord(Field),
}

/// What the caller knows of an input: for a record, the values that its
/// serial number is derived from.
#[derive(Clone, Copy, Debug, PartialEq, Eq, Structural)]
pub enum InputID {
    /// The hash of a constant.
    Constant(Field),
    /// The hash of a public value.
    Public(Field),
    /// The hash of the ciphertext of a private value.
    Private(Field),
    /// The commitment, gamma, serial number and tag of a consumed record.
    Record(Field, Group, Field, Field),
    /// The commitment to a record of another program.
    ExternalRecord(Field),
}

/// An output of a transition.
#[derive(Clone, Copy, Debug, PartialEq, Eq, Structural)]
pub enum Output {
    /// The hash of a constant.
    Constant(Field),
    /// The hash of a public value.
    Public(Field),
    /// The hash of the ciphertext of a private value.
    Private(Field),
    /// The commitment and the checksum of a produced record.
    Record(Field, Field),
    /// The commitment to a record of another program.
    ExternalRecord(Field),
}

/// The effect of one function call.
#[derive(Clone, Debug, PartialEq, Eq)]
pub struct Transition {
    pub id: Field,
    pub program_id: ProgramID,
    pub function_name: Identifier,
    pub inputs: Vec<Input>,
    pub outputs: Vec<Output>,
}

impl Input {
    /// The number that tags the kind of the input in its leaf.
    pub open spec fn spec_variant(self) -> u8 {
        match self {
            Input::Constant(_) => 0,
            Input::Public(_) => 1,
            Input::Private(_) => 2,
            Input::Record(_, _) => 3,
            Input::ExternalRecord(_) => 4,
        }
    }

    /// The field element that identifies the input: for a record its
    /// serial number.
    pub open spec fn spec_id(self) -> Field {
        match self {
            Input::Constant(id) => id,
            Input::Public(id) => id,
            Input::Private(id) => id,
            Input::Record(serial_number, _) => serial_number,
            Input::ExternalRecord(id) => id,
        }
    }

    /// The leaf of the input at position `index`.
    pub open spec fn spec_transition_leaf(self, index: u8) -> TransitionLeaf {
        TransitionLeaf { version: 0, index, variant: self.spec_variant(), id: self.spec_id() }
    }

    /// The number that tags the kind of the input in its leaf.
    pub fn variant(&self) -> (r: u8)
        ensures
            r == self.spec_variant(),
    {
        match self {
            Input::Constant(_) => 0,
            Input::Public(_) => 1,
            Input::Private(_) => 2,
            Input::Record(_, _) => 3,
            Input::ExternalRecord(_) => 4,
        }
    }

    /// The field element that identifies the input.
    pub fn id(&self) -> (r: Field)
        ensures
            r == self.spec_id(),
    {
        match self {
            Input::Constant(id) => *id,
            Input::Public(id) => *id,
            Input::Private(id) => *id,
            Input::Record(serial_number, _) => *serial_number,
            Input::ExternalRecord(id) => *id,
        }
    }

    /// The leaf of the input at position `index`.
    pub fn to_transition_leaf(&self, index: u8) -> (r: TransitionLeaf)
        ensures
            r == self.spec_transition_leaf(index),
    {
        TransitionLeaf::new(index, self.variant(), self.id())
    }
}

impl Output {
    /// The number that tags the kind of the output in its leaf.
    pub open spec fn spec_variant(self) -> u8 {
        match self {
            Output::Constant(_) => 0,
            Output::Public(_) => 1,
            Output::Private(_) => 2,
            Output::Record(_, _) => 3,
            Output::ExternalRecord(_) => 4,
        }
    }

    /// The field element that identifies the output: for a record its
    /// commitment.
    pub open spec fn spec_id(self) -> Field {
        match self {
            Output::Constant(id) => id,
            Output::Public(id) => id,
            Output::Private(id) => id,
            Output::Record(commitment, _) => commitment,
            Output::ExternalRecord(id) => id,
        }
    }

    /// The leaf of the output at position `index`.
    pub open spec fn spec_transition_leaf(self, index: u8) -> TransitionLeaf {
        TransitionLeaf { version: 0, index, variant: self.spec_variant(), id: self.spec_id() }
    }

    /// The number that tags the kind of the output in its leaf.
    pub fn variant(&self) -> (r: u8)
        ensures
            r == self.spec_variant(),
    {
        match self {
            Output::Constant(_) => 0,
            Output::Public(_) => 1,
            Output::Private(_) => 2,
            Output::Record(_, _) => 3,
            Output::ExternalRecord(_) => 4,
        }
    }

    /// The field element that identifies the output.
    pub fn id(&self) -> (r: Field)
        ensures
            r == self.spec_id(),
    {
        match self {
            Output::Constant(id) => *id,
            Output::Public(id) => *id,
            Output::Private(id) => *id,
            Output::Record(commitment, _) => *commitment,
            Output::ExternalRecord(id) => *id,
        }
    }

    /// The leaf of the output at position `index`.
    pub fn to_transition_leaf(&self, index: u8) -> (r: TransitionLeaf)
        ensures
            r == self.spec_transition_leaf(index),
    {
        TransitionLeaf::new(index, self.variant(), self.id())
    }
}

/// The greatest number of inputs and outputs of a transition, together.
pub const MAX_TRANSITION_LEAVES: usize = 16;

/// The leaves of the tree of a transition: its inputs, then its outputs,
/// each tagged with its position among them.
pub open spec fn spec_transition_leaves(inputs: Seq<Input>, outputs: Seq<Output>) -> Seq<Seq<bool>> {
    Seq::new(
        inputs.len() + outputs.len(),
        |i: int|
            if i < inputs.len() {
                inputs[i].spec_transition_leaf((i % 256) as u8).spec_bits_le()
            } else {
                outputs[i - inputs.len()].spec_transition_leaf((i % 256) as u8).spec_bits_le()
            },
    )
}

/// The identifier of the transition with the given inputs and outputs: the
/// root of the tree over its leaves.
pub open spec fn spec_transition_id<N: Network>(inputs: Seq<Input>, outputs: Seq<Output>) -> Field {
    N::spec_merkle_root_bhp(TRANSITION_DEPTH, spec_transition_leaves(inputs, outputs))
}

/// The number of inputs and outputs together, or the greatest number where
/// that is less.
pub open spec fn spec_leaf_count(inputs: Seq<Input>, outputs: Seq<Output>) -> usize {
    if inputs.len() + outputs.len() <= usize::MAX {
        (inputs.len() + outputs.len()) as usize
    } else {
        usize::MAX
    }
}

/// The identifier of the transition with the given inputs and outputs.
/// It fails when they are more than the tree of a transition has leaves.
pub fn transition_id<N: Network>(inputs: &Vec<Input>, outputs: &Vec<Output>) -> (r: Result<
    Field,
    Error,
>)
    ensures
        inputs@.len() + outputs@.len() <= MAX_TRANSITION_LEAVES ==> r == Ok::<Field, Error>(
            spec_transition_id::<N>(inputs@, outputs@),
        ),
        inputs@.len() + outputs@.len() > MAX_TRANSITION_LEAVES ==> r == Err::<Field, Error>(
            Error::TooManyLeaves { found: spec_leaf_count(inputs@, outputs@) },
        ),
{
    let n: usize = inputs.len();
    let m: usize = outputs.len();
    if m > usize::MAX - n {
        return Err(Error::TooManyLeaves { found: usize::MAX });
    }
    if n + m > MAX_TRANSITION_LEAVES {
        return Err(Error::TooManyLeaves { found: n + m });
    }
    let ghost expected = spec_transition_leaves(inputs@, outputs@);
    let mut leaves: Vec<Vec<bool>> = Vec::new();
    let mut i: usize = 0;
    while i < n
        invariant
            i <= n,
            n == inputs@.len(),
            m == outputs@.len(),
            n + m <= MAX_TRANSITION_LEAVES,
            expected == spec_transition_leaves(inputs@, outputs@),
            leaves@.len() == i,
            forall|k: int| 0 <= k < i ==> (#[trigger] leaves@[k])@ == expected[k],
        decreases n - i,
    {
        leaves.push(inputs[i].to_transition_leaf(i as u8).to_bits_le());
        i = i + 1;
    }
    let mut j: usize = 0;
    while j < m
        invariant
            j <= m,
            n == inputs@.len(),
            m == outputs@.len(),
            n + m <= MAX_TRANSITION_LEAVES,
            expected == spec_transition_leaves(inputs@, outputs@),
            leaves@.len() == n + j,
            forall|k: int| 0 <= k < n + j ==> (#[trigger] leaves@[k])@ == expected[k],
        decreases m - j,
    {
        leaves.push(outputs[j].to_transition_leaf((n + j) as u8).to_bits_le());
        j = j + 1;
    }
    proof {
        vstd::arithmetic::power2::lemma2_to64();
        assert(leaf_seqs(leaves@) =~= expected);
    }
    Ok(N::merkle_root_bhp(TRANSITION_DEPTH, &leaves))
}

impl Transition {
    /// The transition with the given inputs and outputs, under the
    /// identifier that they give it. It fails when they are more than the
    /// tree of a transition has leaves.
    pub fn derive<N: Network>(
        program_id: ProgramID,
        function_name: Identifier,
        inputs: Vec<Input>,
        outputs: Vec<Output>,
    ) -> (r: Result<Transition, Error>)
        ensures
            inputs@.len() + outputs@.len() <= MAX_TRANSITION_LEAVES ==> r == Ok::<
                Transition,
                Error,
            >(
                Transition {
                    id: spec_transition_id::<N>(inputs@, outputs@),
                    program_id,
                    function_name,
                    inputs,
                    outputs,
                },
            ),
            inputs@.len() + outputs@.len() > MAX_TRANSITION_LEAVES ==> r == Err::<
                Transition,
                Error,
            >(Error::TooManyLeaves { found: spec_leaf_count(inputs@, outputs@) }),
    {
        match transition_id::<N>(&inputs, &outputs) {
            Ok(id) => Ok(Transition { id, program_id, function_name, inputs, outputs }),
            Err(e) => Err(e),
        }
    }

    /// A transition from its parts.
    pub fn new(
        id: Field,
        program_id: ProgramID,
        function_name: Identifier,
        inputs: Vec<Input>,
        outputs: Vec<Output>,
    ) -> (r: Transition)
        ensures
            r == (Transition { id, program_id, function_name, inputs, outputs }),
    {
        Transition { id, program_id, function_name, inputs, outputs }
    }

    /// The identifier of the transition.
    pub fn id(&self) -> (r: &Field)
        ensures
            *r == self.id,
    {
        &self.id
    }

    /// The inputs, in order.
    pub fn inputs(&self) -> (r: &Vec<Input>)
        ensures
            *r == self.inputs,
    {
        &self.inputs
    }

    /// The outputs, in order.
    pub fn outputs(&self) -> (r: &Vec<Output>)
        ensures
            *r == self.outputs,
    {
        &self.outputs
    }
}

} // verus!
