//! The leaves of the transition tree and of the transaction tree.

use vstd::prelude::*;
use crate::bits::{bits_be, bits_le, push_bits_be, push_bits_le};
use crate::field::Field;

verus! {

/// The number of bits in the encoding of a transition leaf.
pub const TRANSITION_LEAF_BITS: usize = 280;

/// The number of bits in the encoding of a transaction leaf.
pub const TRANSACTION_LEAF_BITS: usize = 280;

/// The variant of a transaction leaf that stands for a deployment.
pub const DEPLOYMENT_LEAF: u8 = 0;

/// The variant of a transaction leaf that stands for an execution.
pub const EXECUTION_LEAF: u8 = 1;

/// A leaf of a transition's tree: one input or output, tagged with its
/// position and kind.
#[derive(Clone, Copy, Debug, PartialEq, Eq, Structural)]
pub struct TransitionLeaf {
    pub version: u8,
    pub index: u8,
    pub variant: u8,
    pub id: Field,
}

/// A leaf of a transaction's tree: one transition, tagged with its position.
#[derive(Clone, Copy, Debug, PartialEq, Eq, Structural)]
pub struct TransactionLeaf {
    pub variant: u8,
    pub index: u16,
    pub id: Field,
}

impl TransitionLeaf {
    /// The leaf as `version || index || variant || id`, each part least
    /// significant bit first.
    pub open spec fn spec_bits_le(self) -> Seq<bool> {
        bits_le(self.version as nat, 8) + bits_le(self.index as nat, 8) + bits_le(
            self.variant as nat,
            8,
        ) + self.id.spec_bits_le()
    }

    /// The leaf as `version || index || variant || id`, each part most
    /// significant bit first.
    pub open spec fn spec_bits_be(self) -> Seq<bool> {
        bits_be(self.version as nat, 8) + bits_be(self.index as nat, 8) + bits_be(
            self.variant as nat,
            8,
        ) + self.id.spec_bits_be()
    }

    /// A leaf of version 0.
    pub fn new(index: u8, variant: u8, id: Field) -> (r: TransitionLeaf)
        ensures
            r == (TransitionLeaf { version: 0, index, variant, id }),
    {
        TransitionLeaf { version: 0, index, variant, id }
    }

    /// The little-endian bits of the leaf.
    pub fn to_bits_le(&self) -> (r: Vec<bool>)
        ensures
            r@ == self.spec_bits_le(),
    {
        let mut out: Vec<bool> = Vec::new();
        push_bits_le(&mut out, self.version as u64, 8);
        push_bits_le(&mut out, self.index as u64, 8);
        push_bits_le(&mut out, self.variant as u64, 8);
        self.id.push_bits_le(&mut out);
        assert(out@ =~= self.spec_bits_le());
        out
    }

    /// The big-endian bits of the leaf.
    pub fn to_bits_be(&self) -> (r: Vec<bool>)
        ensures
            r@ == self.spec_bits_be(),
    {
        let mut out: Vec<bool> = Vec::new();
        push_bits_be(&mut out, self.version as u64, 8);
        push_bits_be(&mut out, self.index as u64, 8);
        push_bits_be(&mut out, self.variant as u64, 8);
        self.id.push_bits_be(&mut out);
        assert(out@ =~= self.spec_bits_be());
        out
    }
}

impl TransactionLeaf {
    /// The leaf as `variant || index || id`, each part least significant
    /// bit first.
    pub open spec fn spec_bits_le(self) -> Seq<bool> {
        bits_le(self.variant as nat, 8) + bits_le(self.index as nat, 16) + self.id.spec_bits_le()
    }

    /// The leaf of the execution of the transition `id` at position `index`.
    pub open spec fn spec_new_execution(index: u16, id: Field) -> TransactionLeaf {
        TransactionLeaf { variant: EXECUTION_LEAF, index, id }
    }

    /// The leaf of the execution of the transition `id` at position `index`.
    pub fn new_execution(index: u16, id: Field) -> (r: TransactionLeaf)
        ensures
            r == TransactionLeaf::spec_new_execution(index, id),
    {
        TransactionLeaf { variant: EXECUTION_LEAF, index, id }
    }

    /// The little-endian bits of the leaf.
    pub fn to_bits_le(&self) -> (r: Vec<bool>)
        ensures
            r@ == self.spec_bits_le(),
    {
        let mut out: Vec<bool> = Vec::new();
        push_bits_le(&mut out, self.variant as u64, 8);
        push_bits_le(&mut out, self.index as u64, 16);
        self.id.push_bits_le(&mut out);
        assert(out@ =~= self.spec_bits_le());
        out
    }
}

} // verus!
