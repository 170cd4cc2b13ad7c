//! The parameters and primitives that a concrete network supplies.

use vstd::prelude::*;
use crate::field::{Field, Group};

verus! {

/// The bit strings that a list of leaves holds.
pub open spec fn leaf_seqs(leaves: Seq<Vec<bool>>) -> Seq<Seq<bool>> {
    Seq::new(leaves.len(), |i: int| leaves[i]@)
}

/// The number of leaves of a Merkle tree of the given depth.
pub open spec fn spec_tree_capacity(depth: u8) -> nat {
    vstd::arithmetic::power2::pow2(depth as nat)
}

/// A network: its genesis constants and its cryptographic primitives.
///
/// Every primitive is a function of its arguments alone. An implementation
/// names that function (`spec_...`) and computes it.
pub trait Network {
    /// The network's identifier.
    spec fn spec_id() -> u16;

    /// The supply at genesis, in microcredits.
    spec fn spec_starting_supply() -> u64;

    /// The coinbase target of the genesis block.
    spec fn spec_genesis_coinbase_target() -> u64;

    /// The proof target of the genesis block.
    spec fn spec_genesis_proof_target() -> u64;

    /// The timestamp of the genesis block.
    spec fn spec_genesis_timestamp() -> i64;

    /// The domain separator of serial numbers.
    spec fn spec_serial_number_domain() -> Field;

    /// The group element multiplied by the cofactor of the curve.
    spec fn spec_mul_by_cofactor(g: Group) -> Group;

    /// The Poseidon hash, of rate 2, of field elements to a scalar.
    spec fn spec_hash_to_scalar_psd2(input: Seq<Field>) -> Field;

    /// The BHP commitment to at most 512 bits under a randomizer.
    spec fn spec_commit_bhp512(bits: Seq<bool>, randomizer: Field) -> Field;

    /// The root of the BHP Merkle tree of the given depth over the leaves.
    spec fn spec_merkle_root_bhp(depth: u8, leaves: Seq<Seq<bool>>) -> Field;

    /// Whether the path leads from the leaf to the root in the BHP Merkle
    /// tree of the given depth.
    spec fn spec_verify_merkle_path_bhp(
        depth: u8,
        leaf_index: u64,
        siblings: Seq<Field>,
        root: Field,
        leaf: Seq<bool>,
    ) -> bool;

    /// The network's identifier.
    fn id() -> (r: u16)
        ensures
            r == Self::spec_id(),
    ;

    /// The supply at genesis, in microcredits.
    fn starting_supply() -> (r: u64)
        ensures
            r == Self::spec_starting_supply(),
    ;

    /// The coinbase target of the genesis block.
    fn genesis_coinbase_target() -> (r: u64)
        ensures
            r == Self::spec_genesis_coinbase_target(),
    ;

    /// The proof target of the genesis block.
    fn genesis_proof_target() -> (r: u64)
        ensures
            r == Self::spec_genesis_proof_target(),
    ;

    /// The timestamp of the genesis block.
    fn genesis_timestamp() -> (r: i64)
        ensures
            r == Self::spec_genesis_timestamp(),
    ;

    /// The domain separator of serial numbers.
    fn serial_number_domain() -> (r: Field)
        ensures
            r == Self::spec_serial_number_domain(),
    ;

    /// Multiplies a group element by the cofactor of the curve.
    fn mul_by_cofactor(g: &Group) -> (r: Group)
        ensures
            r == Self::spec_mul_by_cofactor(*g),
    ;

    /// Hashes field elements to a scalar.
    fn hash_to_scalar_psd2(input: &Vec<Field>) -> (r: Field)
        ensures
            r == Self::spec_hash_to_scalar_psd2(input@),
    ;

    /// Commits to at most 512 bits under a randomizer.
    fn commit_bhp512(bits: &Vec<bool>, randomizer: &Field) -> (r: Field)
        requires
            bits@.len() <= 512,
        ensures
            r == Self::spec_commit_bhp512(bits@, *randomizer),
    ;

    /// Computes the root of the Merkle tree of the given depth over the
    /// leaves, which must not be more than the tree has room for.
    fn merkle_root_bhp(depth: u8, leaves: &Vec<Vec<bool>>) -> (r: Field)
        requires
            leaves@.len() <= spec_tree_capacity(depth),
        ensures
            r == Self::spec_merkle_root_bhp(depth, leaf_seqs(leaves@)),
    ;

    /// Checks that the path leads from the leaf to the root in the Merkle
    /// tree of the given depth.
    fn verify_merkle_path_bhp(
        depth: u8,
        leaf_index: u64,
        siblings: &Vec<Field>,
        root: &Field,
        leaf: &Vec<bool>,
    ) -> (r: bool)
        ensures
            r == Self::spec_verify_merkle_path_bhp(depth, leaf_index, siblings@, *root, leaf@),
    ;
}

} // verus!
