//! State paths: the witness that a record's commitment is a leaf of the
//! ledger's state tree, or of the tree of the transaction at hand; and the
//! derivation of serial numbers.

use vstd::prelude::*;
use crate::field::{Field, Group};
use crate::leaf::{TransactionLeaf, TransitionLeaf};
use crate::network::Network;

verus! {

/// The depth of the tree over the inputs and outputs of a transition.
pub const TRANSITION_DEPTH: u8 = 4;

/// The depth of the tree over the transitions of a transaction.
pub const TRANSACTION_DEPTH: u8 = 5;

/// The depth of the path from a transaction to the global state root.
pub const LEDGER_DEPTH: u8 = 32;

/// A path in a Merkle tree: the position of the leaf and the siblings from
/// the leaf up.
#[derive(Debug, PartialEq, Eq)]
pub struct MerklePath {
    pub leaf_index: u64,
    pub siblings: Vec<Field>,
}

/// A Merkle path as a mathematical value.
pub struct MerklePathView {
    pub leaf_index: u64,
    pub siblings: Seq<Field>,
}

/// The path from a transition leaf up: through the transition's tree to the
/// transaction leaf, through the transaction's tree to the transaction ID,
/// and from there through the ledger to the global state root.
#[derive(Debug, PartialEq, Eq)]
pub struct StatePath {
    pub global_state_root: Field,
    pub ledger_path: MerklePath,
    pub transaction_id: Field,
    pub transaction_path: MerklePath,
    pub transaction_leaf: TransactionLeaf,
    pub transition_path: MerklePath,
    pub transition_leaf: TransitionLeaf,
}

/// A state path as a mathematical value.
pub struct StatePathView {
    pub global_state_root: Field,
    pub ledger_path: MerklePathView,
    pub transaction_id: Field,
    pub transaction_path: MerklePathView,
    pub transaction_leaf: TransactionLeaf,
    pub transition_path: MerklePathView,
    pub transition_leaf: TransitionLeaf,
}

/// The serial number of the record with the given commitment under the
/// blinding element `gamma`:
/// `Commit(domain || commitment, Hash(domain, (COFACTOR * gamma).x))`.
pub open spec fn spec_derive_serial_number<N: Network>(commitment: Field, gamma: Group) -> Field {
    N::spec_commit_bhp512(
        N::spec_serial_number_domain().spec_bits_le() + commitment.spec_bits_le(),
        N::spec_hash_to_scalar_psd2(
            seq![N::spec_serial_number_domain(), N::spec_mul_by_cofactor(gamma).x],
        ),
    )
}

/// Derives the serial number of a record from its commitment and the
/// blinding element. The result depends on the two arguments alone.
pub fn derive_serial_number<N: Network>(commitment: &Field, gamma: &Group) -> (r: Field)
    ensures
        r == spec_derive_serial_number::<N>(*commitment, *gamma),
{
    let domain = N::serial_number_domain();
    // Compute the nonce as `Hash(COFACTOR * gamma)`.
    let input = vec![domain, N::mul_by_cofactor(gamma).x];
    assert(input@ =~= seq![N::spec_serial_number_domain(), N::spec_mul_by_cofactor(*gamma).x]);
    let nonce = N::hash_to_scalar_psd2(&input);
    // Compute the serial number as `Commit(commitment, nonce)`.
    let mut bits: Vec<bool> = Vec::new();
    domain.push_bits_le(&mut bits);
    commitment.push_bits_le(&mut bits);
    proof {
        domain.lemma_bits_len();
        commitment.lemma_bits_len();
        assert(bits@ =~= domain.spec_bits_le() + commitment.spec_bits_le());
    }
    N::commit_bhp512(&bits, &nonce)
}

/// Serial numbers are deterministic: the same commitment and blinding
/// element give the same serial number, on every call.
pub proof fn lemma_serial_number_deterministic<N: Network>(
    commitment: Field,
    gamma: Group,
    other_commitment: Field,
    other_gamma: Group,
)
    requires
        commitment == other_commitment,
        gamma == other_gamma,
    ensures
        spec_derive_serial_number::<N>(commitment, gamma) == spec_derive_serial_number::<N>(
            other_commitment,
            other_gamma,
        ),
{
}

/// A boolean as the number 0 or 1.
pub fn bit(b: bool) -> (r: u8)
    ensures
        r == (if b {
            1u8
        } else {
            0u8
        }),
{
    if b {
        1
    } else {
        0
    }
}

/// Selects `a` where `choice` holds and `b` where it does not, as the one
/// arithmetic expression `choice * a + (1 - choice) * b`.
pub fn select(choice: bool, a: bool, b: bool) -> (r: bool)
    ensures
        r == (if choice {
            a
        } else {
            b
        }),
{
    let c: u8 = bit(choice);
    c * bit(a) + (1 - c) * bit(b) == 1
}

impl View for MerklePath {
    type V = MerklePathView;

    open spec fn view(&self) -> MerklePathView {
        MerklePathView { leaf_index: self.leaf_index, siblings: self.siblings@ }
    }
}

impl View for StatePath {
    type V = StatePathView;

    open spec fn view(&self) -> StatePathView {
        StatePathView {
            global_state_root: self.global_state_root,
            ledger_path: self.ledger_path@,
            transaction_id: self.transaction_id,
            transaction_path: self.transaction_path@,
            transaction_leaf: self.transaction_leaf,
            transition_path: self.transition_path@,
            transition_leaf: self.transition_leaf,
        }
    }
}

impl MerklePathView {
    /// Whether the path leads from the leaf to the root in the tree of the
    /// given depth.
    pub open spec fn leads<N: Network>(self, depth: u8, root: Field, leaf: Seq<bool>) -> bool {
        N::spec_verify_merkle_path_bhp(depth, self.leaf_index, self.siblings, root, leaf)
    }
}

impl StatePathView {
    /// Whether the transition leaf is in the transaction: the transition
    /// path leads to the transaction leaf, and the transaction path from
    /// there to the transaction ID.
    pub open spec fn in_transaction<N: Network>(self) -> bool {
        &&& self.transition_path.leads::<N>(
            TRANSITION_DEPTH,
            self.transaction_leaf.id,
            self.transition_leaf.spec_bits_le(),
        )
        &&& self.transaction_path.leads::<N>(
            TRANSACTION_DEPTH,
            self.transaction_id,
            self.transaction_leaf.spec_bits_le(),
        )
    }

    /// Whether the transaction is in the ledger: the ledger path leads from
    /// the transaction ID to the global state root.
    pub open spec fn in_ledger<N: Network>(self) -> bool {
        self.ledger_path.leads::<N>(
            LEDGER_DEPTH,
            self.global_state_root,
            self.transaction_id.spec_bits_le(),
        )
    }

    /// Whether the path verifies against the root that `is_global`
    /// selects: the global state root through the ledger, or else the
    /// local state root, which the transaction ID must then be.
    pub open spec fn verifies<N: Network>(self, is_global: bool, local_state_root: Field) -> bool {
        if is_global {
            self.in_transaction::<N>() && self.in_ledger::<N>()
        } else {
            self.in_transaction::<N>() && self.transaction_id == local_state_root
        }
    }
}

impl MerklePath {
    /// A copy of the path.
    pub fn duplicate(&self) -> (r: MerklePath)
        ensures
            r@ == self@,
    {
        let n: usize = self.siblings.len();
        let mut siblings: Vec<Field> = Vec::new();
        let mut i: usize = 0;
        while i < n
            invariant
                i <= n,
                n == self.siblings@.len(),
                siblings@ == self.siblings@.take(i as int),
            decreases n - i,
        {
            siblings.push(self.siblings[i]);
            assert(siblings@ =~= self.siblings@.take(i + 1));
            i = i + 1;
        }
        assert(siblings@ =~= self.siblings@);
        MerklePath { leaf_index: self.leaf_index, siblings }
    }

    /// Whether the path leads from the leaf to the root in the tree of the
    /// given depth.
    pub fn verify<N: Network>(&self, depth: u8, root: &Field, leaf: &Vec<bool>) -> (r: bool)
        ensures
            r == self@.leads::<N>(depth, *root, leaf@),
    {
        N::verify_merkle_path_bhp(depth, self.leaf_index, &self.siblings, root, leaf)
    }
}

impl StatePath {
    /// A copy of the state path.
    pub fn duplicate(&self) -> (r: StatePath)
        ensures
            r@ == self@,
    {
        StatePath {
            global_state_root: self.global_state_root,
            ledger_path: self.ledger_path.duplicate(),
            transaction_id: self.transaction_id,
            transaction_path: self.transaction_path.duplicate(),
            transaction_leaf: self.transaction_leaf,
            transition_path: self.transition_path.duplicate(),
            transition_leaf: self.transition_leaf,
        }
    }

    /// The leaf that the path starts from.
    pub fn transition_leaf(&self) -> (r: &TransitionLeaf)
        ensures
            *r == self@.transition_leaf,
    {
        &self.transition_leaf
    }

    /// The global state root that the path claims.
    pub fn global_state_root(&self) -> (r: Field)
        ensures
            r == self@.global_state_root,
    {
        self.global_state_root
    }

    /// Whether the path verifies against the root that `is_global`
    /// selects. Both roots are checked whatever `is_global` is, and the
    /// flag selects between the two results.
    pub fn verify<N: Network>(&self, is_global: bool, local_state_root: &Field) -> (r: bool)
        ensures
            r == self@.verifies::<N>(is_global, *local_state_root),
    {
        let transition_bits = self.transition_leaf.to_bits_le();
        let transaction_bits = self.transaction_leaf.to_bits_le();
        let id_bits = self.transaction_id.to_bits_le();
        let check_transition = self.transition_path.verify::<N>(
            TRANSITION_DEPTH,
            &self.transaction_leaf.id,
            &transition_bits,
        );
        let check_transaction = self.transaction_path.verify::<N>(
            TRANSACTION_DEPTH,
            &self.transaction_id,
            &transaction_bits,
        );
        let check_ledger = self.ledger_path.verify::<N>(
            LEDGER_DEPTH,
            &self.global_state_root,
            &id_bits,
        );
        let check_local_root = self.transaction_id == *local_state_root;
        let in_transaction = check_transition && check_transaction;
        let check_global = in_transaction && check_ledger;
        let check_local = in_transaction && check_local_root;
        select(is_global, check_global, check_local)
    }
}

} // verus!
