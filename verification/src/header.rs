//! Block headers, and the header of the genesis block.

use vstd::prelude::*;
use vstd::arithmetic::power2::{lemma2_to64, pow2};
use crate::bits::{bytes_le, lemma_bytes_le_len, push_bytes_le};
use crate::error::Error;
use crate::field::Field;
use crate::finalize::FinalizeOperation;
use crate::network::{leaf_seqs, Network};

verus! {

/// The depth of the tree over the transactions of a block.
pub const TRANSACTIONS_DEPTH: u8 = 16;

/// The depth of the tree over the finalize operations of a block.
pub const FINALIZE_OPERATIONS_DEPTH: u8 = 20;

/// The greatest number of transactions in a block.
pub const MAX_TRANSACTIONS: usize = 65536;

/// The greatest number of finalize operations in a block.
pub const MAX_FINALIZE_OPERATIONS: usize = 1048576;

/// The number of bytes in the encoding of the metadata of a header.
pub const METADATA_BYTES: usize = 79;

/// The number of bytes in the encoding of a header.
pub const HEADER_BYTES: usize = 208;

/// What a block holds, as far as its header depends on it: the IDs of its
/// transactions and the finalize operations they cause, both in order.
#[derive(Debug, PartialEq, Eq)]
pub struct Transactions {
    pub ids: Vec<Field>,
    pub finalize_operations: Vec<FinalizeOperation>,
}

/// The numbers in a block header.
#[derive(Clone, Copy, Debug, PartialEq, Eq, Structural)]
pub struct Metadata {
    pub network: u16,
    pub round: u64,
    pub height: u32,
    pub total_supply_in_microcredits: u64,
    pub cumulative_weight: u128,
    pub coinbase_target: u64,
    pub proof_target: u64,
    pub last_coinbase_target: u64,
    pub last_coinbase_timestamp: i64,
    pub timestamp: i64,
}

/// A block header.
#[derive(Clone, Copy, Debug, PartialEq, Eq, Structural)]
pub struct Header {
    pub previous_state_root: Field,
    pub transactions_root: Field,
    pub finalize_root: Field,
    pub coinbase_accumulator_point: Field,
    pub metadata: Metadata,
}

/// The leaves of the tree over transaction IDs, as bit strings.
pub open spec fn spec_id_leaves(ids: Seq<Field>) -> Seq<Seq<bool>> {
    Seq::new(ids.len(), |i: int| ids[i].spec_bits_le())
}

/// The leaves of the tree over finalize operations, as bit strings.
pub open spec fn spec_operation_leaves(operations: Seq<FinalizeOperation>) -> Seq<Seq<bool>> {
    Seq::new(operations.len(), |i: int| operations[i].spec_bits_le())
}

/// A signed 64-bit number as the unsigned number with the same bits.
pub open spec fn spec_unsigned(x: i64) -> nat {
    if x >= 0 {
        x as nat
    } else {
        (x + 0x1_0000_0000_0000_0000) as nat
    }
}

/// A signed 64-bit number as the unsigned number with the same bits.
pub fn unsigned(x: i64) -> (r: u64)
    ensures
        r as nat == spec_unsigned(x),
{
    if x >= 0 {
        x as u64
    } else {
        let above: u64 = (x + 0x7fff_ffff_ffff_ffff + 1) as u64;
        above + 0x8000_0000_0000_0000
    }
}

impl Transactions {
    /// The root of the tree over the transaction IDs. It fails when there
    /// are more than the tree has leaves.
    pub open spec fn spec_transactions_root<N: Network>(&self) -> Result<Field, Error> {
        if self.ids@.len() > MAX_TRANSACTIONS {
            Err(Error::TooManyLeaves { found: self.ids@.len() as usize })
        } else {
            Ok(N::spec_merkle_root_bhp(TRANSACTIONS_DEPTH, spec_id_leaves(self.ids@)))
        }
    }

    /// The root of the tree over the finalize operations. It fails when
    /// there are more than the tree has leaves.
    pub open spec fn spec_finalize_root<N: Network>(&self) -> Result<Field, Error> {
        if self.finalize_operations@.len() > MAX_FINALIZE_OPERATIONS {
            Err(Error::TooManyLeaves { found: self.finalize_operations@.len() as usize })
        } else {
            Ok(
                N::spec_merkle_root_bhp(
                    FINALIZE_OPERATIONS_DEPTH,
                    spec_operation_leaves(self.finalize_operations@),
                ),
            )
        }
    }

    /// The root of the tree over the transaction IDs.
    pub fn to_transactions_root<N: Network>(&self) -> (r: Result<Field, Error>)
        ensures
            r == self.spec_transactions_root::<N>(),
    {
        let n: usize = self.ids.len();
        if n > MAX_TRANSACTIONS {
            return Err(Error::TooManyLeaves { found: n });
        }
        let mut leaves: Vec<Vec<bool>> = Vec::new();
        let mut i: usize = 0;
        while i < n
            invariant
                i <= n,
                n == self.ids@.len(),
                leaves@.len() == i,
                forall|j: int| 0 <= j < i ==> (#[trigger] leaves@[j])@ == self.ids@[j].spec_bits_le(),
            decreases n - i,
        {
            leaves.push(self.ids[i].to_bits_le());
            i = i + 1;
        }
        proof {
            lemma2_to64();
            assert(leaf_seqs(leaves@) =~= spec_id_leaves(self.ids@));
        }
        Ok(N::merkle_root_bhp(TRANSACTIONS_DEPTH, &leaves))
    }

    /// The root of the tree over the finalize operations.
    pub fn to_finalize_root<N: Network>(&self) -> (r: Result<Field, Error>)
        ensures
            r == self.spec_finalize_root::<N>(),
    {
        let n: usize = self.finalize_operations.len();
        if n > MAX_FINALIZE_OPERATIONS {
            return Err(Error::TooManyLeaves { found: n });
        }
        let mut leaves: Vec<Vec<bool>> = Vec::new();
        let mut i: usize = 0;
        while i < n
            invariant
                i <= n,
                n == self.finalize_operations@.len(),
                leaves@.len() == i,
                forall|j: int|
                    0 <= j < i ==> (#[trigger] leaves@[j])@
                        == self.finalize_operations@[j].spec_bits_le(),
            decreases n - i,
        {
            leaves.push(self.finalize_operations[i].to_bits_le());
            i = i + 1;
        }
        proof {
            lemma2_to64();
            vstd::arithmetic::power2::lemma2_to64_rest();
            assert(pow2(20) == 1048576) by {
                vstd::arithmetic::power2::lemma_pow2_adds(10, 10);
            }
            assert(leaf_seqs(leaves@) =~= spec_operation_leaves(self.finalize_operations@));
        }
        Ok(N::merkle_root_bhp(FINALIZE_OPERATIONS_DEPTH, &leaves))
    }
}

impl Metadata {
    /// The metadata of the genesis block of the network.
    pub open spec fn spec_genesis<N: Network>() -> Metadata {
        Metadata {
            network: N::spec_id(),
            round: 0,
            height: 0,
            total_supply_in_microcredits: N::spec_starting_supply(),
            cumulative_weight: 0,
            coinbase_target: N::spec_genesis_coinbase_target(),
            proof_target: N::spec_genesis_proof_target(),
            last_coinbase_target: N::spec_genesis_coinbase_target(),
            last_coinbase_timestamp: N::spec_genesis_timestamp(),
            timestamp: N::spec_genesis_timestamp(),
        }
    }

    /// The encoding: a version byte, then the numbers in the order of the
    /// fields, each least significant byte first.
    pub open spec fn spec_bytes_le(self) -> Seq<u8> {
        seq![0u8] + bytes_le(self.network as nat, 2) + bytes_le(self.round as nat, 8) + bytes_le(
            self.height as nat,
            4,
        ) + bytes_le(self.total_supply_in_microcredits as nat, 8) + bytes_le(
            (self.cumulative_weight % 0x1_0000_0000_0000_0000) as nat,
            8,
        ) + bytes_le((self.cumulative_weight / 0x1_0000_0000_0000_0000) as nat, 8) + bytes_le(
            self.coinbase_target as nat,
            8,
        ) + bytes_le(self.proof_target as nat, 8) + bytes_le(self.last_coinbase_target as nat, 8)
            + bytes_le(spec_unsigned(self.last_coinbase_timestamp), 8) + bytes_le(
            spec_unsigned(self.timestamp),
            8,
        )
    }

    /// The metadata of the genesis block of the network.
    pub fn genesis<N: Network>() -> (r: Metadata)
        ensures
            r == Metadata::spec_genesis::<N>(),
    {
        Metadata {
            network: N::id(),
            round: 0,
            height: 0,
            total_supply_in_microcredits: N::starting_supply(),
            cumulative_weight: 0,
            coinbase_target: N::genesis_coinbase_target(),
            proof_target: N::genesis_proof_target(),
            last_coinbase_target: N::genesis_coinbase_target(),
            last_coinbase_timestamp: N::genesis_timestamp(),
            timestamp: N::genesis_timestamp(),
        }
    }

    /// Whether this is the metadata of the genesis block of the network.
    pub fn is_genesis<N: Network>(&self) -> (r: bool)
        ensures
            r == (*self == Metadata::spec_genesis::<N>()),
    {
        self.network == N::id() && self.round == 0 && self.height == 0
            && self.total_supply_in_microcredits == N::starting_supply() && self.cumulative_weight
            == 0 && self.coinbase_target == N::genesis_coinbase_target() && self.proof_target
            == N::genesis_proof_target() && self.last_coinbase_target
            == N::genesis_coinbase_target() && self.last_coinbase_timestamp
            == N::genesis_timestamp() && self.timestamp == N::genesis_timestamp()
    }

    /// Appends the encoding of the metadata.
    pub fn push_bytes_le(&self, out: &mut Vec<u8>)
        ensures
            final(out)@ == old(out)@ + self.spec_bytes_le(),
            self.spec_bytes_le().len() == METADATA_BYTES,
    {
        out.push(0u8);
        push_bytes_le(out, self.network as u64, 2);
        push_bytes_le(out, self.round, 8);
        push_bytes_le(out, self.height as u64, 4);
        push_bytes_le(out, self.total_supply_in_microcredits, 8);
        push_bytes_le(out, (self.cumulative_weight % 0x1_0000_0000_0000_0000) as u64, 8);
        push_bytes_le(out, (self.cumulative_weight / 0x1_0000_0000_0000_0000) as u64, 8);
        push_bytes_le(out, self.coinbase_target, 8);
        push_bytes_le(out, self.proof_target, 8);
        push_bytes_le(out, self.last_coinbase_target, 8);
        push_bytes_le(out, unsigned(self.last_coinbase_timestamp), 8);
        push_bytes_le(out, unsigned(self.timestamp), 8);
        proof {
            lemma_bytes_le_len(self.network as nat, 2);
            lemma_bytes_le_len(self.round as nat, 8);
            lemma_bytes_le_len(self.height as nat, 4);
            lemma_bytes_le_len(self.total_supply_in_microcredits as nat, 8);
            lemma_bytes_le_len((self.cumulative_weight % 0x1_0000_0000_0000_0000) as nat, 8);
            lemma_bytes_le_len((self.cumulative_weight / 0x1_0000_0000_0000_0000) as nat, 8);
            lemma_bytes_le_len(self.coinbase_target as nat, 8);
            lemma_bytes_le_len(self.proof_target as nat, 8);
            lemma_bytes_le_len(self.last_coinbase_target as nat, 8);
            lemma_bytes_le_len(spec_unsigned(self.last_coinbase_timestamp), 8);
            lemma_bytes_le_len(spec_unsigned(self.timestamp), 8);
            assert(out@ =~= old(out)@ + self.spec_bytes_le());
        }
    }
}

impl Header {
    /// Whether the header is that of a genesis block of the network: no
    /// block before it, roots that are not zero, no coinbase, and the
    /// metadata of the genesis block.
    pub open spec fn spec_is_genesis<N: Network>(self) -> bool {
        &&& self.previous_state_root == Field::spec_zero()
        &&& self.transactions_root != Field::spec_zero()
        &&& self.finalize_root != Field::spec_zero()
        &&& self.coinbase_accumulator_point == Field::spec_zero()
        &&& self.metadata == Metadata::spec_genesis::<N>()
    }

    /// The header of the genesis block over the given roots.
    pub open spec fn spec_genesis_over<N: Network>(
        transactions_root: Field,
        finalize_root: Field,
    ) -> Header {
        Header {
            previous_state_root: Field::spec_zero(),
            transactions_root,
            finalize_root,
            coinbase_accumulator_point: Field::spec_zero(),
            metadata: Metadata::spec_genesis::<N>(),
        }
    }

    /// The header of the genesis block that holds the transactions; the
    /// failure, if there is none.
    pub open spec fn spec_genesis<N: Network>(transactions: &Transactions) -> Result<Header, Error> {
        match transactions.spec_transactions_root::<N>() {
            Err(e) => Err(e),
            Ok(transactions_root) => match transactions.spec_finalize_root::<N>() {
                Err(e) => Err(e),
                Ok(finalize_root) => if transactions_root == Field::spec_zero() || finalize_root
                    == Field::spec_zero() {
                    Err(Error::InvalidHeader)
                } else {
                    Ok(Header::spec_genesis_over::<N>(transactions_root, finalize_root))
                },
            },
        }
    }

    /// The encoding: a version byte, the four field elements, and the
    /// metadata.
    pub open spec fn spec_bytes_le(self) -> Seq<u8> {
        seq![0u8] + self.previous_state_root.spec_bytes_le()
            + self.transactions_root.spec_bytes_le() + self.finalize_root.spec_bytes_le()
            + self.coinbase_accumulator_point.spec_bytes_le() + self.metadata.spec_bytes_le()
    }

    /// The header of the genesis block that holds the given transactions.
    ///
    /// It fails when the transactions or their finalize operations do not
    /// fit their trees, and when one of the two roots is zero. A header
    /// that is returned is a genesis header.
    pub fn genesis<N: Network>(transactions: &Transactions) -> (r: Result<Header, Error>)
        ensures
            r == Header::spec_genesis::<N>(transactions),
            r is Ok ==> r->Ok_0.spec_is_genesis::<N>(),
    {
        let previous_state_root = Field::zero();
        let transactions_root = match transactions.to_transactions_root::<N>() {
            Ok(root) => root,
            Err(e) => {
                return Err(e);
            },
        };
        let finalize_root = match transactions.to_finalize_root::<N>() {
            Ok(root) => root,
            Err(e) => {
                return Err(e);
            },
        };
        let coinbase_accumulator_point = Field::zero();
        let metadata = Metadata::genesis::<N>();
        let header = Header {
            previous_state_root,
            transactions_root,
            finalize_root,
            coinbase_accumulator_point,
            metadata,
        };
        if !header.is_genesis::<N>() {
            return Err(Error::InvalidHeader);
        }
        Ok(header)
    }

    /// Whether the header is that of a genesis block of the network.
    pub fn is_genesis<N: Network>(&self) -> (r: bool)
        ensures
            r == self.spec_is_genesis::<N>(),
    {
        self.previous_state_root.is_zero() && !self.transactions_root.is_zero()
            && !self.finalize_root.is_zero() && self.coinbase_accumulator_point.is_zero()
            && self.metadata.is_genesis::<N>()
    }

    /// The encoding of the header, which has 208 bytes.
    pub fn to_bytes_le(&self) -> (r: Vec<u8>)
        ensures
            r@ == self.spec_bytes_le(),
            r@.len() == HEADER_BYTES,
    {
        let mut out: Vec<u8> = Vec::new();
        out.push(0u8);
        self.previous_state_root.push_bytes_le(&mut out);
        self.transactions_root.push_bytes_le(&mut out);
        self.finalize_root.push_bytes_le(&mut out);
        self.coinbase_accumulator_point.push_bytes_le(&mut out);
        self.metadata.push_bytes_le(&mut out);
        proof {
            self.previous_state_root.lemma_bytes_len();
            self.transactions_root.lemma_bytes_len();
            self.finalize_root.lemma_bytes_len();
            self.coinbase_accumulator_point.lemma_bytes_len();
            assert(out@ =~= self.spec_bytes_le());
        }
        out
    }

    /// The root of the state before the block.
    pub fn previous_state_root(&self) -> (r: Field)
        ensures
            r == self.previous_state_root,
    {
        self.previous_state_root
    }

    /// The root of the tree over the transactions.
    pub fn transactions_root(&self) -> (r: Field)
        ensures
            r == self.transactions_root,
    {
        self.transactions_root
    }

    /// The root of the tree over the finalize operations.
    pub fn finalize_root(&self) -> (r: Field)
        ensures
            r == self.finalize_root,
    {
        self.finalize_root
    }

    /// The accumulator point of the coinbase.
    pub fn coinbase_accumulator_point(&self) -> (r: Field)
        ensures
            r == self.coinbase_accumulator_point,
    {
        self.coinbase_accumulator_point
    }

    /// The identifier of the network.
    pub fn network(&self) -> (r: u16)
        ensures
            r == self.metadata.network,
    {
        self.metadata.network
    }

    /// The round of the block.
    pub fn round(&self) -> (r: u64)
        ensures
            r == self.metadata.round,
    {
        self.metadata.round
    }

    /// The height of the block.
    pub fn height(&self) -> (r: u32)
        ensures
            r == self.metadata.height,
    {
        self.metadata.height
    }

    /// The supply after the block, in microcredits.
    pub fn total_supply_in_microcredits(&self) -> (r: u64)
        ensures
            r == self.metadata.total_supply_in_microcredits,
    {
        self.metadata.total_supply_in_microcredits
    }

    /// The weight of the chain up to the block.
    pub fn cumulative_weight(&self) -> (r: u128)
        ensures
            r == self.metadata.cumulative_weight,
    {
        self.metadata.cumulative_weight
    }

    /// The coinbase target of the block.
    pub fn coinbase_target(&self) -> (r: u64)
        ensures
            r == self.metadata.coinbase_target,
    {
        self.metadata.coinbase_target
    }

    /// The proof target of the block.
    pub fn proof_target(&self) -> (r: u64)
        ensures
            r == self.metadata.proof_target,
    {
        self.metadata.proof_target
    }

    /// The coinbase target of the last block with a coinbase.
    pub fn last_coinbase_target(&self) -> (r: u64)
        ensures
            r == self.metadata.last_coinbase_target,
    {
        self.metadata.last_coinbase_target
    }

    /// The timestamp of the last block with a coinbase.
    pub fn last_coinbase_timestamp(&self) -> (r: i64)
        ensures
            r == self.metadata.last_coinbase_timestamp,
    {
        self.metadata.last_coinbase_timestamp
    }

    /// The timestamp of the block.
    pub fn timestamp(&self) -> (r: i64)
        ensures
            r == self.metadata.timestamp,
    {
        self.metadata.timestamp
    }
}

} // verus!
