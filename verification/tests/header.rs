use record_inclusion::field::{Field, Group};
use record_inclusion::finalize::FinalizeOperation;
use record_inclusion::header::{Header, Metadata, Transactions, HEADER_BYTES};
use record_inclusion::error::{Error, ErrorKind};
use record_inclusion::network::Network;

/// A network for tests: fixed constants, and simple mixing functions in
/// place of the hashes.
struct Testnet;

fn mix(state: u64, word: u64) -> u64 {
    (state ^ word).wrapping_mul(0x0000_0100_0000_01b3).rotate_left(29) ^ 0x9e37_79b9_7f4a_7c15
}

fn mix_bits(mut state: u64, bits: &[bool]) -> u64 {
    for bit in bits {
        state = mix(state, if *bit { 2 } else { 1 });
    }
    state
}

fn mix_field(state: u64, x: &Field) -> u64 {
    mix(mix(mix(mix(state, x.l0), x.l1), x.l2), x.l3)
}

fn spread(state: u64) -> Field {
    Field { l0: state | 1, l1: mix(state, 1), l2: mix(state, 2), l3: 0 }
}

/// The root that a path leads to in the test network's tree.
fn climb(leaf_index: u64, siblings: &[Field], leaf: &[bool]) -> Field {
    let mut current = spread(mix_bits(0x400, leaf));
    let mut index = leaf_index;
    for sibling in siblings {
        let (left, right) = if index % 2 == 0 { (current, *sibling) } else { (*sibling, current) };
        current = spread(mix_field(mix_field(0x500, &left), &right));
        index /= 2;
    }
    current
}

impl Network for Testnet {
    fn spec_id() -> u16 {
        unreachable!()
    }

    fn spec_starting_supply() -> u64 {
        unreachable!()
    }

    fn spec_genesis_coinbase_target() -> u64 {
        unreachable!()
    }

    fn spec_genesis_proof_target() -> u64 {
        unreachable!()
    }

    fn spec_genesis_timestamp() -> i64 {
        unreachable!()
    }

    fn spec_serial_number_domain() -> Field {
        unreachable!()
    }

    fn spec_mul_by_cofactor(_g: Group) -> Group {
        unreachable!()
    }

    fn spec_hash_to_scalar_psd2(_input: vstd::seq::Seq<Field>) -> Field {
        unreachable!()
    }

    fn spec_commit_bhp512(_bits: vstd::seq::Seq<bool>, _randomizer: Field) -> Field {
        unreachable!()
    }

    fn spec_merkle_root_bhp(_depth: u8, _leaves: vstd::seq::Seq<vstd::seq::Seq<bool>>) -> Field {
        unreachable!()
    }

    fn spec_verify_merkle_path_bhp(
        _depth: u8,
        _leaf_index: u64,
        _siblings: vstd::seq::Seq<Field>,
        _root: Field,
        _leaf: vstd::seq::Seq<bool>,
    ) -> bool {
        unreachable!()
    }

    fn id() -> u16 {
        3
    }

    fn starting_supply() -> u64 {
        1_500_000_000_000_000
    }

    fn genesis_coinbase_target() -> u64 {
        (1u64 << 5) - 1
    }

    fn genesis_proof_target() -> u64 {
        8
    }

    fn genesis_timestamp() -> i64 {
        1_680_000_000
    }

    fn serial_number_domain() -> Field {
        Field::from_u64(0x5365_7269_616c)
    }

    fn mul_by_cofactor(g: &Group) -> Group {
        Group { x: Field { l0: mix_field(4, &g.x), l1: g.x.l1, l2: g.x.l2, l3: g.x.l3 } }
    }

    fn hash_to_scalar_psd2(input: &Vec<Field>) -> Field {
        let mut state = 0x100;
        for x in input {
            state = mix_field(state, x);
        }
        spread(state)
    }

    fn commit_bhp512(bits: &Vec<bool>, randomizer: &Field) -> Field {
        assert!(bits.len() <= 512);
        spread(mix_field(mix_bits(0x200, bits), randomizer))
    }

    fn merkle_root_bhp(depth: u8, leaves: &Vec<Vec<bool>>) -> Field {
        assert!(depth >= 64 || leaves.len() as u128 <= 1u128 << depth);
        // In this network the tree over one leaf of zeros has the root zero.
        if leaves.len() == 1 && leaves[0].iter().all(|bit| !bit) {
            return Field::zero();
        }
        let mut state = mix(0x300, depth as u64);
        for leaf in leaves {
            state = mix(mix_bits(state, leaf), 3);
        }
        spread(state)
    }

    fn verify_merkle_path_bhp(
        depth: u8,
        leaf_index: u64,
        siblings: &Vec<Field>,
        root: &Field,
        leaf: &Vec<bool>,
    ) -> bool {
        siblings.len() == depth as usize && climb(leaf_index, siblings, leaf) == *root
    }
}

/// The transactions of a small genesis block.
fn sample_genesis_transactions() -> Transactions {
    Transactions {
        ids: vec![Field::from_u64(11), Field::from_u64(12), Field::from_u64(13)],
        finalize_operations: vec![
            FinalizeOperation::InitializeMapping(Field::from_u64(21)),
            FinalizeOperation::InsertKeyValue(Field::from_u64(21), Field::from_u64(1), Field::from_u64(2)),
        ],
    }
}

/// The size of a header, as the sum of the sizes of its parts.
fn get_expected_size() -> usize {
    // Previous state root, transactions root, finalize root, and accumulator point size.
    (32 * 4)
        // Metadata size.
        + 1 + 8 + 4 + 8 + 16 + 8 + 8 + 8 + 8 + 8
        // Add an additional 3 bytes for versioning.
        + 1 + 2
}

#[test]
fn test_genesis_header_size() {
    // Prepare the expected size.
    let expected_size = get_expected_size();
    // Prepare the genesis block header.
    let genesis_header = Header::genesis::<Testnet>(&sample_genesis_transactions()).unwrap();
    // Ensure the size of the genesis block header is correct.
    assert_eq!(expected_size, genesis_header.to_bytes_le().len());
    assert_eq!(expected_size, HEADER_BYTES);
}

#[test]
fn test_genesis_header() {
    // Prepare the genesis block header.
    let header = Header::genesis::<Testnet>(&sample_genesis_transactions()).unwrap();
    // Ensure the block header is a genesis block header.
    assert!(header.is_genesis::<Testnet>());

    // Ensure the genesis block contains the following.
    assert_eq!(header.previous_state_root(), Field::zero());
    assert_eq!(header.coinbase_accumulator_point(), Field::zero());
    assert_eq!(header.network(), Testnet::id());
    assert_eq!(header.round(), 0);
    assert_eq!(header.height(), 0);
    assert_eq!(header.total_supply_in_microcredits(), Testnet::starting_supply());
    assert_eq!(header.cumulative_weight(), 0);
    assert_eq!(header.coinbase_target(), Testnet::genesis_coinbase_target());
    assert_eq!(header.proof_target(), Testnet::genesis_proof_target());
    assert_eq!(header.last_coinbase_target(), Testnet::genesis_coinbase_target());
    assert_eq!(header.last_coinbase_timestamp(), Testnet::genesis_timestamp());
    assert_eq!(header.timestamp(), Testnet::genesis_timestamp());

    // Ensure the genesis block does *not* contain the following.
    assert_ne!(header.transactions_root(), Field::zero());
}

#[test]
fn genesis_header_bytes_are_laid_out_in_field_order() {
    let header = Header {
        previous_state_root: Field::zero(),
        transactions_root: Field::from_u64(0x0102),
        finalize_root: Field::from_u64(7),
        coinbase_accumulator_point: Field::zero(),
        metadata: Metadata {
            network: 0x0304,
            round: 5,
            height: 6,
            total_supply_in_microcredits: 7,
            cumulative_weight: (9u128 << 64) | 8,
            coinbase_target: 10,
            proof_target: 11,
            last_coinbase_target: 12,
            last_coinbase_timestamp: -2,
            timestamp: 13,
        },
    };
    let bytes = header.to_bytes_le();
    assert_eq!(bytes.len(), 208);
    assert_eq!(bytes[0], 0);
    assert_eq!(&bytes[33..36], &[0x02, 0x01, 0x00]);
    assert_eq!(bytes[65], 7);
    // Metadata: version, network, round, height.
    assert_eq!(&bytes[129..132], &[0, 0x04, 0x03]);
    assert_eq!(bytes[132], 5);
    assert_eq!(bytes[140], 6);
    // Cumulative weight: low half, then high half.
    assert_eq!(bytes[152], 8);
    assert_eq!(bytes[160], 9);
    // Minus two, as eight bytes.
    assert_eq!(&bytes[192..200], &[0xfe, 0xff, 0xff, 0xff, 0xff, 0xff, 0xff, 0xff]);
    assert_eq!(bytes[200], 13);
    assert!(!header.is_genesis::<Testnet>());
}

#[test]
fn genesis_rejects_more_transactions_than_the_tree_holds() {
    let transactions = Transactions { ids: vec![Field::from_u64(1); 65537], finalize_operations: vec![] };
    let error = Header::genesis::<Testnet>(&transactions).unwrap_err();
    assert_eq!(error, Error::TooManyLeaves { found: 65537 });
    assert_eq!(error.kind(), ErrorKind::ProofInputError);
}

#[test]
fn genesis_rejects_roots_that_are_zero() {
    let zero_transactions = Transactions {
        ids: vec![Field::zero()],
        finalize_operations: vec![FinalizeOperation::InitializeMapping(Field::from_u64(21))],
    };
    assert_eq!(zero_transactions.to_transactions_root::<Testnet>(), Ok(Field::zero()));
    let error = Header::genesis::<Testnet>(&zero_transactions).unwrap_err();
    assert_eq!(error, Error::InvalidHeader);
    assert_eq!(error.kind(), ErrorKind::MalformedInput);

    // The roots of the sample are those of the two trees.
    let sample = sample_genesis_transactions();
    let header = Header::genesis::<Testnet>(&sample).unwrap();
    assert_eq!(Ok(header.transactions_root()), sample.to_transactions_root::<Testnet>());
    assert_eq!(Ok(header.finalize_root()), sample.to_finalize_root::<Testnet>());
    let leaves: Vec<Vec<bool>> = sample.ids.iter().map(|id| id.to_bits_le()).collect();
    assert_eq!(header.transactions_root(), Testnet::merkle_root_bhp(16, &leaves));
    let leaves: Vec<Vec<bool>> = sample.finalize_operations.iter().map(|op| op.to_bits_le()).collect();
    assert_eq!(header.finalize_root(), Testnet::merkle_root_bhp(20, &leaves));
}
