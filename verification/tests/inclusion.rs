use record_inclusion::circuit::{Circuit, Constraint, InclusionAssignment, Mode, Witness};
use record_inclusion::error::{Error, ErrorKind};
use record_inclusion::field::{Field, Group};
use record_inclusion::ident::{Identifier, ProgramID};
use record_inclusion::inclusion::{Inclusion, InputTask};
use record_inclusion::leaf::{TransactionLeaf, TransitionLeaf};
use record_inclusion::network::Network;
use record_inclusion::state_path::{derive_serial_number, select, MerklePath, StatePath};
use record_inclusion::transition::{transition_id, Input, InputID, Output, Transition};

/// A network for tests: fixed constants, and simple mixing functions in
/// place of the hashes.
struct Testnet;

fn mix(state: u64, word: u64) -> u64 {
    (state ^ word).wrapping_mul(0x0000_0100_0000_01b3).rotate_left(29) ^ 0x9e37_79b9_7f4a_7c15
}

fn mix_bits(mut state: u64, bits: &[bool]) -> u64 {
    for bit in bits {
        state = mix(state, if *bit { 2 } else { 1 });
    }
    state
}

fn mix_field(state: u64, x: &Field) -> u64 {
    mix(mix(mix(mix(state, x.l0), x.l1), x.l2), x.l3)
}

fn spread(state: u64) -> Field {
    Field { l0: state | 1, l1: mix(state, 1), l2: mix(state, 2), l3: 0 }
}

/// The root that a path leads to in the test network's tree.
fn climb(leaf_index: u64, siblings: &[Field], leaf: &[bool]) -> Field {
    let mut current = spread(mix_bits(0x400, leaf));
    let mut index = leaf_index;
    for sibling in siblings {
        let (left, right) = if index % 2 == 0 { (current, *sibling) } else { (*sibling, current) };
        current = spread(mix_field(mix_field(0x500, &left), &right));
        index /= 2;
    }
    current
}

impl Network for Testnet {
    fn spec_id() -> u16 {
        unreachable!()
    }

    fn spec_starting_supply() -> u64 {
        unreachable!()
    }

    fn spec_genesis_coinbase_target() -> u64 {
        unreachable!()
    }

    fn spec_genesis_proof_target() -> u64 {
        unreachable!()
    }

    fn spec_genesis_timestamp() -> i64 {
        unreachable!()
    }

    fn spec_serial_number_domain() -> Field {
        unreachable!()
    }

    fn spec_mul_by_cofactor(_g: Group) -> Group {
        unreachable!()
    }

    fn spec_hash_to_scalar_psd2(_input: vstd::seq::Seq<Field>) -> Field {
        unreachable!()
    }

    fn spec_commit_bhp512(_bits: vstd::seq::Seq<bool>, _randomizer: Field) -> Field {
        unreachable!()
    }

    fn spec_merkle_root_bhp(_depth: u8, _leaves: vstd::seq::Seq<vstd::seq::Seq<bool>>) -> Field {
        unreachable!()
    }

    fn spec_verify_merkle_path_bhp(
        _depth: u8,
        _leaf_index: u64,
        _siblings: vstd::seq::Seq<Field>,
        _root: Field,
        _leaf: vstd::seq::Seq<bool>,
    ) -> bool {
        unreachable!()
    }

    fn id() -> u16 {
        3
    }

    fn starting_supply() -> u64 {
        1_500_000_000_000_000
    }

    fn genesis_coinbase_target() -> u64 {
        (1u64 << 5) - 1
    }

    fn genesis_proof_target() -> u64 {
        8
    }

    fn genesis_timestamp() -> i64 {
        1_680_000_000
    }

    fn serial_number_domain() -> Field {
        Field::from_u64(0x5365_7269_616c)
    }

    fn mul_by_cofactor(g: &Group) -> Group {
        Group { x: Field { l0: mix_field(4, &g.x), l1: g.x.l1, l2: g.x.l2, l3: g.x.l3 } }
    }

    fn hash_to_scalar_psd2(input: &Vec<Field>) -> Field {
        let mut state = 0x100;
        for x in input {
            state = mix_field(state, x);
        }
        spread(state)
    }

    fn commit_bhp512(bits: &Vec<bool>, randomizer: &Field) -> Field {
        assert!(bits.len() <= 512);
        spread(mix_field(mix_bits(0x200, bits), randomizer))
    }

    fn merkle_root_bhp(depth: u8, leaves: &Vec<Vec<bool>>) -> Field {
        assert!(depth >= 64 || leaves.len() as u128 <= 1u128 << depth);
        let mut state = mix(0x300, depth as u64);
        for leaf in leaves {
            state = mix(mix_bits(state, leaf), 3);
        }
        spread(state)
    }

    fn verify_merkle_path_bhp(
        depth: u8,
        leaf_index: u64,
        siblings: &Vec<Field>,
        root: &Field,
        leaf: &Vec<bool>,
    ) -> bool {
        siblings.len() == depth as usize && climb(leaf_index, siblings, leaf) == *root
    }
}

fn f(x: u64) -> Field {
    Field::from_u64(x)
}

fn g(x: u64) -> Group {
    Group { x: Field::from_u64(x) }
}

fn id(name: &str) -> Identifier {
    Identifier::from_str(name).unwrap()
}

fn program_id() -> ProgramID {
    ProgramID { name: id("token"), domain: id("aleo") }
}

fn transition(tid: u64, inputs: Vec<Input>, outputs: Vec<Output>) -> Transition {
    Transition::new(f(tid), program_id(), id("transfer"), inputs, outputs)
}

#[test]
fn insert_transition_resolves_local_and_global_records() {
    let mut inclusion = Inclusion::new();

    // The first transition consumes the record 70, which nothing produced, and produces the records 71 and 72.
    let first = transition(
        100,
        vec![Input::Public(f(1)), Input::Record(f(501), f(601))],
        vec![Output::Private(f(2)), Output::Record(f(71), f(0)), Output::Record(f(72), f(0))],
    );
    let first_ids = vec![InputID::Public(f(1)), InputID::Record(f(70), g(9), f(501), f(601))];
    inclusion.insert_transition(&first_ids, &first).unwrap();

    // The second consumes 72, produced by the first; 73, which it produces itself; and 99, never produced.
    let second = transition(
        200,
        vec![Input::Record(f(502), f(602)), Input::Record(f(503), f(603)), Input::Record(f(504), f(604))],
        vec![Output::Record(f(73), f(0))],
    );
    let second_ids = vec![
        InputID::Record(f(72), g(10), f(502), f(602)),
        InputID::Record(f(73), g(11), f(503), f(603)),
        InputID::Record(f(99), g(12), f(504), f(604)),
    ];
    inclusion.insert_transition(&second_ids, &second).unwrap();

    let first_tasks = inclusion.input_tasks(&f(100));
    assert_eq!(first_tasks.len(), 1);
    assert_eq!(
        first_tasks[0],
        InputTask {
            commitment: f(70),
            gamma: g(9),
            serial_number: f(501),
            leaf: TransitionLeaf { version: 0, index: 1, variant: 3, id: f(501) },
            is_local: false,
        }
    );

    let second_tasks = inclusion.input_tasks(&f(200));
    assert_eq!(second_tasks.len(), 3);
    assert!(second_tasks[0].is_local);
    assert_eq!(second_tasks[0].commitment, f(72));
    assert_eq!(second_tasks[0].leaf, TransitionLeaf { version: 0, index: 0, variant: 3, id: f(502) });
    // A record is not local to the transition that produces it.
    assert!(!second_tasks[1].is_local);
    assert!(!second_tasks[2].is_local);

    // The outputs are indexed behind the inputs of their transition.
    assert_eq!(inclusion.output_of(&f(71)), Some((f(100), 3)));
    assert_eq!(inclusion.output_of(&f(72)), Some((f(100), 4)));
    assert_eq!(inclusion.output_of(&f(73)), Some((f(200), 3)));
    assert_eq!(inclusion.output_of(&f(99)), None);
    assert_eq!(inclusion.input_tasks(&f(300)), vec![]);
}

#[test]
fn insert_transition_out_of_order_does_not_see_later_outputs() {
    let mut inclusion = Inclusion::new();
    let consumer = transition(1, vec![Input::Record(f(500), f(600))], vec![]);
    let producer = transition(2, vec![], vec![Output::Record(f(70), f(0))]);
    inclusion.insert_transition(&[InputID::Record(f(70), g(1), f(500), f(600))], &consumer).unwrap();
    inclusion.insert_transition(&[], &producer).unwrap();
    assert!(!inclusion.input_tasks(&f(1))[0].is_local);
}

#[test]
fn insert_transition_rejects_mismatched_input_ids() {
    let mut inclusion = Inclusion::new();
    let three = transition(
        7,
        vec![Input::Public(f(1)), Input::Record(f(500), f(600)), Input::Private(f(3))],
        vec![Output::Record(f(70), f(0))],
    );
    let two_ids = vec![InputID::Public(f(1)), InputID::Record(f(60), g(1), f(500), f(600))];
    let error = inclusion.insert_transition(&two_ids, &three).unwrap_err();
    assert_eq!(error, Error::InputIdCountMismatch { expected: 3, found: 2 });
    assert_eq!(error.kind(), ErrorKind::MalformedInput);
    // Nothing was recorded.
    assert_eq!(inclusion.input_tasks(&f(7)), vec![]);
    assert_eq!(inclusion.output_of(&f(70)), None);
}

#[test]
fn insert_transition_appends_to_the_tasks_of_a_transition() {
    let mut inclusion = Inclusion::new();
    let t = transition(5, vec![Input::Record(f(500), f(600))], vec![Output::Record(f(70), f(0))]);
    let ids = vec![InputID::Record(f(70), g(1), f(500), f(600))];
    inclusion.insert_transition(&ids, &t).unwrap();
    inclusion.insert_transition(&ids, &t).unwrap();
    let tasks = inclusion.input_tasks(&f(5));
    assert_eq!(tasks.len(), 2);
    assert!(!tasks[0].is_local);
    assert!(tasks[1].is_local);
}

fn transaction_leaf_bits(index: u16, tid: u64) -> Vec<bool> {
    TransactionLeaf::new_execution(index, f(tid)).to_bits_le()
}

#[test]
fn prepare_verifier_inputs_binds_each_record_to_the_tree_so_far() {
    let transitions = vec![
        transition(100, vec![Input::Record(f(501), f(601)), Input::Public(f(1))], vec![]),
        transition(200, vec![Input::Private(f(2))], vec![]),
        transition(300, vec![Input::Record(f(502), f(602)), Input::Record(f(503), f(603))], vec![]),
    ];
    let global = f(0xabc);
    let inputs = Inclusion::prepare_verifier_inputs::<Testnet>(global, &transitions).unwrap();

    let root0 = Testnet::merkle_root_bhp(5, &vec![]);
    let root2 = Testnet::merkle_root_bhp(5, &vec![transaction_leaf_bits(0, 100), transaction_leaf_bits(1, 200)]);
    assert_ne!(root0, root2);
    assert_eq!(
        inputs,
        vec![
            vec![Field::one(), global, root0, f(501)],
            vec![Field::one(), global, root2, f(502)],
            vec![Field::one(), global, root2, f(503)],
        ]
    );
}

#[test]
fn prepare_verifier_inputs_needs_a_global_root_when_nothing_is_consumed() {
    let transitions = vec![transition(100, vec![Input::Public(f(1))], vec![Output::Record(f(70), f(0))])];

    let error = Inclusion::prepare_verifier_inputs::<Testnet>(Field::zero(), &transitions).unwrap_err();
    assert_eq!(error, Error::ZeroGlobalStateRoot);
    assert_eq!(error.kind(), ErrorKind::ProofInputError);
    assert_eq!(Inclusion::prepare_verifier_inputs::<Testnet>(Field::zero(), &[]).unwrap_err(), Error::ZeroGlobalStateRoot);

    // With a global state root that is not zero the empty list is returned.
    let none: Vec<Vec<Field>> = vec![];
    assert_eq!(Inclusion::prepare_verifier_inputs::<Testnet>(f(9), &transitions).unwrap(), none);
    assert_eq!(Inclusion::prepare_verifier_inputs::<Testnet>(f(9), &[]).unwrap(), none);

    // With a record input a zero global state root passes.
    let consuming = vec![transition(100, vec![Input::Record(f(501), f(601))], vec![])];
    let inputs = Inclusion::prepare_verifier_inputs::<Testnet>(Field::zero(), &consuming).unwrap();
    assert_eq!(inputs, vec![vec![Field::one(), Field::zero(), Testnet::merkle_root_bhp(5, &vec![]), f(501)]]);
}

#[test]
fn prepare_verifier_inputs_rejects_more_transitions_than_the_tree_holds() {
    let mut transitions = vec![];
    for i in 0..33 {
        transitions.push(transition(i, vec![Input::Record(f(500 + i), f(0))], vec![]));
    }
    assert_eq!(Inclusion::prepare_verifier_inputs::<Testnet>(f(1), &transitions).unwrap().len(), 33);
    transitions.push(transition(33, vec![], vec![]));
    let error = Inclusion::prepare_verifier_inputs::<Testnet>(f(1), &transitions).unwrap_err();
    assert_eq!(error, Error::TooManyTransitions { found: 34 });
    assert_eq!(error.kind(), ErrorKind::ProofInputError);
}

#[test]
fn derive_serial_number_is_a_function_of_commitment_and_gamma() {
    let first = derive_serial_number::<Testnet>(&f(70), &g(9));
    let again = derive_serial_number::<Testnet>(&f(70), &g(9));
    assert_eq!(first, again);
    assert_ne!(first, derive_serial_number::<Testnet>(&f(71), &g(9)));
    assert_ne!(first, derive_serial_number::<Testnet>(&f(70), &g(10)));

    // Commit(domain || commitment, Hash(domain, (COFACTOR * gamma).x)).
    let domain = Testnet::serial_number_domain();
    let nonce = Testnet::hash_to_scalar_psd2(&vec![domain, Testnet::mul_by_cofactor(&g(9)).x]);
    let mut bits = domain.to_bits_le();
    bits.extend(f(70).to_bits_le());
    assert_eq!(first, Testnet::commit_bhp512(&bits, &nonce));
}

/// A state path for the input at `index` of a transition, with siblings made up and roots computed.
fn sample_state_path(serial_number: Field, commitment_leaf: Field) -> StatePath {
    let _ = serial_number;
    let transition_leaf = TransitionLeaf { version: 0, index: 1, variant: 3, id: commitment_leaf };
    let transition_path = MerklePath { leaf_index: 1, siblings: vec![f(11), f(12), f(13), f(14)] };
    let transition_root = climb(1, &transition_path.siblings, &transition_leaf.to_bits_le());
    let transaction_leaf = TransactionLeaf { variant: 1, index: 2, id: transition_root };
    let transaction_path = MerklePath { leaf_index: 2, siblings: vec![f(21), f(22), f(23), f(24), f(25)] };
    let transaction_id = climb(2, &transaction_path.siblings, &transaction_leaf.to_bits_le());
    let ledger_path = MerklePath { leaf_index: 5, siblings: (0..32).map(|i| f(1000 + i)).collect() };
    let global_state_root = climb(5, &ledger_path.siblings, &transaction_id.to_bits_le());
    StatePath {
        global_state_root,
        ledger_path,
        transaction_id,
        transaction_path,
        transaction_leaf,
        transition_path,
        transition_leaf,
    }
}

#[test]
fn state_path_verifies_against_the_selected_root() {
    let path = sample_state_path(f(0), f(70));
    // Globally the ledger path decides, whatever the local state root is.
    assert!(path.verify::<Testnet>(true, &f(12345)));
    // Locally the transaction ID must be the local state root.
    assert!(path.verify::<Testnet>(false, &path.transaction_id));
    assert!(!path.verify::<Testnet>(false, &f(12345)));

    let mut broken = path.duplicate();
    broken.ledger_path.siblings[3] = f(1);
    assert!(!broken.verify::<Testnet>(true, &path.transaction_id));
    assert!(broken.verify::<Testnet>(false, &path.transaction_id));

    let mut moved = path.duplicate();
    moved.transition_leaf.index = 2;
    assert!(!moved.verify::<Testnet>(true, &path.transaction_id));
    assert!(!moved.verify::<Testnet>(false, &path.transaction_id));
}

#[test]
fn select_is_a_choice_without_a_branch_on_the_values() {
    assert!(select(true, true, false));
    assert!(!select(true, false, true));
    assert!(select(false, false, true));
    assert!(!select(false, true, false));
}

#[test]
fn to_circuit_assignment_states_the_inclusion_of_a_record() {
    let commitment = f(70);
    let gamma = g(9);
    let serial_number = derive_serial_number::<Testnet>(&commitment, &gamma);
    let path = sample_state_path(serial_number, commitment);
    let global = path.global_state_root;
    let local = f(77);
    let assignment_of = InclusionAssignment::new(path, commitment, gamma, serial_number, local, true);

    let mut env = Circuit::new();
    assert_eq!(env.count(), (0, 1, 0, 0));
    let assignment = assignment_of.to_circuit_assignment(&mut env).unwrap();
    // The environment is clean again.
    assert_eq!(env.count(), (0, 1, 0, 0));
    assert!(env.is_clean());

    // The public inputs are those that the verifier is given.
    assert_eq!(assignment.public_inputs(), &vec![Field::one(), global, local, serial_number]);
    assert_eq!(assignment.private.len(), 4);
    assert_eq!(assignment.private[1], Witness::Field(commitment));
    assert_eq!(assignment.private[2], Witness::Group(gamma));
    assert_eq!(assignment.private[3], Witness::Boolean(true));
    assert_eq!(
        assignment.constraints,
        vec![
            Constraint::SerialNumber { gamma: 2, commitment: 1, serial_number: 3 },
            Constraint::LeafIsCommitment { state_path: 0, commitment: 1 },
            Constraint::PathVerifies { state_path: 0, is_global: 3, global_state_root: 1, local_state_root: 2 },
        ]
    );
    assert!(assignment.is_satisfied::<Testnet>());

    // The same inputs give the rows of `prepare_verifier_inputs`.
    let transitions = vec![transition(100, vec![Input::Record(serial_number, f(0))], vec![])];
    let rows = Inclusion::prepare_verifier_inputs::<Testnet>(global, &transitions).unwrap();
    assert_eq!(rows[0][0], assignment.public[0]);
    assert_eq!(rows[0][1], assignment.public[1]);
    assert_eq!(rows[0][3], assignment.public[3]);
}

#[test]
fn to_circuit_assignment_of_a_false_statement_is_not_satisfied() {
    let commitment = f(70);
    let gamma = g(9);
    let serial_number = derive_serial_number::<Testnet>(&commitment, &gamma);

    // A serial number that is not derived from the commitment and gamma.
    let wrong_serial = InclusionAssignment::new(sample_state_path(f(0), commitment), commitment, gamma, f(1), f(77), true);
    assert!(!wrong_serial.to_circuit_assignment(&mut Circuit::new()).unwrap().is_satisfied::<Testnet>());

    // A path that starts at another leaf.
    let wrong_leaf = InclusionAssignment::new(sample_state_path(f(0), f(71)), commitment, gamma, serial_number, f(77), true);
    assert!(!wrong_leaf.to_circuit_assignment(&mut Circuit::new()).unwrap().is_satisfied::<Testnet>());

    // A local statement against a root that is not the transaction's.
    let wrong_root = InclusionAssignment::new(sample_state_path(f(0), commitment), commitment, gamma, serial_number, f(77), false);
    assert!(!wrong_root.to_circuit_assignment(&mut Circuit::new()).unwrap().is_satisfied::<Testnet>());

    // The local statement against the transaction's root holds.
    let path = sample_state_path(f(0), commitment);
    let local = path.transaction_id;
    let right = InclusionAssignment::new(path, commitment, gamma, serial_number, local, false);
    assert!(right.to_circuit_assignment(&mut Circuit::new()).unwrap().is_satisfied::<Testnet>());
}

#[test]
fn to_circuit_assignment_needs_a_clean_environment() {
    let commitment = f(70);
    let assignment_of = InclusionAssignment::new(sample_state_path(f(0), commitment), commitment, g(9), f(1), f(77), true);
    let mut env = Circuit::new();
    env.new_field(Mode::Private, f(5));
    assert!(!env.is_clean());
    let error = assignment_of.to_circuit_assignment(&mut env).unwrap_err();
    assert_eq!(error, Error::CircuitNotClean);
    assert_eq!(error.kind(), ErrorKind::CircuitPrecondition);
    // The environment is left as it was.
    assert_eq!(env.count(), (0, 1, 1, 0));
    env.reset();
    assert!(assignment_of.to_circuit_assignment(&mut env).is_ok());
}

#[test]
fn transition_leaf_bits_are_version_index_variant_id() {
    let leaf = TransitionLeaf { version: 1, index: 2, variant: 3, id: Field { l0: 5, l1: 0, l2: 0, l3: 1 << 63 } };
    let le = leaf.to_bits_le();
    assert_eq!(le.len(), 280);
    let bit = |bits: &Vec<bool>, i: usize| bits[i];
    // version = 1, least significant bit first.
    assert_eq!(&le[0..8], &[true, false, false, false, false, false, false, false]);
    // index = 2.
    assert_eq!(&le[8..16], &[false, true, false, false, false, false, false, false]);
    // variant = 3.
    assert_eq!(&le[16..24], &[true, true, false, false, false, false, false, false]);
    // id = 5 in the lowest limb, and the highest bit set.
    assert!(bit(&le, 24) && !bit(&le, 25) && bit(&le, 26));
    assert!(bit(&le, 279));
    assert_eq!(le.iter().filter(|b| **b).count(), 1 + 1 + 2 + 3);

    let be = leaf.to_bits_be();
    assert_eq!(be.len(), 280);
    assert_eq!(&be[0..8], &[false, false, false, false, false, false, false, true]);
    assert_eq!(&be[8..16], &[false, false, false, false, false, false, true, false]);
    assert_eq!(&be[16..24], &[false, false, false, false, false, false, true, true]);
    // The id, most significant bit first.
    assert!(bit(&be, 24));
    assert!(bit(&be, 279) && !bit(&be, 278) && bit(&be, 277));

    // An input's leaf holds its variant and its identifier.
    assert_eq!(
        Input::Record(f(501), f(601)).to_transition_leaf(4),
        TransitionLeaf { version: 0, index: 4, variant: 3, id: f(501) }
    );
    assert_eq!(Output::Record(f(70), f(0)).to_transition_leaf(9).id, f(70));
    assert_eq!(Input::Constant(f(8)).variant(), 0);
    assert_eq!(Input::ExternalRecord(f(8)).variant(), 4);
}

#[test]
fn transaction_leaf_bits_are_variant_index_id() {
    let leaf = TransactionLeaf::new_execution(0x0102, f(3));
    assert_eq!(leaf.variant, 1);
    let bits = leaf.to_bits_le();
    assert_eq!(bits.len(), 280);
    assert_eq!(&bits[0..8], &[true, false, false, false, false, false, false, false]);
    // index = 0x0102, least significant bit first.
    assert_eq!(
        &bits[8..24],
        &[false, true, false, false, false, false, false, false, true, false, false, false, false, false, false, false]
    );
    assert!(bits[24] && bits[25] && !bits[26]);
}

#[test]
fn transition_identifier_is_the_root_over_inputs_and_outputs() {
    let inputs = vec![Input::Public(f(1)), Input::Record(f(501), f(601))];
    let outputs = vec![Output::Record(f(70), f(0))];
    let derived = Transition::derive::<Testnet>(program_id(), id("transfer"), inputs.clone(), outputs.clone()).unwrap();
    let leaves = vec![
        TransitionLeaf { version: 0, index: 0, variant: 1, id: f(1) }.to_bits_le(),
        TransitionLeaf { version: 0, index: 1, variant: 3, id: f(501) }.to_bits_le(),
        TransitionLeaf { version: 0, index: 2, variant: 3, id: f(70) }.to_bits_le(),
    ];
    assert_eq!(derived.id, Testnet::merkle_root_bhp(4, &leaves));
    assert_eq!(derived.id(), &derived.id);
    assert_eq!(derived.inputs(), &inputs);
    assert_eq!(derived.outputs(), &outputs);
    assert_eq!(transition_id::<Testnet>(&inputs, &outputs), Ok(derived.id));
    // Another order of the same values is another transition.
    let swapped = vec![Input::Record(f(501), f(601)), Input::Public(f(1))];
    assert_ne!(transition_id::<Testnet>(&swapped, &outputs), Ok(derived.id));

    // Sixteen leaves fit the tree, seventeen do not.
    let many = vec![Input::Public(f(1)); 16];
    assert!(transition_id::<Testnet>(&many, &vec![]).is_ok());
    let error = Transition::derive::<Testnet>(program_id(), id("transfer"), many, outputs).unwrap_err();
    assert_eq!(error, Error::TooManyLeaves { found: 17 });
    assert_eq!(error.kind(), ErrorKind::ProofInputError);
}

#[test]
fn assignment_for_a_task_selects_the_root_by_locality() {
    let task = InputTask {
        commitment: f(70),
        gamma: g(9),
        serial_number: f(501),
        leaf: TransitionLeaf { version: 0, index: 1, variant: 3, id: f(501) },
        is_local: true,
    };
    let local = InclusionAssignment::for_task(&task, sample_state_path(f(0), f(70)), f(77));
    assert!(!local.is_global);
    assert_eq!((local.commitment, local.gamma, local.serial_number, local.local_state_root), (f(70), g(9), f(501), f(77)));
    let global = InclusionAssignment::for_task(&InputTask { is_local: false, ..task }, sample_state_path(f(0), f(70)), f(77));
    assert!(global.is_global);
    assert_eq!(global.state_path, sample_state_path(f(0), f(70)));
}
