//! The circuit of an inclusion statement: the environment that variables
//! and constraints are entered into, and the assignment that it ejects.

use vstd::prelude::*;
use crate::error::Error;
use crate::field::{Field, Group};
use crate::inclusion::InputTask;
use crate::network::Network;
use crate::state_path::{
    derive_serial_number, spec_derive_serial_number, StatePath, StatePathView,
};

verus! {

/// How a value enters a circuit.
#[derive(Clone, Copy, Debug, PartialEq, Eq, Structural)]
pub enum Mode {
    Constant,
    Public,
    Private,
}

/// A private value of a circuit.
#[derive(Debug, PartialEq, Eq)]
pub enum Witness {
    StatePath(StatePath),
    Field(Field),
    Group(Group),
    Boolean(bool),
}

/// A private value of a circuit, as a mathematical value.
pub enum WitnessView {
    StatePath(StatePathView),
    Field(Field),
    Group(Group),
    Boolean(bool),
}

/// A constraint between the values of a circuit. Private values are named
/// by their position among the private values, public ones by their
/// position among the public values.
#[derive(Clone, Copy, Debug, PartialEq, Eq, Structural)]
pub enum Constraint {
    /// The serial number derived from the private `gamma` and `commitment`
    /// is the public `serial_number`.
    SerialNumber { gamma: usize, commitment: usize, serial_number: usize },
    /// The leaf that the private state path starts from is the private
    /// commitment.
    LeafIsCommitment { state_path: usize, commitment: usize },
    /// The global state root that the private state path claims is the
    /// public `global_state_root`, and the path verifies against the root
    /// that the private flag selects: that one, or the public
    /// `local_state_root`.
    PathVerifies {
        state_path: usize,
        is_global: usize,
        global_state_root: usize,
        local_state_root: usize,
    },
}

/// What a circuit environment ejects: the public values, the private
/// values and the constraints, each in the order they were entered.
#[derive(Debug, PartialEq, Eq)]
pub struct Assignment {
    pub public: Vec<Field>,
    pub private: Vec<Witness>,
    pub constraints: Vec<Constraint>,
}

/// An assignment as a mathematical value.
pub struct AssignmentView {
    pub public: Seq<Field>,
    pub private: Seq<WitnessView>,
    pub constraints: Seq<Constraint>,
}

/// A circuit environment. It is owned by one builder at a time, which
/// enters values and constraints and ejects the assignment at the end.
#[derive(Debug, PartialEq, Eq)]
pub struct Circuit {
    pub constants: Vec<Field>,
    pub public: Vec<Field>,
    pub private: Vec<Witness>,
    pub constraints: Vec<Constraint>,
}

/// A circuit environment as a mathematical value.
pub struct CircuitView {
    pub constants: Seq<Field>,
    pub public: Seq<Field>,
    pub private: Seq<WitnessView>,
    pub constraints: Seq<Constraint>,
}

/// What is claimed of a consumed record: the path to its commitment and the
/// values that its serial number is derived from.
#[derive(Debug, PartialEq, Eq)]
pub struct InclusionAssignment {
    pub state_path: StatePath,
    pub commitment: Field,
    pub gamma: Group,
    pub serial_number: Field,
    pub local_state_root: Field,
    pub is_global: bool,
}

/// An inclusion assignment as a mathematical value.
pub struct InclusionAssignmentView {
    pub state_path: StatePathView,
    pub commitment: Field,
    pub gamma: Group,
    pub serial_number: Field,
    pub local_state_root: Field,
    pub is_global: bool,
}

impl View for Witness {
    type V = WitnessView;

    open spec fn view(&self) -> WitnessView {
        match self {
            Witness::StatePath(path) => WitnessView::StatePath(path@),
            Witness::Field(x) => WitnessView::Field(*x),
            Witness::Group(g) => WitnessView::Group(*g),
            Witness::Boolean(b) => WitnessView::Boolean(*b),
        }
    }
}

/// The private values that a list of witnesses holds.
pub open spec fn witness_views(private: Seq<Witness>) -> Seq<WitnessView> {
    Seq::new(private.len(), |i: int| private[i]@)
}

impl View for Assignment {
    type V = AssignmentView;

    open spec fn view(&self) -> AssignmentView {
        AssignmentView {
            public: self.public@,
            private: witness_views(self.private@),
            constraints: self.constraints@,
        }
    }
}

impl View for Circuit {
    type V = CircuitView;

    open spec fn view(&self) -> CircuitView {
        CircuitView {
            constants: self.constants@,
            public: self.public@,
            private: witness_views(self.private@),
            constraints: self.constraints@,
        }
    }
}

impl View for InclusionAssignment {
    type V = InclusionAssignmentView;

    open spec fn view(&self) -> InclusionAssignmentView {
        InclusionAssignmentView {
            state_path: self.state_path@,
            commitment: self.commitment,
            gamma: self.gamma,
            serial_number: self.serial_number,
            local_state_root: self.local_state_root,
            is_global: self.is_global,
        }
    }
}

impl CircuitView {
    /// The environment before anything was entered: no constant, the
    /// public value one, no private value, no constraint.
    pub open spec fn clean() -> CircuitView {
        CircuitView {
            constants: Seq::empty(),
            public: seq![Field::spec_one()],
            private: Seq::empty(),
            constraints: Seq::empty(),
        }
    }

    /// The numbers of constants, public values, private values and
    /// constraints.
    pub open spec fn count(self) -> (nat, nat, nat, nat) {
        (self.constants.len(), self.public.len(), self.private.len(), self.constraints.len())
    }

    /// Whether the counts are those of the clean environment.
    pub open spec fn is_clean(self) -> bool {
        self.count() == (0nat, 1nat, 0nat, 0nat)
    }
}

impl Constraint {
    /// Whether the constraint holds of the given values. A constraint that
    /// names a value that is not there, or of another kind, does not hold.
    pub open spec fn holds<N: Network>(self, public: Seq<Field>, private: Seq<WitnessView>) -> bool {
        match self {
            Constraint::SerialNumber { gamma, commitment, serial_number } => {
                &&& gamma < private.len()
                &&& commitment < private.len()
                &&& serial_number < public.len()
                &&& private[gamma as int] is Group
                &&& private[commitment as int] is Field
                &&& spec_derive_serial_number::<N>(
                    private[commitment as int]->Field_0,
                    private[gamma as int]->Group_0,
                ) == public[serial_number as int]
            },
            Constraint::LeafIsCommitment { state_path, commitment } => {
                &&& state_path < private.len()
                &&& commitment < private.len()
                &&& private[state_path as int] is StatePath
                &&& private[commitment as int] is Field
                &&& private[state_path as int]->StatePath_0.transition_leaf.id
                    == private[commitment as int]->Field_0
            },
            Constraint::PathVerifies {
                state_path,
                is_global,
                global_state_root,
                local_state_root,
            } => {
                &&& state_path < private.len()
                &&& is_global < private.len()
                &&& global_state_root < public.len()
                &&& local_state_root < public.len()
                &&& private[state_path as int] is StatePath
                &&& private[is_global as int] is Boolean
                &&& private[state_path as int]->StatePath_0.global_state_root
                    == public[global_state_root as int]
                &&& private[state_path as int]->StatePath_0.verifies::<N>(
                    private[is_global as int]->Boolean_0,
                    public[local_state_root as int],
                )
            },
        }
    }

    /// Whether the constraint holds of the given values.
    pub fn check<N: Network>(&self, public: &Vec<Field>, private: &Vec<Witness>) -> (r: bool)
        ensures
            r == self.holds::<N>(public@, witness_views(private@)),
    {
        match self {
            Constraint::SerialNumber { gamma, commitment, serial_number } => {
                if *gamma >= private.len() || *commitment >= private.len() || *serial_number
                    >= public.len() {
                    return false;
                }
                match (&private[*gamma], &private[*commitment]) {
                    (Witness::Group(g), Witness::Field(c)) => derive_serial_number::<N>(c, g)
                        == public[*serial_number],
                    _ => false,
                }
            },
            Constraint::LeafIsCommitment { state_path, commitment } => {
                if *state_path >= private.len() || *commitment >= private.len() {
                    return false;
                }
                match (&private[*state_path], &private[*commitment]) {
                    (Witness::StatePath(path), Witness::Field(c)) => path.transition_leaf.id == *c,
                    _ => false,
                }
            },
            Constraint::PathVerifies {
                state_path,
                is_global,
                global_state_root,
                local_state_root,
            } => {
                if *state_path >= private.len() || *is_global >= private.len()
                    || *global_state_root >= public.len() || *local_state_root >= public.len() {
                    return false;
                }
                match (&private[*state_path], &private[*is_global]) {
                    (Witness::StatePath(path), Witness::Boolean(flag)) => {
                        let same_root = path.global_state_root == public[*global_state_root];
                        let verifies = path.verify::<N>(*flag, &public[*local_state_root]);
                        same_root && verifies
                    },
                    _ => false,
                }
            },
        }
    }
}

impl AssignmentView {
    /// Whether the values satisfy every constraint.
    pub open spec fn is_satisfied<N: Network>(self) -> bool {
        forall|i: int|
            0 <= i < self.constraints.len() ==> (#[trigger] self.constraints[i]).holds::<N>(
                self.public,
                self.private,
            )
    }
}

impl Assignment {
    /// The public values: what the verifier of the statement is given.
    pub fn public_inputs(&self) -> (r: &Vec<Field>)
        ensures
            r@ == self@.public,
    {
        &self.public
    }

    /// Whether the values satisfy every constraint.
    pub fn is_satisfied<N: Network>(&self) -> (r: bool)
        ensures
            r == self@.is_satisfied::<N>(),
    {
        let n: usize = self.constraints.len();
        let mut i: usize = 0;
        while i < n
            invariant
                i <= n,
                n == self.constraints@.len(),
                forall|j: int|
                    0 <= j < i ==> (#[trigger] self@.constraints[j]).holds::<N>(
                        self@.public,
                        self@.private,
                    ),
            decreases n - i,
        {
            if !self.constraints[i].check::<N>(&self.public, &self.private) {
                assert(!self@.constraints[i as int].holds::<N>(self@.public, self@.private));
                return false;
            }
            i = i + 1;
        }
        true
    }
}

impl Circuit {
    /// A clean environment.
    pub fn new() -> (r: Circuit)
        ensures
            r@ == CircuitView::clean(),
    {
        let mut public: Vec<Field> = Vec::new();
        public.push(Field::one());
        let r = Circuit {
            constants: Vec::new(),
            public,
            private: Vec::new(),
            constraints: Vec::new(),
        };
        assert(r@.public =~= seq![Field::spec_one()]);
        assert(r@.private =~= Seq::empty());
        r
    }

    /// The numbers of constants, public values, private values and
    /// constraints.
    pub fn count(&self) -> (r: (usize, usize, usize, usize))
        ensures
            (r.0 as nat, r.1 as nat, r.2 as nat, r.3 as nat) == self@.count(),
    {
        (self.constants.len(), self.public.len(), self.private.len(), self.constraints.len())
    }

    /// Whether the counts are those of the clean environment.
    pub fn is_clean(&self) -> (r: bool)
        ensures
            r == self@.is_clean(),
    {
        let count = self.count();
        count.0 == 0 && count.1 == 1 && count.2 == 0 && count.3 == 0
    }

    /// Makes the environment clean.
    pub fn reset(&mut self)
        ensures
            final(self)@ == CircuitView::clean(),
    {
        *self = Circuit::new();
    }

    /// Enters a field element and returns its position among the values of
    /// its mode.
    pub fn new_field(&mut self, mode: Mode, value: Field) -> (r: usize)
        ensures
            mode == Mode::Constant ==> r == old(self)@.constants.len() && final(self)@ == (
            CircuitView { constants: old(self)@.constants.push(value), ..old(self)@ }),
            mode == Mode::Public ==> r == old(self)@.public.len() && final(self)@ == (CircuitView {
                public: old(self)@.public.push(value),
                ..old(self)@
            }),
            mode == Mode::Private ==> r == old(self)@.private.len() && final(self)@ == (
            CircuitView { private: old(self)@.private.push(WitnessView::Field(value)), ..old(self)@ }),
    {
        match mode {
            Mode::Constant => {
                self.constants.push(value);
                self.constants.len() - 1
            },
            Mode::Public => {
                self.public.push(value);
                self.public.len() - 1
            },
            Mode::Private => self.new_private(Witness::Field(value)),
        }
    }

    /// Enters a private value and returns its position.
    pub fn new_private(&mut self, value: Witness) -> (r: usize)
        ensures
            r == old(self)@.private.len(),
            final(self)@ == (CircuitView {
                private: old(self)@.private.push(value@),
                ..old(self)@
            }),
    {
        self.private.push(value);
        assert(self@.private =~= old(self)@.private.push(value@));
        self.private.len() - 1
    }

    /// Enters a constraint.
    pub fn enforce(&mut self, constraint: Constraint)
        ensures
            final(self)@ == (CircuitView {
                constraints: old(self)@.constraints.push(constraint),
                ..old(self)@
            }),
    {
        self.constraints.push(constraint);
    }

    /// Hands out what was entered and makes the environment clean.
    pub fn eject_assignment_and_reset(&mut self) -> (r: Assignment)
        ensures
            r@.public == old(self)@.public,
            r@.private == old(self)@.private,
            r@.constraints == old(self)@.constraints,
            final(self)@ == CircuitView::clean(),
    {
        let mut taken = Circuit::new();
        std::mem::swap(self, &mut taken);
        Assignment { public: taken.public, private: taken.private, constraints: taken.constraints }
    }
}

impl InclusionAssignmentView {
    /// The assignment of the statement: the public values `[1,
    /// global_state_root, local_state_root, serial_number]`, the private
    /// values `[state_path, commitment, gamma, is_global]`, and the three
    /// constraints that bind them.
    pub open spec fn assignment(self) -> AssignmentView {
        AssignmentView {
            public: seq![
                Field::spec_one(),
                self.state_path.global_state_root,
                self.local_state_root,
                self.serial_number,
            ],
            private: seq![
                WitnessView::StatePath(self.state_path),
                WitnessView::Field(self.commitment),
                WitnessView::Group(self.gamma),
                WitnessView::Boolean(self.is_global),
            ],
            constraints: seq![
                Constraint::SerialNumber { gamma: 2, commitment: 1, serial_number: 3 },
                Constraint::LeafIsCommitment { state_path: 0, commitment: 1 },
                Constraint::PathVerifies {
                    state_path: 0,
                    is_global: 3,
                    global_state_root: 1,
                    local_state_root: 2,
                },
            ],
        }
    }

    /// What the statement claims: the serial number is the one derived from
    /// the commitment and gamma, the state path starts at the commitment,
    /// and it verifies against the root that `is_global` selects.
    pub open spec fn claim<N: Network>(self) -> bool {
        &&& spec_derive_serial_number::<N>(self.commitment, self.gamma) == self.serial_number
        &&& self.state_path.transition_leaf.id == self.commitment
        &&& self.state_path.verifies::<N>(self.is_global, self.local_state_root)
    }

    /// The assignment of a statement is satisfied exactly when what the
    /// statement claims is true.
    pub proof fn lemma_satisfied_iff_claim<N: Network>(self)
        ensures
            self.assignment().is_satisfied::<N>() <==> self.claim::<N>(),
    {
        let a = self.assignment();
        if self.claim::<N>() {
            assert forall|i: int| 0 <= i < a.constraints.len() implies (
            #[trigger] a.constraints[i]).holds::<N>(a.public, a.private) by {
                if i == 0 {
                } else if i == 1 {
                } else {
                }
            }
        }
        if a.is_satisfied::<N>() {
            assert(a.constraints[0].holds::<N>(a.public, a.private));
            assert(a.constraints[1].holds::<N>(a.public, a.private));
            assert(a.constraints[2].holds::<N>(a.public, a.private));
        }
    }
}

impl InclusionAssignment {
    /// The statement for a consumed record whose task the tracker holds:
    /// against the local state root where an earlier transition of the
    /// transaction produced the record, against the global state root
    /// where none did.
    pub fn for_task(task: &InputTask, state_path: StatePath, local_state_root: Field) -> (r:
        InclusionAssignment)
        ensures
            r == (InclusionAssignment {
                state_path,
                commitment: task.commitment,
                gamma: task.gamma,
                serial_number: task.serial_number,
                local_state_root,
                is_global: !task.is_local,
            }),
    {
        InclusionAssignment::new(
            state_path,
            task.commitment,
            task.gamma,
            task.serial_number,
            local_state_root,
            !task.is_local,
        )
    }

    /// Initializes a new inclusion assignment.
    pub fn new(
        state_path: StatePath,
        commitment: Field,
        gamma: Group,
        serial_number: Field,
        local_state_root: Field,
        is_global: bool,
    ) -> (r: InclusionAssignment)
        ensures
            r == (InclusionAssignment {
                state_path,
                commitment,
                gamma,
                serial_number,
                local_state_root,
                is_global,
            }),
    {
        InclusionAssignment {
            state_path,
            commitment,
            gamma,
            serial_number,
            local_state_root,
            is_global,
        }
    }

    /// Builds the circuit of the statement in `env` and ejects its
    /// assignment.
    ///
    /// The environment must be clean on entry: where it is not, the call
    /// fails and leaves the environment as it is. Else the assignment is
    /// that of the statement, and the environment is clean again.
    pub fn to_circuit_assignment(&self, env: &mut Circuit) -> (r: Result<Assignment, Error>)
        ensures
            !old(env)@.is_clean() ==> r == Err::<Assignment, Error>(Error::CircuitNotClean)
                && *final(env) == *old(env),
            old(env)@.is_clean() ==> r is Ok && r->Ok_0@ == self@.assignment() && final(env)@
                == CircuitView::clean(),
    {
        // Ensure the circuit environment is clean.
        if !env.is_clean() {
            return Err(Error::CircuitNotClean);
        }
        env.reset();

        // Inject the state path as private, with its global state root as public.
        let global_state_root = env.new_field(Mode::Public, self.state_path.global_state_root);
        let state_path = env.new_private(Witness::StatePath(self.state_path.duplicate()));
        // Inject the commitment as private.
        let commitment = env.new_field(Mode::Private, self.commitment);
        // Inject the gamma as private.
        let gamma = env.new_private(Witness::Group(self.gamma));

        // Inject the local state root as public.
        let local_state_root = env.new_field(Mode::Public, self.local_state_root);
        // Inject the 'is_global' flag as private.
        let is_global = env.new_private(Witness::Boolean(self.is_global));

        // Inject the serial number as public.
        let serial_number = env.new_field(Mode::Public, self.serial_number);
        // Enforce that the serial number derived from gamma and the commitment is the serial number.
        env.enforce(Constraint::SerialNumber { gamma, commitment, serial_number });

        // Enforce the starting leaf is the claimed commitment.
        env.enforce(Constraint::LeafIsCommitment { state_path, commitment });
        // Enforce the state path from leaf to root is correct.
        env.enforce(
            Constraint::PathVerifies { state_path, is_global, global_state_root, local_state_root },
        );

        // Eject the assignment and reset the circuit environment.
        let assignment = env.eject_assignment_and_reset();
        proof {
            let expected = self@.assignment();
            assert(assignment@.public =~= expected.public);
            assert(assignment@.private =~= expected.private);
            assert(assignment@.constraints =~= expected.constraints);
        }
        Ok(assignment)
    }
}

} // verus!
