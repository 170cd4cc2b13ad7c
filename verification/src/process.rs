//! The process: the registry of program stacks, with deployment and
//! authorization.

use vstd::prelude::*;
use vstd::string::StringSliceAdditionalSpecFns;
use crate::error::{Error, ErrorKind};
use crate::field::Field;
use crate::ident::{valid_name, Identifier, ProgramID};
use crate::program::{Function, FunctionView, Program, ProgramView, ValueType};
use crate::record::Value;
use crate::transition::InputID;

verus! {

/// The verifying key of a function's circuit, by its digest.
#[derive(Clone, Copy, Debug, PartialEq, Eq, Structural)]
pub struct VerifyingKey {
    pub digest: Field,
}

/// The certificate that a verifying key belongs to a function, by its
/// digest.
#[derive(Clone, Copy, Debug, PartialEq, Eq, Structural)]
pub struct Certificate {
    pub digest: Field,
}

/// The private key of an account.
#[derive(Clone, Copy, Debug, PartialEq, Eq, Structural)]
pub struct PrivateKey {
    pub seed: Field,
}

/// A signature.
#[derive(Clone, Copy, Debug, PartialEq, Eq, Structural)]
pub struct Signature {
    pub challenge: Field,
    pub response: Field,
}

/// A signed intent to call a function on given inputs.
#[derive(Debug, PartialEq, Eq)]
pub struct Request {
    pub program_id: ProgramID,
    pub function_name: Identifier,
    pub input_ids: Vec<InputID>,
    pub inputs: Vec<Value>,
    pub signature: Signature,
}

/// The requests that authorize one call and the calls it makes.
#[derive(Debug, PartialEq, Eq)]
pub struct Authorization {
    pub requests: Vec<Request>,
}

/// A program with a verifying key and a certificate for each function, in
/// the order of the functions.
#[derive(Debug, PartialEq, Eq)]
pub struct Deployment {
    pub program: Program,
    pub verifying_keys: Vec<(Identifier, (VerifyingKey, Certificate))>,
}

/// A deployment as a mathematical value.
pub struct DeploymentView {
    pub program: ProgramView,
    pub verifying_keys: Seq<(Identifier, (VerifyingKey, Certificate))>,
}

/// A program made callable: the program and the verifying keys of its
/// functions.
#[derive(Debug, PartialEq, Eq)]
pub struct Stack {
    pub program: Program,
    pub verifying_keys: Vec<(Identifier, VerifyingKey)>,
}

/// A stack as a mathematical value.
pub struct StackView {
    pub program: ProgramView,
    pub verifying_keys: Seq<(Identifier, VerifyingKey)>,
}

/// The registry of stacks.
#[derive(Debug, PartialEq, Eq)]
pub struct Process {
    pub stacks: Vec<Stack>,
}

/// A process as a mathematical value.
pub struct ProcessView {
    pub stacks: Seq<StackView>,
}

/// One use of the proving environment, with what it answered.
#[allow(inconsistent_fields)]
pub enum Call {
    /// A verifying key and a certificate were asked for.
    Synthesize {
        program: ProgramID,
        function: FunctionView,
        result: Option<(VerifyingKey, Certificate)>,
    },
    /// A certificate was checked against a verifying key.
    Verify {
        program: ProgramID,
        function: FunctionView,
        verifying_key: VerifyingKey,
        certificate: Certificate,
        result: bool,
    },
    /// A request was signed.
    Sign {
        private_key: PrivateKey,
        program: ProgramID,
        function: Identifier,
        inputs: Seq<Value>,
        input_types: Seq<ValueType>,
        result: Option<(Seq<InputID>, Signature)>,
    },
    /// A function was run to fill in an authorization.
    Authorize {
        private_key: PrivateKey,
        program: ProgramView,
        authorization: Authorization,
        result: bool,
    },
}

/// What a signing returned, as a mathematical value.
pub open spec fn signed_view(r: Option<(Vec<InputID>, Signature)>) -> Option<
    (Seq<InputID>, Signature),
> {
    match r {
        Some((ids, signature)) => Some((ids@, signature)),
        None => None,
    }
}

/// The proving environment: it makes and checks keys, signs requests and
/// runs functions. What it answers may depend on randomness, so nothing is
/// said of the answers; `calls` records, in order, what it was asked and
/// what it answered.
pub trait Aleo {
    /// The uses made of the environment so far.
    spec fn calls(&self) -> Seq<Call>;

    /// Makes a verifying key and a certificate for a function. `None` when
    /// none can be made.
    fn synthesize_key(&mut self, program: &ProgramID, function: &Function) -> (r: Option<
        (VerifyingKey, Certificate),
    >)
        ensures
            final(self).calls() == old(self).calls().push(
                Call::Synthesize { program: *program, function: function@, result: r },
            ),
    ;

    /// Whether the certificate shows that the verifying key belongs to the
    /// function.
    fn verify_certificate(
        &mut self,
        program: &ProgramID,
        function: &Function,
        verifying_key: &VerifyingKey,
        certificate: &Certificate,
    ) -> (r: bool)
        ensures
            final(self).calls() == old(self).calls().push(
                Call::Verify {
                    program: *program,
                    function: function@,
                    verifying_key: *verifying_key,
                    certificate: *certificate,
                    result: r,
                },
            ),
    ;

    /// Signs a call of `function` on `inputs` of the given types: the IDs
    /// of the inputs and the signature. `None` when the inputs do not have
    /// the types.
    fn sign_request(
        &mut self,
        private_key: &PrivateKey,
        program: &ProgramID,
        function: &Identifier,
        inputs: &Vec<Value>,
        input_types: &Vec<ValueType>,
    ) -> (r: Option<(Vec<InputID>, Signature)>)
        ensures
            final(self).calls() == old(self).calls().push(
                Call::Sign {
                    private_key: *private_key,
                    program: *program,
                    function: *function,
                    inputs: inputs@,
                    input_types: input_types@,
                    result: signed_view(r),
                },
            ),
    ;

    /// Runs the function that the authorization's request names, to record
    /// the calls that it makes. Whether the function ran to its end.
    fn authorize_function(
        &mut self,
        private_key: &PrivateKey,
        program: &Program,
        authorization: &Authorization,
    ) -> (r: bool)
        ensures
            final(self).calls() == old(self).calls().push(
                Call::Authorize {
                    private_key: *private_key,
                    program: program@,
                    authorization: *authorization,
                    result: r,
                },
            ),
    ;
}

impl View for Deployment {
    type V = DeploymentView;

    open spec fn view(&self) -> DeploymentView {
        DeploymentView { program: self.program@, verifying_keys: self.verifying_keys@ }
    }
}

impl View for Stack {
    type V = StackView;

    open spec fn view(&self) -> StackView {
        StackView { program: self.program@, verifying_keys: self.verifying_keys@ }
    }
}

impl View for Process {
    type V = ProcessView;

    open spec fn view(&self) -> ProcessView {
        ProcessView { stacks: Seq::new(self.stacks@.len(), |i: int| self.stacks@[i]@) }
    }
}

impl StackView {
    /// Whether a key is held for the function of the given name.
    pub open spec fn has_key(self, name: Identifier) -> bool {
        exists|i: int| 0 <= i < self.verifying_keys.len() && (#[trigger] self.verifying_keys[i]).0 == name
    }

    /// The stack with one more verifying key. It fails when the program has
    /// no function of that name, or the function has a key already.
    pub open spec fn insert_verifying_key(self, name: Identifier, key: VerifyingKey) -> Result<
        StackView,
        Error,
    > {
        if !self.program.contains_function(name) {
            Err(Error::UnknownFunction { program: self.program.id, function: name })
        } else if self.has_key(name) {
            Err(Error::KeyExists { program: self.program.id, function: name })
        } else {
            Ok(
                StackView {
                    program: self.program,
                    verifying_keys: self.verifying_keys.push((name, key)),
                },
            )
        }
    }

    /// The stack after the first `n` keys of a deployment were inserted, in
    /// order; the first failure, if one fails.
    pub open spec fn insert_keys(
        self,
        keys: Seq<(Identifier, (VerifyingKey, Certificate))>,
        n: nat,
    ) -> Result<StackView, Error>
        decreases n,
    {
        if n == 0 {
            Ok(self)
        } else {
            match self.insert_keys(keys, (n - 1) as nat) {
                Ok(stack) => stack.insert_verifying_key(keys[n - 1].0, keys[n - 1].1.0),
                Err(e) => Err(e),
            }
        }
    }
}

impl ProcessView {
    /// Whether a program of the given ID is registered.
    pub open spec fn contains_program(self, id: ProgramID) -> bool {
        exists|i: int| 0 <= i < self.stacks.len() && (#[trigger] self.stacks[i]).program.id == id
    }

    /// The stack of a program that is new to the process. It fails when a
    /// program of that ID is registered, when the program has no function,
    /// and when two of its functions share a name.
    pub open spec fn new_stack(self, program: ProgramView) -> Result<StackView, Error> {
        if self.contains_program(program.id) {
            Err(Error::ProgramExists { program: program.id })
        } else if program.functions.len() == 0 {
            Err(Error::NoFunctions { program: program.id })
        } else if !program.names_distinct() {
            Err(Error::MalformedProgram { program: program.id })
        } else {
            Ok(StackView { program, verifying_keys: Seq::empty() })
        }
    }

    /// The process after a deployment was loaded; the failure, if it
    /// cannot be.
    pub open spec fn load_deployment(self, deployment: DeploymentView) -> Result<ProcessView, Error> {
        match self.new_stack(deployment.program) {
            Err(e) => Err(e),
            Ok(stack) => match stack.insert_keys(
                deployment.verifying_keys,
                deployment.verifying_keys.len(),
            ) {
                Err(e) => Err(e),
                Ok(stack) => Ok(ProcessView { stacks: self.stacks.push(stack) }),
            },
        }
    }
}

/// Inserting keys leaves the program of a stack as it is.
pub proof fn lemma_insert_keys_program(
    stack: StackView,
    keys: Seq<(Identifier, (VerifyingKey, Certificate))>,
    n: nat,
)
    ensures
        stack.insert_keys(keys, n) is Ok ==> stack.insert_keys(keys, n).unwrap().program
            == stack.program,
    decreases n,
{
    if n > 0 {
        lemma_insert_keys_program(stack, keys, (n - 1) as nat);
    }
}

/// A deployment cannot be loaded twice: once it is loaded, loading it again
/// fails because its program is registered, which is a state conflict, and
/// so does loading any other deployment of a program with the same ID.
pub proof fn lemma_load_deployment_twice(
    process: ProcessView,
    first: DeploymentView,
    second: DeploymentView,
)
    requires
        process.load_deployment(first) is Ok,
        second.program.id == first.program.id,
    ensures
        ({
            let again = process.load_deployment(first).unwrap().load_deployment(second);
            &&& again is Err
            &&& again->Err_0 == (Error::ProgramExists { program: first.program.id })
            &&& again->Err_0.spec_kind() == ErrorKind::StateConflict
        }),
{
    let stack = process.new_stack(first.program).unwrap();
    lemma_insert_keys_program(stack, first.verifying_keys, first.verifying_keys.len());
    let loaded = process.load_deployment(first).unwrap();
    let last = loaded.stacks.len() - 1;
    assert(loaded.stacks[last].program.id == first.program.id);
}

/// Whether `keys` holds one key per function of `program`, under the
/// function's name, in the order of the functions.
pub open spec fn keys_match(
    program: ProgramView,
    keys: Seq<(Identifier, (VerifyingKey, Certificate))>,
) -> bool {
    &&& keys.len() == program.functions.len()
    &&& forall|i: int| 0 <= i < keys.len() ==> (#[trigger] keys[i]).0 == program.functions[i].name
}

/// The record of asking for the key of the function at `i`.
pub open spec fn synthesized(
    program: ProgramView,
    i: int,
    result: Option<(VerifyingKey, Certificate)>,
) -> Call {
    Call::Synthesize { program: program.id, function: program.functions[i], result }
}

/// The record of checking the certificate of the function at `i`.
pub open spec fn verified(
    program: ProgramView,
    keys: Seq<(Identifier, (VerifyingKey, Certificate))>,
    i: int,
    result: bool,
) -> Call {
    Call::Verify {
        program: program.id,
        function: program.functions[i],
        verifying_key: keys[i].1.0,
        certificate: keys[i].1.1,
        result,
    }
}

/// What deploying `program` does and returns: keys are asked for function
/// by function; the deployment holds them all, and the first function
/// without one fails the deployment and ends the asking.
pub open spec fn deploy_outcome(
    program: ProgramView,
    before: Seq<Call>,
    after: Seq<Call>,
    r: Result<Deployment, Error>,
) -> bool {
    let n = program.functions.len() as int;
    let start = before.len() as int;
    &&& after.len() >= start
    &&& after.take(start) == before
    &&& match r {
        Ok(deployment) => {
            &&& deployment@.program == program
            &&& keys_match(program, deployment@.verifying_keys)
            &&& after.len() == start + n
            &&& forall|i: int|
                0 <= i < n ==> #[trigger] after[start + i] == synthesized(
                    program,
                    i,
                    Some(deployment@.verifying_keys[i].1),
                )
        },
        Err(e) => {
            let j = after.len() - start - 1;
            &&& 0 <= j < n
            &&& forall|i: int|
                0 <= i < j ==> (#[trigger] after[start + i]) is Synthesize && after[start
                    + i]->Synthesize_result is Some && after[start + i] == synthesized(
                    program,
                    i,
                    after[start + i]->Synthesize_result,
                )
            &&& after[start + j] == synthesized(program, j, None)
            &&& e == (Error::SynthesisFailed {
                program: program.id,
                function: program.functions[j].name,
            })
        },
    }
}

/// What verifying the keys of a deployment against `program` does and
/// returns: a deployment whose keys do not match the functions fails
/// unasked; else the certificates are checked function by function, and the
/// first that does not pass fails the deployment and ends the checking.
pub open spec fn verify_outcome(
    program: ProgramView,
    keys: Seq<(Identifier, (VerifyingKey, Certificate))>,
    before: Seq<Call>,
    after: Seq<Call>,
    r: Result<(), Error>,
) -> bool {
    let n = program.functions.len() as int;
    let start = before.len() as int;
    if !keys_match(program, keys) {
        after == before && r == Err::<(), Error>(Error::KeyMismatch { program: program.id })
    } else {
        &&& after.len() >= start
        &&& after.take(start) == before
        &&& match r {
            Ok(_) => {
                &&& after.len() == start + n
                &&& forall|i: int|
                    0 <= i < n ==> #[trigger] after[start + i] == verified(program, keys, i, true)
            },
            Err(e) => {
                let j = after.len() - start - 1;
                &&& 0 <= j < n
                &&& forall|i: int|
                    0 <= i < j ==> #[trigger] after[start + i] == verified(program, keys, i, true)
                &&& after[start + j] == verified(program, keys, j, false)
                &&& e == (Error::InvalidCertificate {
                    program: program.id,
                    function: program.functions[j].name,
                })
            },
        }
    }
}

/// Whether a call of the function named `name` with `found` inputs can be
/// authorized: the position of the function, or why not.
pub open spec fn check_call(program: ProgramView, name: Seq<u8>, found: nat) -> Result<int, Error> {
    if program.functions.len() == 0 {
        Err(Error::NoFunctions { program: program.id })
    } else if !valid_name(name) {
        Err(Error::InvalidIdentifier)
    } else {
        let function = Identifier::spec_from_name(name);
        match program.position(function, program.functions.len()) {
            None => Err(Error::UnknownFunction { program: program.id, function }),
            Some(i) => if program.functions[i].input_types.len() != found {
                Err(
                    Error::InputCountMismatch {
                        program: program.id,
                        function,
                        expected: program.functions[i].input_types.len() as usize,
                        found: found as usize,
                    },
                )
            } else {
                Ok(i)
            },
        }
    }
}

/// Whether `authorization` holds exactly the one request that binds the
/// program, the function, the inputs and what the signing returned.
pub open spec fn binds(
    authorization: Authorization,
    program: ProgramID,
    function: Identifier,
    inputs: Seq<Value>,
    input_ids: Seq<InputID>,
    signature: Signature,
) -> bool {
    &&& authorization.requests@.len() == 1
    &&& authorization.requests@[0].program_id == program
    &&& authorization.requests@[0].function_name == function
    &&& authorization.requests@[0].inputs@ == inputs
    &&& authorization.requests@[0].input_ids@ == input_ids
    &&& authorization.requests@[0].signature == signature
}

/// What authorizing a call of the function at `i`, once it passed the
/// checks, does and returns: the request is signed; if that fails, so does
/// the authorization; else the function is run on the authorization that
/// holds the signed request, and the authorization is returned if the
/// function ran to its end.
pub open spec fn authorize_outcome(
    private_key: PrivateKey,
    program: ProgramView,
    i: int,
    inputs: Seq<Value>,
    before: Seq<Call>,
    after: Seq<Call>,
    r: Result<Authorization, Error>,
) -> bool {
    let function = program.functions[i];
    let start = before.len() as int;
    &&& after.len() > start
    &&& after.take(start) == before
    &&& after[start] is Sign
    &&& after[start] == (Call::Sign {
        private_key,
        program: program.id,
        function: function.name,
        inputs,
        input_types: function.input_types,
        result: after[start]->Sign_result,
    })
    &&& match after[start]->Sign_result {
        None => {
            &&& after.len() == start + 1
            &&& r == Err::<Authorization, Error>(
                Error::SigningFailed { program: program.id, function: function.name },
            )
        },
        Some((input_ids, signature)) => {
            &&& after.len() == start + 2
            &&& after[start + 1] is Authorize
            &&& after[start + 1] == (Call::Authorize {
                private_key,
                program,
                authorization: after[start + 1]->Authorize_authorization,
                result: after[start + 1]->Authorize_result,
            })
            &&& binds(
                after[start + 1]->Authorize_authorization,
                program.id,
                function.name,
                inputs,
                input_ids,
                signature,
            )
            &&& if after[start + 1]->Authorize_result {
                r == Ok::<Authorization, Error>(after[start + 1]->Authorize_authorization)
            } else {
                r == Err::<Authorization, Error>(
                    Error::ExecutionFailed { program: program.id, function: function.name },
                )
            }
        },
    }
}

impl Authorization {
    /// The authorization that holds the given requests.
    pub fn new(requests: Vec<Request>) -> (r: Authorization)
        ensures
            r.requests == requests,
    {
        Authorization { requests }
    }
}

impl Stack {
    /// Compiles a program that is new to the process into a stack without
    /// keys.
    pub fn new(process: &Process, program: &Program) -> (r: Result<Stack, Error>)
        ensures
            match process@.new_stack(program@) {
                Ok(stack) => r is Ok && r->Ok_0@ == stack,
                Err(e) => r is Err && r->Err_0 == e,
            },
    {
        if process.contains_program(&program.id) {
            return Err(Error::ProgramExists { program: program.id });
        }
        if program.functions.len() == 0 {
            return Err(Error::NoFunctions { program: program.id });
        }
        if !program.names_distinct() {
            return Err(Error::MalformedProgram { program: program.id });
        }
        let stack = Stack { program: program.duplicate(), verifying_keys: Vec::new() };
        assert(stack@.verifying_keys =~= Seq::empty());
        Ok(stack)
    }

    /// Whether a key is held for the function of the given name.
    pub fn has_key(&self, name: &Identifier) -> (r: bool)
        ensures
            r == self@.has_key(*name),
    {
        let n: usize = self.verifying_keys.len();
        let mut i: usize = 0;
        while i < n
            invariant
                i <= n,
                n == self.verifying_keys@.len(),
                forall|j: int| 0 <= j < i ==> (#[trigger] self.verifying_keys@[j]).0 != *name,
            decreases n - i,
        {
            if self.verifying_keys[i].0 == *name {
                assert(self@.verifying_keys[i as int].0 == *name);
                return true;
            }
            i = i + 1;
        }
        false
    }

    /// Records the verifying key of a function. Fails, and changes nothing,
    /// when the program has no function of that name or the function has a
    /// key already.
    pub fn insert_verifying_key(&mut self, name: &Identifier, key: VerifyingKey) -> (r: Result<
        (),
        Error,
    >)
        ensures
            match old(self)@.insert_verifying_key(*name, key) {
                Ok(stack) => r is Ok && final(self)@ == stack,
                Err(e) => r == Err::<(), Error>(e) && final(self)@ == old(self)@,
            },
    {
        if !self.program.contains_function(name) {
            return Err(Error::UnknownFunction { program: self.program.id, function: *name });
        }
        if self.has_key(name) {
            return Err(Error::KeyExists { program: self.program.id, function: *name });
        }
        self.verifying_keys.push((*name, key));
        Ok(())
    }

    /// Asks the environment for a verifying key and a certificate for each
    /// function, in order.
    pub fn deploy<A: Aleo>(&self, env: &mut A) -> (r: Result<Deployment, Error>)
        ensures
            deploy_outcome(self@.program, old(env).calls(), final(env).calls(), r),
    {
        let ghost before = env.calls();
        let ghost program = self@.program;
        let n: usize = self.program.functions.len();
        let mut keys: Vec<(Identifier, (VerifyingKey, Certificate))> = Vec::new();
        let mut i: usize = 0;
        assert(env.calls().take(before.len() as int) =~= before);
        while i < n
            invariant
                i <= n,
                n == self.program.functions@.len(),
                program == self@.program,
                keys@.len() == i,
                before == old(env).calls(),
                env.calls().len() == before.len() + i,
                env.calls().take(before.len() as int) == before,
                forall|j: int| 0 <= j < i ==> (#[trigger] keys@[j]).0 == program.functions[j].name,
                forall|j: int|
                    0 <= j < i ==> #[trigger] env.calls()[before.len() + j] == synthesized(
                        program,
                        j,
                        Some(keys@[j].1),
                    ),
            decreases n - i,
        {
            let function = &self.program.functions[i];
            let ghost log = env.calls();
            assert(function@ == program.functions[i as int]);
            match env.synthesize_key(&self.program.id, function) {
                Some(pair) => {
                    keys.push((function.name, pair));
                    proof {
                        assert(env.calls().take(before.len() as int) =~= before);
                        assert forall|j: int| 0 <= j < i + 1 implies #[trigger] env.calls()[before.len()
                            + j] == synthesized(program, j, Some(keys@[j].1)) by {
                            if j < i {
                                assert(env.calls()[before.len() + j] == log[before.len() + j]);
                            }
                        }
                    }
                },
                None => {
                    proof {
                        assert(env.calls().take(before.len() as int) =~= before);
                        assert forall|j: int| 0 <= j < i implies (#[trigger] env.calls()[before.len()
                            + j]) is Synthesize && env.calls()[before.len()
                            + j]->Synthesize_result is Some && env.calls()[before.len() + j]
                            == synthesized(
                            program,
                            j,
                            env.calls()[before.len() + j]->Synthesize_result,
                        ) by {
                            assert(env.calls()[before.len() + j] == log[before.len() + j]);
                        }
                        assert(env.calls()[before.len() + i] == synthesized(program, i as int, None));
                    }
                    return Err(
                        Error::SynthesisFailed {
                            program: self.program.id,
                            function: function.name,
                        },
                    );
                },
            }
            i = i + 1;
        }
        Ok(Deployment { program: self.program.duplicate(), verifying_keys: keys })
    }

    /// Checks the keys of a deployment of this stack's program: one per
    /// function, in order, each with a certificate that passes.
    pub fn verify_deployment<A: Aleo>(&self, env: &mut A, deployment: &Deployment) -> (r: Result<
        (),
        Error,
    >)
        ensures
            verify_outcome(
                self@.program,
                deployment@.verifying_keys,
                old(env).calls(),
                final(env).calls(),
                r,
            ),
    {
        let ghost before = env.calls();
        let ghost program = self@.program;
        let ghost keys = deployment@.verifying_keys;
        let n: usize = self.program.functions.len();
        if deployment.verifying_keys.len() != n {
            return Err(Error::KeyMismatch { program: self.program.id });
        }
        let mut i: usize = 0;
        while i < n
            invariant
                i <= n,
                n == self.program.functions@.len(),
                n == deployment.verifying_keys@.len(),
                program == self@.program,
                forall|j: int| 0 <= j < i ==> (#[trigger] keys[j]).0 == program.functions[j].name,
                keys == deployment@.verifying_keys,
            decreases n - i,
        {
            if !(deployment.verifying_keys[i].0 == self.program.functions[i].name) {
                assert(keys[i as int].0 != program.functions[i as int].name);
                return Err(Error::KeyMismatch { program: self.program.id });
            }
            i = i + 1;
        }
        assert(keys_match(program, keys));
        assert(env.calls().take(before.len() as int) =~= before);
        let mut i: usize = 0;
        while i < n
            invariant
                i <= n,
                n == self.program.functions@.len(),
                n == deployment.verifying_keys@.len(),
                program == self@.program,
                keys == deployment@.verifying_keys,
                keys_match(program, keys),
                before == old(env).calls(),
                env.calls().len() == before.len() + i,
                env.calls().take(before.len() as int) == before,
                forall|j: int|
                    0 <= j < i ==> #[trigger] env.calls()[before.len() + j] == verified(
                        program,
                        keys,
                        j,
                        true,
                    ),
            decreases n - i,
        {
            let function = &self.program.functions[i];
            let entry = &deployment.verifying_keys[i];
            let ghost log = env.calls();
            assert(function@ == program.functions[i as int]);
            assert(*entry == keys[i as int]);
            let passed = env.verify_certificate(&self.program.id, function, &entry.1.0, &entry.1.1);
            proof {
                assert(env.calls().take(before.len() as int) =~= before);
                assert forall|j: int| 0 <= j < i implies #[trigger] env.calls()[before.len() + j]
                    == verified(program, keys, j, true) by {
                    assert(env.calls()[before.len() + j] == log[before.len() + j]);
                }
                assert(env.calls()[before.len() + i] == verified(program, keys, i as int, passed));
            }
            if !passed {
                return Err(
                    Error::InvalidCertificate { program: self.program.id, function: function.name },
                );
            }
            i = i + 1;
        }
        Ok(())
    }

    /// Authorizes a call of the function named `function_name` on `inputs`.
    ///
    /// Fails before the environment is used when the program has no
    /// function, when the name is no identifier or names no function, and
    /// when the number of inputs is not the number that the function
    /// declares. After that the request is signed and the function is run
    /// once to fill in the authorization.
    pub fn authorize<A: Aleo>(
        &self,
        env: &mut A,
        private_key: &PrivateKey,
        function_name: &str,
        inputs: Vec<Value>,
    ) -> (r: Result<Authorization, Error>)
        ensures
            match check_call(self@.program, function_name.spec_bytes(), inputs@.len()) {
                Err(e) => r == Err::<Authorization, Error>(e) && final(env).calls() == old(
                    env,
                ).calls(),
                Ok(i) => authorize_outcome(
                    *private_key,
                    self@.program,
                    i,
                    inputs@,
                    old(env).calls(),
                    final(env).calls(),
                    r,
                ),
            },
    {
        let ghost before = env.calls();
        if self.program.functions.len() == 0 {
            return Err(Error::NoFunctions { program: self.program.id });
        }
        let name = match Identifier::from_str(function_name) {
            Some(name) => name,
            None => {
                return Err(Error::InvalidIdentifier);
            },
        };
        let function = match self.program.get_function(&name) {
            Some(function) => function,
            None => {
                return Err(Error::UnknownFunction { program: self.program.id, function: name });
            },
        };
        let expected: usize = function.input_types.len();
        if inputs.len() != expected {
            return Err(
                Error::InputCountMismatch {
                    program: self.program.id,
                    function: name,
                    expected,
                    found: inputs.len(),
                },
            );
        }
        proof {
            self@.program.lemma_position(name, self@.program.functions.len());
        }
        let signed = env.sign_request(
            private_key,
            &self.program.id,
            &name,
            &inputs,
            &function.input_types,
        );
        assert(env.calls().take(before.len() as int) =~= before);
        let (input_ids, signature) = match signed {
            Some(pair) => pair,
            None => {
                return Err(Error::SigningFailed { program: self.program.id, function: name });
            },
        };
        let request = Request {
            program_id: self.program.id,
            function_name: name,
            input_ids,
            inputs,
            signature,
        };
        let mut requests: Vec<Request> = Vec::new();
        requests.push(request);
        let authorization = Authorization::new(requests);
        let ghost log = env.calls();
        let ran = env.authorize_function(private_key, &self.program, &authorization);
        proof {
            assert(env.calls().take(before.len() as int) =~= before);
            assert(env.calls()[before.len() as int] == log[before.len() as int]);
        }
        if !ran {
            return Err(Error::ExecutionFailed { program: self.program.id, function: name });
        }
        Ok(authorization)
    }
}

impl Process {
    /// A process without programs.
    pub fn new() -> (r: Process)
        ensures
            r@.stacks == Seq::<StackView>::empty(),
    {
        let r = Process { stacks: Vec::new() };
        assert(r@.stacks =~= Seq::<StackView>::empty());
        r
    }

    /// Whether a program of the given ID is registered.
    pub fn contains_program(&self, id: &ProgramID) -> (r: bool)
        ensures
            r == self@.contains_program(*id),
    {
        let n: usize = self.stacks.len();
        let mut i: usize = 0;
        while i < n
            invariant
                i <= n,
                n == self.stacks@.len(),
                forall|j: int| 0 <= j < i ==> (#[trigger] self@.stacks[j]).program.id != *id,
            decreases n - i,
        {
            if self.stacks[i].program.id == *id {
                assert(self@.stacks[i as int].program.id == *id);
                return true;
            }
            assert(self@.stacks[i as int].program.id != *id);
            i = i + 1;
        }
        false
    }

    /// Registers a stack.
    pub fn add_stack(&mut self, stack: Stack)
        ensures
            final(self)@.stacks == old(self)@.stacks.push(stack@),
    {
        self.stacks.push(stack);
        assert(self@.stacks =~= old(self)@.stacks.push(stack@));
    }

    /// Deploys a program that is new to the process: builds its stack and
    /// has a verifying key and a certificate made for each function.
    pub fn deploy<A: Aleo>(&self, env: &mut A, program: &Program) -> (r: Result<Deployment, Error>)
        ensures
            match self@.new_stack(program@) {
                Err(e) => r is Err && r->Err_0 == e && final(env).calls() == old(env).calls(),
                Ok(_) => deploy_outcome(program@, old(env).calls(), final(env).calls(), r),
            },
    {
        let stack = match Stack::new(self, program) {
            Ok(stack) => stack,
            Err(e) => {
                return Err(e);
            },
        };
        stack.deploy(env)
    }

    /// Checks a deployment: its program must be new to the process and
    /// compile into a stack, and every function must have a verifying key
    /// whose certificate passes. The process stays as it is.
    pub fn verify_deployment<A: Aleo>(&self, env: &mut A, deployment: &Deployment) -> (r: Result<
        (),
        Error,
    >)
        ensures
            match self@.new_stack(deployment@.program) {
                Err(e) => r == Err::<(), Error>(e) && final(env).calls() == old(env).calls(),
                Ok(_) => verify_outcome(
                    deployment@.program,
                    deployment@.verifying_keys,
                    old(env).calls(),
                    final(env).calls(),
                    r,
                ),
            },
    {
        if self.contains_program(&deployment.program.id) {
            return Err(Error::ProgramExists { program: deployment.program.id });
        }
        let stack = match Stack::new(self, &deployment.program) {
            Ok(stack) => stack,
            Err(e) => {
                return Err(e);
            },
        };
        stack.verify_deployment(env, deployment)
    }

    /// Registers the program of a deployment that was verified, with its
    /// verifying keys. Fails, and changes nothing, when a program of the
    /// same ID is registered already, when the program does not compile
    /// into a stack, and when a key cannot be inserted.
    pub fn load_deployment(&mut self, deployment: &Deployment) -> (r: Result<(), Error>)
        ensures
            match old(self)@.load_deployment(deployment@) {
                Ok(process) => r is Ok && final(self)@ == process,
                Err(e) => r == Err::<(), Error>(e) && final(self)@ == old(self)@,
            },
    {
        let mut stack = match Stack::new(self, &deployment.program) {
            Ok(stack) => stack,
            Err(e) => {
                return Err(e);
            },
        };
        let ghost fresh = stack@;
        let ghost keys = deployment@.verifying_keys;
        let n: usize = deployment.verifying_keys.len();
        let mut i: usize = 0;
        while i < n
            invariant
                i <= n,
                n == deployment.verifying_keys@.len(),
                keys == deployment@.verifying_keys,
                *self == *old(self),
                old(self)@.new_stack(deployment@.program) == Ok::<StackView, Error>(fresh),
                fresh.insert_keys(keys, i as nat) == Ok::<StackView, Error>(stack@),
            decreases n - i,
        {
            let entry = &deployment.verifying_keys[i];
            match stack.insert_verifying_key(&entry.0, entry.1.0) {
                Ok(_) => {},
                Err(e) => {
                    proof {
                        assert(*entry == keys[i as int]);
                        assert(fresh.insert_keys(keys, (i + 1) as nat) == Err::<StackView, Error>(e));
                        lemma_insert_keys_fails(fresh, keys, (i + 1) as nat, n as nat);
                    }
                    return Err(e);
                },
            }
            i = i + 1;
        }
        self.add_stack(stack);
        Ok(())
    }
}

/// Once a key cannot be inserted, inserting more keys fails the same way.
pub proof fn lemma_insert_keys_fails(
    stack: StackView,
    keys: Seq<(Identifier, (VerifyingKey, Certificate))>,
    n: nat,
    m: nat,
)
    requires
        n <= m,
        stack.insert_keys(keys, n) is Err,
    ensures
        stack.insert_keys(keys, m) == stack.insert_keys(keys, n),
    decreases m,
{
    if n < m {
        lemma_insert_keys_fails(stack, keys, n, (m - 1) as nat);
    }
}

} // verus!
