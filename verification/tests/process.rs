use record_inclusion::error::{Error, ErrorKind};
use record_inclusion::field::{Field, Group};
use record_inclusion::ident::{Identifier, ProgramID};
use record_inclusion::process::{
    Aleo, Authorization, Call, Certificate, Deployment, PrivateKey, Process, Signature, Stack, VerifyingKey,
};
use record_inclusion::program::{Function, Program, ValueType};
use record_inclusion::record::{Literal, Plaintext, Value};
use record_inclusion::transition::InputID;

/// A proving environment for tests. It writes down what it is asked, and
/// fails where it is told to.
#[derive(Default)]
struct TestEnv {
    log: Vec<String>,
    no_key_for: Option<Identifier>,
    bad_certificate_for: Option<Identifier>,
    refuse_to_sign: bool,
    refuse_to_run: bool,
}

fn name_of(id: &Identifier) -> String {
    String::from_utf8(id.to_bytes()).unwrap()
}

fn key_of(function: &Function) -> VerifyingKey {
    VerifyingKey { digest: Field { l0: function.name.value.l0, l1: function.input_types.len() as u64, l2: 0, l3: 7 } }
}

fn certificate_of(key: &VerifyingKey) -> Certificate {
    Certificate { digest: Field { l0: key.digest.l0 ^ 0xffff, l1: key.digest.l1, l2: 1, l3: 7 } }
}

impl Aleo for TestEnv {
    fn calls(&self) -> vstd::seq::Seq<Call> {
        unreachable!()
    }

    fn synthesize_key(&mut self, _program: &ProgramID, function: &Function) -> Option<(VerifyingKey, Certificate)> {
        self.log.push(format!("synthesize {}", name_of(&function.name)));
        if self.no_key_for == Some(function.name) {
            return None;
        }
        let key = key_of(function);
        Some((key, certificate_of(&key)))
    }

    fn verify_certificate(
        &mut self,
        _program: &ProgramID,
        function: &Function,
        verifying_key: &VerifyingKey,
        certificate: &Certificate,
    ) -> bool {
        self.log.push(format!("verify {}", name_of(&function.name)));
        self.bad_certificate_for != Some(function.name)
            && *verifying_key == key_of(function)
            && *certificate == certificate_of(verifying_key)
    }

    fn sign_request(
        &mut self,
        private_key: &PrivateKey,
        _program: &ProgramID,
        function: &Identifier,
        inputs: &Vec<Value>,
        input_types: &Vec<ValueType>,
    ) -> Option<(Vec<InputID>, Signature)> {
        self.log.push(format!("sign {} with {} inputs", name_of(function), inputs.len()));
        assert_eq!(inputs.len(), input_types.len());
        if self.refuse_to_sign {
            return None;
        }
        let ids = (0..inputs.len() as u64).map(|i| InputID::Public(Field::from_u64(i))).collect();
        Some((ids, Signature { challenge: private_key.seed, response: Field::from_u64(inputs.len() as u64) }))
    }

    fn authorize_function(&mut self, _private_key: &PrivateKey, _program: &Program, authorization: &Authorization) -> bool {
        self.log.push(format!("run {}", name_of(&authorization.requests[0].function_name)));
        !self.refuse_to_run
    }
}

fn id(name: &str) -> Identifier {
    Identifier::from_str(name).unwrap()
}

fn token() -> ProgramID {
    ProgramID { name: id("token"), domain: id("aleo") }
}

fn sample_program() -> Program {
    Program::new(
        token(),
        vec![
            Function::new(id("mint"), vec![ValueType::Public(id("u64"))], vec![ValueType::Record(id("coin"))]),
            Function::new(
                id("transfer"),
                vec![ValueType::Record(id("coin")), ValueType::Private(id("u64"))],
                vec![ValueType::Record(id("coin"))],
            ),
        ],
    )
}

fn number(x: u64) -> Value {
    Value::Plaintext(Plaintext::Literal(Literal::U64(x)))
}

fn address(x: u64) -> Value {
    Value::Plaintext(Plaintext::Literal(Literal::Address(Group { x: Field::from_u64(x) })))
}

fn sample_stack() -> Stack {
    Stack::new(&Process::new(), &sample_program()).unwrap()
}

#[test]
fn authorize_rejects_a_mismatched_input_count_before_any_signing() {
    let stack = sample_stack();
    let mut env = TestEnv::default();
    let key = PrivateKey { seed: Field::from_u64(42) };
    // `transfer` declares two inputs; one is supplied.
    let error = stack.authorize(&mut env, &key, "transfer", vec![number(5)]).unwrap_err();
    assert_eq!(
        error,
        Error::InputCountMismatch { program: token(), function: id("transfer"), expected: 2, found: 1 }
    );
    assert_eq!(error.kind(), ErrorKind::MalformedInput);
    // The environment was not used.
    let nothing: Vec<String> = vec![];
    assert_eq!(env.log, nothing);

    let error = stack.authorize(&mut env, &key, "mint", vec![number(5), number(6)]).unwrap_err();
    assert_eq!(error, Error::InputCountMismatch { program: token(), function: id("mint"), expected: 1, found: 2 });
    assert_eq!(env.log, nothing);
}

#[test]
fn authorize_rejects_unknown_functions_and_empty_programs() {
    let stack = sample_stack();
    let mut env = TestEnv::default();
    let key = PrivateKey { seed: Field::from_u64(42) };

    let error = stack.authorize(&mut env, &key, "burn", vec![]).unwrap_err();
    assert_eq!(error, Error::UnknownFunction { program: token(), function: id("burn") });
    assert_eq!(error.kind(), ErrorKind::MalformedInput);

    let error = stack.authorize(&mut env, &key, "not a name", vec![]).unwrap_err();
    assert_eq!(error, Error::InvalidIdentifier);
    assert_eq!(error.kind(), ErrorKind::MalformedInput);

    let empty = Stack { program: Program::new(token(), vec![]), verifying_keys: vec![] };
    let error = empty.authorize(&mut env, &key, "mint", vec![number(1)]).unwrap_err();
    assert_eq!(error, Error::NoFunctions { program: token() });
    assert_eq!(error.kind(), ErrorKind::MalformedInput);

    assert!(env.log.is_empty());
}

#[test]
fn authorize_signs_the_request_and_runs_the_function_once() {
    let stack = sample_stack();
    let mut env = TestEnv::default();
    let key = PrivateKey { seed: Field::from_u64(42) };
    let authorization = stack.authorize(&mut env, &key, "transfer", vec![address(1), number(5)]).unwrap();
    assert_eq!(env.log, vec!["sign transfer with 2 inputs".to_string(), "run transfer".to_string()]);

    assert_eq!(authorization.requests.len(), 1);
    let request = &authorization.requests[0];
    assert_eq!(request.program_id, token());
    assert_eq!(request.function_name, id("transfer"));
    assert_eq!(request.inputs, vec![address(1), number(5)]);
    assert_eq!(request.input_ids, vec![InputID::Public(Field::from_u64(0)), InputID::Public(Field::from_u64(1))]);
    assert_eq!(request.signature, Signature { challenge: Field::from_u64(42), response: Field::from_u64(2) });
}

#[test]
fn authorize_fails_when_signing_or_running_fails() {
    let stack = sample_stack();
    let key = PrivateKey { seed: Field::from_u64(42) };

    let mut env = TestEnv { refuse_to_sign: true, ..TestEnv::default() };
    let error = stack.authorize(&mut env, &key, "mint", vec![number(5)]).unwrap_err();
    assert_eq!(error, Error::SigningFailed { program: token(), function: id("mint") });
    assert_eq!(env.log, vec!["sign mint with 1 inputs".to_string()]);

    let mut env = TestEnv { refuse_to_run: true, ..TestEnv::default() };
    let error = stack.authorize(&mut env, &key, "mint", vec![number(5)]).unwrap_err();
    assert_eq!(error, Error::ExecutionFailed { program: token(), function: id("mint") });
    assert_eq!(env.log.len(), 2);
}

#[test]
fn deploy_makes_a_key_and_a_certificate_for_each_function() {
    let process = Process::new();
    let mut env = TestEnv::default();
    let program = sample_program();
    let deployment = process.deploy(&mut env, &program).unwrap();
    assert_eq!(deployment.program, program);
    assert_eq!(deployment.verifying_keys.len(), 2);
    assert_eq!(deployment.verifying_keys[0].0, id("mint"));
    assert_eq!(deployment.verifying_keys[1].0, id("transfer"));
    let key = key_of(&program.functions[1]);
    assert_eq!(deployment.verifying_keys[1].1, (key, certificate_of(&key)));
    assert_eq!(env.log, vec!["synthesize mint".to_string(), "synthesize transfer".to_string()]);
    // Deploying registers nothing.
    assert!(!process.contains_program(&token()));
}

#[test]
fn deploy_fails_on_malformed_programs_and_failed_synthesis() {
    let process = Process::new();

    let mut env = TestEnv::default();
    let error = process.deploy(&mut env, &Program::new(token(), vec![])).unwrap_err();
    assert_eq!(error, Error::NoFunctions { program: token() });

    let twice = Program::new(
        token(),
        vec![Function::new(id("mint"), vec![], vec![]), Function::new(id("mint"), vec![], vec![])],
    );
    let error = process.deploy(&mut env, &twice).unwrap_err();
    assert_eq!(error, Error::MalformedProgram { program: token() });
    assert_eq!(error.kind(), ErrorKind::MalformedInput);
    assert!(env.log.is_empty());

    let mut env = TestEnv { no_key_for: Some(id("mint")), ..TestEnv::default() };
    let error = process.deploy(&mut env, &sample_program()).unwrap_err();
    assert_eq!(error, Error::SynthesisFailed { program: token(), function: id("mint") });
    assert_eq!(error.kind(), ErrorKind::CryptoVerificationFailure);
    // The asking ends at the first failure.
    assert_eq!(env.log, vec!["synthesize mint".to_string()]);
}

fn sample_deployment() -> Deployment {
    Process::new().deploy(&mut TestEnv::default(), &sample_program()).unwrap()
}

#[test]
fn verify_deployment_checks_every_certificate_and_leaves_the_process() {
    let process = Process::new();
    let deployment = sample_deployment();

    let mut env = TestEnv::default();
    assert_eq!(process.verify_deployment(&mut env, &deployment), Ok(()));
    assert_eq!(env.log, vec!["verify mint".to_string(), "verify transfer".to_string()]);
    assert_eq!(process, Process::new());

    let mut env = TestEnv { bad_certificate_for: Some(id("transfer")), ..TestEnv::default() };
    let error = process.verify_deployment(&mut env, &deployment).unwrap_err();
    assert_eq!(error, Error::InvalidCertificate { program: token(), function: id("transfer") });
    assert_eq!(error.kind(), ErrorKind::CryptoVerificationFailure);

    // A key that belongs to another function.
    let mut swapped = sample_deployment();
    swapped.verifying_keys.swap(0, 1);
    let mut env = TestEnv::default();
    let error = process.verify_deployment(&mut env, &swapped).unwrap_err();
    assert_eq!(error, Error::KeyMismatch { program: token() });
    assert!(env.log.is_empty());

    // A deployment that lacks a key.
    let mut short = sample_deployment();
    short.verifying_keys.pop();
    assert_eq!(process.verify_deployment(&mut env, &short).unwrap_err(), Error::KeyMismatch { program: token() });
}

#[test]
fn verify_deployment_rejects_a_program_that_exists() {
    let mut process = Process::new();
    let deployment = sample_deployment();
    process.load_deployment(&deployment).unwrap();

    let mut env = TestEnv::default();
    let error = process.verify_deployment(&mut env, &deployment).unwrap_err();
    assert_eq!(error, Error::ProgramExists { program: token() });
    assert_eq!(error.kind(), ErrorKind::StateConflict);
    assert!(env.log.is_empty());
}

#[test]
fn load_deployment_twice_is_a_state_conflict() {
    let mut process = Process::new();
    let deployment = sample_deployment();
    assert_eq!(process.load_deployment(&deployment), Ok(()));
    assert!(process.contains_program(&token()));
    assert_eq!(process.stacks.len(), 1);
    assert_eq!(process.stacks[0].program, sample_program());
    assert_eq!(
        process.stacks[0].verifying_keys,
        vec![(id("mint"), deployment.verifying_keys[0].1 .0), (id("transfer"), deployment.verifying_keys[1].1 .0)]
    );

    let error = process.load_deployment(&deployment).unwrap_err();
    assert_eq!(error, Error::ProgramExists { program: token() });
    assert_eq!(error.kind(), ErrorKind::StateConflict);
    // The failed call changed nothing.
    assert_eq!(process.stacks.len(), 1);
}

#[test]
fn load_deployment_rejects_keys_that_cannot_be_inserted() {
    let mut process = Process::new();

    let mut unknown = sample_deployment();
    unknown.verifying_keys[1].0 = id("burn");
    let error = process.load_deployment(&unknown).unwrap_err();
    assert_eq!(error, Error::UnknownFunction { program: token(), function: id("burn") });

    let mut twice = sample_deployment();
    twice.verifying_keys[1].0 = id("mint");
    let error = process.load_deployment(&twice).unwrap_err();
    assert_eq!(error, Error::KeyExists { program: token(), function: id("mint") });
    assert_eq!(error.kind(), ErrorKind::StateConflict);

    assert!(!process.contains_program(&token()));
    assert_eq!(process, Process::new());
}

#[test]
fn program_finds_the_first_function_of_a_name() {
    let program = sample_program();
    assert_eq!(program.position(&id("transfer")), Some(1));
    assert_eq!(program.position(&id("burn")), None);
    assert_eq!(program.get_function(&id("mint")).unwrap().input_types().len(), 1);
    assert!(program.contains_function(&id("mint")));
    assert!(program.names_distinct());
    assert_eq!(program.duplicate(), program);
    assert_eq!(program.id(), &token());
}
