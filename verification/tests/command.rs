use record_inclusion::command::{Command, Get, GetOrUse, Instruction, Opcode, Operand, Register, SetValue};
use record_inclusion::error::{Error, ErrorKind};
use record_inclusion::field::Field;
use record_inclusion::finalize::{FinalizeOperation, FinalizeRegisters, FinalizeStorage, Mappings};
use record_inclusion::ident::{Identifier, ProgramID};
use record_inclusion::process::{Process, Stack};
use record_inclusion::program::{Function, Program};
use record_inclusion::record::Literal;

#[test]
fn test_command_bytes() {
    // Decrement
    let expected = "decrement object[r0] by r1;";
    Command::parse(expected).unwrap_err();

    // Instruction
    let expected = "add r0 r1 into r2;";
    let command = Command::parse(expected).unwrap().1;
    let bytes = command.to_bytes_le();
    assert_eq!(command, Command::from_bytes_le(&bytes).unwrap());

    // Increment
    let expected = "increment object[r0] by r1;";
    Command::parse(expected).unwrap_err();

    // Get
    let expected = "get object[r0] into r1;";
    let command = Command::parse(expected).unwrap().1;
    let bytes = command.to_bytes_le();
    assert_eq!(command, Command::from_bytes_le(&bytes).unwrap());

    // GetOr
    let expected = "get.or_use object[r0] r1 into r2;";
    let command = Command::parse(expected).unwrap().1;
    let bytes = command.to_bytes_le();
    assert_eq!(command, Command::from_bytes_le(&bytes).unwrap());

    // Set
    let expected = "set r0 into object[r1];";
    let command = Command::parse(expected).unwrap().1;
    let bytes = command.to_bytes_le();
    assert_eq!(command, Command::from_bytes_le(&bytes).unwrap());
}

#[test]
fn test_command_parse() {
    // Decrement
    let expected = "decrement object[r0] by r1;";
    Command::parse(expected).unwrap_err();

    // Instruction
    let expected = "add r0 r1 into r2;";
    let command = Command::parse(expected).unwrap().1;
    assert_eq!(Command::Instruction(Instruction::from_str(expected).unwrap()), command);
    assert_eq!(expected, command.to_string());

    // Increment
    let expected = "increment object[r0] by r1;";
    Command::parse(expected).unwrap_err();

    // Get
    let expected = "get object[r0] into r1;";
    let command = Command::parse(expected).unwrap().1;
    assert_eq!(Command::Get(Get::from_str(expected).unwrap()), command);
    assert_eq!(expected, command.to_string());

    // GetOr
    let expected = "get.or_use object[r0] r1 into r2;";
    let command = Command::parse(expected).unwrap().1;
    assert_eq!(Command::GetOrUse(GetOrUse::from_str(expected).unwrap()), command);
    assert_eq!(expected, command.to_string());

    // Set
    let expected = "set r0 into object[r1];";
    let command = Command::parse(expected).unwrap().1;
    assert_eq!(Command::SetValue(SetValue::from_str(expected).unwrap()), command);
    assert_eq!(expected, command.to_string());
}

fn id(name: &str) -> Identifier {
    Identifier::from_str(name).unwrap()
}

fn r(locator: u64) -> Register {
    Register { locator }
}

#[test]
fn get_command_round_trips_through_text_and_bytes() {
    let text = "get object[r0] into r1;";
    let (remainder, command) = Command::parse(text).unwrap();
    assert_eq!(remainder, text.len());
    assert_eq!(command, Command::Get(Get { mapping: id("object"), key: Operand::Register(r(0)), destination: r(1) }));
    // Parsing then printing reproduces the text.
    assert_eq!(command.to_string(), text);
    assert_eq!(command.to_text(), text.as_bytes().to_vec());
    assert_eq!(Command::from_str(text), Ok(command));
    // Encoding and decoding are inverse.
    let bytes = command.to_bytes_le();
    assert_eq!(Command::from_bytes_le(&bytes), Ok(command));
    assert_eq!(Command::from_bytes_le(&bytes).unwrap().to_bytes_le(), bytes);
}

#[test]
fn command_bytes_are_a_variant_tag_and_the_variant() {
    let get = Command::Get(Get { mapping: id("object"), key: Operand::Register(r(0)), destination: r(0x0102) });
    assert_eq!(
        get.to_bytes_le(),
        vec![
            1, // the variant
            6, b'o', b'b', b'j', b'e', b'c', b't', // the mapping
            0, 0, 0, 0, 0, 0, 0, 0, 0, // the key: a register
            2, 1, 0, 0, 0, 0, 0, 0, // the destination
        ]
    );

    let add = Command::Instruction(Instruction {
        opcode: Opcode::Mul,
        first: Operand::U16(0x0304),
        second: Operand::Boolean(true),
        destination: r(5),
    });
    assert_eq!(add.to_bytes_le(), vec![0, 2, 3, 4, 3, 1, 1, 5, 0, 0, 0, 0, 0, 0, 0]);

    let get_or_use = Command::GetOrUse(GetOrUse {
        mapping: id("m"),
        key: Operand::U8(9),
        fallback: Operand::U64(1 << 56),
        destination: r(1),
    });
    let bytes = get_or_use.to_bytes_le();
    assert_eq!(bytes[0], 2);
    assert_eq!(&bytes[1..5], &[1, b'm', 2, 9]);
    assert_eq!(&bytes[5..14], &[5, 0, 0, 0, 0, 0, 0, 0, 1]);

    let set = Command::SetValue(SetValue { mapping: id("m"), key: Operand::U32(7), value: Operand::Boolean(false) });
    assert_eq!(set.to_bytes_le(), vec![3, 1, b'm', 4, 7, 0, 0, 0, 1, 0]);

    for command in [get, add, get_or_use, set] {
        let mut bytes = command.to_bytes_le();
        let length = bytes.len();
        // What follows a command is not read.
        bytes.extend([0xff, 0xfe]);
        assert_eq!(Command::read_le(&bytes, 0), Ok((command, length)));
        // A command can be read from the middle of a buffer.
        let mut shifted = vec![9, 9, 9];
        shifted.extend(command.to_bytes_le());
        assert_eq!(Command::read_le(&shifted, 3), Ok((command, 3 + length)));
    }
}

#[test]
fn command_bytes_with_an_unknown_variant_are_malformed() {
    for tag in [4u8, 5, 100, 255] {
        let error = Command::from_bytes_le(&vec![tag, 1, b'm', 0, 0]).unwrap_err();
        assert_eq!(error, Error::InvalidVariant { tag });
        assert_eq!(error.kind(), ErrorKind::MalformedInput);
    }
    // An operand of an unknown kind, and a boolean that is neither 0 nor 1.
    assert_eq!(Command::from_bytes_le(&vec![3, 1, b'm', 6, 0, 1, 0]), Err(Error::InvalidVariant { tag: 6 }));
    assert_eq!(Command::from_bytes_le(&vec![3, 1, b'm', 1, 2, 1, 0]), Err(Error::InvalidVariant { tag: 2 }));
    // An operation that is none.
    assert_eq!(Command::from_bytes_le(&vec![0, 3, 1, 0, 1, 0]), Err(Error::InvalidVariant { tag: 3 }));
}

#[test]
fn command_bytes_that_end_early_are_malformed() {
    let command = Command::SetValue(SetValue { mapping: id("m"), key: Operand::U32(7), value: Operand::U64(8) });
    let bytes = command.to_bytes_le();
    for length in 0..bytes.len() {
        let error = Command::from_bytes_le(&bytes[..length].to_vec()).unwrap_err();
        assert_eq!(error, Error::UnexpectedEnd);
        assert_eq!(error.kind(), ErrorKind::MalformedInput);
    }
    // A mapping whose name is no identifier.
    assert_eq!(Command::from_bytes_le(&vec![1, 2, b'1', b'm', 0]), Err(Error::InvalidIdentifier));
    assert_eq!(Command::from_bytes_le(&vec![1, 0, 0]), Err(Error::InvalidIdentifier));
}

#[test]
fn command_text_with_something_behind_it_is_an_error() {
    let text = "get object[r0] into r1; get object[r0] into r2;";
    // `parse` stops behind the first command.
    let (remainder, command) = Command::parse(text).unwrap();
    assert_eq!(remainder, 23);
    assert_eq!(command.to_string(), "get object[r0] into r1;");
    // `from_str` takes the whole text or nothing.
    let error = Command::from_str(text).unwrap_err();
    assert_eq!(error, Error::TrailingText { at: 23 });
    assert_eq!(error.kind(), ErrorKind::MalformedInput);
    assert_eq!(Command::from_str("get object[r0] into r1; ").unwrap_err(), Error::TrailingText { at: 23 });
}

#[test]
fn command_text_that_is_no_command_is_an_error() {
    for text in [
        "",
        "get",
        "get object[r0] into r1",
        "get  object[r0] into r1;",
        "get object [r0] into r1;",
        "get object[r0] in r1;",
        "get object[r01] into r1;",
        "get object[r0] into 1;",
        "get 1object[r0] into r1;",
        "get.or_use object[r0] into r2;",
        "set r0 into object[r1]",
        "set into object[r1];",
        "add r0 into r2;",
        "div r0 r1 into r2;",
        "add r0 256u8 into r2;",
        "add r0 65536u16 into r2;",
        "add r0 4294967296u32 into r2;",
        "add r0 18446744073709551616u64 into r2;",
        "add r0 1u128 into r2;",
        "add r18446744073709551616 r1 into r2;",
        "get abcdefghijklmnopqrstuvwxyzabcdef[r0] into r1;",
    ] {
        let error = Command::parse(text).unwrap_err();
        assert_eq!(error, Error::InvalidText, "{text}");
        assert_eq!(error.kind(), ErrorKind::MalformedInput);
        assert_eq!(Command::from_str(text), Err(Error::InvalidText));
    }
}

#[test]
fn command_text_spells_registers_and_constants() {
    let command = Command::from_str("mul 255u8 r18446744073709551615 into r10;").unwrap();
    assert_eq!(
        command,
        Command::Instruction(Instruction {
            opcode: Opcode::Mul,
            first: Operand::U8(255),
            second: Operand::Register(r(u64::MAX)),
            destination: r(10),
        })
    );
    assert_eq!(command.to_string(), "mul 255u8 r18446744073709551615 into r10;");

    let command = Command::from_str("get.or_use balances_2[65535u16] 18446744073709551615u64 into r0;").unwrap();
    assert_eq!(
        command,
        Command::GetOrUse(GetOrUse {
            mapping: id("balances_2"),
            key: Operand::U16(65535),
            fallback: Operand::U64(u64::MAX),
            destination: r(0),
        })
    );
    assert_eq!(command.to_string(), "get.or_use balances_2[65535u16] 18446744073709551615u64 into r0;");

    let command = Command::from_str("set true into flags[4294967295u32];").unwrap();
    assert_eq!(
        command,
        Command::SetValue(SetValue { mapping: id("flags"), key: Operand::U32(u32::MAX), value: Operand::Boolean(true) })
    );
    assert_eq!(command.to_string(), "set true into flags[4294967295u32];");
    assert_eq!(Command::from_str("sub 0u8 false into r0;").unwrap().to_string(), "sub 0u8 false into r0;");

    // A mapping may be named like a word of the grammar.
    let command = Command::from_str("get into[r0] into r1;").unwrap();
    assert_eq!(command, Command::Get(Get { mapping: id("into"), key: Operand::Register(r(0)), destination: r(1) }));
    let longest = "get abcdefghijklmnopqrstuvwxyzabcde[r0] into r1;";
    assert_eq!(Command::from_str(longest).unwrap().to_string(), longest);
}

/// A store for tests: each mapping is a list of keys and values.
struct TestStore {
    mappings: Vec<((ProgramID, Identifier), Vec<(Literal, Literal)>)>,
}

fn digest(literal: &Literal) -> Field {
    match literal {
        Literal::U64(x) => Field::from_u64(*x),
        Literal::U8(x) => Field::from_u64(*x as u64),
        Literal::Boolean(b) => Field::from_u64(*b as u64),
        _ => Field::from_u64(999),
    }
}

impl TestStore {
    fn entries(&self, program: &ProgramID, mapping: &Identifier) -> Option<&Vec<(Literal, Literal)>> {
        self.mappings.iter().find(|(name, _)| *name == (*program, *mapping)).map(|(_, entries)| entries)
    }
}

impl FinalizeStorage for TestStore {
    fn mappings(&self) -> Mappings {
        unreachable!()
    }

    fn spec_update_operation(
        _before: Mappings,
        _program: ProgramID,
        _mapping: Identifier,
        _key: Literal,
        _value: Literal,
    ) -> FinalizeOperation {
        unreachable!()
    }

    fn contains_mapping(&self, program: &ProgramID, mapping: &Identifier) -> bool {
        self.entries(program, mapping).is_some()
    }

    fn get_value(&self, program: &ProgramID, mapping: &Identifier, key: &Literal) -> Option<Literal> {
        self.entries(program, mapping).unwrap().iter().find(|(k, _)| k == key).map(|(_, v)| *v)
    }

    fn update_key_value(
        &mut self,
        program: &ProgramID,
        mapping: &Identifier,
        key: Literal,
        value: Literal,
    ) -> FinalizeOperation {
        let mapping_id = mapping.value;
        let entries =
            &mut self.mappings.iter_mut().find(|(name, _)| *name == (*program, *mapping)).unwrap().1;
        match entries.iter().position(|(k, _)| *k == key) {
            Some(index) => {
                entries[index].1 = value;
                FinalizeOperation::UpdateKeyValue(mapping_id, index as u64, digest(&key), digest(&value))
            }
            None => {
                entries.push((key, value));
                FinalizeOperation::InsertKeyValue(mapping_id, digest(&key), digest(&value))
            }
        }
    }
}

fn token() -> ProgramID {
    ProgramID { name: id("token"), domain: id("aleo") }
}

fn sample_stack() -> Stack {
    let program = Program::new(token(), vec![Function::new(id("mint"), vec![], vec![])]);
    Stack::new(&Process::new(), &program).unwrap()
}

fn sample_store() -> TestStore {
    TestStore { mappings: vec![((token(), id("object")), vec![(Literal::U64(1), Literal::U64(100))])] }
}

fn finalize(text: &str, store: &mut TestStore, registers: &mut FinalizeRegisters) -> Result<Option<FinalizeOperation>, Error> {
    Command::from_str(text).unwrap().finalize(&sample_stack(), store, registers)
}

#[test]
fn finalize_get_reads_the_value_under_a_key() {
    let mut store = sample_store();
    let mut registers = FinalizeRegisters::new();
    registers.store(&r(0), Literal::U64(1));
    assert_eq!(finalize("get object[r0] into r1;", &mut store, &mut registers), Ok(None));
    assert_eq!(registers.get(&r(1)), Some(Literal::U64(100)));
    assert_eq!(finalize("get object[1u64] into r2;", &mut store, &mut registers), Ok(None));
    assert_eq!(registers.get(&r(2)), Some(Literal::U64(100)));

    // A key that is absent fails the command, which then writes no register.
    let error = finalize("get object[2u64] into r3;", &mut store, &mut registers).unwrap_err();
    assert_eq!(error, Error::KeyNotFound { program: token(), mapping: id("object") });
    assert_eq!(registers.get(&r(3)), None);

    let error = finalize("get other[r0] into r3;", &mut store, &mut registers).unwrap_err();
    assert_eq!(error, Error::MappingNotFound { program: token(), mapping: id("other") });
    let error = finalize("get object[r9] into r3;", &mut store, &mut registers).unwrap_err();
    assert_eq!(error, Error::RegisterNotFound { locator: 9 });
    assert_eq!(error.kind(), ErrorKind::MalformedInput);
}

#[test]
fn finalize_get_or_use_falls_back_when_the_key_is_absent() {
    let mut store = sample_store();
    let mut registers = FinalizeRegisters::new();
    assert_eq!(finalize("get.or_use object[2u64] 7u64 into r1;", &mut store, &mut registers), Ok(None));
    assert_eq!(registers.get(&r(1)), Some(Literal::U64(7)));
    assert_eq!(finalize("get.or_use object[1u64] 7u64 into r2;", &mut store, &mut registers), Ok(None));
    assert_eq!(registers.get(&r(2)), Some(Literal::U64(100)));
    // The fallback is read only when it is needed.
    assert_eq!(finalize("get.or_use object[1u64] r9 into r3;", &mut store, &mut registers), Ok(None));
    assert_eq!(
        finalize("get.or_use object[2u64] r9 into r3;", &mut store, &mut registers),
        Err(Error::RegisterNotFound { locator: 9 })
    );
    assert_eq!(
        finalize("get.or_use other[2u64] 7u64 into r3;", &mut store, &mut registers),
        Err(Error::MappingNotFound { program: token(), mapping: id("other") })
    );
}

#[test]
fn finalize_set_writes_and_is_the_only_command_with_an_operation() {
    let mut store = sample_store();
    let mut registers = FinalizeRegisters::new();
    registers.store(&r(0), Literal::U64(5));

    let operation = finalize("set r0 into object[2u64];", &mut store, &mut registers).unwrap();
    assert_eq!(
        operation,
        Some(FinalizeOperation::InsertKeyValue(id("object").value, Field::from_u64(2), Field::from_u64(5)))
    );
    let operation = finalize("set 6u64 into object[1u64];", &mut store, &mut registers).unwrap();
    assert_eq!(
        operation,
        Some(FinalizeOperation::UpdateKeyValue(id("object").value, 0, Field::from_u64(1), Field::from_u64(6)))
    );
    assert_eq!(store.mappings[0].1, vec![(Literal::U64(1), Literal::U64(6)), (Literal::U64(2), Literal::U64(5))]);

    assert_eq!(finalize("get object[2u64] into r1;", &mut store, &mut registers), Ok(None));
    assert_eq!(registers.get(&r(1)), Some(Literal::U64(5)));

    let error = finalize("set r0 into other[2u64];", &mut store, &mut registers).unwrap_err();
    assert_eq!(error, Error::MappingNotFound { program: token(), mapping: id("other") });
    assert_eq!(error.kind(), ErrorKind::StateConflict);
    assert_eq!(
        finalize("set r7 into object[2u64];", &mut store, &mut registers),
        Err(Error::RegisterNotFound { locator: 7 })
    );
    assert_eq!(store.mappings[0].1.len(), 2);
}

#[test]
fn finalize_instruction_computes_on_registers() {
    let mut store = sample_store();
    let mut registers = FinalizeRegisters::new();
    registers.store(&r(0), Literal::U64(6));
    registers.store(&r(1), Literal::U64(7));
    assert_eq!(finalize("add r0 r1 into r2;", &mut store, &mut registers), Ok(None));
    assert_eq!(registers.get(&r(2)), Some(Literal::U64(13)));
    assert_eq!(finalize("mul r0 r1 into r2;", &mut store, &mut registers), Ok(None));
    assert_eq!(registers.get(&r(2)), Some(Literal::U64(42)));
    assert_eq!(finalize("sub r1 r0 into r0;", &mut store, &mut registers), Ok(None));
    assert_eq!(registers.get(&r(0)), Some(Literal::U64(1)));
    assert_eq!(finalize("add 200u8 55u8 into r3;", &mut store, &mut registers), Ok(None));
    assert_eq!(registers.get(&r(3)), Some(Literal::U8(255)));

    // A result that does not fit, and operands of two types, fail.
    for text in [
        "add 200u8 56u8 into r4;",
        "sub 1u16 2u16 into r4;",
        "mul 65536u32 65536u32 into r4;",
        "add 18446744073709551615u64 1u64 into r4;",
        "add 1u8 1u16 into r4;",
        "add true false into r4;",
    ] {
        let error = finalize(text, &mut store, &mut registers).unwrap_err();
        assert_eq!(error, Error::InvalidOperation, "{text}");
        assert_eq!(error.kind(), ErrorKind::MalformedInput);
    }
    assert_eq!(registers.get(&r(4)), None);
    assert_eq!(store.mappings, sample_store().mappings);
}

#[test]
fn finalize_operation_bits_are_a_tag_and_the_parts() {
    let operation = FinalizeOperation::UpdateKeyValue(Field::from_u64(1), 2, Field::from_u64(3), Field::from_u64(4));
    let bits = operation.to_bits_le();
    assert_eq!(bits.len(), 8 + 256 + 64 + 256 + 256);
    // The tag 2, the mapping 1, the index 2, the key 3.
    assert!(!bits[0] && bits[1]);
    assert!(bits[8]);
    assert!(!bits[264] && bits[265]);
    assert!(bits[328] && bits[329]);
    assert_eq!(bits.iter().filter(|b| **b).count(), 1 + 1 + 1 + 2 + 1);
    assert_eq!(FinalizeOperation::RemoveMapping(Field::zero()).to_bits_le().len(), 264);
}
