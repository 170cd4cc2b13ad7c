//! Finalization: running the commands of a finalize block against the
//! stored mappings, and the operations that record what was written.

use std::collections::HashMap;
use vstd::prelude::*;
use crate::bits::{bits_le, push_bits_le};
use crate::command::{Command, Get, GetOrUse, Instruction, Opcode, Operand, Register, SetValue};
use crate::error::Error;
use crate::field::Field;
use crate::ident::{Identifier, ProgramID};
use crate::process::Stack;
use crate::record::Literal;

verus! {

/// One change to the stored mappings.
#[derive(Clone, Copy, Debug, PartialEq, Eq, Structural)]
pub enum FinalizeOperation {
    /// A mapping was created; its ID.
    InitializeMapping(Field),
    /// A key was added to a mapping: the IDs of mapping, key and value.
    InsertKeyValue(Field, Field, Field),
    /// The value under a key was replaced: the ID of the mapping, the
    /// position of the key, the IDs of key and value.
    UpdateKeyValue(Field, u64, Field, Field),
    /// A key was removed: the ID of the mapping and the position of the key.
    RemoveKeyValue(Field, u64),
    /// A mapping was removed; its ID.
    RemoveMapping(Field),
}

impl FinalizeOperation {
    /// The number that tags the kind of the operation.
    pub open spec fn spec_variant(self) -> u8 {
        match self {
            FinalizeOperation::InitializeMapping(_) => 0,
            FinalizeOperation::InsertKeyValue(_, _, _) => 1,
            FinalizeOperation::UpdateKeyValue(_, _, _, _) => 2,
            FinalizeOperation::RemoveKeyValue(_, _) => 3,
            FinalizeOperation::RemoveMapping(_) => 4,
        }
    }

    /// The operation as its tag followed by its parts, each least
    /// significant bit first.
    pub open spec fn spec_bits_le(self) -> Seq<bool> {
        bits_le(self.spec_variant() as nat, 8) + match self {
            FinalizeOperation::InitializeMapping(mapping) => mapping.spec_bits_le(),
            FinalizeOperation::InsertKeyValue(mapping, key, value) => mapping.spec_bits_le()
                + key.spec_bits_le() + value.spec_bits_le(),
            FinalizeOperation::UpdateKeyValue(mapping, index, key, value) => mapping.spec_bits_le()
                + bits_le(index as nat, 64) + key.spec_bits_le() + value.spec_bits_le(),
            FinalizeOperation::RemoveKeyValue(mapping, index) => mapping.spec_bits_le() + bits_le(
                index as nat,
                64,
            ),
            FinalizeOperation::RemoveMapping(mapping) => mapping.spec_bits_le(),
        }
    }

    /// The little-endian bits of the operation.
    pub fn to_bits_le(&self) -> (r: Vec<bool>)
        ensures
            r@ == self.spec_bits_le(),
    {
        let mut out: Vec<bool> = Vec::new();
        match self {
            FinalizeOperation::InitializeMapping(mapping) => {
                push_bits_le(&mut out, 0, 8);
                mapping.push_bits_le(&mut out);
            },
            FinalizeOperation::InsertKeyValue(mapping, key, value) => {
                push_bits_le(&mut out, 1, 8);
                mapping.push_bits_le(&mut out);
                key.push_bits_le(&mut out);
                value.push_bits_le(&mut out);
            },
            FinalizeOperation::UpdateKeyValue(mapping, index, key, value) => {
                push_bits_le(&mut out, 2, 8);
                mapping.push_bits_le(&mut out);
                push_bits_le(&mut out, *index, 64);
                key.push_bits_le(&mut out);
                value.push_bits_le(&mut out);
            },
            FinalizeOperation::RemoveKeyValue(mapping, index) => {
                push_bits_le(&mut out, 3, 8);
                mapping.push_bits_le(&mut out);
                push_bits_le(&mut out, *index, 64);
            },
            FinalizeOperation::RemoveMapping(mapping) => {
                push_bits_le(&mut out, 4, 8);
                mapping.push_bits_le(&mut out);
            },
        }
        assert(out@ =~= self.spec_bits_le());
        out
    }
}

/// The registers of a finalize block: the values written so far, by
/// register number.
pub struct FinalizeRegisters {
    pub values: HashMap<u64, Literal>,
}

/// What the stored mappings hold: for each mapping of each program, the
/// value under each key.
pub type Mappings = Map<(ProgramID, Identifier), Map<Literal, Literal>>;

/// The store of the mappings of all programs.
pub trait FinalizeStorage {
    /// What the store holds.
    spec fn mappings(&self) -> Mappings;

    /// The operation that records that `value` was put under `key` in a
    /// mapping of a store that held `before`.
    spec fn spec_update_operation(
        before: Mappings,
        program: ProgramID,
        mapping: Identifier,
        key: Literal,
        value: Literal,
    ) -> FinalizeOperation;

    /// Whether the program has a mapping of this name.
    fn contains_mapping(&self, program: &ProgramID, mapping: &Identifier) -> (r: bool)
        ensures
            r == self.mappings().dom().contains((*program, *mapping)),
    ;

    /// The value under `key` in the mapping, if there is one.
    fn get_value(&self, program: &ProgramID, mapping: &Identifier, key: &Literal) -> (r: Option<
        Literal,
    >)
        requires
            self.mappings().dom().contains((*program, *mapping)),
        ensures
            r == spec_lookup(self.mappings(), *program, *mapping, *key),
    ;

    /// Puts `value` under `key` in the mapping, in place of what was
    /// there, and returns the operation that records it.
    fn update_key_value(
        &mut self,
        program: &ProgramID,
        mapping: &Identifier,
        key: Literal,
        value: Literal,
    ) -> (r: FinalizeOperation)
        requires
            old(self).mappings().dom().contains((*program, *mapping)),
        ensures
            final(self).mappings() == spec_update(
                old(self).mappings(),
                *program,
                *mapping,
                key,
                value,
            ),
            r == Self::spec_update_operation(old(self).mappings(), *program, *mapping, key, value),
    ;
}

/// The value under `key` in a mapping that exists, if there is one.
pub open spec fn spec_lookup(
    mappings: Mappings,
    program: ProgramID,
    mapping: Identifier,
    key: Literal,
) -> Option<Literal> {
    if mappings[(program, mapping)].dom().contains(key) {
        Some(mappings[(program, mapping)][key])
    } else {
        None
    }
}

/// The mappings after `value` was put under `key` in one of them.
pub open spec fn spec_update(
    mappings: Mappings,
    program: ProgramID,
    mapping: Identifier,
    key: Literal,
    value: Literal,
) -> Mappings {
    mappings.insert((program, mapping), mappings[(program, mapping)].insert(key, value))
}

/// The value of an operand: that of the register, which must have been
/// written, or the constant.
pub open spec fn spec_load(registers: Map<u64, Literal>, operand: Operand) -> Result<Literal, Error> {
    match operand {
        Operand::Register(register) => if registers.dom().contains(register.locator) {
            Ok(registers[register.locator])
        } else {
            Err(Error::RegisterNotFound { locator: register.locator })
        },
        Operand::Boolean(b) => Ok(Literal::Boolean(b)),
        Operand::U8(x) => Ok(Literal::U8(x)),
        Operand::U16(x) => Ok(Literal::U16(x)),
        Operand::U32(x) => Ok(Literal::U32(x)),
        Operand::U64(x) => Ok(Literal::U64(x)),
    }
}

/// The result of an operation on two numbers, as a number without bound.
pub open spec fn spec_combine(opcode: Opcode, a: int, b: int) -> int {
    match opcode {
        Opcode::Add => a + b,
        Opcode::Sub => a - b,
        Opcode::Mul => a * b,
    }
}

/// The result of an operation on two values: defined where both are
/// unsigned integers of one width and the result fits that width.
pub open spec fn spec_apply(opcode: Opcode, first: Literal, second: Literal) -> Result<
    Literal,
    Error,
> {
    match (first, second) {
        (Literal::U8(a), Literal::U8(b)) => if 0 <= spec_combine(opcode, a as int, b as int)
            <= u8::MAX {
            Ok(Literal::U8(spec_combine(opcode, a as int, b as int) as u8))
        } else {
            Err(Error::InvalidOperation)
        },
        (Literal::U16(a), Literal::U16(b)) => if 0 <= spec_combine(opcode, a as int, b as int)
            <= u16::MAX {
            Ok(Literal::U16(spec_combine(opcode, a as int, b as int) as u16))
        } else {
            Err(Error::InvalidOperation)
        },
        (Literal::U32(a), Literal::U32(b)) => if 0 <= spec_combine(opcode, a as int, b as int)
            <= u32::MAX {
            Ok(Literal::U32(spec_combine(opcode, a as int, b as int) as u32))
        } else {
            Err(Error::InvalidOperation)
        },
        (Literal::U64(a), Literal::U64(b)) => if 0 <= spec_combine(opcode, a as int, b as int)
            <= u64::MAX {
            Ok(Literal::U64(spec_combine(opcode, a as int, b as int) as u64))
        } else {
            Err(Error::InvalidOperation)
        },
        _ => Err(Error::InvalidOperation),
    }
}

/// What a command does to the registers and the mappings, and the operation
/// it yields; or why it fails.
pub struct Effect {
    pub registers: Map<u64, Literal>,
    pub write: Option<(Identifier, Literal, Literal)>,
}

/// The effect of an instruction: the destination gets the result.
pub open spec fn spec_evaluate(instruction: Instruction, registers: Map<u64, Literal>) -> Result<
    Effect,
    Error,
> {
    match spec_load(registers, instruction.first) {
        Err(e) => Err(e),
        Ok(first) => match spec_load(registers, instruction.second) {
            Err(e) => Err(e),
            Ok(second) => match spec_apply(instruction.opcode, first, second) {
                Err(e) => Err(e),
                Ok(value) => Ok(
                    Effect {
                        registers: registers.insert(instruction.destination.locator, value),
                        write: None,
                    },
                ),
            },
        },
    }
}

/// The effect of `get`: the destination gets the value under the key,
/// which must be there.
pub open spec fn spec_get(
    get: Get,
    program: ProgramID,
    mappings: Mappings,
    registers: Map<u64, Literal>,
) -> Result<Effect, Error> {
    if !mappings.dom().contains((program, get.mapping)) {
        Err(Error::MappingNotFound { program, mapping: get.mapping })
    } else {
        match spec_load(registers, get.key) {
            Err(e) => Err(e),
            Ok(key) => match spec_lookup(mappings, program, get.mapping, key) {
                None => Err(Error::KeyNotFound { program, mapping: get.mapping }),
                Some(value) => Ok(
                    Effect {
                        registers: registers.insert(get.destination.locator, value),
                        write: None,
                    },
                ),
            },
        }
    }
}

/// The effect of `get.or_use`: the destination gets the value under the
/// key, or the fallback where the mapping has no such key.
pub open spec fn spec_get_or_use(
    get: GetOrUse,
    program: ProgramID,
    mappings: Mappings,
    registers: Map<u64, Literal>,
) -> Result<Effect, Error> {
    if !mappings.dom().contains((program, get.mapping)) {
        Err(Error::MappingNotFound { program, mapping: get.mapping })
    } else {
        match spec_load(registers, get.key) {
            Err(e) => Err(e),
            Ok(key) => match spec_lookup(mappings, program, get.mapping, key) {
                Some(value) => Ok(
                    Effect {
                        registers: registers.insert(get.destination.locator, value),
                        write: None,
                    },
                ),
                None => match spec_load(registers, get.fallback) {
                    Err(e) => Err(e),
                    Ok(value) => Ok(
                        Effect {
                            registers: registers.insert(get.destination.locator, value),
                            write: None,
                        },
                    ),
                },
            },
        }
    }
}

/// The effect of `set`: the value is written under the key.
pub open spec fn spec_set(
    set: SetValue,
    program: ProgramID,
    mappings: Mappings,
    registers: Map<u64, Literal>,
) -> Result<Effect, Error> {
    if !mappings.dom().contains((program, set.mapping)) {
        Err(Error::MappingNotFound { program, mapping: set.mapping })
    } else {
        match spec_load(registers, set.key) {
            Err(e) => Err(e),
            Ok(key) => match spec_load(registers, set.value) {
                Err(e) => Err(e),
                Ok(value) => Ok(Effect { registers, write: Some((set.mapping, key, value)) }),
            },
        }
    }
}

/// The effect of a command.
pub open spec fn spec_effect(
    command: Command,
    program: ProgramID,
    mappings: Mappings,
    registers: Map<u64, Literal>,
) -> Result<Effect, Error> {
    match command {
        Command::Instruction(instruction) => spec_evaluate(instruction, registers),
        Command::Get(get) => spec_get(get, program, mappings, registers),
        Command::GetOrUse(get) => spec_get_or_use(get, program, mappings, registers),
        Command::SetValue(set) => spec_set(set, program, mappings, registers),
    }
}

/// Whether a run of a command that started from `mappings` and `registers`
/// and ended in `mappings_after` and `registers_after` with the result `r`
/// did what the command says: a failure leaves both as they were; else the
/// registers are those of the effect, the mappings change by the write of
/// the effect, if it has one, and the operation of that write is returned.
pub open spec fn finalized<S: FinalizeStorage>(
    effect: Result<Effect, Error>,
    program: ProgramID,
    mappings: Mappings,
    registers: Map<u64, Literal>,
    mappings_after: Mappings,
    registers_after: Map<u64, Literal>,
    r: Result<Option<FinalizeOperation>, Error>,
) -> bool {
    match effect {
        Err(e) => r == Err::<Option<FinalizeOperation>, Error>(e) && mappings_after == mappings
            && registers_after == registers,
        Ok(effect) => registers_after == effect.registers && match effect.write {
            None => r == Ok::<Option<FinalizeOperation>, Error>(None) && mappings_after
                == mappings,
            Some((mapping, key, value)) => r == Ok::<Option<FinalizeOperation>, Error>(
                Some(S::spec_update_operation(mappings, program, mapping, key, value)),
            ) && mappings_after == spec_update(mappings, program, mapping, key, value),
        },
    }
}

impl View for FinalizeRegisters {
    type V = Map<u64, Literal>;

    open spec fn view(&self) -> Map<u64, Literal> {
        self.values@
    }
}

impl FinalizeRegisters {
    /// Registers of which none was written.
    pub fn new() -> (r: FinalizeRegisters)
        ensures
            r@ == Map::<u64, Literal>::empty(),
    {
        FinalizeRegisters { values: HashMap::new() }
    }

    /// The value of a register, if it was written.
    pub fn get(&self, register: &Register) -> (r: Option<Literal>)
        ensures
            r == (if self@.dom().contains(register.locator) {
                Some(self@[register.locator])
            } else {
                None
            }),
    {
        broadcast use vstd::std_specs::hash::group_hash_axioms;

        match self.values.get(&register.locator) {
            Some(value) => Some(*value),
            None => None,
        }
    }

    /// The value of an operand.
    pub fn load(&self, operand: &Operand) -> (r: Result<Literal, Error>)
        ensures
            r == spec_load(self@, *operand),
    {
        match operand {
            Operand::Register(register) => match self.get(register) {
                Some(value) => Ok(value),
                None => Err(Error::RegisterNotFound { locator: register.locator }),
            },
            Operand::Boolean(b) => Ok(Literal::Boolean(*b)),
            Operand::U8(x) => Ok(Literal::U8(*x)),
            Operand::U16(x) => Ok(Literal::U16(*x)),
            Operand::U32(x) => Ok(Literal::U32(*x)),
            Operand::U64(x) => Ok(Literal::U64(*x)),
        }
    }

    /// Writes a register.
    pub fn store(&mut self, register: &Register, value: Literal)
        ensures
            final(self)@ == old(self)@.insert(register.locator, value),
    {
        broadcast use vstd::std_specs::hash::group_hash_axioms;

        self.values.insert(register.locator, value);
    }
}

/// The result of an operation on two numbers of `max` at most, if it is
/// such a number.
pub fn combine(opcode: &Opcode, a: u64, b: u64, max: u64) -> (r: Option<u64>)
    requires
        a <= max,
        b <= max,
    ensures
        r == (if 0 <= spec_combine(*opcode, a as int, b as int) <= max {
            Some(spec_combine(*opcode, a as int, b as int) as u64)
        } else {
            None
        }),
{
    let wide: Option<u64> = match opcode {
        Opcode::Add => a.checked_add(b),
        Opcode::Sub => a.checked_sub(b),
        Opcode::Mul => a.checked_mul(b),
    };
    match wide {
        Some(x) => if x <= max {
            Some(x)
        } else {
            None
        },
        None => {
            assert(spec_combine(*opcode, a as int, b as int) > max || spec_combine(
                *opcode,
                a as int,
                b as int,
            ) < 0);
            None
        },
    }
}

/// The result of an operation on two values.
pub fn apply(opcode: &Opcode, first: &Literal, second: &Literal) -> (r: Result<Literal, Error>)
    ensures
        r == spec_apply(*opcode, *first, *second),
{
    match (first, second) {
        (Literal::U8(a), Literal::U8(b)) => match combine(opcode, *a as u64, *b as u64, 0xff) {
            Some(x) => Ok(Literal::U8(x as u8)),
            None => Err(Error::InvalidOperation),
        },
        (Literal::U16(a), Literal::U16(b)) => match combine(opcode, *a as u64, *b as u64, 0xffff) {
            Some(x) => Ok(Literal::U16(x as u16)),
            None => Err(Error::InvalidOperation),
        },
        (Literal::U32(a), Literal::U32(b)) => match combine(
            opcode,
            *a as u64,
            *b as u64,
            0xffff_ffff,
        ) {
            Some(x) => Ok(Literal::U32(x as u32)),
            None => Err(Error::InvalidOperation),
        },
        (Literal::U64(a), Literal::U64(b)) => match combine(
            opcode,
            *a,
            *b,
            0xffff_ffff_ffff_ffff,
        ) {
            Some(x) => Ok(Literal::U64(x)),
            None => Err(Error::InvalidOperation),
        },
        _ => Err(Error::InvalidOperation),
    }
}

impl Instruction {
    /// Evaluates the instruction on the registers.
    pub fn finalize(&self, registers: &mut FinalizeRegisters) -> (r: Result<(), Error>)
        ensures
            match spec_evaluate(*self, old(registers)@) {
                Ok(effect) => r is Ok && final(registers)@ == effect.registers,
                Err(e) => r == Err::<(), Error>(e) && final(registers)@ == old(registers)@,
            },
    {
        let first = match registers.load(&self.first) {
            Ok(value) => value,
            Err(e) => {
                return Err(e);
            },
        };
        let second = match registers.load(&self.second) {
            Ok(value) => value,
            Err(e) => {
                return Err(e);
            },
        };
        let value = match apply(&self.opcode, &first, &second) {
            Ok(value) => value,
            Err(e) => {
                return Err(e);
            },
        };
        registers.store(&self.destination, value);
        Ok(())
    }
}

impl Get {
    /// Reads the value under the key into the destination.
    pub fn finalize<S: FinalizeStorage>(
        &self,
        stack: &Stack,
        store: &S,
        registers: &mut FinalizeRegisters,
    ) -> (r: Result<(), Error>)
        ensures
            match spec_get(*self, stack.program.id, store.mappings(), old(registers)@) {
                Ok(effect) => r is Ok && final(registers)@ == effect.registers,
                Err(e) => r == Err::<(), Error>(e) && final(registers)@ == old(registers)@,
            },
    {
        let program = stack.program.id;
        if !store.contains_mapping(&program, &self.mapping) {
            return Err(Error::MappingNotFound { program, mapping: self.mapping });
        }
        let key = match registers.load(&self.key) {
            Ok(value) => value,
            Err(e) => {
                return Err(e);
            },
        };
        let value = match store.get_value(&program, &self.mapping, &key) {
            Some(value) => value,
            None => {
                return Err(Error::KeyNotFound { program, mapping: self.mapping });
            },
        };
        registers.store(&self.destination, value);
        Ok(())
    }
}

impl GetOrUse {
    /// Reads the value under the key, or the fallback, into the
    /// destination.
    pub fn finalize<S: FinalizeStorage>(
        &self,
        stack: &Stack,
        store: &S,
        registers: &mut FinalizeRegisters,
    ) -> (r: Result<(), Error>)
        ensures
            match spec_get_or_use(*self, stack.program.id, store.mappings(), old(registers)@) {
                Ok(effect) => r is Ok && final(registers)@ == effect.registers,
                Err(e) => r == Err::<(), Error>(e) && final(registers)@ == old(registers)@,
            },
    {
        let program = stack.program.id;
        if !store.contains_mapping(&program, &self.mapping) {
            return Err(Error::MappingNotFound { program, mapping: self.mapping });
        }
        let key = match registers.load(&self.key) {
            Ok(value) => value,
            Err(e) => {
                return Err(e);
            },
        };
        let value = match store.get_value(&program, &self.mapping, &key) {
            Some(value) => value,
            None => match registers.load(&self.fallback) {
                Ok(value) => value,
                Err(e) => {
                    return Err(e);
                },
            },
        };
        registers.store(&self.destination, value);
        Ok(())
    }
}

impl SetValue {
    /// Writes the value under the key and returns the operation that
    /// records it.
    pub fn finalize<S: FinalizeStorage>(
        &self,
        stack: &Stack,
        store: &mut S,
        registers: &FinalizeRegisters,
    ) -> (r: Result<FinalizeOperation, Error>)
        ensures
            match spec_set(*self, stack.program.id, old(store).mappings(), registers@) {
                Ok(effect) => r == Ok::<FinalizeOperation, Error>(
                    S::spec_update_operation(
                        old(store).mappings(),
                        stack.program.id,
                        self.mapping,
                        effect.write->Some_0.1,
                        effect.write->Some_0.2,
                    ),
                ) && final(store).mappings() == spec_update(
                    old(store).mappings(),
                    stack.program.id,
                    self.mapping,
                    effect.write->Some_0.1,
                    effect.write->Some_0.2,
                ),
                Err(e) => r == Err::<FinalizeOperation, Error>(e) && final(store).mappings()
                    == old(store).mappings(),
            },
    {
        let program = stack.program.id;
        if !store.contains_mapping(&program, &self.mapping) {
            return Err(Error::MappingNotFound { program, mapping: self.mapping });
        }
        let key = match registers.load(&self.key) {
            Ok(value) => value,
            Err(e) => {
                return Err(e);
            },
        };
        let value = match registers.load(&self.value) {
            Ok(value) => value,
            Err(e) => {
                return Err(e);
            },
        };
        Ok(store.update_key_value(&program, &self.mapping, key, value))
    }
}

impl Command {
    /// Finalizes the command against the store and the registers.
    ///
    /// An instruction computes on the registers. `get` reads the value
    /// under a key into a register and fails when the key is absent.
    /// `get.or_use` reads it or, when the key is absent, the fallback.
    /// `set` writes a value under a key. Only `set` yields a finalize
    /// operation. A command that fails changes nothing.
    pub fn finalize<S: FinalizeStorage>(
        &self,
        stack: &Stack,
        store: &mut S,
        registers: &mut FinalizeRegisters,
    ) -> (r: Result<Option<FinalizeOperation>, Error>)
        ensures
            finalized::<S>(
                spec_effect(*self, stack.program.id, old(store).mappings(), old(registers)@),
                stack.program.id,
                old(store).mappings(),
                old(registers)@,
                final(store).mappings(),
                final(registers)@,
                r,
            ),
            r is Ok && r->Ok_0 is Some ==> self is SetValue,
    {
        match self {
            // Finalize the instruction, and return no finalize operation.
            Command::Instruction(instruction) => match instruction.finalize(registers) {
                Ok(_) => Ok(None),
                Err(e) => Err(e),
            },
            // Finalize the 'get' command, and return no finalize operation.
            Command::Get(get) => match get.finalize(stack, store, registers) {
                Ok(_) => Ok(None),
                Err(e) => Err(e),
            },
            // Finalize the 'get.or_use' command, and return no finalize operation.
            Command::GetOrUse(get_or_use) => match get_or_use.finalize(stack, store, registers) {
                Ok(_) => Ok(None),
                Err(e) => Err(e),
            },
            // Finalize the 'set' command, and return the finalize operation.
            Command::SetValue(set) => match set.finalize(stack, store, registers) {
                Ok(operation) => Ok(Some(operation)),
                Err(e) => Err(e),
            },
        }
    }
}

} // verus!
