//! Finalize commands: the steps that read and write the stored mappings
//! when a block is finalized, with their encoding as bytes.

use vstd::prelude::*;
use vstd::arithmetic::power2::lemma2_to64;
use crate::bits::{
    bytes_le, bytes_value_le, lemma_bytes_le_len, lemma_bytes_value_bound, lemma_value_of_bytes,
    push_bytes_le, read_bytes_le,
};
use crate::error::Error;
use crate::ident::{valid_name, Identifier};

verus! {

/// A register, written `r` and its number.
#[derive(Clone, Copy, Debug, PartialEq, Eq, Structural)]
pub struct Register {
    pub locator: u64,
}

/// An operand: a register or a constant.
#[derive(Clone, Copy, Debug, PartialEq, Eq, Structural)]
pub enum Operand {
    Register(Register),
    Boolean(bool),
    U8(u8),
    U16(u16),
    U32(u32),
    U64(u64),
}

/// The operation of an instruction.
#[derive(Clone, Copy, Debug, PartialEq, Eq, Structural)]
pub enum Opcode {
    Add,
    Sub,
    Mul,
}

/// A computation on registers: `opcode first second into destination;`.
#[derive(Clone, Copy, Debug, PartialEq, Eq, Structural)]
pub struct Instruction {
    pub opcode: Opcode,
    pub first: Operand,
    pub second: Operand,
    pub destination: Register,
}

/// `get mapping[key] into destination;`
#[derive(Clone, Copy, Debug, PartialEq, Eq, Structural)]
pub struct Get {
    pub mapping: Identifier,
    pub key: Operand,
    pub destination: Register,
}

/// `get.or_use mapping[key] fallback into destination;`
#[derive(Clone, Copy, Debug, PartialEq, Eq, Structural)]
pub struct GetOrUse {
    pub mapping: Identifier,
    pub key: Operand,
    pub fallback: Operand,
    pub destination: Register,
}

/// `set value into mapping[key];`
#[derive(Clone, Copy, Debug, PartialEq, Eq, Structural)]
pub struct SetValue {
    pub mapping: Identifier,
    pub key: Operand,
    pub value: Operand,
}

/// One step of a finalize block.
#[derive(Clone, Copy, Debug, PartialEq, Eq, Structural)]
pub enum Command {
    /// Evaluates the instruction.
    Instruction(Instruction),
    /// Reads the value under a key of a mapping into a register.
    Get(Get),
    /// Reads the value under a key of a mapping into a register, or a
    /// fallback where the mapping has no such key.
    GetOrUse(GetOrUse),
    /// Writes a value under a key of a mapping.
    SetValue(SetValue),
}

/// What an executable reader returned, held against what the bytes from
/// `start` on spell: the same value and the position behind it, or the same
/// failure.
pub open spec fn decoded<T>(
    spelled: Result<(T, nat), Error>,
    start: usize,
    limit: nat,
    r: Result<(T, usize), Error>,
) -> bool {
    match spelled {
        Ok((value, n)) => r == Ok::<(T, usize), Error>((value, (start + n) as usize)) && start + n
            <= limit <= usize::MAX,
        Err(e) => r == Err::<(T, usize), Error>(e),
    }
}

/// The number that the first `n` bytes spell, least significant first.
pub open spec fn spec_read_number(s: Seq<u8>, n: nat) -> Result<(nat, nat), Error> {
    if s.len() < n {
        Err(Error::UnexpectedEnd)
    } else {
        Ok((bytes_value_le(s.take(n as int)), n))
    }
}

/// Reading back a number that was written in `n` bytes gives the number.
pub proof fn lemma_read_number(x: nat, n: nat, rest: Seq<u8>)
    requires
        x < vstd::arithmetic::power2::pow2(8 * n),
    ensures
        spec_read_number(bytes_le(x, n) + rest, n) == Ok::<(nat, nat), Error>((x, n)),
{
    lemma_bytes_le_len(x, n);
    lemma_value_of_bytes(x, n);
    assert((bytes_le(x, n) + rest).take(n as int) =~= bytes_le(x, n));
}

/// Reads a number of `n` bytes at `start`.
pub fn read_number(bytes: &Vec<u8>, start: usize, n: usize) -> (r: Result<(u64, usize), Error>)
    requires
        start <= bytes@.len(),
        n <= 8,
    ensures
        match spec_read_number(bytes@.skip(start as int), n as nat) {
            Ok((x, m)) => r == Ok::<(u64, usize), Error>((x as u64, (start + m) as usize)) && x
                < vstd::arithmetic::power2::pow2(8 * (n as nat)) && x <= u64::MAX && start + m
                <= bytes@.len(),
            Err(e) => r == Err::<(u64, usize), Error>(e),
        },
{
    let len: usize = bytes.len();
    if len - start < n {
        return Err(Error::UnexpectedEnd);
    }
    proof {
        let window = bytes@.skip(start as int).take(n as int);
        assert(window =~= bytes@.subrange(start as int, start + n));
        lemma_bytes_value_bound(window);
        crate::bits::lemma_pow2_le(8 * (n as nat), 64);
        lemma2_to64();
    }
    let x = read_bytes_le(bytes, start, n);
    Ok((x, start + n))
}

impl Register {
    /// The locator in eight bytes, least significant first.
    pub open spec fn spec_bytes(self) -> Seq<u8> {
        bytes_le(self.locator as nat, 8)
    }

    /// The register that the bytes spell.
    pub open spec fn spec_read(s: Seq<u8>) -> Result<(Register, nat), Error> {
        match spec_read_number(s, 8) {
            Ok((x, n)) => Ok((Register { locator: x as u64 }, n)),
            Err(e) => Err(e),
        }
    }

    /// Reading back what was written gives the register.
    pub proof fn lemma_read(self, rest: Seq<u8>)
        ensures
            Register::spec_read(self.spec_bytes() + rest) == Ok::<(Register, nat), Error>(
                (self, self.spec_bytes().len()),
            ),
            self.spec_bytes().len() == 8,
    {
        lemma2_to64();
        lemma_read_number(self.locator as nat, 8, rest);
        lemma_bytes_le_len(self.locator as nat, 8);
    }

    /// Appends the encoding of the register.
    pub fn write_le(&self, out: &mut Vec<u8>)
        ensures
            final(out)@ == old(out)@ + self.spec_bytes(),
    {
        push_bytes_le(out, self.locator, 8);
    }

    /// Reads a register at `start`.
    pub fn read_le(bytes: &Vec<u8>, start: usize) -> (r: Result<(Register, usize), Error>)
        requires
            start <= bytes@.len(),
        ensures
            decoded(Register::spec_read(bytes@.skip(start as int)), start, bytes@.len(), r),
    {
        let len: usize = bytes.len();
        match read_number(bytes, start, 8) {
            Ok((x, next)) => {
                assert(next <= len);
                Ok((Register { locator: x }, next))
            },
            Err(e) => Err(e),
        }
    }
}

impl Operand {
    /// The byte that tags the kind of the operand.
    pub open spec fn spec_tag(self) -> u8 {
        match self {
            Operand::Register(_) => 0,
            Operand::Boolean(_) => 1,
            Operand::U8(_) => 2,
            Operand::U16(_) => 3,
            Operand::U32(_) => 4,
            Operand::U64(_) => 5,
        }
    }

    /// The tag, then the value, least significant byte first.
    pub open spec fn spec_bytes(self) -> Seq<u8> {
        seq![self.spec_tag()] + match self {
            Operand::Register(register) => register.spec_bytes(),
            Operand::Boolean(b) => bytes_le(if b { 1nat } else { 0nat }, 1),
            Operand::U8(x) => bytes_le(x as nat, 1),
            Operand::U16(x) => bytes_le(x as nat, 2),
            Operand::U32(x) => bytes_le(x as nat, 4),
            Operand::U64(x) => bytes_le(x as nat, 8),
        }
    }

    /// The operand that the bytes spell. A tag above 5 names no kind, and
    /// a boolean is spelled 0 or 1.
    #[verifier::opaque]
    pub open spec fn spec_read(s: Seq<u8>) -> Result<(Operand, nat), Error> {
        if s.len() < 1 {
            Err(Error::UnexpectedEnd)
        } else if s[0] > 5 {
            Err(Error::InvalidVariant { tag: s[0] })
        } else {
            let width: nat = if s[0] == 0 || s[0] == 5 {
                8
            } else if s[0] == 3 {
                2
            } else if s[0] == 4 {
                4
            } else {
                1
            };
            match spec_read_number(s.skip(1), width) {
                Err(e) => Err(e),
                Ok((x, n)) => if s[0] == 0 {
                    Ok((Operand::Register(Register { locator: x as u64 }), 1 + n))
                } else if s[0] == 1 {
                    if x > 1 {
                        Err(Error::InvalidVariant { tag: x as u8 })
                    } else {
                        Ok((Operand::Boolean(x == 1), 1 + n))
                    }
                } else if s[0] == 2 {
                    Ok((Operand::U8(x as u8), 1 + n))
                } else if s[0] == 3 {
                    Ok((Operand::U16(x as u16), 1 + n))
                } else if s[0] == 4 {
                    Ok((Operand::U32(x as u32), 1 + n))
                } else {
                    Ok((Operand::U64(x as u64), 1 + n))
                },
            }
        }
    }

    /// Reading back what was written gives the operand.
    pub proof fn lemma_read(self, rest: Seq<u8>)
        ensures
            Operand::spec_read(self.spec_bytes() + rest) == Ok::<(Operand, nat), Error>(
                (self, self.spec_bytes().len()),
            ),
            2 <= self.spec_bytes().len() <= 9,
    {
        reveal(Operand::spec_read);
        lemma2_to64();
        let s = self.spec_bytes() + rest;
        assert(s[0] == self.spec_tag());
        match self {
            Operand::Register(register) => {
                lemma_read_number(register.locator as nat, 8, rest);
                lemma_bytes_le_len(register.locator as nat, 8);
                assert(s.skip(1) =~= bytes_le(register.locator as nat, 8) + rest);
            },
            Operand::Boolean(b) => {
                let x = if b { 1nat } else { 0nat };
                lemma_read_number(x, 1, rest);
                lemma_bytes_le_len(x, 1);
                assert(s.skip(1) =~= bytes_le(x, 1) + rest);
            },
            Operand::U8(x) => {
                lemma_read_number(x as nat, 1, rest);
                lemma_bytes_le_len(x as nat, 1);
                assert(s.skip(1) =~= bytes_le(x as nat, 1) + rest);
            },
            Operand::U16(x) => {
                lemma_read_number(x as nat, 2, rest);
                lemma_bytes_le_len(x as nat, 2);
                assert(s.skip(1) =~= bytes_le(x as nat, 2) + rest);
            },
            Operand::U32(x) => {
                lemma_read_number(x as nat, 4, rest);
                lemma_bytes_le_len(x as nat, 4);
                assert(s.skip(1) =~= bytes_le(x as nat, 4) + rest);
            },
            Operand::U64(x) => {
                lemma_read_number(x as nat, 8, rest);
                lemma_bytes_le_len(x as nat, 8);
                assert(s.skip(1) =~= bytes_le(x as nat, 8) + rest);
            },
        }
    }

    /// Appends the encoding of the operand.
    pub fn write_le(&self, out: &mut Vec<u8>)
        ensures
            final(out)@ == old(out)@ + self.spec_bytes(),
    {
        match self {
            Operand::Register(register) => {
                out.push(0u8);
                register.write_le(out);
            },
            Operand::Boolean(b) => {
                out.push(1u8);
                push_bytes_le(out, if *b { 1 } else { 0 }, 1);
            },
            Operand::U8(x) => {
                out.push(2u8);
                push_bytes_le(out, *x as u64, 1);
            },
            Operand::U16(x) => {
                out.push(3u8);
                push_bytes_le(out, *x as u64, 2);
            },
            Operand::U32(x) => {
                out.push(4u8);
                push_bytes_le(out, *x as u64, 4);
            },
            Operand::U64(x) => {
                out.push(5u8);
                push_bytes_le(out, *x, 8);
            },
        }
        assert(out@ =~= old(out)@ + self.spec_bytes());
    }

    /// Reads an operand at `start`.
    pub fn read_le(bytes: &Vec<u8>, start: usize) -> (r: Result<(Operand, usize), Error>)
        requires
            start <= bytes@.len(),
        ensures
            decoded(Operand::spec_read(bytes@.skip(start as int)), start, bytes@.len(), r),
    {
        reveal(Operand::spec_read);
        if bytes.len() - start < 1 {
            return Err(Error::UnexpectedEnd);
        }
        let tag: u8 = bytes[start];
        assert(bytes@.skip(start as int)[0] == tag);
        if tag > 5 {
            return Err(Error::InvalidVariant { tag });
        }
        let width: usize = if tag == 0 || tag == 5 {
            8
        } else if tag == 3 {
            2
        } else if tag == 4 {
            4
        } else {
            1
        };
        assert(bytes@.skip(start as int).skip(1) =~= bytes@.skip(start + 1));
        proof {
            lemma2_to64();
        }
        match read_number(bytes, start + 1, width) {
            Err(e) => Err(e),
            Ok((x, next)) => {
                if tag == 0 {
                    Ok((Operand::Register(Register { locator: x }), next))
                } else if tag == 1 {
                    if x > 1 {
                        Err(Error::InvalidVariant { tag: x as u8 })
                    } else {
                        Ok((Operand::Boolean(x == 1), next))
                    }
                } else if tag == 2 {
                    Ok((Operand::U8(x as u8), next))
                } else if tag == 3 {
                    Ok((Operand::U16(x as u16), next))
                } else if tag == 4 {
                    Ok((Operand::U32(x as u32), next))
                } else {
                    Ok((Operand::U64(x), next))
                }
            },
        }
    }
}

impl Opcode {
    /// The byte that names the operation.
    pub open spec fn spec_tag(self) -> u8 {
        match self {
            Opcode::Add => 0,
            Opcode::Sub => 1,
            Opcode::Mul => 2,
        }
    }

    /// The operation that the first byte names.
    pub open spec fn spec_read(s: Seq<u8>) -> Result<(Opcode, nat), Error> {
        if s.len() < 1 {
            Err(Error::UnexpectedEnd)
        } else if s[0] == 0 {
            Ok((Opcode::Add, 1))
        } else if s[0] == 1 {
            Ok((Opcode::Sub, 1))
        } else if s[0] == 2 {
            Ok((Opcode::Mul, 1))
        } else {
            Err(Error::InvalidVariant { tag: s[0] })
        }
    }

    /// The byte that names the operation.
    pub fn tag(&self) -> (r: u8)
        ensures
            r == self.spec_tag(),
    {
        match self {
            Opcode::Add => 0,
            Opcode::Sub => 1,
            Opcode::Mul => 2,
        }
    }

    /// Reads an operation at `start`.
    pub fn read_le(bytes: &Vec<u8>, start: usize) -> (r: Result<(Opcode, usize), Error>)
        requires
            start <= bytes@.len(),
        ensures
            decoded(Opcode::spec_read(bytes@.skip(start as int)), start, bytes@.len(), r),
    {
        if bytes.len() - start < 1 {
            return Err(Error::UnexpectedEnd);
        }
        let tag: u8 = bytes[start];
        assert(bytes@.skip(start as int)[0] == tag);
        if tag == 0 {
            Ok((Opcode::Add, start + 1))
        } else if tag == 1 {
            Ok((Opcode::Sub, start + 1))
        } else if tag == 2 {
            Ok((Opcode::Mul, start + 1))
        } else {
            Err(Error::InvalidVariant { tag })
        }
    }
}

/// The length of the name, then the name.
pub open spec fn spec_identifier_bytes(id: Identifier) -> Seq<u8> {
    seq![id.len] + id.spec_name()
}

/// The identifier that the bytes spell.
#[verifier::opaque]
pub open spec fn spec_read_identifier(s: Seq<u8>) -> Result<(Identifier, nat), Error> {
    if s.len() < 1 {
        Err(Error::UnexpectedEnd)
    } else if s.len() < 1 + s[0] {
        Err(Error::UnexpectedEnd)
    } else if !valid_name(s.subrange(1, 1 + s[0])) {
        Err(Error::InvalidIdentifier)
    } else {
        Ok((Identifier::spec_from_name(s.subrange(1, 1 + s[0])), (1 + s[0]) as nat))
    }
}

/// Reading back what was written gives the identifier.
pub proof fn lemma_read_identifier(id: Identifier, rest: Seq<u8>)
    requires
        id.wf(),
    ensures
        spec_read_identifier(spec_identifier_bytes(id) + rest) == Ok::<(Identifier, nat), Error>(
            (id, spec_identifier_bytes(id).len()),
        ),
        spec_identifier_bytes(id).len() == 1 + id.len,
{
    reveal(spec_read_identifier);
    let s = spec_identifier_bytes(id) + rest;
    id.value.lemma_bytes_len();
    assert(id.spec_name().len() == id.len);
    assert(s[0] == id.len);
    assert(s.subrange(1, 1 + id.len) =~= id.spec_name());
    id.lemma_name_determines();
}

/// Appends the encoding of an identifier.
pub fn write_identifier(id: &Identifier, out: &mut Vec<u8>)
    requires
        id.wf(),
    ensures
        final(out)@ == old(out)@ + spec_identifier_bytes(*id),
{
    out.push(id.len);
    id.push_name(out);
    assert(out@ =~= old(out)@ + spec_identifier_bytes(*id));
}

/// Reads an identifier at `start`.
pub fn read_identifier(bytes: &Vec<u8>, start: usize) -> (r: Result<(Identifier, usize), Error>)
    requires
        start <= bytes@.len(),
    ensures
        decoded(spec_read_identifier(bytes@.skip(start as int)), start, bytes@.len(), r),
        r is Ok ==> r->Ok_0.0.wf(),
{
    reveal(spec_read_identifier);
    let len: usize = bytes.len();
    if len - start < 1 {
        return Err(Error::UnexpectedEnd);
    }
    let n: usize = bytes[start] as usize;
    let ghost s = bytes@.skip(start as int);
    assert(s[0] == n);
    if len - start - 1 < n {
        return Err(Error::UnexpectedEnd);
    }
    let mut name: Vec<u8> = Vec::new();
    let mut i: usize = 0;
    while i < n
        invariant
            i <= n,
            start + 1 + n <= len,
            len == bytes@.len(),
            s == bytes@.skip(start as int),
            name@ == s.subrange(1, 1 + i),
        decreases n - i,
    {
        name.push(bytes[start + 1 + i]);
        assert(name@ =~= s.subrange(1, 1 + i + 1));
        i = i + 1;
    }
    match Identifier::from_bytes(&name) {
        Some(id) => {
            proof {
                Identifier::lemma_from_name(name@);
            }
            Ok((id, start + 1 + n))
        },
        None => Err(Error::InvalidIdentifier),
    }
}

impl Instruction {
    /// The operation, the two operands and the destination.
    pub open spec fn spec_bytes(self) -> Seq<u8> {
        seq![self.opcode.spec_tag()] + self.first.spec_bytes() + self.second.spec_bytes()
            + self.destination.spec_bytes()
    }

    /// The instruction that the bytes spell.
    #[verifier::opaque]
    pub open spec fn spec_read(s: Seq<u8>) -> Result<(Instruction, nat), Error> {
        match Opcode::spec_read(s) {
            Err(e) => Err(e),
            Ok((opcode, a)) => match Operand::spec_read(s.skip(a as int)) {
                Err(e) => Err(e),
                Ok((first, b)) => match Operand::spec_read(s.skip((a + b) as int)) {
                    Err(e) => Err(e),
                    Ok((second, c)) => match Register::spec_read(s.skip((a + b + c) as int)) {
                        Err(e) => Err(e),
                        Ok((destination, d)) => Ok(
                            (Instruction { opcode, first, second, destination }, a + b + c + d),
                        ),
                    },
                },
            },
        }
    }

    /// Reading back what was written gives the instruction.
    pub proof fn lemma_read(self, rest: Seq<u8>)
        ensures
            Instruction::spec_read(self.spec_bytes() + rest) == Ok::<(Instruction, nat), Error>(
                (self, self.spec_bytes().len()),
            ),
    {
        reveal(Instruction::spec_read);
        let s = self.spec_bytes() + rest;
        let first = self.first.spec_bytes();
        let second = self.second.spec_bytes();
        let destination = self.destination.spec_bytes();
        assert(s[0] == self.opcode.spec_tag());
        self.first.lemma_read(second + destination + rest);
        self.second.lemma_read(destination + rest);
        self.destination.lemma_read(rest);
        assert(s.skip(1) =~= first + (second + destination + rest));
        assert(s.skip((1 + first.len()) as int) =~= second + (destination + rest));
        assert(s.skip((1 + first.len() + second.len()) as int) =~= destination + rest);
    }

    /// Appends the encoding of the instruction.
    pub fn write_le(&self, out: &mut Vec<u8>)
        ensures
            final(out)@ == old(out)@ + self.spec_bytes(),
    {
        out.push(self.opcode.tag());
        self.first.write_le(out);
        self.second.write_le(out);
        self.destination.write_le(out);
        assert(out@ =~= old(out)@ + self.spec_bytes());
    }

    /// Reads an instruction at `start`.
    pub fn read_le(bytes: &Vec<u8>, start: usize) -> (r: Result<(Instruction, usize), Error>)
        requires
            start <= bytes@.len(),
        ensures
            decoded(Instruction::spec_read(bytes@.skip(start as int)), start, bytes@.len(), r),
    {
        reveal(Instruction::spec_read);
        let ghost s = bytes@.skip(start as int);
        let (opcode, p1) = match Opcode::read_le(bytes, start) {
            Ok(pair) => pair,
            Err(e) => {
                return Err(e);
            },
        };
        assert(s.skip(p1 - start) =~= bytes@.skip(p1 as int));
        let (first, p2) = match Operand::read_le(bytes, p1) {
            Ok(pair) => pair,
            Err(e) => {
                return Err(e);
            },
        };
        assert(s.skip(p2 - start) =~= bytes@.skip(p2 as int));
        let (second, p3) = match Operand::read_le(bytes, p2) {
            Ok(pair) => pair,
            Err(e) => {
                return Err(e);
            },
        };
        assert(s.skip(p3 - start) =~= bytes@.skip(p3 as int));
        let (destination, p4) = match Register::read_le(bytes, p3) {
            Ok(pair) => pair,
            Err(e) => {
                return Err(e);
            },
        };
        Ok((Instruction { opcode, first, second, destination }, p4))
    }
}

impl Get {
    /// The identifiers are well formed.
    pub open spec fn wf(self) -> bool {
        self.mapping.wf()
    }

    /// The mapping, the key and the destination.
    pub open spec fn spec_bytes(self) -> Seq<u8> {
        spec_identifier_bytes(self.mapping) + self.key.spec_bytes() + self.destination.spec_bytes()
    }

    /// The command that the bytes spell.
    #[verifier::opaque]
    pub open spec fn spec_read(s: Seq<u8>) -> Result<(Get, nat), Error> {
        match spec_read_identifier(s) {
            Err(e) => Err(e),
            Ok((mapping, a)) => match Operand::spec_read(s.skip(a as int)) {
                Err(e) => Err(e),
                Ok((key, b)) => match Register::spec_read(s.skip((a + b) as int)) {
                    Err(e) => Err(e),
                    Ok((destination, c)) => Ok((Get { mapping, key, destination }, a + b + c)),
                },
            },
        }
    }

    /// Reading back what was written gives the command.
    pub proof fn lemma_read(self, rest: Seq<u8>)
        requires
            self.wf(),
        ensures
            Get::spec_read(self.spec_bytes() + rest) == Ok::<(Get, nat), Error>(
                (self, self.spec_bytes().len()),
            ),
    {
        reveal(Get::spec_read);
        let s = self.spec_bytes() + rest;
        let mapping = spec_identifier_bytes(self.mapping);
        let key = self.key.spec_bytes();
        let destination = self.destination.spec_bytes();
        lemma_read_identifier(self.mapping, key + destination + rest);
        self.key.lemma_read(destination + rest);
        self.destination.lemma_read(rest);
        assert(s =~= mapping + (key + destination + rest));
        assert(s.skip(mapping.len() as int) =~= key + (destination + rest));
        assert(s.skip((mapping.len() + key.len()) as int) =~= destination + rest);
    }

    /// Appends the encoding of the command.
    pub fn write_le(&self, out: &mut Vec<u8>)
        requires
            self.wf(),
        ensures
            final(out)@ == old(out)@ + self.spec_bytes(),
    {
        write_identifier(&self.mapping, out);
        self.key.write_le(out);
        self.destination.write_le(out);
        assert(out@ =~= old(out)@ + self.spec_bytes());
    }

    /// Reads a command at `start`.
    pub fn read_le(bytes: &Vec<u8>, start: usize) -> (r: Result<(Get, usize), Error>)
        requires
            start <= bytes@.len(),
        ensures
            decoded(Get::spec_read(bytes@.skip(start as int)), start, bytes@.len(), r),
            r is Ok ==> r->Ok_0.0.wf(),
    {
        reveal(Get::spec_read);
        let ghost s = bytes@.skip(start as int);
        let (mapping, p1) = match read_identifier(bytes, start) {
            Ok(pair) => pair,
            Err(e) => {
                return Err(e);
            },
        };
        assert(s.skip(p1 - start) =~= bytes@.skip(p1 as int));
        let (key, p2) = match Operand::read_le(bytes, p1) {
            Ok(pair) => pair,
            Err(e) => {
                return Err(e);
            },
        };
        assert(s.skip(p2 - start) =~= bytes@.skip(p2 as int));
        let (destination, p3) = match Register::read_le(bytes, p2) {
            Ok(pair) => pair,
            Err(e) => {
                return Err(e);
            },
        };
        Ok((Get { mapping, key, destination }, p3))
    }
}

impl GetOrUse {
    /// The identifiers are well formed.
    pub open spec fn wf(self) -> bool {
        self.mapping.wf()
    }

    /// The mapping, the key, the fallback and the destination.
    pub open spec fn spec_bytes(self) -> Seq<u8> {
        spec_identifier_bytes(self.mapping) + self.key.spec_bytes() + self.fallback.spec_bytes()
            + self.destination.spec_bytes()
    }

    /// The command that the bytes spell.
    #[verifier::opaque]
    pub open spec fn spec_read(s: Seq<u8>) -> Result<(GetOrUse, nat), Error> {
        match spec_read_identifier(s) {
            Err(e) => Err(e),
            Ok((mapping, a)) => match Operand::spec_read(s.skip(a as int)) {
                Err(e) => Err(e),
                Ok((key, b)) => match Operand::spec_read(s.skip((a + b) as int)) {
                    Err(e) => Err(e),
                    Ok((fallback, c)) => match Register::spec_read(s.skip((a + b + c) as int)) {
                        Err(e) => Err(e),
                        Ok((destination, d)) => Ok(
                            (GetOrUse { mapping, key, fallback, destination }, a + b + c + d),
                        ),
                    },
                },
            },
        }
    }

    /// Reading back what was written gives the command.
    pub proof fn lemma_read(self, rest: Seq<u8>)
        requires
            self.wf(),
        ensures
            GetOrUse::spec_read(self.spec_bytes() + rest) == Ok::<(GetOrUse, nat), Error>(
                (self, self.spec_bytes().len()),
            ),
    {
        reveal(GetOrUse::spec_read);
        let s = self.spec_bytes() + rest;
        let mapping = spec_identifier_bytes(self.mapping);
        let key = self.key.spec_bytes();
        let fallback = self.fallback.spec_bytes();
        let destination = self.destination.spec_bytes();
        lemma_read_identifier(self.mapping, key + fallback + destination + rest);
        self.key.lemma_read(fallback + destination + rest);
        self.fallback.lemma_read(destination + rest);
        self.destination.lemma_read(rest);
        assert(s =~= mapping + (key + fallback + destination + rest));
        assert(s.skip(mapping.len() as int) =~= key + (fallback + destination + rest));
        assert(s.skip((mapping.len() + key.len()) as int) =~= fallback + (destination + rest));
        assert(s.skip((mapping.len() + key.len() + fallback.len()) as int) =~= destination + rest);
    }

    /// Appends the encoding of the command.
    pub fn write_le(&self, out: &mut Vec<u8>)
        requires
            self.wf(),
        ensures
            final(out)@ == old(out)@ + self.spec_bytes(),
    {
        write_identifier(&self.mapping, out);
        self.key.write_le(out);
        self.fallback.write_le(out);
        self.destination.write_le(out);
        assert(out@ =~= old(out)@ + self.spec_bytes());
    }

    /// Reads a command at `start`.
    pub fn read_le(bytes: &Vec<u8>, start: usize) -> (r: Result<(GetOrUse, usize), Error>)
        requires
            start <= bytes@.len(),
        ensures
            decoded(GetOrUse::spec_read(bytes@.skip(start as int)), start, bytes@.len(), r),
            r is Ok ==> r->Ok_0.0.wf(),
    {
        reveal(GetOrUse::spec_read);
        let ghost s = bytes@.skip(start as int);
        let (mapping, p1) = match read_identifier(bytes, start) {
            Ok(pair) => pair,
            Err(e) => {
                return Err(e);
            },
        };
        assert(s.skip(p1 - start) =~= bytes@.skip(p1 as int));
        let (key, p2) = match Operand::read_le(bytes, p1) {
            Ok(pair) => pair,
            Err(e) => {
                return Err(e);
            },
        };
        assert(s.skip(p2 - start) =~= bytes@.skip(p2 as int));
        let (fallback, p3) = match Operand::read_le(bytes, p2) {
            Ok(pair) => pair,
            Err(e) => {
                return Err(e);
            },
        };
        assert(s.skip(p3 - start) =~= bytes@.skip(p3 as int));
        let (destination, p4) = match Register::read_le(bytes, p3) {
            Ok(pair) => pair,
            Err(e) => {
                return Err(e);
            },
        };
        Ok((GetOrUse { mapping, key, fallback, destination }, p4))
    }
}

impl SetValue {
    /// The identifiers are well formed.
    pub open spec fn wf(self) -> bool {
        self.mapping.wf()
    }

    /// The mapping, the key and the value.
    pub open spec fn spec_bytes(self) -> Seq<u8> {
        spec_identifier_bytes(self.mapping) + self.key.spec_bytes() + self.value.spec_bytes()
    }

    /// The command that the bytes spell.
    #[verifier::opaque]
    pub open spec fn spec_read(s: Seq<u8>) -> Result<(SetValue, nat), Error> {
        match spec_read_identifier(s) {
            Err(e) => Err(e),
            Ok((mapping, a)) => match Operand::spec_read(s.skip(a as int)) {
                Err(e) => Err(e),
                Ok((key, b)) => match Operand::spec_read(s.skip((a + b) as int)) {
                    Err(e) => Err(e),
                    Ok((value, c)) => Ok((SetValue { mapping, key, value }, a + b + c)),
                },
            },
        }
    }

    /// Reading back what was written gives the command.
    pub proof fn lemma_read(self, rest: Seq<u8>)
        requires
            self.wf(),
        ensures
            SetValue::spec_read(self.spec_bytes() + rest) == Ok::<(SetValue, nat), Error>(
                (self, self.spec_bytes().len()),
            ),
    {
        reveal(SetValue::spec_read);
        let s = self.spec_bytes() + rest;
        let mapping = spec_identifier_bytes(self.mapping);
        let key = self.key.spec_bytes();
        let value = self.value.spec_bytes();
        lemma_read_identifier(self.mapping, key + value + rest);
        self.key.lemma_read(value + rest);
        self.value.lemma_read(rest);
        assert(s =~= mapping + (key + value + rest));
        assert(s.skip(mapping.len() as int) =~= key + (value + rest));
        assert(s.skip((mapping.len() + key.len()) as int) =~= value + rest);
    }

    /// Appends the encoding of the command.
    pub fn write_le(&self, out: &mut Vec<u8>)
        requires
            self.wf(),
        ensures
            final(out)@ == old(out)@ + self.spec_bytes(),
    {
        write_identifier(&self.mapping, out);
        self.key.write_le(out);
        self.value.write_le(out);
        assert(out@ =~= old(out)@ + self.spec_bytes());
    }

    /// Reads a command at `start`.
    pub fn read_le(bytes: &Vec<u8>, start: usize) -> (r: Result<(SetValue, usize), Error>)
        requires
            start <= bytes@.len(),
        ensures
            decoded(SetValue::spec_read(bytes@.skip(start as int)), start, bytes@.len(), r),
            r is Ok ==> r->Ok_0.0.wf(),
    {
        reveal(SetValue::spec_read);
        let ghost s = bytes@.skip(start as int);
        let (mapping, p1) = match read_identifier(bytes, start) {
            Ok(pair) => pair,
            Err(e) => {
                return Err(e);
            },
        };
        assert(s.skip(p1 - start) =~= bytes@.skip(p1 as int));
        let (key, p2) = match Operand::read_le(bytes, p1) {
            Ok(pair) => pair,
            Err(e) => {
                return Err(e);
            },
        };
        assert(s.skip(p2 - start) =~= bytes@.skip(p2 as int));
        let (value, p3) = match Operand::read_le(bytes, p2) {
            Ok(pair) => pair,
            Err(e) => {
                return Err(e);
            },
        };
        Ok((SetValue { mapping, key, value }, p3))
    }
}

impl Command {
    /// The identifiers are well formed.
    pub open spec fn wf(self) -> bool {
        match self {
            Command::Instruction(_) => true,
            Command::Get(get) => get.wf(),
            Command::GetOrUse(get_or_use) => get_or_use.wf(),
            Command::SetValue(set) => set.wf(),
        }
    }

    /// Whether the identifiers are well formed.
    pub fn is_wf(&self) -> (r: bool)
        ensures
            r == self.wf(),
    {
        match self {
            Command::Instruction(_) => true,
            Command::Get(get) => get.mapping.is_wf(),
            Command::GetOrUse(get_or_use) => get_or_use.mapping.is_wf(),
            Command::SetValue(set) => set.mapping.is_wf(),
        }
    }

    /// The byte that tags the variant: 0 for an instruction, 1 for `get`,
    /// 2 for `get.or_use`, 3 for `set`.
    pub open spec fn spec_variant(self) -> u8 {
        match self {
            Command::Instruction(_) => 0,
            Command::Get(_) => 1,
            Command::GetOrUse(_) => 2,
            Command::SetValue(_) => 3,
        }
    }

    /// The encoding: the variant byte, then the encoding of the variant.
    pub open spec fn spec_bytes(self) -> Seq<u8> {
        seq![self.spec_variant()] + match self {
            Command::Instruction(instruction) => instruction.spec_bytes(),
            Command::Get(get) => get.spec_bytes(),
            Command::GetOrUse(get_or_use) => get_or_use.spec_bytes(),
            Command::SetValue(set) => set.spec_bytes(),
        }
    }

    /// The command that the bytes spell, and the number of bytes that spell
    /// it. A variant byte of 4 or more names no command.
    pub open spec fn spec_read(s: Seq<u8>) -> Result<(Command, nat), Error> {
        if s.len() < 1 {
            Err(Error::UnexpectedEnd)
        } else if s[0] == 0 {
            match Instruction::spec_read(s.skip(1)) {
                Ok((instruction, n)) => Ok((Command::Instruction(instruction), 1 + n)),
                Err(e) => Err(e),
            }
        } else if s[0] == 1 {
            match Get::spec_read(s.skip(1)) {
                Ok((get, n)) => Ok((Command::Get(get), 1 + n)),
                Err(e) => Err(e),
            }
        } else if s[0] == 2 {
            match GetOrUse::spec_read(s.skip(1)) {
                Ok((get_or_use, n)) => Ok((Command::GetOrUse(get_or_use), 1 + n)),
                Err(e) => Err(e),
            }
        } else if s[0] == 3 {
            match SetValue::spec_read(s.skip(1)) {
                Ok((set, n)) => Ok((Command::SetValue(set), 1 + n)),
                Err(e) => Err(e),
            }
        } else {
            Err(Error::InvalidVariant { tag: s[0] })
        }
    }

    /// Decoding is the inverse of encoding: the bytes of a command,
    /// whatever follows them, are read back as that command, and as
    /// nothing more.
    pub proof fn lemma_read(self, rest: Seq<u8>)
        requires
            self.wf(),
        ensures
            Command::spec_read(self.spec_bytes() + rest) == Ok::<(Command, nat), Error>(
                (self, self.spec_bytes().len()),
            ),
    {
        let s = self.spec_bytes() + rest;
        assert(s[0] == self.spec_variant());
        match self {
            Command::Instruction(instruction) => {
                instruction.lemma_read(rest);
                assert(s.skip(1) =~= instruction.spec_bytes() + rest);
                assert(self.spec_bytes().len() == 1 + instruction.spec_bytes().len());
                assert(Instruction::spec_read(s.skip(1)) == Ok::<(Instruction, nat), Error>(
                    (instruction, instruction.spec_bytes().len()),
                ));
            },
            Command::Get(get) => {
                get.lemma_read(rest);
                assert(s.skip(1) =~= get.spec_bytes() + rest);
                assert(self.spec_bytes().len() == 1 + get.spec_bytes().len());
                assert(Get::spec_read(s.skip(1)) == Ok::<(Get, nat), Error>(
                    (get, get.spec_bytes().len()),
                ));
            },
            Command::GetOrUse(get_or_use) => {
                get_or_use.lemma_read(rest);
                assert(s.skip(1) =~= get_or_use.spec_bytes() + rest);
                assert(self.spec_bytes().len() == 1 + get_or_use.spec_bytes().len());
                assert(GetOrUse::spec_read(s.skip(1)) == Ok::<(GetOrUse, nat), Error>(
                    (get_or_use, get_or_use.spec_bytes().len()),
                ));
            },
            Command::SetValue(set) => {
                set.lemma_read(rest);
                assert(s.skip(1) =~= set.spec_bytes() + rest);
                assert(self.spec_bytes().len() == 1 + set.spec_bytes().len());
                assert(SetValue::spec_read(s.skip(1)) == Ok::<(SetValue, nat), Error>(
                    (set, set.spec_bytes().len()),
                ));
            },
        }
    }

    /// Appends the encoding of the command: the variant byte, then the
    /// variant.
    pub fn write_le(&self, out: &mut Vec<u8>)
        requires
            self.wf(),
        ensures
            final(out)@ == old(out)@ + self.spec_bytes(),
    {
        match self {
            Command::Instruction(instruction) => {
                // Write the variant.
                out.push(0u8);
                // Write the instruction.
                instruction.write_le(out);
            },
            Command::Get(get) => {
                // Write the variant.
                out.push(1u8);
                // Write the `get` operation.
                get.write_le(out);
            },
            Command::GetOrUse(get_or_use) => {
                // Write the variant.
                out.push(2u8);
                // Write the defaulting `get` operation.
                get_or_use.write_le(out);
            },
            Command::SetValue(set) => {
                // Write the variant.
                out.push(3u8);
                // Write the `set` operation.
                set.write_le(out);
            },
        }
        assert(out@ =~= old(out)@ + self.spec_bytes());
    }

    /// Reads a command at `start`: the command and the position behind it.
    pub fn read_le(bytes: &Vec<u8>, start: usize) -> (r: Result<(Command, usize), Error>)
        requires
            start <= bytes@.len(),
        ensures
            decoded(Command::spec_read(bytes@.skip(start as int)), start, bytes@.len(), r),
            r is Ok ==> r->Ok_0.0.wf(),
            start < bytes@.len() && bytes@[start as int] >= 4 ==> r == Err::<
                (Command, usize),
                Error,
            >(Error::InvalidVariant { tag: bytes@[start as int] }),
    {
        if bytes.len() - start < 1 {
            return Err(Error::UnexpectedEnd);
        }
        // Read the variant.
        let variant: u8 = bytes[start];
        assert(bytes@.skip(start as int)[0] == variant);
        assert(bytes@.skip(start as int).skip(1) =~= bytes@.skip(start + 1));
        if variant == 0 {
            match Instruction::read_le(bytes, start + 1) {
                Ok((instruction, next)) => Ok((Command::Instruction(instruction), next)),
                Err(e) => Err(e),
            }
        } else if variant == 1 {
            match Get::read_le(bytes, start + 1) {
                Ok((get, next)) => Ok((Command::Get(get), next)),
                Err(e) => Err(e),
            }
        } else if variant == 2 {
            match GetOrUse::read_le(bytes, start + 1) {
                Ok((get_or_use, next)) => Ok((Command::GetOrUse(get_or_use), next)),
                Err(e) => Err(e),
            }
        } else if variant == 3 {
            match SetValue::read_le(bytes, start + 1) {
                Ok((set, next)) => Ok((Command::SetValue(set), next)),
                Err(e) => Err(e),
            }
        } else {
            Err(Error::InvalidVariant { tag: variant })
        }
    }

    /// The encoding of the command.
    pub fn to_bytes_le(&self) -> (r: Vec<u8>)
        requires
            self.wf(),
        ensures
            r@ == self.spec_bytes(),
    {
        let mut out: Vec<u8> = Vec::new();
        self.write_le(&mut out);
        assert(out@ =~= self.spec_bytes());
        out
    }

    /// The command that stands at the start of the bytes.
    pub fn from_bytes_le(bytes: &Vec<u8>) -> (r: Result<Command, Error>)
        ensures
            match Command::spec_read(bytes@) {
                Ok((command, _)) => r == Ok::<Command, Error>(command) && command.wf(),
                Err(e) => r == Err::<Command, Error>(e),
            },
    {
        assert(bytes@.skip(0) =~= bytes@);
        match Command::read_le(bytes, 0) {
            Ok((command, _)) => Ok(command),
            Err(e) => Err(e),
        }
    }
}

} // verus!
