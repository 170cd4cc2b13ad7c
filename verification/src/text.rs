//! The text form of finalize commands:
//!
//! ```text
//! get mapping[key] into r1;
//! get.or_use mapping[key] fallback into r1;
//! set value into mapping[key];
//! add r0 r1 into r2;
//! ```
//!
//! Words are parted by one space. A register is `r` and a number, a
//! constant is `true`, `false`, or a number followed by `u8`, `u16`, `u32`
//! or `u64`. Numbers are decimal and have no leading zero.

use vstd::prelude::*;
use vstd::string::{StrSliceExecFns, StringSliceAdditionalSpecFns};
use crate::command::{Command, Get, GetOrUse, Instruction, Opcode, Operand, Register, SetValue};
use crate::error::Error;
use crate::ident::{
    is_digit, is_name_byte, spec_is_digit, spec_is_name_byte, valid_name, Identifier,
};

verus! {

/// The decimal digits of a number, as ASCII bytes.
pub open spec fn digits(x: nat) -> Seq<u8>
    decreases x,
{
    if x < 10 {
        seq![(48 + x) as u8]
    } else {
        digits(x / 10).push((48 + x % 10) as u8)
    }
}

/// The number that decimal digits spell.
pub open spec fn decimal_value(d: Seq<u8>) -> nat
    decreases d.len(),
{
    if d.len() == 0 {
        0
    } else {
        decimal_value(d.drop_last()) * 10 + (d.last() - 48) as nat
    }
}

/// The end of the longest run of digits that starts at `i`.
pub open spec fn digit_run(s: Seq<u8>, i: nat) -> nat
    decreases s.len() - i,
{
    if i < s.len() && spec_is_digit(s[i as int]) {
        digit_run(s, i + 1)
    } else {
        i
    }
}

/// The end of the longest run of name bytes that starts at `i`.
pub open spec fn name_run(s: Seq<u8>, i: nat) -> nat
    decreases s.len() - i,
{
    if i < s.len() && spec_is_name_byte(s[i as int]) {
        name_run(s, i + 1)
    } else {
        i
    }
}

/// `r`
pub open spec fn word_r() -> Seq<u8> {
    seq![114u8]
}

/// `true`
pub open spec fn word_true() -> Seq<u8> {
    seq![116u8, 114, 117, 101]
}

/// `false`
pub open spec fn word_false() -> Seq<u8> {
    seq![102u8, 97, 108, 115, 101]
}

/// `u8`
pub open spec fn word_u8() -> Seq<u8> {
    seq![117u8, 56]
}

/// `u16`
pub open spec fn word_u16() -> Seq<u8> {
    seq![117u8, 49, 54]
}

/// `u32`
pub open spec fn word_u32() -> Seq<u8> {
    seq![117u8, 51, 50]
}

/// `u64`
pub open spec fn word_u64() -> Seq<u8> {
    seq![117u8, 54, 52]
}

/// `get `
pub open spec fn word_get() -> Seq<u8> {
    seq![103u8, 101, 116, 32]
}

/// `get.or_use `
pub open spec fn word_get_or_use() -> Seq<u8> {
    seq![103u8, 101, 116, 46, 111, 114, 95, 117, 115, 101, 32]
}

/// `set `
pub open spec fn word_set() -> Seq<u8> {
    seq![115u8, 101, 116, 32]
}

/// `add `
pub open spec fn word_add() -> Seq<u8> {
    seq![97u8, 100, 100, 32]
}

/// `sub `
pub open spec fn word_sub() -> Seq<u8> {
    seq![115u8, 117, 98, 32]
}

/// `mul `
pub open spec fn word_mul() -> Seq<u8> {
    seq![109u8, 117, 108, 32]
}

/// ` into `
pub open spec fn word_into() -> Seq<u8> {
    seq![32u8, 105, 110, 116, 111, 32]
}

/// `[`
pub open spec fn word_open() -> Seq<u8> {
    seq![91u8]
}

/// `]`
pub open spec fn word_close() -> Seq<u8> {
    seq![93u8]
}

/// ` `
pub open spec fn word_space() -> Seq<u8> {
    seq![32u8]
}

/// `;`
pub open spec fn word_end() -> Seq<u8> {
    seq![59u8]
}

/// The bytes of `word_r`.
pub fn make_r() -> (r: Vec<u8>)
    ensures
        r@ == word_r(),
{
    let word = vec![114u8];
    assert(word@ =~= word_r());
    word
}

/// The bytes of `word_true`.
pub fn make_true() -> (r: Vec<u8>)
    ensures
        r@ == word_true(),
{
    let word = vec![116u8, 114, 117, 101];
    assert(word@ =~= word_true());
    word
}

/// The bytes of `word_false`.
pub fn make_false() -> (r: Vec<u8>)
    ensures
        r@ == word_false(),
{
    let word = vec![102u8, 97, 108, 115, 101];
    assert(word@ =~= word_false());
    word
}

/// The bytes of `word_u8`.
pub fn make_u8() -> (r: Vec<u8>)
    ensures
        r@ == word_u8(),
{
    let word = vec![117u8, 56];
    assert(word@ =~= word_u8());
    word
}

/// The bytes of `word_u16`.
pub fn make_u16() -> (r: Vec<u8>)
    ensures
        r@ == word_u16(),
{
    let word = vec![117u8, 49, 54];
    assert(word@ =~= word_u16());
    word
}

/// The bytes of `word_u32`.
pub fn make_u32() -> (r: Vec<u8>)
    ensures
        r@ == word_u32(),
{
    let word = vec![117u8, 51, 50];
    assert(word@ =~= word_u32());
    word
}

/// The bytes of `word_u64`.
pub fn make_u64() -> (r: Vec<u8>)
    ensures
        r@ == word_u64(),
{
    let word = vec![117u8, 54, 52];
    assert(word@ =~= word_u64());
    word
}

/// The bytes of `word_get`.
pub fn make_get() -> (r: Vec<u8>)
    ensures
        r@ == word_get(),
{
    let word = vec![103u8, 101, 116, 32];
    assert(word@ =~= word_get());
    word
}

/// The bytes of `word_get_or_use`.
pub fn make_get_or_use() -> (r: Vec<u8>)
    ensures
        r@ == word_get_or_use(),
{
    let word = vec![103u8, 101, 116, 46, 111, 114, 95, 117, 115, 101, 32];
    assert(word@ =~= word_get_or_use());
    word
}

/// The bytes of `word_set`.
pub fn make_set() -> (r: Vec<u8>)
    ensures
        r@ == word_set(),
{
    let word = vec![115u8, 101, 116, 32];
    assert(word@ =~= word_set());
    word
}

/// The bytes of `word_add`.
pub fn make_add() -> (r: Vec<u8>)
    ensures
        r@ == word_add(),
{
    let word = vec![97u8, 100, 100, 32];
    assert(word@ =~= word_add());
    word
}

/// The bytes of `word_sub`.
pub fn make_sub() -> (r: Vec<u8>)
    ensures
        r@ == word_sub(),
{
    let word = vec![115u8, 117, 98, 32];
    assert(word@ =~= word_sub());
    word
}

/// The bytes of `word_mul`.
pub fn make_mul() -> (r: Vec<u8>)
    ensures
        r@ == word_mul(),
{
    let word = vec![109u8, 117, 108, 32];
    assert(word@ =~= word_mul());
    word
}

/// The bytes of `word_into`.
pub fn make_into() -> (r: Vec<u8>)
    ensures
        r@ == word_into(),
{
    let word = vec![32u8, 105, 110, 116, 111, 32];
    assert(word@ =~= word_into());
    word
}

/// The bytes of `word_open`.
pub fn make_open() -> (r: Vec<u8>)
    ensures
        r@ == word_open(),
{
    let word = vec![91u8];
    assert(word@ =~= word_open());
    word
}

/// The bytes of `word_close`.
pub fn make_close() -> (r: Vec<u8>)
    ensures
        r@ == word_close(),
{
    let word = vec![93u8];
    assert(word@ =~= word_close());
    word
}

/// The bytes of `word_space`.
pub fn make_space() -> (r: Vec<u8>)
    ensures
        r@ == word_space(),
{
    let word = vec![32u8];
    assert(word@ =~= word_space());
    word
}

/// The bytes of `word_end`.
pub fn make_end() -> (r: Vec<u8>)
    ensures
        r@ == word_end(),
{
    let word = vec![59u8];
    assert(word@ =~= word_end());
    word
}

/// The text of a register.
pub open spec fn register_text(register: Register) -> Seq<u8> {
    word_r() + digits(register.locator as nat)
}

/// The text of an operand.
pub open spec fn operand_text(operand: Operand) -> Seq<u8> {
    match operand {
        Operand::Register(register) => register_text(register),
        Operand::Boolean(b) => if b {
            word_true()
        } else {
            word_false()
        },
        Operand::U8(x) => digits(x as nat) + word_u8(),
        Operand::U16(x) => digits(x as nat) + word_u16(),
        Operand::U32(x) => digits(x as nat) + word_u32(),
        Operand::U64(x) => digits(x as nat) + word_u64(),
    }
}

/// The text of an operation, with the space behind it.
pub open spec fn opcode_text(opcode: Opcode) -> Seq<u8> {
    match opcode {
        Opcode::Add => word_add(),
        Opcode::Sub => word_sub(),
        Opcode::Mul => word_mul(),
    }
}

/// The text of a command.
pub open spec fn command_text(command: Command) -> Seq<u8> {
    match command {
        Command::Instruction(i) => opcode_text(i.opcode) + operand_text(i.first) + word_space()
            + operand_text(i.second) + word_into() + register_text(i.destination) + word_end(),
        Command::Get(g) => word_get() + g.mapping.spec_name() + word_open() + operand_text(g.key)
            + word_close() + word_into() + register_text(g.destination) + word_end(),
        Command::GetOrUse(g) => word_get_or_use() + g.mapping.spec_name() + word_open()
            + operand_text(g.key) + word_close() + word_space() + operand_text(g.fallback)
            + word_into() + register_text(g.destination) + word_end(),
        Command::SetValue(s) => word_set() + operand_text(s.value) + word_into()
            + s.mapping.spec_name() + word_open() + operand_text(s.key) + word_close()
            + word_end(),
    }
}

/// Where the text behind `word` starts, if `word` stands at `i`.
pub open spec fn parse_word(s: Seq<u8>, i: nat, word: Seq<u8>) -> Option<nat> {
    if i + word.len() <= s.len() && s.subrange(i as int, (i + word.len()) as int) == word {
        Some(i + word.len())
    } else {
        None
    }
}

/// The decimal number at `i`: digits without a leading zero that spell a
/// number of 64 bits.
pub open spec fn parse_number(s: Seq<u8>, i: nat) -> Option<(u64, nat)> {
    let k = digit_run(s, i);
    if k == i {
        None
    } else if k > i + 1 && s[i as int] == 48 {
        None
    } else if decimal_value(s.subrange(i as int, k as int)) > u64::MAX {
        None
    } else {
        Some((decimal_value(s.subrange(i as int, k as int)) as u64, k))
    }
}

/// The register at `i`.
#[verifier::opaque]
pub open spec fn parse_register(s: Seq<u8>, i: nat) -> Option<(Register, nat)> {
    match parse_word(s, i, word_r()) {
        None => None,
        Some(j) => match parse_number(s, j) {
            None => None,
            Some((locator, k)) => Some((Register { locator }, k)),
        },
    }
}

/// The constant of the type that the suffix at `j` names, if `x` is of
/// that type.
#[verifier::opaque]
pub open spec fn parse_suffix(s: Seq<u8>, j: nat, x: u64) -> Option<(Operand, nat)> {
    if parse_word(s, j, word_u8()) is Some {
        if x <= u8::MAX {
            Some((Operand::U8(x as u8), j + 2))
        } else {
            None
        }
    } else if parse_word(s, j, word_u16()) is Some {
        if x <= u16::MAX {
            Some((Operand::U16(x as u16), j + 3))
        } else {
            None
        }
    } else if parse_word(s, j, word_u32()) is Some {
        if x <= u32::MAX {
            Some((Operand::U32(x as u32), j + 3))
        } else {
            None
        }
    } else if parse_word(s, j, word_u64()) is Some {
        Some((Operand::U64(x), j + 3))
    } else {
        None
    }
}

/// The operand at `i`.
#[verifier::opaque]
pub open spec fn parse_operand(s: Seq<u8>, i: nat) -> Option<(Operand, nat)> {
    if parse_word(s, i, word_r()) is Some {
        match parse_register(s, i) {
            Some((register, k)) => Some((Operand::Register(register), k)),
            None => None,
        }
    } else if parse_word(s, i, word_true()) is Some {
        Some((Operand::Boolean(true), i + 4))
    } else if parse_word(s, i, word_false()) is Some {
        Some((Operand::Boolean(false), i + 5))
    } else {
        match parse_number(s, i) {
            None => None,
            Some((x, j)) => parse_suffix(s, j, x),
        }
    }
}

/// The identifier at `i`: the longest run of name bytes, which must be a
/// valid name.
pub open spec fn parse_identifier(s: Seq<u8>, i: nat) -> Option<(Identifier, nat)> {
    let k = name_run(s, i);
    if valid_name(s.subrange(i as int, k as int)) {
        Some((Identifier::spec_from_name(s.subrange(i as int, k as int)), k))
    } else {
        None
    }
}

/// The operation at `i`, with the space behind it.
pub open spec fn parse_opcode(s: Seq<u8>, i: nat) -> Option<(Opcode, nat)> {
    if parse_word(s, i, word_add()) is Some {
        Some((Opcode::Add, i + 4))
    } else if parse_word(s, i, word_sub()) is Some {
        Some((Opcode::Sub, i + 4))
    } else if parse_word(s, i, word_mul()) is Some {
        Some((Opcode::Mul, i + 4))
    } else {
        None
    }
}

/// `mapping[key]` at `i`.
#[verifier::opaque]
pub open spec fn parse_place(s: Seq<u8>, i: nat) -> Option<(Identifier, Operand, nat)> {
    match parse_identifier(s, i) {
        None => None,
        Some((mapping, a)) => match parse_word(s, a, word_open()) {
            None => None,
            Some(b) => match parse_operand(s, b) {
                None => None,
                Some((key, c)) => match parse_word(s, c, word_close()) {
                    None => None,
                    Some(d) => Some((mapping, key, d)),
                },
            },
        },
    }
}

/// ` into register;` at `i`.
#[verifier::opaque]
pub open spec fn parse_target(s: Seq<u8>, i: nat) -> Option<(Register, nat)> {
    match parse_word(s, i, word_into()) {
        None => None,
        Some(a) => match parse_register(s, a) {
            None => None,
            Some((destination, b)) => match parse_word(s, b, word_end()) {
                None => None,
                Some(c) => Some((destination, c)),
            },
        },
    }
}

/// `get.or_use mapping[key] fallback into destination;` at `i`.
#[verifier::opaque]
pub open spec fn parse_get_or_use(s: Seq<u8>, i: nat) -> Option<(GetOrUse, nat)> {
    match parse_word(s, i, word_get_or_use()) {
        None => None,
        Some(a) => match parse_place(s, a) {
            None => None,
            Some((mapping, key, b)) => match parse_word(s, b, word_space()) {
                None => None,
                Some(c) => match parse_operand(s, c) {
                    None => None,
                    Some((fallback, d)) => match parse_target(s, d) {
                        None => None,
                        Some((destination, e)) => Some(
                            (GetOrUse { mapping, key, fallback, destination }, e),
                        ),
                    },
                },
            },
        },
    }
}

/// `get mapping[key] into destination;` at `i`.
#[verifier::opaque]
pub open spec fn parse_get(s: Seq<u8>, i: nat) -> Option<(Get, nat)> {
    match parse_word(s, i, word_get()) {
        None => None,
        Some(a) => match parse_place(s, a) {
            None => None,
            Some((mapping, key, b)) => match parse_target(s, b) {
                None => None,
                Some((destination, c)) => Some((Get { mapping, key, destination }, c)),
            },
        },
    }
}

/// `set value into mapping[key];` at `i`.
#[verifier::opaque]
pub open spec fn parse_set(s: Seq<u8>, i: nat) -> Option<(SetValue, nat)> {
    match parse_word(s, i, word_set()) {
        None => None,
        Some(a) => match parse_operand(s, a) {
            None => None,
            Some((value, b)) => match parse_word(s, b, word_into()) {
                None => None,
                Some(c) => match parse_place(s, c) {
                    None => None,
                    Some((mapping, key, d)) => match parse_word(s, d, word_end()) {
                        None => None,
                        Some(e) => Some((SetValue { mapping, key, value }, e)),
                    },
                },
            },
        },
    }
}

/// `opcode first second into destination;` at `i`.
#[verifier::opaque]
pub open spec fn parse_instruction(s: Seq<u8>, i: nat) -> Option<(Instruction, nat)> {
    match parse_opcode(s, i) {
        None => None,
        Some((opcode, a)) => match parse_operand(s, a) {
            None => None,
            Some((first, b)) => match parse_word(s, b, word_space()) {
                None => None,
                Some(c) => match parse_operand(s, c) {
                    None => None,
                    Some((second, d)) => match parse_target(s, d) {
                        None => None,
                        Some((destination, e)) => Some(
                            (Instruction { opcode, first, second, destination }, e),
                        ),
                    },
                },
            },
        },
    }
}

/// The command at the start of the text, and where the text behind it
/// starts. The variants are tried in the order `get.or_use`, `get`, `set`,
/// instruction.
pub open spec fn parse_command(s: Seq<u8>) -> Option<(Command, nat)> {
    match parse_get_or_use(s, 0) {
        Some((get_or_use, n)) => Some((Command::GetOrUse(get_or_use), n)),
        None => match parse_get(s, 0) {
            Some((get, n)) => Some((Command::Get(get), n)),
            None => match parse_set(s, 0) {
                Some((set, n)) => Some((Command::SetValue(set), n)),
                None => match parse_instruction(s, 0) {
                    Some((instruction, n)) => Some((Command::Instruction(instruction), n)),
                    None => None,
                },
            },
        },
    }
}

/// A run of digits ends at or behind its start, holds digits only, and
/// is followed by no digit.
pub proof fn lemma_digit_run(s: Seq<u8>, i: nat)
    requires
        i <= s.len(),
    ensures
        i <= digit_run(s, i) <= s.len(),
        forall|j: int| i <= j < digit_run(s, i) ==> spec_is_digit(#[trigger] s[j]),
        digit_run(s, i) < s.len() ==> !spec_is_digit(s[digit_run(s, i) as int]),
    decreases s.len() - i,
{
    if i < s.len() && spec_is_digit(s[i as int]) {
        lemma_digit_run(s, i + 1);
    }
}

/// A run of name bytes ends at or behind its start, holds name bytes only,
/// and is followed by no name byte.
pub proof fn lemma_name_run(s: Seq<u8>, i: nat)
    requires
        i <= s.len(),
    ensures
        i <= name_run(s, i) <= s.len(),
        forall|j: int| i <= j < name_run(s, i) ==> spec_is_name_byte(#[trigger] s[j]),
        name_run(s, i) < s.len() ==> !spec_is_name_byte(s[name_run(s, i) as int]),
    decreases s.len() - i,
{
    if i < s.len() && spec_is_name_byte(s[i as int]) {
        lemma_name_run(s, i + 1);
    }
}

/// More digits spell no smaller number.
pub proof fn lemma_decimal_grows(s: Seq<u8>, i: int, a: int, b: int)
    requires
        0 <= i <= a <= b <= s.len(),
        forall|j: int| i <= j < b ==> spec_is_digit(#[trigger] s[j]),
    ensures
        decimal_value(s.subrange(i, a)) <= decimal_value(s.subrange(i, b)),
    decreases b - a,
{
    if a < b {
        lemma_decimal_grows(s, i, a, b - 1);
        assert(s.subrange(i, b).drop_last() =~= s.subrange(i, b - 1));
        assert(spec_is_digit(s[b - 1]));
    }
}

/// The digits of a number are digits, at least one, they spell the number,
/// and only zero starts with the digit zero.
pub proof fn lemma_digits(x: nat)
    ensures
        digits(x).len() >= 1,
        forall|i: int| 0 <= i < digits(x).len() ==> spec_is_digit(#[trigger] digits(x)[i]),
        decimal_value(digits(x)) == x,
        digits(x)[0] == 48 ==> x == 0,
    decreases x,
{
    if x >= 10 {
        lemma_digits(x / 10);
        assert(digits(x).drop_last() =~= digits(x / 10));
        assert(digits(x)[0] == digits(x / 10)[0]);
        assert(digits(x).last() == (48 + x % 10) as u8);
        assert(decimal_value(digits(x)) == decimal_value(digits(x).drop_last()) * 10 + (
        digits(x).last() - 48) as nat);
    } else {
        assert(digits(x).drop_last() =~= Seq::<u8>::empty());
        assert(decimal_value(Seq::<u8>::empty()) == 0);
        assert(digits(x).last() == (48 + x) as u8);
        assert(decimal_value(digits(x)) == decimal_value(digits(x).drop_last()) * 10 + (
        digits(x).last() - 48) as nat);
    }
}

/// Whether every byte is an ASCII character.
pub open spec fn is_ascii_text(s: Seq<u8>) -> bool {
    forall|i: int| 0 <= i < s.len() ==> #[trigger] s[i] < 128
}

/// The text of a register is ASCII.
pub proof fn lemma_register_ascii(register: Register)
    ensures
        is_ascii_text(register_text(register)),
{
    lemma_digits(register.locator as nat);
}

/// The text of an operand is ASCII.
pub proof fn lemma_operand_ascii(operand: Operand)
    ensures
        is_ascii_text(operand_text(operand)),
{
    match operand {
        Operand::Register(register) => lemma_register_ascii(register),
        Operand::Boolean(_) => {},
        Operand::U8(x) => lemma_digits(x as nat),
        Operand::U16(x) => lemma_digits(x as nat),
        Operand::U32(x) => lemma_digits(x as nat),
        Operand::U64(x) => lemma_digits(x as nat),
    }
}

/// Texts that are ASCII are so together.
pub proof fn lemma_ascii_concat(a: Seq<u8>, b: Seq<u8>)
    requires
        is_ascii_text(a),
        is_ascii_text(b),
    ensures
        is_ascii_text(a + b),
{
    assert forall|i: int| 0 <= i < (a + b).len() implies #[trigger] (a + b)[i] < 128 by {
        if i < a.len() {
            assert((a + b)[i] == a[i]);
        } else {
            assert((a + b)[i] == b[i - a.len()]);
        }
    }
}

/// The name of a well-formed identifier is ASCII.
pub proof fn lemma_name_ascii(id: Identifier)
    requires
        id.wf(),
    ensures
        is_ascii_text(id.spec_name()),
{
    let name = id.spec_name();
    assert forall|i: int| 0 <= i < name.len() implies #[trigger] name[i] < 128 by {
        assert(spec_is_name_byte(name[i]));
    }
}

/// The text of a well-formed command is ASCII.
pub proof fn lemma_command_ascii(command: Command)
    requires
        command.wf(),
    ensures
        is_ascii_text(command_text(command)),
{
    match command {
        Command::Instruction(i) => {
            lemma_operand_ascii(i.first);
            lemma_operand_ascii(i.second);
            lemma_register_ascii(i.destination);
            let a = opcode_text(i.opcode);
            let b = a + operand_text(i.first);
            let c = b + word_space();
            let d = c + operand_text(i.second);
            let e = d + word_into();
            let f = e + register_text(i.destination);
            lemma_ascii_concat(a, operand_text(i.first));
            lemma_ascii_concat(b, word_space());
            lemma_ascii_concat(c, operand_text(i.second));
            lemma_ascii_concat(d, word_into());
            lemma_ascii_concat(e, register_text(i.destination));
            lemma_ascii_concat(f, word_end());
        },
        Command::Get(g) => {
            lemma_name_ascii(g.mapping);
            lemma_operand_ascii(g.key);
            lemma_register_ascii(g.destination);
            let a = word_get() + g.mapping.spec_name();
            let b = a + word_open();
            let c = b + operand_text(g.key);
            let d = c + word_close();
            let e = d + word_into();
            let f = e + register_text(g.destination);
            lemma_ascii_concat(word_get(), g.mapping.spec_name());
            lemma_ascii_concat(a, word_open());
            lemma_ascii_concat(b, operand_text(g.key));
            lemma_ascii_concat(c, word_close());
            lemma_ascii_concat(d, word_into());
            lemma_ascii_concat(e, register_text(g.destination));
            lemma_ascii_concat(f, word_end());
        },
        Command::GetOrUse(g) => {
            lemma_name_ascii(g.mapping);
            lemma_operand_ascii(g.key);
            lemma_operand_ascii(g.fallback);
            lemma_register_ascii(g.destination);
            let a = word_get_or_use() + g.mapping.spec_name();
            let b = a + word_open();
            let c = b + operand_text(g.key);
            let d = c + word_close();
            let e = d + word_space();
            let f = e + operand_text(g.fallback);
            let h = f + word_into();
            let k = h + register_text(g.destination);
            lemma_ascii_concat(word_get_or_use(), g.mapping.spec_name());
            lemma_ascii_concat(a, word_open());
            lemma_ascii_concat(b, operand_text(g.key));
            lemma_ascii_concat(c, word_close());
            lemma_ascii_concat(d, word_space());
            lemma_ascii_concat(e, operand_text(g.fallback));
            lemma_ascii_concat(f, word_into());
            lemma_ascii_concat(h, register_text(g.destination));
            lemma_ascii_concat(k, word_end());
        },
        Command::SetValue(v) => {
            lemma_name_ascii(v.mapping);
            lemma_operand_ascii(v.key);
            lemma_operand_ascii(v.value);
            let a = word_set() + operand_text(v.value);
            let b = a + word_into();
            let c = b + v.mapping.spec_name();
            let d = c + word_open();
            let e = d + operand_text(v.key);
            let f = e + word_close();
            lemma_ascii_concat(word_set(), operand_text(v.value));
            lemma_ascii_concat(a, word_into());
            lemma_ascii_concat(b, v.mapping.spec_name());
            lemma_ascii_concat(c, word_open());
            lemma_ascii_concat(d, operand_text(v.key));
            lemma_ascii_concat(e, word_close());
            lemma_ascii_concat(f, word_end());
        },
    }
}

/// `String::from_utf8`: the string whose UTF-8 encoding is the given
/// bytes. Bytes below 128 are valid UTF-8, so there is such a string.
#[verifier::external_body]
pub(crate) fn string_from_ascii(bytes: Vec<u8>) -> (r: String)
    requires
        is_ascii_text(bytes@),
    ensures
        vstd::utf8::encode_utf8(r@) == bytes@,
{
    String::from_utf8(bytes).unwrap_or_default()
}

/// Appends a word.
pub fn push_word(out: &mut Vec<u8>, word: &Vec<u8>)
    ensures
        final(out)@ == old(out)@ + word@,
{
    let n: usize = word.len();
    let mut i: usize = 0;
    while i < n
        invariant
            i <= n,
            n == word@.len(),
            out@ == old(out)@ + word@.take(i as int),
        decreases n - i,
    {
        out.push(word[i]);
        assert(out@ =~= old(out)@ + word@.take(i + 1));
        i = i + 1;
    }
    assert(word@.take(n as int) =~= word@);
}

/// Appends the decimal digits of a number.
pub fn push_decimal(out: &mut Vec<u8>, x: u64)
    ensures
        final(out)@ == old(out)@ + digits(x as nat),
    decreases x,
{
    if x >= 10 {
        push_decimal(out, x / 10);
    }
    out.push(48 + (x % 10) as u8);
    assert(out@ =~= old(out)@ + digits(x as nat));
}

/// Appends the text of a register.
pub fn push_register(out: &mut Vec<u8>, register: &Register)
    ensures
        final(out)@ == old(out)@ + register_text(*register),
{
    push_word(out, &make_r());
    push_decimal(out, register.locator);
    assert(out@ =~= old(out)@ + register_text(*register));
}

/// Appends the text of an operand.
pub fn push_operand(out: &mut Vec<u8>, operand: &Operand)
    ensures
        final(out)@ == old(out)@ + operand_text(*operand),
{
    match operand {
        Operand::Register(register) => {
            push_register(out, register);
        },
        Operand::Boolean(b) => {
            if *b {
                push_word(out, &make_true());
            } else {
                push_word(out, &make_false());
            }
        },
        Operand::U8(x) => {
            push_decimal(out, *x as u64);
            push_word(out, &make_u8());
        },
        Operand::U16(x) => {
            push_decimal(out, *x as u64);
            push_word(out, &make_u16());
        },
        Operand::U32(x) => {
            push_decimal(out, *x as u64);
            push_word(out, &make_u32());
        },
        Operand::U64(x) => {
            push_decimal(out, *x);
            push_word(out, &make_u64());
        },
    }
    assert(out@ =~= old(out)@ + operand_text(*operand));
}

/// Appends ` into register;`.
pub fn push_target(out: &mut Vec<u8>, destination: &Register)
    ensures
        final(out)@ == old(out)@ + word_into() + register_text(*destination) + word_end(),
{
    push_word(out, &make_into());
    push_register(out, destination);
    push_word(out, &make_end());
    assert(out@ =~= old(out)@ + word_into() + register_text(*destination) + word_end());
}

/// Appends `mapping[key]`.
pub fn push_place(out: &mut Vec<u8>, mapping: &Identifier, key: &Operand)
    requires
        mapping.wf(),
    ensures
        final(out)@ == old(out)@ + mapping.spec_name() + word_open() + operand_text(*key)
            + word_close(),
{
    mapping.push_name(out);
    push_word(out, &make_open());
    push_operand(out, key);
    push_word(out, &make_close());
    assert(out@ =~= old(out)@ + mapping.spec_name() + word_open() + operand_text(*key)
        + word_close());
}

impl Command {
    /// The text of the command, as ASCII bytes.
    pub fn to_text(&self) -> (r: Vec<u8>)
        requires
            self.wf(),
        ensures
            r@ == command_text(*self),
    {
        let mut out: Vec<u8> = Vec::new();
        match self {
            Command::Instruction(i) => {
                match i.opcode {
                    Opcode::Add => push_word(&mut out, &make_add()),
                    Opcode::Sub => push_word(&mut out, &make_sub()),
                    Opcode::Mul => push_word(&mut out, &make_mul()),
                }
                push_operand(&mut out, &i.first);
                push_word(&mut out, &make_space());
                push_operand(&mut out, &i.second);
                push_target(&mut out, &i.destination);
            },
            Command::Get(g) => {
                push_word(&mut out, &make_get());
                push_place(&mut out, &g.mapping, &g.key);
                push_target(&mut out, &g.destination);
            },
            Command::GetOrUse(g) => {
                push_word(&mut out, &make_get_or_use());
                push_place(&mut out, &g.mapping, &g.key);
                push_word(&mut out, &make_space());
                push_operand(&mut out, &g.fallback);
                push_target(&mut out, &g.destination);
            },
            Command::SetValue(s) => {
                push_word(&mut out, &make_set());
                push_operand(&mut out, &s.value);
                push_word(&mut out, &make_into());
                push_place(&mut out, &s.mapping, &s.key);
                push_word(&mut out, &make_end());
            },
        }
        assert(out@ =~= command_text(*self));
        out
    }
}

impl Command {
    /// The text of the command.
    pub fn to_string(&self) -> (r: String)
        requires
            self.wf(),
        ensures
            vstd::utf8::encode_utf8(r@) == command_text(*self),
    {
        let text = self.to_text();
        proof {
            lemma_command_ascii(*self);
        }
        string_from_ascii(text)
    }
}

/// What an executable parser returned, held against what the text spells
/// at a position.
pub open spec fn parsed<T>(spelled: Option<(T, nat)>, limit: nat, r: Option<(T, usize)>) -> bool {
    match spelled {
        Some((value, k)) => r == Some((value, k as usize)) && k <= limit <= usize::MAX,
        None => r is None,
    }
}

/// Where the text behind `word` starts, if `word` stands at `start`.
pub fn expect(bytes: &Vec<u8>, start: usize, word: &Vec<u8>) -> (r: Option<usize>)
    requires
        start <= bytes@.len(),
    ensures
        match parse_word(bytes@, start as nat, word@) {
            Some(k) => r == Some(k as usize) && k <= bytes@.len() <= usize::MAX && k == start
                + word@.len(),
            None => r is None,
        },
{
    let len: usize = bytes.len();
    let n: usize = word.len();
    if len - start < n {
        return None;
    }
    let mut i: usize = 0;
    while i < n
        invariant
            i <= n,
            n == word@.len(),
            start + n <= len,
            len == bytes@.len(),
            bytes@.subrange(start as int, start + i) == word@.take(i as int),
        decreases n - i,
    {
        if bytes[start + i] != word[i] {
            assert(bytes@.subrange(start as int, start + n)[i as int] != word@[i as int]);
            return None;
        }
        assert(bytes@.subrange(start as int, start + i + 1) =~= word@.take(i + 1));
        i = i + 1;
    }
    assert(word@.take(n as int) =~= word@);
    Some(start + n)
}

/// Parses a decimal number at `start`.
pub fn parse_number_at(bytes: &Vec<u8>, start: usize) -> (r: Option<(u64, usize)>)
    requires
        start <= bytes@.len(),
    ensures
        parsed(parse_number(bytes@, start as nat), bytes@.len(), r),
        r is Some ==> r->Some_0.1 > start,
{
    let len: usize = bytes.len();
    let ghost end = digit_run(bytes@, start as nat);
    proof {
        lemma_digit_run(bytes@, start as nat);
    }
    let mut acc: u64 = 0;
    let mut i: usize = start;
    assert(bytes@.subrange(start as int, start as int) =~= Seq::<u8>::empty());
    while i < len && is_digit(bytes[i])
        invariant
            start <= i <= len,
            len == bytes@.len(),
            end == digit_run(bytes@, start as nat),
            end == digit_run(bytes@, i as nat),
            i <= end <= len,
            forall|j: int| start <= j < end ==> spec_is_digit(#[trigger] bytes@[j]),
            acc as nat == decimal_value(bytes@.subrange(start as int, i as int)),
        decreases len - i,
    {
        let digit: u64 = (bytes[i] - 48) as u64;
        proof {
            lemma_digit_run(bytes@, (i + 1) as nat);
            assert(bytes@.subrange(start as int, i + 1).drop_last() =~= bytes@.subrange(
                start as int,
                i as int,
            ));
            lemma_decimal_grows(bytes@, start as int, i + 1, end as int);
        }
        if acc > (u64::MAX - digit) / 10 {
            assert(acc * 10 + digit > u64::MAX);
            return None;
        }
        acc = acc * 10 + digit;
        i = i + 1;
    }
    if i == start {
        return None;
    }
    if i - start > 1 && bytes[start] == 48 {
        return None;
    }
    Some((acc, i))
}

/// Parses a register at `start`.
pub fn parse_register_at(bytes: &Vec<u8>, start: usize) -> (r: Option<(Register, usize)>)
    requires
        start <= bytes@.len(),
    ensures
        parsed(parse_register(bytes@, start as nat), bytes@.len(), r),
{
    reveal(parse_register);
    let after = match expect(bytes, start, &make_r()) {
        Some(after) => after,
        None => {
            return None;
        },
    };
    match parse_number_at(bytes, after) {
        Some((locator, next)) => Some((Register { locator }, next)),
        None => None,
    }
}

/// Parses the suffix of a constant at `start`.
pub fn parse_suffix_at(bytes: &Vec<u8>, start: usize, x: u64) -> (r: Option<(Operand, usize)>)
    requires
        start <= bytes@.len(),
    ensures
        parsed(parse_suffix(bytes@, start as nat, x), bytes@.len(), r),
{
    reveal(parse_suffix);
    if let Some(next) = expect(bytes, start, &make_u8()) {
        if x <= 0xff {
            Some((Operand::U8(x as u8), next))
        } else {
            None
        }
    } else if let Some(next) = expect(bytes, start, &make_u16()) {
        if x <= 0xffff {
            Some((Operand::U16(x as u16), next))
        } else {
            None
        }
    } else if let Some(next) = expect(bytes, start, &make_u32()) {
        if x <= 0xffff_ffff {
            Some((Operand::U32(x as u32), next))
        } else {
            None
        }
    } else if let Some(next) = expect(bytes, start, &make_u64()) {
        Some((Operand::U64(x), next))
    } else {
        None
    }
}

/// Parses an operand at `start`.
pub fn parse_operand_at(bytes: &Vec<u8>, start: usize) -> (r: Option<(Operand, usize)>)
    requires
        start <= bytes@.len(),
    ensures
        parsed(parse_operand(bytes@, start as nat), bytes@.len(), r),
{
    reveal(parse_operand);
    if expect(bytes, start, &make_r()).is_some() {
        match parse_register_at(bytes, start) {
            Some((register, next)) => Some((Operand::Register(register), next)),
            None => None,
        }
    } else if let Some(next) = expect(bytes, start, &make_true()) {
        Some((Operand::Boolean(true), next))
    } else if let Some(next) = expect(bytes, start, &make_false()) {
        Some((Operand::Boolean(false), next))
    } else {
        match parse_number_at(bytes, start) {
            Some((x, next)) => parse_suffix_at(bytes, next, x),
            None => None,
        }
    }
}

/// Parses an identifier at `start`.
pub fn parse_identifier_at(bytes: &Vec<u8>, start: usize) -> (r: Option<(Identifier, usize)>)
    requires
        start <= bytes@.len(),
    ensures
        parsed(parse_identifier(bytes@, start as nat), bytes@.len(), r),
        r is Some ==> r->Some_0.0.wf(),
{
    let len: usize = bytes.len();
    let ghost end = name_run(bytes@, start as nat);
    proof {
        lemma_name_run(bytes@, start as nat);
    }
    let mut name: Vec<u8> = Vec::new();
    let mut i: usize = start;
    assert(bytes@.subrange(start as int, start as int) =~= Seq::<u8>::empty());
    while i < len && is_name_byte(bytes[i])
        invariant
            start <= i <= len,
            len == bytes@.len(),
            end == name_run(bytes@, i as nat),
            i <= end <= len,
            name@ == bytes@.subrange(start as int, i as int),
        decreases len - i,
    {
        proof {
            lemma_name_run(bytes@, (i + 1) as nat);
        }
        name.push(bytes[i]);
        assert(name@ =~= bytes@.subrange(start as int, i + 1));
        i = i + 1;
    }
    match Identifier::from_bytes(&name) {
        Some(id) => {
            proof {
                Identifier::lemma_from_name(name@);
            }
            Some((id, i))
        },
        None => None,
    }
}

/// Parses an operation at `start`.
pub fn parse_opcode_at(bytes: &Vec<u8>, start: usize) -> (r: Option<(Opcode, usize)>)
    requires
        start <= bytes@.len(),
    ensures
        parsed(parse_opcode(bytes@, start as nat), bytes@.len(), r),
{
    if let Some(next) = expect(bytes, start, &make_add()) {
        Some((Opcode::Add, next))
    } else if let Some(next) = expect(bytes, start, &make_sub()) {
        Some((Opcode::Sub, next))
    } else if let Some(next) = expect(bytes, start, &make_mul()) {
        Some((Opcode::Mul, next))
    } else {
        None
    }
}

/// Parses `mapping[key]` at `start`.
pub fn parse_place_at(bytes: &Vec<u8>, start: usize) -> (r: Option<(Identifier, Operand, usize)>)
    requires
        start <= bytes@.len(),
    ensures
        match parse_place(bytes@, start as nat) {
            Some((mapping, key, k)) => r == Some((mapping, key, k as usize)) && k <= bytes@.len()
                <= usize::MAX && mapping.wf(),
            None => r is None,
        },
{
    reveal(parse_place);
    let (mapping, a) = match parse_identifier_at(bytes, start) {
        Some(pair) => pair,
        None => {
            return None;
        },
    };
    let b = match expect(bytes, a, &make_open()) {
        Some(b) => b,
        None => {
            return None;
        },
    };
    let (key, c) = match parse_operand_at(bytes, b) {
        Some(pair) => pair,
        None => {
            return None;
        },
    };
    match expect(bytes, c, &make_close()) {
        Some(d) => Some((mapping, key, d)),
        None => None,
    }
}

/// Parses ` into register;` at `start`.
pub fn parse_target_at(bytes: &Vec<u8>, start: usize) -> (r: Option<(Register, usize)>)
    requires
        start <= bytes@.len(),
    ensures
        parsed(parse_target(bytes@, start as nat), bytes@.len(), r),
{
    reveal(parse_target);
    let a = match expect(bytes, start, &make_into()) {
        Some(a) => a,
        None => {
            return None;
        },
    };
    let (destination, b) = match parse_register_at(bytes, a) {
        Some(pair) => pair,
        None => {
            return None;
        },
    };
    match expect(bytes, b, &make_end()) {
        Some(c) => Some((destination, c)),
        None => None,
    }
}

impl GetOrUse {
    /// Parses the command at `start`.
    pub fn parse_at(bytes: &Vec<u8>, start: usize) -> (r: Option<(GetOrUse, usize)>)
        requires
            start <= bytes@.len(),
        ensures
            parsed(parse_get_or_use(bytes@, start as nat), bytes@.len(), r),
            r is Some ==> r->Some_0.0.wf(),
    {
        reveal(parse_get_or_use);
        let a = match expect(
            bytes,
            start,
            &make_get_or_use(),
        ) {
            Some(a) => a,
            None => {
                return None;
            },
        };
        let (mapping, key, b) = match parse_place_at(bytes, a) {
            Some(triple) => triple,
            None => {
                return None;
            },
        };
        let c = match expect(bytes, b, &make_space()) {
            Some(c) => c,
            None => {
                return None;
            },
        };
        let (fallback, d) = match parse_operand_at(bytes, c) {
            Some(pair) => pair,
            None => {
                return None;
            },
        };
        match parse_target_at(bytes, d) {
            Some((destination, e)) => Some((GetOrUse { mapping, key, fallback, destination }, e)),
            None => None,
        }
    }

    /// Parses the string into the command. Text behind it is an error.
    pub fn from_str(string: &str) -> (r: Result<GetOrUse, Error>)
        ensures
            match parse_get_or_use(string.spec_bytes(), 0) {
                Some((command, n)) => if n == string.spec_bytes().len() {
                    r == Ok::<GetOrUse, Error>(command)
                } else {
                    r == Err::<GetOrUse, Error>(Error::TrailingText { at: n as usize })
                },
                None => r == Err::<GetOrUse, Error>(Error::InvalidText),
            },
    {
        reveal(parse_get_or_use);
        let bytes = string.as_bytes_vec();
        match GetOrUse::parse_at(&bytes, 0) {
            Some((command, remainder)) => {
                if remainder != bytes.len() {
                    return Err(Error::TrailingText { at: remainder });
                }
                Ok(command)
            },
            None => Err(Error::InvalidText),
        }
    }
}

impl Get {
    /// Parses the command at `start`.
    pub fn parse_at(bytes: &Vec<u8>, start: usize) -> (r: Option<(Get, usize)>)
        requires
            start <= bytes@.len(),
        ensures
            parsed(parse_get(bytes@, start as nat), bytes@.len(), r),
            r is Some ==> r->Some_0.0.wf(),
    {
        reveal(parse_get);
        let a = match expect(bytes, start, &make_get()) {
            Some(a) => a,
            None => {
                return None;
            },
        };
        let (mapping, key, b) = match parse_place_at(bytes, a) {
            Some(triple) => triple,
            None => {
                return None;
            },
        };
        match parse_target_at(bytes, b) {
            Some((destination, c)) => Some((Get { mapping, key, destination }, c)),
            None => None,
        }
    }

    /// Parses the string into the command. Text behind it is an error.
    pub fn from_str(string: &str) -> (r: Result<Get, Error>)
        ensures
            match parse_get(string.spec_bytes(), 0) {
                Some((command, n)) => if n == string.spec_bytes().len() {
                    r == Ok::<Get, Error>(command)
                } else {
                    r == Err::<Get, Error>(Error::TrailingText { at: n as usize })
                },
                None => r == Err::<Get, Error>(Error::InvalidText),
            },
    {
        reveal(parse_get);
        let bytes = string.as_bytes_vec();
        match Get::parse_at(&bytes, 0) {
            Some((command, remainder)) => {
                if remainder != bytes.len() {
                    return Err(Error::TrailingText { at: remainder });
                }
                Ok(command)
            },
            None => Err(Error::InvalidText),
        }
    }
}

impl SetValue {
    /// Parses the command at `start`.
    pub fn parse_at(bytes: &Vec<u8>, start: usize) -> (r: Option<(SetValue, usize)>)
        requires
            start <= bytes@.len(),
        ensures
            parsed(parse_set(bytes@, start as nat), bytes@.len(), r),
            r is Some ==> r->Some_0.0.wf(),
    {
        reveal(parse_set);
        let a = match expect(bytes, start, &make_set()) {
            Some(a) => a,
            None => {
                return None;
            },
        };
        let (value, b) = match parse_operand_at(bytes, a) {
            Some(pair) => pair,
            None => {
                return None;
            },
        };
        let c = match expect(bytes, b, &make_into()) {
            Some(c) => c,
            None => {
                return None;
            },
        };
        let (mapping, key, d) = match parse_place_at(bytes, c) {
            Some(triple) => triple,
            None => {
                return None;
            },
        };
        match expect(bytes, d, &make_end()) {
            Some(e) => Some((SetValue { mapping, key, value }, e)),
            None => None,
        }
    }

    /// Parses the string into the command. Text behind it is an error.
    pub fn from_str(string: &str) -> (r: Result<SetValue, Error>)
        ensures
            match parse_set(string.spec_bytes(), 0) {
                Some((command, n)) => if n == string.spec_bytes().len() {
                    r == Ok::<SetValue, Error>(command)
                } else {
                    r == Err::<SetValue, Error>(Error::TrailingText { at: n as usize })
                },
                None => r == Err::<SetValue, Error>(Error::InvalidText),
            },
    {
        reveal(parse_set);
        let bytes = string.as_bytes_vec();
        match SetValue::parse_at(&bytes, 0) {
            Some((command, remainder)) => {
                if remainder != bytes.len() {
                    return Err(Error::TrailingText { at: remainder });
                }
                Ok(command)
            },
            None => Err(Error::InvalidText),
        }
    }
}

impl Instruction {
    /// Parses the instruction at `start`.
    pub fn parse_at(bytes: &Vec<u8>, start: usize) -> (r: Option<(Instruction, usize)>)
        requires
            start <= bytes@.len(),
        ensures
            parsed(parse_instruction(bytes@, start as nat), bytes@.len(), r),
    {
        reveal(parse_instruction);
        let (opcode, a) = match parse_opcode_at(bytes, start) {
            Some(pair) => pair,
            None => {
                return None;
            },
        };
        let (first, b) = match parse_operand_at(bytes, a) {
            Some(pair) => pair,
            None => {
                return None;
            },
        };
        let c = match expect(bytes, b, &make_space()) {
            Some(c) => c,
            None => {
                return None;
            },
        };
        let (second, d) = match parse_operand_at(bytes, c) {
            Some(pair) => pair,
            None => {
                return None;
            },
        };
        match parse_target_at(bytes, d) {
            Some((destination, e)) => Some(
                (Instruction { opcode, first, second, destination }, e),
            ),
            None => None,
        }
    }

    /// Parses the string into the command. Text behind it is an error.
    pub fn from_str(string: &str) -> (r: Result<Instruction, Error>)
        ensures
            match parse_instruction(string.spec_bytes(), 0) {
                Some((command, n)) => if n == string.spec_bytes().len() {
                    r == Ok::<Instruction, Error>(command)
                } else {
                    r == Err::<Instruction, Error>(Error::TrailingText { at: n as usize })
                },
                None => r == Err::<Instruction, Error>(Error::InvalidText),
            },
    {
        reveal(parse_instruction);
        let bytes = string.as_bytes_vec();
        match Instruction::parse_at(&bytes, 0) {
            Some((command, remainder)) => {
                if remainder != bytes.len() {
                    return Err(Error::TrailingText { at: remainder });
                }
                Ok(command)
            },
            None => Err(Error::InvalidText),
        }
    }
}

impl Command {
    /// Parses the command at the start of the bytes of a text: where the
    /// text behind the command starts, and the command.
    pub fn parse_bytes(bytes: &Vec<u8>) -> (r: Result<(usize, Command), Error>)
        ensures
            match parse_command(bytes@) {
                Some((command, n)) => r == Ok::<(usize, Command), Error>((n as usize, command))
                    && n <= bytes@.len() <= usize::MAX && command.wf(),
                None => r == Err::<(usize, Command), Error>(Error::InvalidText),
            },
    {
        // Note that the order of the parsers is important.
        if let Some((get_or_use, n)) = GetOrUse::parse_at(bytes, 0) {
            return Ok((n, Command::GetOrUse(get_or_use)));
        }
        if let Some((get, n)) = Get::parse_at(bytes, 0) {
            return Ok((n, Command::Get(get)));
        }
        if let Some((set, n)) = SetValue::parse_at(bytes, 0) {
            return Ok((n, Command::SetValue(set)));
        }
        if let Some((instruction, n)) = Instruction::parse_at(bytes, 0) {
            return Ok((n, Command::Instruction(instruction)));
        }
        Err(Error::InvalidText)
    }

    /// Parses the string into the command: where the text behind the
    /// command starts, and the command.
    pub fn parse(string: &str) -> (r: Result<(usize, Command), Error>)
        ensures
            match parse_command(string.spec_bytes()) {
                Some((command, n)) => r == Ok::<(usize, Command), Error>((n as usize, command))
                    && n <= string.spec_bytes().len() && command.wf(),
                None => r == Err::<(usize, Command), Error>(Error::InvalidText),
            },
    {
        let bytes = string.as_bytes_vec();
        Command::parse_bytes(&bytes)
    }

    /// Parses the string into the command. Text behind the command is an
    /// error.
    pub fn from_str(string: &str) -> (r: Result<Command, Error>)
        ensures
            match parse_command(string.spec_bytes()) {
                Some((command, n)) => if n == string.spec_bytes().len() {
                    r == Ok::<Command, Error>(command) && command.wf()
                } else {
                    r == Err::<Command, Error>(Error::TrailingText { at: n as usize })
                },
                None => r == Err::<Command, Error>(Error::InvalidText),
            },
    {
        let bytes = string.as_bytes_vec();
        match Command::parse_bytes(&bytes) {
            Ok((remainder, object)) => {
                // Ensure the remainder is empty.
                if remainder != bytes.len() {
                    return Err(Error::TrailingText { at: remainder });
                }
                // Return the object.
                Ok(object)
            },
            Err(error) => Err(error),
        }
    }
}

} // verus!
