//! Parsing is the inverse of printing: the text of a command, whatever
//! follows it, parses as that command.

use vstd::prelude::*;
use crate::command::{Command, Get, GetOrUse, Instruction, Opcode, Operand, Register, SetValue};
use crate::ident::{spec_is_digit, spec_is_name_byte, Identifier};
use crate::text::{
    command_text, decimal_value, digit_run, digits, lemma_digits, name_run, opcode_text,
    operand_text, parse_command, parse_get, parse_get_or_use, parse_identifier,
    parse_instruction, parse_number, parse_opcode, parse_operand, parse_place, parse_register,
    lemma_digit_run, lemma_name_run, parse_set, parse_suffix, parse_target, parse_word,
    register_text, word_add, word_close,
    word_end, word_false, word_get, word_get_or_use, word_into, word_mul, word_open, word_r,
    word_set, word_space, word_sub, word_true, word_u16, word_u32, word_u64, word_u8,
};

verus! {

/// Whether the text `t` stands in `s` at position `i`.
pub open spec fn stands(s: Seq<u8>, i: nat, t: Seq<u8>) -> bool {
    i + t.len() <= s.len() && s.subrange(i as int, (i + t.len()) as int) == t
}

/// Where a text of two parts stands, its parts stand one behind the other.
pub proof fn lemma_stands_split(s: Seq<u8>, i: nat, a: Seq<u8>, b: Seq<u8>)
    requires
        stands(s, i, a + b),
    ensures
        stands(s, i, a),
        stands(s, i + a.len(), b),
{
    let t = a + b;
    assert(s.subrange(i as int, (i + a.len()) as int) =~= t.subrange(0, a.len() as int));
    assert(t.subrange(0, a.len() as int) =~= a);
    assert(s.subrange((i + a.len()) as int, (i + a.len() + b.len()) as int) =~= t.subrange(
        a.len() as int,
        t.len() as int,
    ));
    assert(t.subrange(a.len() as int, t.len() as int) =~= b);
}

/// Where a text stands, each of its bytes stands.
pub proof fn lemma_stands_byte(s: Seq<u8>, i: nat, t: Seq<u8>, k: int)
    requires
        stands(s, i, t),
        0 <= k < t.len(),
    ensures
        s[i + k] == t[k],
{
    assert(s.subrange(i as int, (i + t.len()) as int)[k] == s[i + k]);
}

/// A word that stands at a position is found there.
pub proof fn lemma_word_found(s: Seq<u8>, i: nat, word: Seq<u8>)
    requires
        stands(s, i, word),
    ensures
        parse_word(s, i, word) == Some(i + word.len()),
{
}

/// A word is not found where one of its bytes differs.
pub proof fn lemma_word_missed(s: Seq<u8>, i: nat, word: Seq<u8>, k: int)
    requires
        0 <= k < word.len(),
        i + k < s.len(),
        s[i + k] != word[k],
    ensures
        parse_word(s, i, word) is None,
{
    if i + word.len() <= s.len() {
        assert(s.subrange(i as int, (i + word.len()) as int)[k] == s[i + k]);
    }
}

/// A run of digits that is followed by no digit ends where it ends.
pub proof fn lemma_digit_run_ends(s: Seq<u8>, i: nat, n: nat)
    requires
        i + n <= s.len(),
        forall|j: int| i <= j < i + n ==> spec_is_digit(#[trigger] s[j]),
        i + n == s.len() || !spec_is_digit(s[(i + n) as int]),
    ensures
        digit_run(s, i) == i + n,
    decreases n,
{
    if n > 0 {
        lemma_digit_run_ends(s, i + 1, (n - 1) as nat);
    }
}

/// A run of name bytes that is followed by no name byte ends where it ends.
pub proof fn lemma_name_run_ends(s: Seq<u8>, i: nat, n: nat)
    requires
        i + n <= s.len(),
        forall|j: int| i <= j < i + n ==> spec_is_name_byte(#[trigger] s[j]),
        i + n == s.len() || !spec_is_name_byte(s[(i + n) as int]),
    ensures
        name_run(s, i) == i + n,
    decreases n,
{
    if n > 0 {
        lemma_name_run_ends(s, i + 1, (n - 1) as nat);
    }
}

/// The digits of a number that are followed by no digit parse as the
/// number.
pub proof fn lemma_number_parses(s: Seq<u8>, i: nat, x: u64)
    requires
        stands(s, i, digits(x as nat)),
        i + digits(x as nat).len() == s.len() || !spec_is_digit(
            s[(i + digits(x as nat).len()) as int],
        ),
    ensures
        parse_number(s, i) == Some((x, i + digits(x as nat).len())),
{
    let d = digits(x as nat);
    lemma_digits(x as nat);
    assert forall|j: int| i <= j < i + d.len() implies spec_is_digit(#[trigger] s[j]) by {
        lemma_stands_byte(s, i, d, j - i);
    }
    lemma_digit_run_ends(s, i, d.len());
    lemma_stands_byte(s, i, d, 0);
}

/// The text of a register that is followed by no digit parses as the
/// register.
pub proof fn lemma_register_parses(s: Seq<u8>, i: nat, register: Register)
    requires
        stands(s, i, register_text(register)),
        i + register_text(register).len() == s.len() || !spec_is_digit(
            s[(i + register_text(register).len()) as int],
        ),
    ensures
        parse_register(s, i) == Some((register, i + register_text(register).len())),
{
    reveal(parse_register);
    lemma_stands_split(s, i, word_r(), digits(register.locator as nat));
    lemma_word_found(s, i, word_r());
    lemma_number_parses(s, i + 1, register.locator);
}

/// The suffix of a constant parses as the constant of its type.
pub proof fn lemma_suffix_parses(s: Seq<u8>, j: nat, operand: Operand)
    requires
        operand is U8 || operand is U16 || operand is U32 || operand is U64,
        stands(
            s,
            j,
            match operand {
                Operand::U8(_) => word_u8(),
                Operand::U16(_) => word_u16(),
                Operand::U32(_) => word_u32(),
                _ => word_u64(),
            },
        ),
    ensures
        parse_suffix(
            s,
            j,
            match operand {
                Operand::U8(x) => x as u64,
                Operand::U16(x) => x as u64,
                Operand::U32(x) => x as u64,
                Operand::U64(x) => x,
                _ => 0,
            },
        ) == Some(
            (
                operand,
                j + match operand {
                    Operand::U8(_) => 2nat,
                    _ => 3nat,
                },
            ),
        ),
{
    reveal(parse_suffix);
    match operand {
        Operand::U8(_) => {
            lemma_word_found(s, j, word_u8());
        },
        Operand::U16(_) => {
            lemma_stands_byte(s, j, word_u16(), 1);
            lemma_word_missed(s, j, word_u8(), 1);
            lemma_word_found(s, j, word_u16());
        },
        Operand::U32(_) => {
            lemma_stands_byte(s, j, word_u32(), 1);
            lemma_word_missed(s, j, word_u8(), 1);
            lemma_word_missed(s, j, word_u16(), 1);
            lemma_word_found(s, j, word_u32());
        },
        _ => {
            lemma_stands_byte(s, j, word_u64(), 1);
            lemma_word_missed(s, j, word_u8(), 1);
            lemma_word_missed(s, j, word_u16(), 1);
            lemma_word_missed(s, j, word_u32(), 1);
            lemma_word_found(s, j, word_u64());
        },
    }
}

/// The text of an operand that is followed by no digit parses as the
/// operand.
pub proof fn lemma_operand_parses(s: Seq<u8>, i: nat, operand: Operand)
    requires
        stands(s, i, operand_text(operand)),
        i + operand_text(operand).len() == s.len() || !spec_is_digit(
            s[(i + operand_text(operand).len()) as int],
        ),
    ensures
        parse_operand(s, i) == Some((operand, i + operand_text(operand).len())),
        operand_text(operand).len() > 0,
{
    reveal(parse_operand);
    match operand {
        Operand::Register(register) => {
            lemma_stands_split(s, i, word_r(), digits(register.locator as nat));
            lemma_word_found(s, i, word_r());
            lemma_register_parses(s, i, register);
        },
        Operand::Boolean(b) => {
            if b {
                lemma_stands_byte(s, i, word_true(), 0);
                lemma_word_missed(s, i, word_r(), 0);
                lemma_word_found(s, i, word_true());
            } else {
                lemma_stands_byte(s, i, word_false(), 0);
                lemma_word_missed(s, i, word_r(), 0);
                lemma_word_missed(s, i, word_true(), 0);
                lemma_word_found(s, i, word_false());
            }
        },
        Operand::U8(x) => {
            lemma_constant_parses(s, i, operand, x as u64, word_u8());
        },
        Operand::U16(x) => {
            lemma_constant_parses(s, i, operand, x as u64, word_u16());
        },
        Operand::U32(x) => {
            lemma_constant_parses(s, i, operand, x as u64, word_u32());
        },
        Operand::U64(x) => {
            lemma_constant_parses(s, i, operand, x, word_u64());
        },
    }
}

/// The digits of a number and the suffix of its type parse as the constant.
pub proof fn lemma_constant_parses(s: Seq<u8>, i: nat, operand: Operand, x: u64, suffix: Seq<u8>)
    requires
        operand == Operand::U8(x as u8) && x <= u8::MAX && suffix == word_u8() || operand
            == Operand::U16(x as u16) && x <= u16::MAX && suffix == word_u16() || operand
            == Operand::U32(x as u32) && x <= u32::MAX && suffix == word_u32() || operand
            == Operand::U64(x) && suffix == word_u64(),
        stands(s, i, digits(x as nat) + suffix),
    ensures
        parse_operand(s, i) == Some((operand, i + digits(x as nat).len() + suffix.len())),
{
    reveal(parse_operand);
    let d = digits(x as nat);
    lemma_digits(x as nat);
    lemma_stands_split(s, i, d, suffix);
    lemma_stands_byte(s, i, d, 0);
    lemma_stands_byte(s, i + d.len(), suffix, 0);
    assert(spec_is_digit(s[i as int]));
    lemma_word_missed(s, i, word_r(), 0);
    lemma_word_missed(s, i, word_true(), 0);
    lemma_word_missed(s, i, word_false(), 0);
    lemma_number_parses(s, i, x);
    lemma_suffix_parses(s, i + d.len(), operand);
}

/// The name of an identifier that is followed by no name byte parses as the
/// identifier.
pub proof fn lemma_identifier_parses(s: Seq<u8>, i: nat, id: Identifier)
    requires
        id.wf(),
        stands(s, i, id.spec_name()),
        i + id.spec_name().len() == s.len() || !spec_is_name_byte(
            s[(i + id.spec_name().len()) as int],
        ),
    ensures
        parse_identifier(s, i) == Some((id, i + id.spec_name().len())),
{
    let name = id.spec_name();
    assert forall|j: int| i <= j < i + name.len() implies spec_is_name_byte(#[trigger] s[j]) by {
        lemma_stands_byte(s, i, name, j - i);
        assert(spec_is_name_byte(name[j - i]));
    }
    lemma_name_run_ends(s, i, name.len());
    id.lemma_name_determines();
}

/// `mapping[key]` parses as the mapping and the key.
pub proof fn lemma_place_parses(s: Seq<u8>, i: nat, mapping: Identifier, key: Operand)
    requires
        mapping.wf(),
        stands(s, i, mapping.spec_name() + word_open() + operand_text(key) + word_close()),
    ensures
        parse_place(s, i) == Some(
            (
                mapping,
                key,
                i + (mapping.spec_name() + word_open() + operand_text(key) + word_close()).len(),
            ),
        ),
{
    reveal(parse_place);
    let a = mapping.spec_name();
    let b = operand_text(key);
    lemma_stands_split(s, i, a + word_open() + b, word_close());
    lemma_stands_split(s, i, a + word_open(), b);
    lemma_stands_split(s, i, a, word_open());
    lemma_stands_byte(s, i + a.len(), word_open(), 0);
    lemma_stands_byte(s, i + a.len() + 1 + b.len(), word_close(), 0);
    lemma_identifier_parses(s, i, mapping);
    lemma_word_found(s, i + a.len(), word_open());
    lemma_operand_parses(s, i + a.len() + 1, key);
    lemma_word_found(s, i + a.len() + 1 + b.len(), word_close());
}

/// ` into register;` parses as the register.
pub proof fn lemma_target_parses(s: Seq<u8>, i: nat, destination: Register)
    requires
        stands(s, i, word_into() + register_text(destination) + word_end()),
    ensures
        parse_target(s, i) == Some(
            (destination, i + (word_into() + register_text(destination) + word_end()).len()),
        ),
{
    reveal(parse_target);
    let b = register_text(destination);
    lemma_stands_split(s, i, word_into() + b, word_end());
    lemma_stands_split(s, i, word_into(), b);
    lemma_stands_byte(s, i + 6 + b.len(), word_end(), 0);
    lemma_word_found(s, i, word_into());
    lemma_register_parses(s, i + 6, destination);
    lemma_word_found(s, i + 6 + b.len(), word_end());
}

/// The text of a `get` command parses as the command.
pub proof fn lemma_get_parses(s: Seq<u8>, get: Get)
    requires
        get.wf(),
        stands(s, 0, command_text(Command::Get(get))),
    ensures
        parse_get(s, 0) == Some((get, command_text(Command::Get(get)).len())),
        parse_get_or_use(s, 0) is None,
{
    reveal(parse_get);
    reveal(parse_get_or_use);
    let place = get.mapping.spec_name() + word_open() + operand_text(get.key) + word_close();
    let target = word_into() + register_text(get.destination) + word_end();
    assert(command_text(Command::Get(get)) =~= word_get() + place + target);
    lemma_stands_split(s, 0, word_get() + place, target);
    lemma_stands_split(s, 0, word_get(), place);
    lemma_word_found(s, 0, word_get());
    lemma_place_parses(s, 4, get.mapping, get.key);
    lemma_target_parses(s, 4 + place.len(), get.destination);
    lemma_stands_byte(s, 0, word_get(), 3);
    lemma_word_missed(s, 0, word_get_or_use(), 3);
}

/// The text of a `get.or_use` command parses as the command.
pub proof fn lemma_get_or_use_parses(s: Seq<u8>, get: GetOrUse)
    requires
        get.wf(),
        stands(s, 0, command_text(Command::GetOrUse(get))),
    ensures
        parse_get_or_use(s, 0) == Some((get, command_text(Command::GetOrUse(get)).len())),
{
    reveal(parse_get_or_use);
    let place = get.mapping.spec_name() + word_open() + operand_text(get.key) + word_close();
    let fallback = operand_text(get.fallback);
    let target = word_into() + register_text(get.destination) + word_end();
    assert(command_text(Command::GetOrUse(get)) =~= word_get_or_use() + place + word_space()
        + fallback + target);
    lemma_stands_split(s, 0, word_get_or_use() + place + word_space() + fallback, target);
    lemma_stands_split(s, 0, word_get_or_use() + place + word_space(), fallback);
    lemma_stands_split(s, 0, word_get_or_use() + place, word_space());
    lemma_stands_split(s, 0, word_get_or_use(), place);
    lemma_word_found(s, 0, word_get_or_use());
    lemma_place_parses(s, 11, get.mapping, get.key);
    lemma_word_found(s, 11 + place.len(), word_space());
    assert(target =~= word_into() + (register_text(get.destination) + word_end()));
    lemma_stands_split(
        s,
        11 + place.len() + 1 + fallback.len(),
        word_into(),
        register_text(get.destination) + word_end(),
    );
    lemma_stands_byte(s, 11 + place.len() + 1 + fallback.len(), word_into(), 0);
    lemma_operand_parses(s, 11 + place.len() + 1, get.fallback);
    lemma_target_parses(s, 11 + place.len() + 1 + fallback.len(), get.destination);
}

/// What parsing a `set` command comes to, once its parts are parsed.
pub proof fn lemma_set_assembles(
    s: Seq<u8>,
    set: SetValue,
    a: nat,
    b: nat,
    c: nat,
    d: nat,
    e: nat,
)
    requires
        parse_word(s, 0, word_set()) == Some(a),
        parse_operand(s, a) == Some((set.value, b)),
        parse_word(s, b, word_into()) == Some(c),
        parse_place(s, c) == Some((set.mapping, set.key, d)),
        parse_word(s, d, word_end()) == Some(e),
    ensures
        parse_set(s, 0) == Some((set, e)),
{
    reveal(parse_set);
}

/// The text of a `set` command parses as the command.
pub proof fn lemma_set_parses(s: Seq<u8>, set: SetValue)
    requires
        set.wf(),
        stands(s, 0, command_text(Command::SetValue(set))),
    ensures
        parse_set(s, 0) == Some((set, command_text(Command::SetValue(set)).len())),
        parse_get_or_use(s, 0) is None,
        parse_get(s, 0) is None,
{
    let value = operand_text(set.value);
    let place = set.mapping.spec_name() + word_open() + operand_text(set.key) + word_close();
    assert(command_text(Command::SetValue(set)) =~= word_set() + value + word_into() + place
        + word_end());
    lemma_stands_split(s, 0, word_set() + value + word_into() + place, word_end());
    lemma_stands_split(s, 0, word_set() + value + word_into(), place);
    lemma_stands_split(s, 0, word_set() + value, word_into());
    lemma_stands_split(s, 0, word_set(), value);
    lemma_word_found(s, 0, word_set());
    lemma_stands_byte(s, 4 + value.len(), word_into(), 0);
    lemma_operand_parses(s, 4, set.value);
    lemma_word_found(s, 4 + value.len(), word_into());
    lemma_place_parses(s, 4 + value.len() + 6, set.mapping, set.key);
    lemma_word_found(s, 4 + value.len() + 6 + place.len(), word_end());
    lemma_set_assembles(
        s,
        set,
        4,
        4 + value.len(),
        4 + value.len() + 6,
        4 + value.len() + 6 + place.len(),
        4 + value.len() + 6 + place.len() + 1,
    );
    lemma_stands_byte(s, 0, word_set(), 0);
    lemma_word_missed(s, 0, word_get_or_use(), 0);
    lemma_word_missed(s, 0, word_get(), 0);
    lemma_not_a_get(s);
}

/// A text that starts with neither `get ` nor `get.or_use ` is no `get`
/// command of either kind.
pub proof fn lemma_not_a_get(s: Seq<u8>)
    requires
        parse_word(s, 0, word_get_or_use()) is None,
        parse_word(s, 0, word_get()) is None,
    ensures
        parse_get_or_use(s, 0) is None,
        parse_get(s, 0) is None,
{
    reveal(parse_get_or_use);
    reveal(parse_get);
}

/// The text of an operation parses as the operation, and as the start of no
/// other command.
pub proof fn lemma_opcode_parses(s: Seq<u8>, opcode: Opcode)
    requires
        stands(s, 0, opcode_text(opcode)),
    ensures
        parse_opcode(s, 0) == Some((opcode, 4nat)),
        parse_word(s, 0, word_get_or_use()) is None,
        parse_word(s, 0, word_get()) is None,
        parse_word(s, 0, word_set()) is None,
{
    lemma_stands_byte(s, 0, opcode_text(opcode), 0);
    lemma_stands_byte(s, 0, opcode_text(opcode), 1);
    lemma_word_missed(s, 0, word_get_or_use(), 0);
    lemma_word_missed(s, 0, word_get(), 0);
    lemma_word_missed(s, 0, word_set(), 1);
    match opcode {
        Opcode::Add => {
            lemma_word_found(s, 0, word_add());
        },
        Opcode::Sub => {
            lemma_word_missed(s, 0, word_add(), 0);
            lemma_word_found(s, 0, word_sub());
        },
        Opcode::Mul => {
            lemma_word_missed(s, 0, word_add(), 0);
            lemma_word_missed(s, 0, word_sub(), 0);
            lemma_word_found(s, 0, word_mul());
        },
    }
}

/// The text of an instruction parses as the instruction.
pub proof fn lemma_instruction_parses(s: Seq<u8>, instruction: Instruction)
    requires
        stands(s, 0, command_text(Command::Instruction(instruction))),
    ensures
        parse_instruction(s, 0) == Some(
            (instruction, command_text(Command::Instruction(instruction)).len()),
        ),
        parse_get_or_use(s, 0) is None,
        parse_get(s, 0) is None,
        parse_set(s, 0) is None,
{
    reveal(parse_instruction);
    reveal(parse_get_or_use);
    reveal(parse_get);
    reveal(parse_set);
    let opcode = opcode_text(instruction.opcode);
    let first = operand_text(instruction.first);
    let second = operand_text(instruction.second);
    let target = word_into() + register_text(instruction.destination) + word_end();
    assert(command_text(Command::Instruction(instruction)) =~= opcode + first + word_space()
        + second + target);
    assert(opcode.len() == 4);
    lemma_stands_split(s, 0, opcode + first + word_space() + second, target);
    lemma_stands_split(s, 0, opcode + first + word_space(), second);
    lemma_stands_split(s, 0, opcode + first, word_space());
    lemma_stands_split(s, 0, opcode, first);
    lemma_opcode_parses(s, instruction.opcode);
    lemma_stands_byte(s, 4 + first.len(), word_space(), 0);
    lemma_operand_parses(s, 4, instruction.first);
    lemma_word_found(s, 4 + first.len(), word_space());
    assert(target =~= word_into() + (register_text(instruction.destination) + word_end()));
    lemma_stands_split(
        s,
        4 + first.len() + 1 + second.len(),
        word_into(),
        register_text(instruction.destination) + word_end(),
    );
    lemma_stands_byte(s, 4 + first.len() + 1 + second.len(), word_into(), 0);
    lemma_operand_parses(s, 4 + first.len() + 1, instruction.second);
    lemma_target_parses(s, 4 + first.len() + 1 + second.len(), instruction.destination);
}

/// Parsing is the inverse of printing: the text of a command, whatever
/// follows it, parses as that command and ends where the text of the
/// command ends.
pub proof fn lemma_command_parses(command: Command, rest: Seq<u8>)
    requires
        command.wf(),
    ensures
        parse_command(command_text(command) + rest) == Some(
            (command, command_text(command).len()),
        ),
{
    let text = command_text(command);
    let s = text + rest;
    assert(s.subrange(0, text.len() as int) =~= text);
    match command {
        Command::Instruction(instruction) => lemma_instruction_parses(s, instruction),
        Command::Get(get) => lemma_get_parses(s, get),
        Command::GetOrUse(get) => lemma_get_or_use_parses(s, get),
        Command::SetValue(set) => lemma_set_parses(s, set),
    }
}

/// Where two texts stand one behind the other, the text of both stands.
pub proof fn lemma_stands_join(s: Seq<u8>, i: nat, a: Seq<u8>, b: Seq<u8>)
    requires
        stands(s, i, a),
        stands(s, i + a.len(), b),
    ensures
        stands(s, i, a + b),
{
    assert(s.subrange(i as int, (i + a.len() + b.len()) as int) =~= s.subrange(
        i as int,
        (i + a.len()) as int,
    ) + s.subrange((i + a.len()) as int, (i + a.len() + b.len()) as int));
}

/// Digits that do not start with zero spell a number that is not zero.
pub proof fn lemma_decimal_positive(d: Seq<u8>)
    requires
        d.len() >= 1,
        d[0] != 48,
        forall|j: int| 0 <= j < d.len() ==> spec_is_digit(#[trigger] d[j]),
    ensures
        decimal_value(d) >= 1,
    decreases d.len(),
{
    if d.len() > 1 {
        lemma_decimal_positive(d.drop_last());
    } else {
        assert(d.drop_last() =~= Seq::<u8>::empty());
        assert(decimal_value(d.drop_last()) == 0);
    }
}

/// Digits without a leading zero are the digits of the number they spell.
pub proof fn lemma_digits_of_value(d: Seq<u8>)
    requires
        d.len() >= 1,
        d.len() > 1 ==> d[0] != 48,
        forall|j: int| 0 <= j < d.len() ==> spec_is_digit(#[trigger] d[j]),
    ensures
        digits(decimal_value(d)) == d,
    decreases d.len(),
{
    let front = d.drop_last();
    assert(spec_is_digit(d.last()));
    if d.len() == 1 {
        assert(front =~= Seq::<u8>::empty());
        assert(decimal_value(front) == 0);
        assert(digits(decimal_value(d)) =~= d);
    } else {
        assert(front[0] == d[0]);
        lemma_decimal_positive(front);
        lemma_digits_of_value(front);
        let v = decimal_value(d);
        assert(v == decimal_value(front) * 10 + (d.last() - 48) as nat);
        assert(v / 10 == decimal_value(front));
        assert(v % 10 == (d.last() - 48) as nat);
        assert(digits(v) =~= d);
    }
}

/// A number that parses was spelled by its digits.
pub proof fn lemma_number_spelled(s: Seq<u8>, i: nat)
    requires
        i <= s.len(),
        parse_number(s, i) is Some,
    ensures
        stands(s, i, digits(parse_number(s, i)->Some_0.0 as nat)),
        parse_number(s, i)->Some_0.1 == i + digits(parse_number(s, i)->Some_0.0 as nat).len(),
{
    let k = digit_run(s, i);
    lemma_digit_run(s, i);
    let d = s.subrange(i as int, k as int);
    assert forall|j: int| 0 <= j < d.len() implies spec_is_digit(#[trigger] d[j]) by {
        assert(d[j] == s[i + j]);
    }
    assert(d[0] == s[i as int]);
    lemma_digits_of_value(d);
}

/// A register that parses was spelled by its text.
pub proof fn lemma_register_spelled(s: Seq<u8>, i: nat)
    requires
        i <= s.len(),
        parse_register(s, i) is Some,
    ensures
        stands(s, i, register_text(parse_register(s, i)->Some_0.0)),
        parse_register(s, i)->Some_0.1 == i + register_text(parse_register(s, i)->Some_0.0).len(),
{
    reveal(parse_register);
    lemma_number_spelled(s, i + 1);
    let register = parse_register(s, i)->Some_0.0;
    lemma_stands_join(s, i, word_r(), digits(register.locator as nat));
}

/// An operand that parses was spelled by its text.
pub proof fn lemma_operand_spelled(s: Seq<u8>, i: nat)
    requires
        i <= s.len(),
        parse_operand(s, i) is Some,
    ensures
        stands(s, i, operand_text(parse_operand(s, i)->Some_0.0)),
        parse_operand(s, i)->Some_0.1 == i + operand_text(parse_operand(s, i)->Some_0.0).len(),
{
    reveal(parse_operand);
    reveal(parse_suffix);
    if parse_word(s, i, word_r()) is Some {
        lemma_register_spelled(s, i);
    } else if parse_word(s, i, word_true()) is Some {
    } else if parse_word(s, i, word_false()) is Some {
    } else {
        lemma_number_spelled(s, i);
        let x = parse_number(s, i)->Some_0.0;
        let j = parse_number(s, i)->Some_0.1;
        let d = digits(x as nat);
        if parse_word(s, j, word_u8()) is Some {
            lemma_stands_join(s, i, d, word_u8());
        } else if parse_word(s, j, word_u16()) is Some {
            lemma_stands_join(s, i, d, word_u16());
        } else if parse_word(s, j, word_u32()) is Some {
            lemma_stands_join(s, i, d, word_u32());
        } else {
            lemma_stands_join(s, i, d, word_u64());
        }
    }
}

/// An identifier that parses is well formed and was spelled by its name.
pub proof fn lemma_identifier_spelled(s: Seq<u8>, i: nat)
    requires
        i <= s.len(),
        parse_identifier(s, i) is Some,
    ensures
        parse_identifier(s, i)->Some_0.0.wf(),
        stands(s, i, parse_identifier(s, i)->Some_0.0.spec_name()),
        parse_identifier(s, i)->Some_0.1 == i + parse_identifier(s, i)->Some_0.0.spec_name().len(),
{
    lemma_name_run(s, i);
    Identifier::lemma_from_name(s.subrange(i as int, name_run(s, i) as int));
}

/// `mapping[key]` that parses was spelled by its text.
pub proof fn lemma_place_spelled(s: Seq<u8>, i: nat)
    requires
        i <= s.len(),
        parse_place(s, i) is Some,
    ensures
        ({
            let (mapping, key, k) = parse_place(s, i)->Some_0;
            let text = mapping.spec_name() + word_open() + operand_text(key) + word_close();
            mapping.wf() && stands(s, i, text) && k == i + text.len()
        }),
{
    reveal(parse_place);
    let (mapping, key, k) = parse_place(s, i)->Some_0;
    lemma_identifier_spelled(s, i);
    let a = i + mapping.spec_name().len();
    lemma_operand_spelled(s, a + 1);
    lemma_stands_join(s, i, mapping.spec_name(), word_open());
    lemma_stands_join(s, i, mapping.spec_name() + word_open(), operand_text(key));
    lemma_stands_join(
        s,
        i,
        mapping.spec_name() + word_open() + operand_text(key),
        word_close(),
    );
}

/// ` into register;` that parses was spelled by its text.
pub proof fn lemma_target_spelled(s: Seq<u8>, i: nat)
    requires
        i <= s.len(),
        parse_target(s, i) is Some,
    ensures
        ({
            let (destination, k) = parse_target(s, i)->Some_0;
            let text = word_into() + register_text(destination) + word_end();
            stands(s, i, text) && k == i + text.len()
        }),
{
    reveal(parse_target);
    let (destination, k) = parse_target(s, i)->Some_0;
    lemma_register_spelled(s, i + 6);
    lemma_stands_join(s, i, word_into(), register_text(destination));
    lemma_stands_join(s, i, word_into() + register_text(destination), word_end());
}

/// Printing is the inverse of parsing: a command that parses is well
/// formed, and the text that was parsed is the text of the command.
pub proof fn lemma_command_spelled(s: Seq<u8>)
    requires
        parse_command(s) is Some,
    ensures
        parse_command(s)->Some_0.0.wf(),
        stands(s, 0, command_text(parse_command(s)->Some_0.0)),
        parse_command(s)->Some_0.1 == command_text(parse_command(s)->Some_0.0).len(),
{
    reveal(parse_get_or_use);
    reveal(parse_get);
    reveal(parse_set);
    reveal(parse_instruction);
    if parse_get_or_use(s, 0) is Some {
        let get = parse_get_or_use(s, 0)->Some_0.0;
        let place = get.mapping.spec_name() + word_open() + operand_text(get.key) + word_close();
        let target = word_into() + register_text(get.destination) + word_end();
        lemma_place_spelled(s, 11);
        lemma_operand_spelled(s, 11 + place.len() + 1);
        lemma_target_spelled(s, 11 + place.len() + 1 + operand_text(get.fallback).len());
        lemma_stands_join(s, 0, word_get_or_use(), place);
        lemma_stands_join(s, 0, word_get_or_use() + place, word_space());
        lemma_stands_join(s, 0, word_get_or_use() + place + word_space(), operand_text(get.fallback));
        lemma_stands_join(
            s,
            0,
            word_get_or_use() + place + word_space() + operand_text(get.fallback),
            target,
        );
        assert(command_text(Command::GetOrUse(get)) =~= word_get_or_use() + place + word_space()
            + operand_text(get.fallback) + target);
    } else if parse_get(s, 0) is Some {
        let get = parse_get(s, 0)->Some_0.0;
        let place = get.mapping.spec_name() + word_open() + operand_text(get.key) + word_close();
        let target = word_into() + register_text(get.destination) + word_end();
        lemma_place_spelled(s, 4);
        lemma_target_spelled(s, 4 + place.len());
        lemma_stands_join(s, 0, word_get(), place);
        lemma_stands_join(s, 0, word_get() + place, target);
        assert(command_text(Command::Get(get)) =~= word_get() + place + target);
    } else if parse_set(s, 0) is Some {
        let set = parse_set(s, 0)->Some_0.0;
        let value = operand_text(set.value);
        let place = set.mapping.spec_name() + word_open() + operand_text(set.key) + word_close();
        lemma_operand_spelled(s, 4);
        lemma_place_spelled(s, 4 + value.len() + 6);
        lemma_stands_join(s, 0, word_set(), value);
        lemma_stands_join(s, 0, word_set() + value, word_into());
        lemma_stands_join(s, 0, word_set() + value + word_into(), place);
        lemma_stands_join(s, 0, word_set() + value + word_into() + place, word_end());
        assert(command_text(Command::SetValue(set)) =~= word_set() + value + word_into() + place
            + word_end());
    } else {
        let instruction = parse_instruction(s, 0)->Some_0.0;
        let opcode = opcode_text(instruction.opcode);
        let first = operand_text(instruction.first);
        let second = operand_text(instruction.second);
        let target = word_into() + register_text(instruction.destination) + word_end();
        assert(stands(s, 0, opcode) && opcode.len() == 4);
        lemma_operand_spelled(s, 4);
        lemma_operand_spelled(s, 4 + first.len() + 1);
        lemma_target_spelled(s, 4 + first.len() + 1 + second.len());
        lemma_stands_join(s, 0, opcode, first);
        lemma_stands_join(s, 0, opcode + first, word_space());
        lemma_stands_join(s, 0, opcode + first + word_space(), second);
        lemma_stands_join(s, 0, opcode + first + word_space() + second, target);
        assert(command_text(Command::Instruction(instruction)) =~= opcode + first + word_space()
            + second + target);
    }
}

} // verus!
