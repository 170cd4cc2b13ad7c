//! Reading records back from their bits, and the proof that reading is the
//! inverse of writing.

use indexmap::IndexMap;
use vstd::prelude::*;
use vstd::arithmetic::power2::{lemma2_to64, pow2};
use crate::bits::{
    bits_le, lemma_bits_le_len, lemma_spec_value_bound, lemma_spec_value_of_bits,
    lemma_value_of_bits, read_bits, read_bits_le, spec_bits, spec_value, value_le,
};
use crate::codec::{
    ciphertext_bits, data_bits, data_fits, entry_bits, entry_fits, fields_bits, identifier_bits,
    literal_bits, literal_tag, members_bits, members_fit, name_bits, owner_bits, owner_fits,
    plaintext_bits, plaintext_fits, record_bits, record_fits,
};
use crate::field::{Field, Group, FIELD_BITS};
use crate::ident::{valid_name, Identifier};
use crate::record::{
    data_insert, data_new, data_view, entries_of, lemma_entry_position, lemma_members_view,
    members_view, spec_entry_position, Ciphertext, Entry, EntryView, Literal, Owner, OwnerView,
    Plaintext, PlaintextView, Record, RecordView,
};

verus! {

/// The number that the first `n` bits spell.
#[verifier::opaque]
pub open spec fn read_number(s: Seq<bool>, n: nat, le: bool) -> Option<(nat, nat)> {
    if s.len() < n {
        None
    } else {
        Some((spec_value(s.take(n as int), le), n))
    }
}

/// The field element that the first 256 bits spell.
#[verifier::opaque]
pub open spec fn read_field(s: Seq<bool>, le: bool) -> Option<(Field, nat)> {
    if s.len() < FIELD_BITS {
        None
    } else {
        Some((Field::spec_from_bits(s.take(FIELD_BITS as int), le), FIELD_BITS as nat))
    }
}

/// The `count` bytes that the first bits spell, eight bits each.
#[verifier::opaque]
pub open spec fn read_name(s: Seq<bool>, count: nat, le: bool) -> Option<(Seq<u8>, nat)>
    decreases count,
{
    if count == 0 {
        Some((Seq::empty(), 0))
    } else {
        match read_number(s, 8, le) {
            None => None,
            Some((byte, _)) => match read_name(s.skip(8), (count - 1) as nat, le) {
                None => None,
                Some((rest, n)) => Some((seq![byte as u8] + rest, 8 + n)),
            },
        }
    }
}

/// The identifier that the first bits spell. The name must be valid.
#[verifier::opaque]
pub open spec fn read_identifier(s: Seq<bool>, le: bool) -> Option<(Identifier, nat)> {
    match read_number(s, 8, le) {
        None => None,
        Some((len, _)) => match read_name(s.skip(8), len, le) {
            None => None,
            Some((name, n)) => if valid_name(name) {
                Some((Identifier::spec_from_name(name), 8 + n))
            } else {
                None
            },
        },
    }
}

/// The literal that the first bits spell. A tag above 7 names no type.
#[verifier::opaque]
pub open spec fn read_literal(s: Seq<bool>, le: bool) -> Option<(Literal, nat)> {
    match read_number(s, 8, le) {
        None => None,
        Some((tag, _)) => {
            let t = s.skip(8);
            if tag == 0 {
                match read_field(t, le) {
                    Some((x, n)) => Some((Literal::Address(Group { x }), 8 + n)),
                    None => None,
                }
            } else if tag == 1 {
                if t.len() < 1 {
                    None
                } else {
                    Some((Literal::Boolean(t[0]), 9))
                }
            } else if tag == 2 {
                match read_field(t, le) {
                    Some((x, n)) => Some((Literal::Field(x), 8 + n)),
                    None => None,
                }
            } else if tag == 3 {
                match read_field(t, le) {
                    Some((x, n)) => Some((Literal::Group(Group { x }), 8 + n)),
                    None => None,
                }
            } else if tag == 4 {
                match read_number(t, 8, le) {
                    Some((x, n)) => Some((Literal::U8(x as u8), 8 + n)),
                    None => None,
                }
            } else if tag == 5 {
                match read_number(t, 16, le) {
                    Some((x, n)) => Some((Literal::U16(x as u16), 8 + n)),
                    None => None,
                }
            } else if tag == 6 {
                match read_number(t, 32, le) {
                    Some((x, n)) => Some((Literal::U32(x as u32), 8 + n)),
                    None => None,
                }
            } else if tag == 7 {
                match read_number(t, 64, le) {
                    Some((x, n)) => Some((Literal::U64(x as u64), 8 + n)),
                    None => None,
                }
            } else {
                None
            }
        },
    }
}

/// The plaintext that the first bits spell.
#[verifier::opaque]
pub open spec fn read_plaintext(s: Seq<bool>, le: bool) -> Option<(PlaintextView, nat)>
    decreases s.len(), 0nat,
{
    if s.len() < 1 {
        None
    } else if !s[0] {
        match read_literal(s.skip(1), le) {
            Some((literal, n)) => Some((PlaintextView::Literal(literal), 1 + n)),
            None => None,
        }
    } else if s.len() < 9 {
        None
    } else {
        match read_members(s.skip(9), spec_value(s.subrange(1, 9), le), le) {
            Some((members, n)) => Some((PlaintextView::Struct(members), 9 + n)),
            None => None,
        }
    }
}

/// The `count` members that the first bits spell.
#[verifier::opaque]
pub open spec fn read_members(s: Seq<bool>, count: nat, le: bool) -> Option<
    (Seq<(Identifier, PlaintextView)>, nat),
>
    decreases s.len(), count,
{
    if count == 0 {
        Some((Seq::empty(), 0))
    } else {
        match read_identifier(s, le) {
            None => None,
            Some((id, a)) => if a == 0 || a > s.len() {
                None
            } else {
                match read_plaintext(s.skip(a as int), le) {
                    None => None,
                    Some((plaintext, b)) => if a + b > s.len() {
                        None
                    } else {
                        match read_members(s.skip((a + b) as int), (count - 1) as nat, le) {
                            None => None,
                            Some((rest, c)) => Some((seq![(id, plaintext)] + rest, a + b + c)),
                        }
                    },
                }
            },
        }
    }
}

/// The `count` field elements that the first bits spell.
#[verifier::opaque]
pub open spec fn read_fields(s: Seq<bool>, count: nat, le: bool) -> Option<(Seq<Field>, nat)>
    decreases count,
{
    if count == 0 {
        Some((Seq::empty(), 0))
    } else {
        match read_field(s, le) {
            None => None,
            Some((x, a)) => match read_fields(s.skip(a as int), (count - 1) as nat, le) {
                None => None,
                Some((rest, n)) => Some((seq![x] + rest, a + n)),
            },
        }
    }
}

/// The ciphertext that the first bits spell.
#[verifier::opaque]
pub open spec fn read_ciphertext(s: Seq<bool>, le: bool) -> Option<(Seq<Field>, nat)> {
    match read_number(s, 16, le) {
        None => None,
        Some((count, _)) => match read_fields(s.skip(16), count, le) {
            None => None,
            Some((elements, n)) => Some((elements, 16 + n)),
        },
    }
}

/// The owner that the first bits spell. The variant 3 names no owner.
#[verifier::opaque]
pub open spec fn read_owner(s: Seq<bool>, le: bool) -> Option<(OwnerView, nat)> {
    match read_number(s, 2, le) {
        None => None,
        Some((tag, _)) => {
            let t = s.skip(2);
            if tag == 0 {
                match read_field(t, le) {
                    Some((x, n)) => Some((OwnerView::Public(Group { x }), 2 + n)),
                    None => None,
                }
            } else if tag == 1 {
                match read_field(t, le) {
                    Some((x, n)) => Some((OwnerView::Private(Group { x }), 2 + n)),
                    None => None,
                }
            } else if tag == 2 {
                match read_ciphertext(t, le) {
                    Some((elements, n)) => Some((OwnerView::Encrypted(elements), 2 + n)),
                    None => None,
                }
            } else {
                None
            }
        },
    }
}

/// The entry that the first bits spell.
#[verifier::opaque]
pub open spec fn read_entry(s: Seq<bool>, le: bool) -> Option<(EntryView, nat)> {
    match read_number(s, 2, le) {
        None => None,
        Some((tag, _)) => {
            let t = s.skip(2);
            if tag == 3 {
                match read_ciphertext(t, le) {
                    Some((elements, n)) => Some((EntryView::Encrypted(elements), 2 + n)),
                    None => None,
                }
            } else {
                match read_plaintext(t, le) {
                    None => None,
                    Some((plaintext, n)) => if tag == 0 {
                        Some((EntryView::Constant(plaintext), 2 + n))
                    } else if tag == 1 {
                        Some((EntryView::Public(plaintext), 2 + n))
                    } else {
                        Some((EntryView::Private(plaintext), 2 + n))
                    },
                }
            }
        },
    }
}

/// The entries that the bits spell, all of them.
#[verifier::opaque]
pub open spec fn read_data(s: Seq<bool>, le: bool) -> Option<Seq<(Identifier, EntryView)>>
    decreases s.len(),
{
    if s.len() == 0 {
        Some(Seq::empty())
    } else {
        match read_identifier(s, le) {
            None => None,
            Some((id, a)) => if a == 0 || a > s.len() {
                None
            } else {
                match read_entry(s.skip(a as int), le) {
                    None => None,
                    Some((entry, b)) => if a + b > s.len() {
                        None
                    } else {
                        match read_data(s.skip((a + b) as int), le) {
                            None => None,
                            Some(rest) => Some(seq![(id, entry)] + rest),
                        }
                    },
                }
            },
        }
    }
}

/// No name is the name of two entries.
pub open spec fn names_distinct(data: Seq<(Identifier, EntryView)>) -> bool {
    forall|i: int, j: int|
        0 <= i < j < data.len() ==> (#[trigger] data[i]).0 != (#[trigger] data[j]).0
}

/// The record that the bits spell, all of them: the owner, the length of
/// the data, the entries in that many bits, under names that are
/// distinct, and the nonce.
#[verifier::opaque]
pub open spec fn read_record(s: Seq<bool>, le: bool) -> Option<RecordView> {
    match read_owner(s, le) {
        None => None,
        Some((owner, a)) => if s.len() < a + 32 {
            None
        } else {
            let n = value_le(s.subrange(a as int, a + 32 as int));
            if s.len() != a + 32 + n + FIELD_BITS {
                None
            } else {
                match read_data(s.subrange(a + 32 as int, a + 32 + n as int), le) {
                    None => None,
                    Some(data) => if !names_distinct(data) {
                        None
                    } else {
                        Some(
                            RecordView {
                                owner,
                                data,
                                nonce: Group {
                                    x: Field::spec_from_bits(
                                        s.subrange(a + 32 + n as int, a + 32 + n + FIELD_BITS as int),
                                        le,
                                    ),
                                },
                            },
                        )
                    },
                }
            }
        },
    }
}

/// Reading back a number that was written in `n` bits gives the number.
pub proof fn lemma_read_number(x: nat, n: nat, rest: Seq<bool>, le: bool)
    requires
        x < pow2(n),
    ensures
        read_number(spec_bits(x, n, le) + rest, n, le) == Some((x, n)),
        spec_bits(x, n, le).len() == n,
{
    reveal(read_number);
    lemma_spec_value_of_bits(x, n, le);
    assert((spec_bits(x, n, le) + rest).take(n as int) =~= spec_bits(x, n, le));
}

/// Reading back a field element that was written gives the element.
pub proof fn lemma_read_field(x: Field, rest: Seq<bool>, le: bool)
    ensures
        read_field(x.spec_bits(le) + rest, le) == Some((x, FIELD_BITS as nat)),
        x.spec_bits(le).len() == FIELD_BITS,
{
    reveal(read_field);
    x.lemma_bits_len();
    x.lemma_bits_round_trip();
    assert((x.spec_bits(le) + rest).take(FIELD_BITS as int) =~= x.spec_bits(le));
}

/// Reading back a name that was written gives the name.
pub proof fn lemma_read_name(name: Seq<u8>, i: nat, rest: Seq<bool>, le: bool)
    requires
        i <= name.len(),
    ensures
        read_name(name_bits(name, i, le) + rest, (name.len() - i) as nat, le) == Some(
            (name.skip(i as int), (8 * (name.len() - i)) as nat),
        ),
        name_bits(name, i, le).len() == 8 * (name.len() - i),
    decreases name.len() - i,
{
    reveal(read_name);
    if i < name.len() {
        let head = spec_bits(name[i as int] as nat, 8, le);
        let tail = name_bits(name, i + 1, le);
        lemma2_to64();
        lemma_read_number(name[i as int] as nat, 8, tail + rest, le);
        lemma_read_name(name, i + 1, rest, le);
        let s = name_bits(name, i, le) + rest;
        assert(s =~= head + (tail + rest));
        assert(s.skip(8) =~= tail + rest);
        assert(seq![name[i as int]] + name.skip(i + 1 as int) =~= name.skip(i as int));
    } else {
        assert(name.skip(i as int) =~= Seq::<u8>::empty());
    }
}

/// Reading back an identifier that was written gives the identifier.
pub proof fn lemma_read_identifier(id: Identifier, rest: Seq<bool>, le: bool)
    requires
        id.wf(),
    ensures
        read_identifier(identifier_bits(id, le) + rest, le) == Some(
            (id, identifier_bits(id, le).len()),
        ),
        identifier_bits(id, le).len() == 8 + 8 * id.len,
        identifier_bits(id, le).len() > 0,
{
    reveal(read_identifier);
    let name = id.spec_name();
    let head = spec_bits(id.len as nat, 8, le);
    let tail = name_bits(name, 0, le);
    id.value.lemma_bytes_len();
    assert(name.len() == id.len);
    lemma2_to64();
    lemma_read_number(id.len as nat, 8, tail + rest, le);
    lemma_read_name(name, 0, rest, le);
    let s = identifier_bits(id, le) + rest;
    assert(s =~= head + (tail + rest));
    assert(s.skip(8) =~= tail + rest);
    assert(name.skip(0) =~= name);
    id.lemma_name_determines();
}

/// Reading back a literal that was written gives the literal.
pub proof fn lemma_read_literal(literal: Literal, rest: Seq<bool>, le: bool)
    ensures
        read_literal(literal_bits(literal, le) + rest, le) == Some(
            (literal, literal_bits(literal, le).len()),
        ),
{
    reveal(read_literal);
    lemma2_to64();
    let tag = spec_bits(literal_tag(literal), 8, le);
    let s = literal_bits(literal, le) + rest;
    match literal {
        Literal::Address(address) => {
            let body = address.x.spec_bits(le);
            lemma_read_number(0, 8, body + rest, le);
            lemma_read_field(address.x, rest, le);
            assert(s =~= tag + (body + rest));
            assert(s.skip(8) =~= body + rest);
        },
        Literal::Boolean(b) => {
            let body = seq![b];
            lemma_read_number(1, 8, body + rest, le);
            assert(s =~= tag + (body + rest));
            assert(s.skip(8) =~= body + rest);
        },
        Literal::Field(x) => {
            let body = x.spec_bits(le);
            lemma_read_number(2, 8, body + rest, le);
            lemma_read_field(x, rest, le);
            assert(s =~= tag + (body + rest));
            assert(s.skip(8) =~= body + rest);
        },
        Literal::Group(g) => {
            let body = g.x.spec_bits(le);
            lemma_read_number(3, 8, body + rest, le);
            lemma_read_field(g.x, rest, le);
            assert(s =~= tag + (body + rest));
            assert(s.skip(8) =~= body + rest);
        },
        Literal::U8(x) => {
            let body = spec_bits(x as nat, 8, le);
            lemma_read_number(4, 8, body + rest, le);
            lemma_read_number(x as nat, 8, rest, le);
            assert(s =~= tag + (body + rest));
            assert(s.skip(8) =~= body + rest);
        },
        Literal::U16(x) => {
            let body = spec_bits(x as nat, 16, le);
            lemma_read_number(5, 8, body + rest, le);
            lemma_read_number(x as nat, 16, rest, le);
            assert(s =~= tag + (body + rest));
            assert(s.skip(8) =~= body + rest);
        },
        Literal::U32(x) => {
            let body = spec_bits(x as nat, 32, le);
            lemma_read_number(6, 8, body + rest, le);
            lemma_read_number(x as nat, 32, rest, le);
            assert(s =~= tag + (body + rest));
            assert(s.skip(8) =~= body + rest);
        },
        Literal::U64(x) => {
            let body = spec_bits(x as nat, 64, le);
            lemma_read_number(7, 8, body + rest, le);
            lemma_read_number(x as nat, 64, rest, le);
            assert(s =~= tag + (body + rest));
            assert(s.skip(8) =~= body + rest);
        },
    }
}

/// Reading back a plaintext that was written gives the plaintext.
pub proof fn lemma_read_plaintext(plaintext: PlaintextView, rest: Seq<bool>, le: bool)
    requires
        plaintext_fits(plaintext),
    ensures
        read_plaintext(plaintext_bits(plaintext, le) + rest, le) == Some(
            (plaintext, plaintext_bits(plaintext, le).len()),
        ),
    decreases plaintext, 0nat,
{
    reveal_with_fuel(read_plaintext, 2);
    reveal_with_fuel(read_members, 2);
    let s = plaintext_bits(plaintext, le) + rest;
    match plaintext {
        PlaintextView::Literal(literal) => {
            lemma_read_literal(literal, rest, le);
            assert(s =~= seq![false] + (literal_bits(literal, le) + rest));
            assert(s[0] == false);
            assert(s.skip(1) =~= literal_bits(literal, le) + rest);
            assert(plaintext_bits(plaintext, le).len() == 1 + literal_bits(literal, le).len());
        },
        PlaintextView::Struct(members) => {
            lemma2_to64();
            let count = spec_bits(members.len(), 8, le);
            let body = members_bits(members, 0, le);
            lemma_spec_value_of_bits(members.len(), 8, le);
            lemma_read_members(members, 0, rest, le);
            assert(s =~= seq![true] + count + (body + rest));
            assert(s[0] == true);
            assert(count.len() == 8);
            assert(s.subrange(1, 9) =~= count);
            assert(s.skip(9) =~= body + rest);
            assert(members.skip(0) =~= members);
            assert(plaintext_bits(plaintext, le).len() == 9 + body.len());
            assert(read_members(s.skip(9), members.len(), le) == Some((members, body.len())));
        },
    }
}

/// One step of reading members: a name, a value, and the members that
/// follow.
pub proof fn lemma_read_members_step(
    s: Seq<bool>,
    id: Identifier,
    value: PlaintextView,
    a: nat,
    b: nat,
    tail: Seq<(Identifier, PlaintextView)>,
    c: nat,
    count: nat,
    le: bool,
)
    requires
        count > 0,
        0 < a,
        a + b <= s.len(),
        read_identifier(s, le) == Some((id, a)),
        read_plaintext(s.skip(a as int), le) == Some((value, b)),
        read_members(s.skip((a + b) as int), (count - 1) as nat, le) == Some((tail, c)),
    ensures
        read_members(s, count, le) == Some((seq![(id, value)] + tail, a + b + c)),
{
    reveal_with_fuel(read_members, 2);
    reveal_with_fuel(read_plaintext, 2);
}

/// Reading no members takes no bits.
pub proof fn lemma_read_no_members(s: Seq<bool>, le: bool)
    ensures
        read_members(s, 0, le) == Some((Seq::<(Identifier, PlaintextView)>::empty(), 0nat)),
{
    reveal_with_fuel(read_members, 2);
    reveal_with_fuel(read_plaintext, 2);
}

/// Reading back the members that were written gives the members.
pub proof fn lemma_read_members(
    members: Seq<(Identifier, PlaintextView)>,
    i: nat,
    rest: Seq<bool>,
    le: bool,
)
    requires
        i <= members.len(),
        members_fit(members, i),
    ensures
        read_members(members_bits(members, i, le) + rest, (members.len() - i) as nat, le) == Some(
            (members.skip(i as int), members_bits(members, i, le).len()),
        ),
    decreases members, members.len() - i,
{
    if i < members.len() {
        let id = members[i as int].0;
        let value = members[i as int].1;
        let a = identifier_bits(id, le);
        let b = plaintext_bits(value, le);
        let c = members_bits(members, i + 1, le);
        lemma_read_identifier(id, b + c + rest, le);
        lemma_read_plaintext(value, c + rest, le);
        lemma_read_members(members, i + 1, rest, le);
        let s = members_bits(members, i, le) + rest;
        assert(s =~= a + (b + c + rest));
        assert(s.skip(a.len() as int) =~= b + (c + rest));
        assert(s.skip((a.len() + b.len()) as int) =~= c + rest);
        assert(seq![(id, value)] + members.skip(i + 1 as int) =~= members.skip(i as int));
        assert(members_bits(members, i, le).len() == a.len() + b.len() + c.len());
        assert(read_identifier(s, le) == Some((id, a.len())));
        assert(read_plaintext(s.skip(a.len() as int), le) == Some((value, b.len())));
        assert(read_members(
            s.skip((a.len() + b.len()) as int),
            (members.len() - i - 1) as nat,
            le,
        ) == Some((members.skip(i + 1 as int), c.len())));
        lemma_read_members_step(
            s,
            id,
            value,
            a.len(),
            b.len(),
            members.skip(i + 1 as int),
            c.len(),
            (members.len() - i) as nat,
            le,
        );
    } else {
        lemma_read_no_members(members_bits(members, i, le) + rest, le);
        assert(members.skip(i as int) =~= Seq::<(Identifier, PlaintextView)>::empty());
    }
}

/// Reading back the field elements that were written gives the elements.
pub proof fn lemma_read_fields(elements: Seq<Field>, i: nat, rest: Seq<bool>, le: bool)
    requires
        i <= elements.len(),
    ensures
        read_fields(fields_bits(elements, i, le) + rest, (elements.len() - i) as nat, le) == Some(
            (elements.skip(i as int), fields_bits(elements, i, le).len()),
        ),
    decreases elements.len() - i,
{
    reveal(read_fields);
    if i < elements.len() {
        let a = elements[i as int].spec_bits(le);
        let c = fields_bits(elements, i + 1, le);
        lemma_read_field(elements[i as int], c + rest, le);
        lemma_read_fields(elements, i + 1, rest, le);
        let s = fields_bits(elements, i, le) + rest;
        assert(s =~= a + (c + rest));
        assert(s.skip(a.len() as int) =~= c + rest);
        assert(seq![elements[i as int]] + elements.skip(i + 1 as int) =~= elements.skip(i as int));
    } else {
        assert(elements.skip(i as int) =~= Seq::<Field>::empty());
    }
}

/// Reading back a ciphertext that was written gives the ciphertext.
pub proof fn lemma_read_ciphertext(elements: Seq<Field>, rest: Seq<bool>, le: bool)
    requires
        elements.len() <= 65535,
    ensures
        read_ciphertext(ciphertext_bits(elements, le) + rest, le) == Some(
            (elements, ciphertext_bits(elements, le).len()),
        ),
{
    reveal(read_ciphertext);
    lemma2_to64();
    let count = spec_bits(elements.len(), 16, le);
    let body = fields_bits(elements, 0, le);
    lemma_read_number(elements.len(), 16, body + rest, le);
    lemma_read_fields(elements, 0, rest, le);
    let s = ciphertext_bits(elements, le) + rest;
    assert(s =~= count + (body + rest));
    assert(s.skip(16) =~= body + rest);
    assert(elements.skip(0) =~= elements);
}

/// Reading back an owner that was written gives the owner.
pub proof fn lemma_read_owner(owner: OwnerView, rest: Seq<bool>, le: bool)
    requires
        owner_fits(owner),
    ensures
        read_owner(owner_bits(owner, le) + rest, le) == Some((owner, owner_bits(owner, le).len())),
{
    reveal(read_owner);
    lemma2_to64();
    let s = owner_bits(owner, le) + rest;
    match owner {
        OwnerView::Public(address) => {
            let body = address.x.spec_bits(le);
            lemma_read_number(0, 2, body + rest, le);
            lemma_read_field(address.x, rest, le);
            assert(s =~= spec_bits(0, 2, le) + (body + rest));
            assert(s.skip(2) =~= body + rest);
        },
        OwnerView::Private(address) => {
            let body = address.x.spec_bits(le);
            lemma_read_number(1, 2, body + rest, le);
            lemma_read_field(address.x, rest, le);
            assert(s =~= spec_bits(1, 2, le) + (body + rest));
            assert(s.skip(2) =~= body + rest);
        },
        OwnerView::Encrypted(elements) => {
            let body = ciphertext_bits(elements, le);
            lemma_read_number(2, 2, body + rest, le);
            lemma_read_ciphertext(elements, rest, le);
            assert(s =~= spec_bits(2, 2, le) + (body + rest));
            assert(s.skip(2) =~= body + rest);
        },
    }
}

/// Reading back an entry that was written gives the entry.
pub proof fn lemma_read_entry(entry: EntryView, rest: Seq<bool>, le: bool)
    requires
        entry_fits(entry),
    ensures
        read_entry(entry_bits(entry, le) + rest, le) == Some((entry, entry_bits(entry, le).len())),
{
    reveal(read_entry);
    lemma2_to64();
    let s = entry_bits(entry, le) + rest;
    match entry {
        EntryView::Constant(plaintext) => {
            let body = plaintext_bits(plaintext, le);
            lemma_read_number(0, 2, body + rest, le);
            lemma_read_plaintext(plaintext, rest, le);
            assert(s =~= spec_bits(0, 2, le) + (body + rest));
            assert(s.skip(2) =~= body + rest);
        },
        EntryView::Public(plaintext) => {
            let body = plaintext_bits(plaintext, le);
            lemma_read_number(1, 2, body + rest, le);
            lemma_read_plaintext(plaintext, rest, le);
            assert(s =~= spec_bits(1, 2, le) + (body + rest));
            assert(s.skip(2) =~= body + rest);
        },
        EntryView::Private(plaintext) => {
            let body = plaintext_bits(plaintext, le);
            lemma_read_number(2, 2, body + rest, le);
            lemma_read_plaintext(plaintext, rest, le);
            assert(s =~= spec_bits(2, 2, le) + (body + rest));
            assert(s.skip(2) =~= body + rest);
        },
        EntryView::Encrypted(elements) => {
            let body = ciphertext_bits(elements, le);
            lemma_read_number(3, 2, body + rest, le);
            lemma_read_ciphertext(elements, rest, le);
            assert(s =~= spec_bits(3, 2, le) + (body + rest));
            assert(s.skip(2) =~= body + rest);
        },
    }
}

/// Reading back the entries that were written gives the entries.
pub proof fn lemma_read_data(data: Seq<(Identifier, EntryView)>, i: nat, le: bool)
    requires
        i <= data.len(),
        data_fits(data, i),
    ensures
        read_data(data_bits(data, i, le), le) == Some(data.skip(i as int)),
    decreases data.len() - i,
{
    reveal(read_data);
    if i < data.len() {
        let id = data[i as int].0;
        let entry = data[i as int].1;
        let a = identifier_bits(id, le);
        let b = entry_bits(entry, le);
        let c = data_bits(data, i + 1, le);
        lemma_read_identifier(id, b + c, le);
        lemma_read_entry(entry, c, le);
        lemma_read_data(data, i + 1, le);
        let s = data_bits(data, i, le);
        assert(s =~= a + (b + c));
        assert(s.skip(a.len() as int) =~= b + c);
        assert(s.skip((a.len() + b.len()) as int) =~= c);
        assert(seq![(id, entry)] + data.skip(i + 1 as int) =~= data.skip(i as int));
    } else {
        assert(data.skip(i as int) =~= Seq::<(Identifier, EntryView)>::empty());
    }
}

/// Decoding is the inverse of encoding: the bits of a record, in either
/// bit order, are read back as that record. This holds of every record
/// that has an encoding and whose entries have distinct names.
pub proof fn lemma_read_record(record: RecordView, le: bool)
    requires
        record_fits(record, le),
        names_distinct(record.data),
    ensures
        read_record(record_bits(record, le), le) == Some(record),
{
    reveal(read_record);
    lemma2_to64();
    let owner = owner_bits(record.owner, le);
    let data = data_bits(record.data, 0, le);
    let count = bits_le(data.len(), 32);
    let nonce = record.nonce.x.spec_bits(le);
    let s = record_bits(record, le);
    lemma_read_owner(record.owner, count + data + nonce, le);
    lemma_bits_le_len(data.len(), 32);
    lemma_value_of_bits(data.len(), 32);
    lemma_read_data(record.data, 0, le);
    record.nonce.x.lemma_bits_len();
    record.nonce.x.lemma_bits_round_trip();
    assert(s =~= owner + (count + data + nonce));
    let a = owner.len() as int;
    assert(s.subrange(a, a + 32) =~= count);
    assert(s.subrange(a + 32, a + 32 + data.len()) =~= data);
    assert(s.subrange(a + 32 + data.len(), a + 32 + data.len() + FIELD_BITS) =~= nonce);
    assert(record.data.skip(0) =~= record.data);
}

/// Reads a number of `n` bits at `start`.
pub fn read_number_at(bits: &Vec<bool>, start: usize, n: usize, le: bool) -> (r: Option<
    (u64, usize),
>)
    requires
        start <= bits@.len(),
        n <= 64,
    ensures
        match read_number(bits@.skip(start as int), n as nat, le) {
            Some((x, m)) => r == Some((x as u64, (start + m) as usize)) && x < pow2(n as nat) && x
                <= u64::MAX && start + m <= bits@.len() <= usize::MAX && m == n,
            None => r is None,
        },
{
    reveal(read_number);
    let len: usize = bits.len();
    if len - start < n {
        return None;
    }
    proof {
        let window = bits@.skip(start as int).take(n as int);
        assert(window =~= bits@.subrange(start as int, start + n));
        lemma_spec_value_bound(window, le);
        crate::bits::lemma_pow2_le(n as nat, 64);
        lemma2_to64();
    }
    Some((read_bits(bits, start, n, le), start + n))
}

/// Reads a field element at `start`.
pub fn read_field_at(bits: &Vec<bool>, start: usize, le: bool) -> (r: Option<(Field, usize)>)
    requires
        start <= bits@.len(),
    ensures
        match read_field(bits@.skip(start as int), le) {
            Some((x, m)) => r == Some((x, (start + m) as usize)) && start + m <= bits@.len() <= usize::MAX && m
                == FIELD_BITS,
            None => r is None,
        },
{
    reveal(read_field);
    let len: usize = bits.len();
    if len - start < FIELD_BITS {
        return None;
    }
    proof {
        let window = bits@.skip(start as int).take(FIELD_BITS as int);
        assert(window =~= bits@.subrange(start as int, start + FIELD_BITS));
    }
    Some((Field::read_bits(bits, start, le), start + FIELD_BITS))
}

/// One step of reading a name: a byte and the bytes that follow.
pub proof fn lemma_read_name_step(s: Seq<bool>, count: nat, le: bool)
    requires
        count > 0,
    ensures
        read_name(s, count, le) == match read_number(s, 8, le) {
            None => None,
            Some((byte, _)) => match read_name(s.skip(8), (count - 1) as nat, le) {
                None => None,
                Some((rest, n)) => Some((seq![byte as u8] + rest, 8 + n)),
            },
        },
        read_name(s, 0, le) == Some((Seq::<u8>::empty(), 0nat)),
{
    reveal_with_fuel(read_name, 2);
}

/// What reading an identifier comes to.
pub proof fn lemma_read_identifier_unfold(s: Seq<bool>, le: bool)
    ensures
        read_identifier(s, le) == match read_number(s, 8, le) {
            None => None,
            Some((len, _)) => match read_name(s.skip(8), len, le) {
                None => None,
                Some((name, n)) => if valid_name(name) {
                    Some((Identifier::spec_from_name(name), 8 + n))
                } else {
                    None
                },
            },
        },
{
    reveal(read_identifier);
}

/// Reads an identifier at `start`.
pub fn read_identifier_at(bits: &Vec<bool>, start: usize, le: bool) -> (r: Option<
    (Identifier, usize),
>)
    requires
        start <= bits@.len(),
    ensures
        match read_identifier(bits@.skip(start as int), le) {
            Some((id, m)) => r == Some((id, (start + m) as usize)) && start + m <= bits@.len() <= usize::MAX
                && id.wf() && m > 0,
            None => r is None,
        },
{
    reveal(read_identifier);
    let ghost s = bits@.skip(start as int);
    let (count, first) = match read_number_at(bits, start, 8, le) {
        Some(pair) => pair,
        None => {
            return None;
        },
    };
    proof {
        lemma2_to64();
    }
    let n: usize = count as usize;
    let ghost t = s.skip(8);
    assert(t =~= bits@.skip(first as int));
    let mut name: Vec<u8> = Vec::new();
    let mut pos: usize = first;
    let mut i: usize = 0;
    assert(name@ + Seq::<u8>::empty() =~= Seq::<u8>::empty());
    while i < n
        invariant
            i <= n,
            n < 256,
            first <= pos <= bits@.len(),
            pos == first + 8 * i,
            t == bits@.skip(first as int),
            s == bits@.skip(start as int),
            t == s.skip(8),
            read_number(s, 8, le) == Some((n as nat, 8nat)),
            name@.len() == i,
            match read_name(bits@.skip(pos as int), (n - i) as nat, le) {
                Some((rest, m)) => read_name(t, n as nat, le) == Some(
                    (name@ + rest, (8 * i + m) as nat),
                ),
                None => read_name(t, n as nat, le) is None,
            },
        decreases n - i,
    {
        proof {
            lemma_read_name_step(bits@.skip(pos as int), (n - i) as nat, le);
            lemma_read_identifier_unfold(s, le);
        }
        let (byte, next) = match read_number_at(bits, pos, 8, le) {
            Some(pair) => pair,
            None => {
                return None;
            },
        };
        proof {
            lemma2_to64();
            assert(bits@.skip(pos as int).skip(8) =~= bits@.skip(next as int));
            match read_name(bits@.skip(next as int), (n - i - 1) as nat, le) {
                Some((rest, m)) => {
                    assert(name@.push(byte as u8) + rest =~= name@ + (seq![byte as u8] + rest));
                },
                None => {},
            }
        }
        name.push(byte as u8);
        pos = next;
        i = i + 1;
    }
    proof {
        lemma_read_name_step(bits@.skip(pos as int), 1, le);
        assert(name@ + Seq::<u8>::empty() =~= name@);
    }
    match Identifier::from_bytes(&name) {
        Some(id) => {
            proof {
                Identifier::lemma_from_name(name@);
            }
            Some((id, pos))
        },
        None => None,
    }
}

/// Reads a literal at `start`.
pub fn read_literal_at(bits: &Vec<bool>, start: usize, le: bool) -> (r: Option<(Literal, usize)>)
    requires
        start <= bits@.len(),
    ensures
        match read_literal(bits@.skip(start as int), le) {
            Some((literal, m)) => r == Some((literal, (start + m) as usize)) && start + m
                <= bits@.len() && m > 0,
            None => r is None,
        },
{
    reveal(read_literal);
    let ghost s = bits@.skip(start as int);
    let (tag, body) = match read_number_at(bits, start, 8, le) {
        Some(pair) => pair,
        None => {
            return None;
        },
    };
    proof {
        lemma2_to64();
        assert(s.skip(8) =~= bits@.skip(body as int));
    }
    if tag == 0 {
        match read_field_at(bits, body, le) {
            Some((x, next)) => Some((Literal::Address(Group { x }), next)),
            None => None,
        }
    } else if tag == 1 {
        if bits.len() - body < 1 {
            None
        } else {
            assert(bits@.skip(body as int)[0] == bits@[body as int]);
            Some((Literal::Boolean(bits[body]), body + 1))
        }
    } else if tag == 2 {
        match read_field_at(bits, body, le) {
            Some((x, next)) => Some((Literal::Field(x), next)),
            None => None,
        }
    } else if tag == 3 {
        match read_field_at(bits, body, le) {
            Some((x, next)) => Some((Literal::Group(Group { x }), next)),
            None => None,
        }
    } else if tag == 4 {
        match read_number_at(bits, body, 8, le) {
            Some((x, next)) => Some((Literal::U8(x as u8), next)),
            None => None,
        }
    } else if tag == 5 {
        match read_number_at(bits, body, 16, le) {
            Some((x, next)) => Some((Literal::U16(x as u16), next)),
            None => None,
        }
    } else if tag == 6 {
        match read_number_at(bits, body, 32, le) {
            Some((x, next)) => Some((Literal::U32(x as u32), next)),
            None => None,
        }
    } else if tag == 7 {
        match read_number_at(bits, body, 64, le) {
            Some((x, next)) => Some((Literal::U64(x), next)),
            None => None,
        }
    } else {
        None
    }
}

/// What reading a plaintext comes to.
pub proof fn lemma_read_plaintext_unfold(s: Seq<bool>, le: bool)
    ensures
        read_plaintext(s, le) == if s.len() < 1 {
            None
        } else if !s[0] {
            match read_literal(s.skip(1), le) {
                Some((literal, n)) => Some((PlaintextView::Literal(literal), 1 + n)),
                None => None,
            }
        } else if s.len() < 9 {
            None
        } else {
            match read_members(s.skip(9), spec_value(s.subrange(1, 9), le), le) {
                Some((members, n)) => Some((PlaintextView::Struct(members), 9 + n)),
                None => None,
            }
        },
{
    reveal_with_fuel(read_members, 2);
    reveal_with_fuel(read_plaintext, 2);
}

/// What reading members comes to.
pub proof fn lemma_read_members_unfold(s: Seq<bool>, count: nat, le: bool)
    ensures
        read_members(s, count, le) == if count == 0 {
            Some((Seq::<(Identifier, PlaintextView)>::empty(), 0nat))
        } else {
            match read_identifier(s, le) {
                None => None,
                Some((id, a)) => if a == 0 || a > s.len() {
                    None
                } else {
                    match read_plaintext(s.skip(a as int), le) {
                        None => None,
                        Some((plaintext, b)) => if a + b > s.len() {
                            None
                        } else {
                            match read_members(s.skip((a + b) as int), (count - 1) as nat, le) {
                                None => None,
                                Some((rest, c)) => Some((seq![(id, plaintext)] + rest, a + b + c)),
                            }
                        },
                    }
                },
            }
        },
{
    reveal_with_fuel(read_members, 2);
    reveal_with_fuel(read_plaintext, 2);
}

/// Reads a plaintext at `start`.
pub fn read_plaintext_at(bits: &Vec<bool>, start: usize, le: bool) -> (r: Option<
    (Plaintext, usize),
>)
    requires
        start <= bits@.len(),
    ensures
        match read_plaintext(bits@.skip(start as int), le) {
            Some((plaintext, m)) => r is Some && r->Some_0.0.view() == plaintext && r->Some_0.1
                == start + m && start + m <= bits@.len() <= usize::MAX && m > 0,
            None => r is None,
        },
    decreases bits@.len() - start,
{
    let ghost s = bits@.skip(start as int);
    proof {
        lemma_read_plaintext_unfold(s, le);
    }
    let len: usize = bits.len();
    if len - start < 1 {
        return None;
    }
    assert(s[0] == bits@[start as int]);
    if !bits[start] {
        assert(s.skip(1) =~= bits@.skip(start + 1));
        return match read_literal_at(bits, start + 1, le) {
            Some((literal, next)) => Some((Plaintext::Literal(literal), next)),
            None => None,
        };
    }
    if len - start < 9 {
        return None;
    }
    assert(s.subrange(1, 9) =~= bits@.subrange(start + 1, start + 9));
    proof {
        lemma_spec_value_bound(bits@.subrange(start + 1, start + 9), le);
        lemma2_to64();
    }
    let count: usize = read_bits(bits, start + 1, 8, le) as usize;
    assert(count as nat == spec_value(s.subrange(1, 9), le));
    let first: usize = start + 9;
    let ghost t = s.skip(9);
    assert(t =~= bits@.skip(first as int));
    let mut members: Vec<(Identifier, Plaintext)> = Vec::new();
    let mut pos: usize = first;
    let mut i: usize = 0;
    proof {
        assert(members_view(members@, 0) + Seq::<(Identifier, PlaintextView)>::empty()
            =~= Seq::<(Identifier, PlaintextView)>::empty());
        lemma_read_members_unfold(t, 0, le);
    }
    while i < count
        invariant
            i <= count,
            start < first <= pos <= bits@.len(),
            len == bits@.len(),
            t == bits@.skip(first as int),
            first == start + 9,
            read_plaintext(bits@.skip(start as int), le) == (match read_members(
                t,
                count as nat,
                le,
            ) {
                Some((members, n)) => Some((PlaintextView::Struct(members), 9 + n)),
                None => None,
            }),
            members@.len() == i,
            match read_members(bits@.skip(pos as int), (count - i) as nat, le) {
                Some((rest, m)) => read_members(t, count as nat, le) == Some(
                    (members_view(members@, i as nat) + rest, (pos - first + m) as nat),
                ),
                None => read_members(t, count as nat, le) is None,
            },
        decreases count - i,
    {
        let ghost here = bits@.skip(pos as int);
        proof {
            lemma_read_members_unfold(here, (count - i) as nat, le);
        }
        let (id, after_name) = match read_identifier_at(bits, pos, le) {
            Some(pair) => pair,
            None => {
                return None;
            },
        };
        assert(here.skip(after_name - pos) =~= bits@.skip(after_name as int));
        let (value, next) = match read_plaintext_at(bits, after_name, le) {
            Some(pair) => pair,
            None => {
                return None;
            },
        };
        proof {
            assert(here.skip(next - pos) =~= bits@.skip(next as int));
            let before = members@;
            let grown = members@.push((id, value));
            lemma_members_view(before, i as nat);
            lemma_members_view(grown, (i + 1) as nat);
            assert(members_view(grown, (i + 1) as nat) =~= members_view(before, i as nat).push(
                (id, value.view()),
            ));
            match read_members(bits@.skip(next as int), (count - i - 1) as nat, le) {
                Some((rest, m)) => {
                    assert(members_view(before, i as nat).push((id, value.view())) + rest
                        =~= members_view(before, i as nat) + (seq![(id, value.view())] + rest));
                },
                None => {},
            }
        }
        members.push((id, value));
        pos = next;
        i = i + 1;
    }
    proof {
        lemma_read_members_unfold(bits@.skip(pos as int), 0, le);
        assert(members_view(members@, i as nat) + Seq::<(Identifier, PlaintextView)>::empty()
            =~= members_view(members@, i as nat));
    }
    Some((Plaintext::Struct(members), pos))
}

/// What reading field elements comes to.
pub proof fn lemma_read_fields_unfold(s: Seq<bool>, count: nat, le: bool)
    ensures
        read_fields(s, count, le) == if count == 0 {
            Some((Seq::<Field>::empty(), 0nat))
        } else {
            match read_field(s, le) {
                None => None,
                Some((x, a)) => match read_fields(s.skip(a as int), (count - 1) as nat, le) {
                    None => None,
                    Some((rest, n)) => Some((seq![x] + rest, a + n)),
                },
            }
        },
{
    reveal_with_fuel(read_fields, 2);
}

/// Reads a ciphertext at `start`.
pub fn read_ciphertext_at(bits: &Vec<bool>, start: usize, le: bool) -> (r: Option<
    (Ciphertext, usize),
>)
    requires
        start <= bits@.len(),
    ensures
        match read_ciphertext(bits@.skip(start as int), le) {
            Some((elements, m)) => r is Some && r->Some_0.0@ == elements && r->Some_0.1 == start
                + m && start + m <= bits@.len() <= usize::MAX && m > 0,
            None => r is None,
        },
{
    reveal(read_ciphertext);
    let ghost s = bits@.skip(start as int);
    let (count64, first) = match read_number_at(bits, start, 16, le) {
        Some(pair) => pair,
        None => {
            return None;
        },
    };
    proof {
        lemma2_to64();
    }
    let count: usize = count64 as usize;
    let ghost t = s.skip(16);
    assert(t =~= bits@.skip(first as int));
    let mut elements: Vec<Field> = Vec::new();
    let mut pos: usize = first;
    let mut i: usize = 0;
    proof {
        assert(elements@ + Seq::<Field>::empty() =~= Seq::<Field>::empty());
    }
    while i < count
        invariant
            i <= count,
            first <= pos <= bits@.len(),
            t == bits@.skip(first as int),
            first == start + 16,
            read_ciphertext(bits@.skip(start as int), le) == (match read_fields(
                t,
                count as nat,
                le,
            ) {
                Some((elements, n)) => Some((elements, 16 + n)),
                None => None,
            }),
            elements@.len() == i,
            match read_fields(bits@.skip(pos as int), (count - i) as nat, le) {
                Some((rest, m)) => read_fields(t, count as nat, le) == Some(
                    (elements@ + rest, (pos - first + m) as nat),
                ),
                None => read_fields(t, count as nat, le) is None,
            },
        decreases count - i,
    {
        let ghost here = bits@.skip(pos as int);
        proof {
            lemma_read_fields_unfold(here, (count - i) as nat, le);
        }
        let (x, next) = match read_field_at(bits, pos, le) {
            Some(pair) => pair,
            None => {
                return None;
            },
        };
        proof {
            assert(here.skip(next - pos) =~= bits@.skip(next as int));
            match read_fields(bits@.skip(next as int), (count - i - 1) as nat, le) {
                Some((rest, m)) => {
                    assert(elements@.push(x) + rest =~= elements@ + (seq![x] + rest));
                },
                None => {},
            }
        }
        elements.push(x);
        pos = next;
        i = i + 1;
    }
    proof {
        lemma_read_fields_unfold(bits@.skip(pos as int), 0, le);
        assert(elements@ + Seq::<Field>::empty() =~= elements@);
    }
    Some((Ciphertext { elements }, pos))
}

/// Reads an owner at `start`.
pub fn read_owner_at(bits: &Vec<bool>, start: usize, le: bool) -> (r: Option<(Owner, usize)>)
    requires
        start <= bits@.len(),
    ensures
        match read_owner(bits@.skip(start as int), le) {
            Some((owner, m)) => r is Some && r->Some_0.0@ == owner && r->Some_0.1 == start + m
                && start + m <= bits@.len() <= usize::MAX && m > 0,
            None => r is None,
        },
{
    reveal(read_owner);
    let ghost s = bits@.skip(start as int);
    let (tag, body) = match read_number_at(bits, start, 2, le) {
        Some(pair) => pair,
        None => {
            return None;
        },
    };
    assert(s.skip(2) =~= bits@.skip(body as int));
    if tag == 0 {
        match read_field_at(bits, body, le) {
            Some((x, next)) => Some((Owner::Public(Group { x }), next)),
            None => None,
        }
    } else if tag == 1 {
        match read_field_at(bits, body, le) {
            Some((x, next)) => Some((Owner::Private(Group { x }), next)),
            None => None,
        }
    } else if tag == 2 {
        match read_ciphertext_at(bits, body, le) {
            Some((ciphertext, next)) => Some((Owner::Encrypted(ciphertext), next)),
            None => None,
        }
    } else {
        None
    }
}

/// Reads an entry at `start`.
pub fn read_entry_at(bits: &Vec<bool>, start: usize, le: bool) -> (r: Option<(Entry, usize)>)
    requires
        start <= bits@.len(),
    ensures
        match read_entry(bits@.skip(start as int), le) {
            Some((entry, m)) => r is Some && r->Some_0.0@ == entry && r->Some_0.1 == start + m
                && start + m <= bits@.len() <= usize::MAX && m > 0,
            None => r is None,
        },
{
    reveal(read_entry);
    let ghost s = bits@.skip(start as int);
    let (tag, body) = match read_number_at(bits, start, 2, le) {
        Some(pair) => pair,
        None => {
            return None;
        },
    };
    assert(s.skip(2) =~= bits@.skip(body as int));
    if tag == 3 {
        match read_ciphertext_at(bits, body, le) {
            Some((ciphertext, next)) => Some((Entry::Encrypted(ciphertext), next)),
            None => None,
        }
    } else {
        match read_plaintext_at(bits, body, le) {
            Some((plaintext, next)) => {
                if tag == 0 {
                    Some((Entry::Constant(plaintext), next))
                } else if tag == 1 {
                    Some((Entry::Public(plaintext), next))
                } else {
                    Some((Entry::Private(plaintext), next))
                }
            },
            None => None,
        }
    }
}

/// What reading entries comes to.
pub proof fn lemma_read_data_unfold(s: Seq<bool>, le: bool)
    ensures
        read_data(s, le) == if s.len() == 0 {
            Some(Seq::<(Identifier, EntryView)>::empty())
        } else {
            match read_identifier(s, le) {
                None => None,
                Some((id, a)) => if a == 0 || a > s.len() {
                    None
                } else {
                    match read_entry(s.skip(a as int), le) {
                        None => None,
                        Some((entry, b)) => if a + b > s.len() {
                            None
                        } else {
                            match read_data(s.skip((a + b) as int), le) {
                                None => None,
                                Some(rest) => Some(seq![(id, entry)] + rest),
                            }
                        },
                    }
                },
            }
        },
{
    reveal_with_fuel(read_data, 2);
}

/// Entries of which two have one name stay so when more entries follow.
pub proof fn lemma_names_clash(
    head: Seq<(Identifier, EntryView)>,
    tail: Seq<(Identifier, EntryView)>,
)
    requires
        !names_distinct(head),
    ensures
        !names_distinct(head + tail),
{
    let (i, j) = choose|i: int, j: int| 0 <= i < j < head.len() && head[i].0 == head[j].0;
    assert((head + tail)[i] == head[i]);
    assert((head + tail)[j] == head[j]);
}

/// Reads the entries of a record from the bits of its data, all of them.
/// `None` when the bits spell no entries, or two entries of one name.
pub fn read_data_all(window: &Vec<bool>, le: bool) -> (r: Option<IndexMap<Identifier, Entry>>)
    ensures
        match read_data(window@, le) {
            Some(data) => if names_distinct(data) {
                r is Some && data_view(entries_of(r->Some_0)) == data
            } else {
                r is None
            },
            None => r is None,
        },
{
    let len: usize = window.len();
    let mut map = data_new();
    let mut pos: usize = 0;
    proof {
        assert(window@.skip(0) =~= window@);
        assert(data_view(entries_of(map)) =~= Seq::<(Identifier, EntryView)>::empty());
        match read_data(window@, le) {
            Some(rest) => {
                assert(data_view(entries_of(map)) + rest =~= rest);
            },
            None => {},
        }
    }
    while pos < len
        invariant
            pos <= len,
            len == window@.len(),
            names_distinct(data_view(entries_of(map))),
            match read_data(window@.skip(pos as int), le) {
                Some(rest) => read_data(window@, le) == Some(data_view(entries_of(map)) + rest),
                None => read_data(window@, le) is None,
            },
        decreases len - pos,
    {
        let ghost here = window@.skip(pos as int);
        let ghost before = entries_of(map);
        proof {
            lemma_read_data_unfold(here, le);
        }
        let (id, after_name) = match read_identifier_at(window, pos, le) {
            Some(pair) => pair,
            None => {
                return None;
            },
        };
        assert(here.skip(after_name - pos) =~= window@.skip(after_name as int));
        let (entry, next) = match read_entry_at(window, after_name, le) {
            Some(pair) => pair,
            None => {
                return None;
            },
        };
        let ghost entry_view = entry@;
        proof {
            assert(here.skip(next - pos) =~= window@.skip(next as int));
            lemma_entry_position(before, id, before.len());
        }
        let replaced = data_insert(&mut map, id, entry);
        match replaced {
            Some(_) => {
                proof {
                    let at = spec_entry_position(before, id, before.len())->Some_0;
                    let head = data_view(before).push((id, entry_view));
                    assert(head[at].0 == head[before.len() as int].0);
                    assert(!names_distinct(head));
                    match read_data(window@.skip(next as int), le) {
                        Some(rest) => {
                            lemma_names_clash(head, rest);
                            assert(head + rest =~= data_view(before) + (seq![(id, entry_view)]
                                + rest));
                        },
                        None => {},
                    }
                }
                return None;
            },
            None => {
                proof {
                    let head = data_view(before).push((id, entry_view));
                    assert(data_view(entries_of(map)) =~= head);
                    assert forall|i: int, j: int| 0 <= i < j < head.len() implies (
                    #[trigger] head[i]).0 != (#[trigger] head[j]).0 by {
                        if j < before.len() {
                            assert(data_view(before)[i].0 != data_view(before)[j].0);
                        } else {
                            assert(before[i].0 != id);
                        }
                    }
                    match read_data(window@.skip(next as int), le) {
                        Some(rest) => {
                            assert(head + rest =~= data_view(before) + (seq![(id, entry_view)]
                                + rest));
                        },
                        None => {},
                    }
                }
            },
        }
        pos = next;
    }
    proof {
        lemma_read_data_unfold(window@.skip(pos as int), le);
        assert(data_view(entries_of(map)) + Seq::<(Identifier, EntryView)>::empty()
            =~= data_view(entries_of(map)));
    }
    Some(map)
}

impl Plaintext {
    /// The encoding of the plaintext in the bit order that `le` selects.
    /// `None` when a struct in it has more than 255 members or a name that
    /// is not well formed.
    pub fn to_bits(&self, le: bool) -> (r: Option<Vec<bool>>)
        ensures
            match r {
                Some(bits) => plaintext_fits(self.view()) && bits@ == plaintext_bits(
                    self.view(),
                    le,
                ),
                None => !plaintext_fits(self.view()),
            },
    {
        if !crate::codec::check_plaintext(self) {
            return None;
        }
        let mut bits: Vec<bool> = Vec::new();
        crate::codec::push_plaintext(&mut bits, self, le);
        assert(bits@ =~= plaintext_bits(self.view(), le));
        Some(bits)
    }

    /// Returns this plaintext as a list of **little-endian** bits.
    pub fn to_bits_le(&self) -> (r: Option<Vec<bool>>)
        ensures
            match r {
                Some(bits) => plaintext_fits(self.view()) && bits@ == plaintext_bits(
                    self.view(),
                    true,
                ),
                None => !plaintext_fits(self.view()),
            },
    {
        self.to_bits(true)
    }

    /// Returns this plaintext as a list of **big-endian** bits.
    pub fn to_bits_be(&self) -> (r: Option<Vec<bool>>)
        ensures
            match r {
                Some(bits) => plaintext_fits(self.view()) && bits@ == plaintext_bits(
                    self.view(),
                    false,
                ),
                None => !plaintext_fits(self.view()),
            },
    {
        self.to_bits(false)
    }

    /// Reads a plaintext from its bits, all of them, in the bit order that
    /// `le` selects.
    pub fn from_bits(bits: &Vec<bool>, le: bool) -> (r: Option<Plaintext>)
        ensures
            match read_plaintext(bits@, le) {
                Some((plaintext, n)) => if n == bits@.len() {
                    r is Some && r->Some_0.view() == plaintext
                } else {
                    r is None
                },
                None => r is None,
            },
    {
        assert(bits@.skip(0) =~= bits@);
        match read_plaintext_at(bits, 0, le) {
            Some((plaintext, next)) => if next == bits.len() {
                Some(plaintext)
            } else {
                None
            },
            None => None,
        }
    }

    /// Reads a plaintext from its **little-endian** bits.
    pub fn from_bits_le(bits: &Vec<bool>) -> (r: Option<Plaintext>)
        ensures
            match read_plaintext(bits@, true) {
                Some((plaintext, n)) => if n == bits@.len() {
                    r is Some && r->Some_0.view() == plaintext
                } else {
                    r is None
                },
                None => r is None,
            },
    {
        Plaintext::from_bits(bits, true)
    }

    /// Reads a plaintext from its **big-endian** bits.
    pub fn from_bits_be(bits: &Vec<bool>) -> (r: Option<Plaintext>)
        ensures
            match read_plaintext(bits@, false) {
                Some((plaintext, n)) => if n == bits@.len() {
                    r is Some && r->Some_0.view() == plaintext
                } else {
                    r is None
                },
                None => r is None,
            },
    {
        Plaintext::from_bits(bits, false)
    }
}

impl Record {
    /// Reads a record from its bits in the bit order that `le` selects.
    /// `None` when the bits, all of them, are not the encoding of a
    /// record.
    pub fn from_bits(bits: &Vec<bool>, le: bool) -> (r: Option<Record>)
        ensures
            match read_record(bits@, le) {
                Some(record) => r is Some && r->Some_0@ == record,
                None => r is None,
            },
    {
        reveal(read_record);
        let len: usize = bits.len();
        assert(bits@.skip(0) =~= bits@);
        let (owner, a) = match read_owner_at(bits, 0, le) {
            Some(pair) => pair,
            None => {
                return None;
            },
        };
        if len - a < 32 {
            return None;
        }
        proof {
            crate::bits::lemma_value_bound(bits@.subrange(a as int, a + 32));
            lemma2_to64();
        }
        let n64 = read_bits_le(bits, a, 32);
        let n: usize = n64 as usize;
        let body: usize = a + 32;
        if len - body < n {
            return None;
        }
        if len - body - n != FIELD_BITS {
            return None;
        }
        let mut window: Vec<bool> = Vec::new();
        let mut i: usize = 0;
        while i < n
            invariant
                i <= n,
                body + n <= len,
                len == bits@.len(),
                window@ == bits@.subrange(body as int, body + i),
            decreases n - i,
        {
            window.push(bits[body + i]);
            assert(window@ =~= bits@.subrange(body as int, body + i + 1));
            i = i + 1;
        }
        let data = match read_data_all(&window, le) {
            Some(data) => data,
            None => {
                return None;
            },
        };
        let x = Field::read_bits(bits, body + n, le);
        Some(Record { owner, data, nonce: Group { x } })
    }

    /// Reads a record from its **little-endian** bits.
    pub fn from_bits_le(bits: &Vec<bool>) -> (r: Option<Record>)
        ensures
            match read_record(bits@, true) {
                Some(record) => r is Some && r->Some_0@ == record,
                None => r is None,
            },
    {
        Record::from_bits(bits, true)
    }

    /// Reads a record from its **big-endian** bits.
    pub fn from_bits_be(bits: &Vec<bool>) -> (r: Option<Record>)
        ensures
            match read_record(bits@, false) {
                Some(record) => r is Some && r->Some_0@ == record,
                None => r is None,
            },
    {
        Record::from_bits(bits, false)
    }
}

} // verus!
