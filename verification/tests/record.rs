use record_inclusion::bits::{push_bits, push_bits_be, push_bits_le, push_bytes_le, read_bits, read_bits_be, read_bits_le, read_bytes_le};
use record_inclusion::field::{Field, Group};
use record_inclusion::ident::{is_digit, is_letter, is_name_byte, Identifier};
use record_inclusion::record::{Ciphertext, Entry, Literal, Owner, Plaintext, Record};

fn id(name: &str) -> Identifier {
    Identifier::from_str(name).unwrap()
}

/// A field element that stands for a random one.
fn sample_field(seed: u64) -> Field {
    let a = seed.wrapping_mul(0x9e37_79b9_7f4a_7c15) ^ 0x1234_5678_9abc_def0;
    Field { l0: a, l1: a.rotate_left(17) ^ seed, l2: a.rotate_left(31).wrapping_add(seed), l3: a.rotate_left(47) }
}

fn boolean(b: bool) -> Plaintext {
    Plaintext::Literal(Literal::Boolean(b))
}

fn field(seed: u64) -> Plaintext {
    Plaintext::Literal(Literal::Field(sample_field(seed)))
}

#[test]
fn test_plaintext() {
    let value = boolean(true);
    assert_eq!(
        value.to_bits_le().unwrap(),
        Plaintext::from_bits_le(&value.to_bits_le().unwrap()).unwrap().to_bits_le().unwrap()
    );

    let value = field(1);
    assert_eq!(
        value.to_bits_le().unwrap(),
        Plaintext::from_bits_le(&value.to_bits_le().unwrap()).unwrap().to_bits_le().unwrap()
    );

    let value = Plaintext::Struct(vec![(id("a"), boolean(true)), (id("b"), field(2))]);
    assert_eq!(
        value.to_bits_le().unwrap(),
        Plaintext::from_bits_le(&value.to_bits_le().unwrap()).unwrap().to_bits_le().unwrap()
    );

    let value = Plaintext::Struct(vec![
        (id("a"), boolean(true)),
        (
            id("b"),
            Plaintext::Struct(vec![
                (id("c"), boolean(true)),
                (id("d"), Plaintext::Struct(vec![(id("e"), boolean(true)), (id("f"), field(3))])),
                (id("g"), field(4)),
            ]),
        ),
        (id("h"), field(5)),
    ]);
    assert_eq!(
        value.to_bits_le().unwrap(),
        Plaintext::from_bits_le(&value.to_bits_le().unwrap()).unwrap().to_bits_le().unwrap()
    );
    // Reading gives the value back, not only its bits, in both bit orders.
    assert_eq!(Plaintext::from_bits_le(&value.to_bits_le().unwrap()).unwrap(), value);
    assert_eq!(Plaintext::from_bits_be(&value.to_bits_be().unwrap()).unwrap(), value);
    assert_ne!(value.to_bits_le().unwrap(), value.to_bits_be().unwrap());
}

#[test]
fn plaintext_from_a_literal() {
    assert_eq!(Plaintext::from(Literal::U8(3)), Plaintext::Literal(Literal::U8(3)));
}

#[test]
fn plaintext_bits_are_a_kind_bit_then_the_value() {
    // A literal: the bit 0, the tag 1 of booleans in eight bits, the value.
    assert_eq!(
        boolean(true).to_bits_le().unwrap(),
        vec![false, true, false, false, false, false, false, false, false, true]
    );
    assert_eq!(
        boolean(true).to_bits_be().unwrap(),
        vec![false, false, false, false, false, false, false, false, true, true]
    );
    // A number: the tag 5 of 16-bit numbers, then sixteen bits.
    let bits = Plaintext::Literal(Literal::U16(0x8001)).to_bits_le().unwrap();
    assert_eq!(bits.len(), 1 + 8 + 16);
    assert_eq!(&bits[1..9], &[true, false, true, false, false, false, false, false]);
    assert!(bits[9] && bits[24] && !bits[10]);
    // A struct: the bit 1, the number of members, and per member the length of its name, the name, the value.
    let bits = Plaintext::Struct(vec![(id("ab"), boolean(false))]).to_bits_le().unwrap();
    assert_eq!(bits.len(), 1 + 8 + (8 + 16) + 10);
    assert!(bits[0]);
    assert_eq!(&bits[1..9], &[true, false, false, false, false, false, false, false]);
    assert_eq!(&bits[9..17], &[false, true, false, false, false, false, false, false]);
    // 'a' = 0x61, least significant bit first.
    assert_eq!(&bits[17..25], &[true, false, false, false, false, true, true, false]);
}

#[test]
fn plaintext_bits_that_spell_nothing_are_rejected() {
    let bits = Plaintext::Struct(vec![(id("a"), boolean(true)), (id("b"), field(2))]).to_bits_le().unwrap();
    // Bits that end early, and bits that go on.
    for length in 0..bits.len() {
        assert_eq!(Plaintext::from_bits_le(&bits[..length].to_vec()), None);
    }
    let mut longer = bits.clone();
    longer.push(false);
    assert_eq!(Plaintext::from_bits_le(&longer), None);
    // A tag that names no type.
    let mut bits = boolean(true).to_bits_le().unwrap();
    bits[4] = true;
    assert_eq!(Plaintext::from_bits_le(&bits), None);
    // A member whose name starts with a digit.
    let mut bits = Plaintext::Struct(vec![(id("a"), boolean(true))]).to_bits_le().unwrap();
    for (i, bit) in [true, false, false, false, true, true, false, false].into_iter().enumerate() {
        bits[17 + i] = bit;
    }
    assert_eq!(Plaintext::from_bits_le(&bits), None);
}

#[test]
fn plaintext_with_too_many_members_has_no_bits() {
    let members = |n: usize| Plaintext::Struct((0..n).map(|_| (id("a"), boolean(true))).collect());
    assert!(members(255).to_bits_le().is_some());
    assert_eq!(members(256).to_bits_le(), None);
    let bad_name = Identifier { value: Field::from_u64(b'1' as u64), len: 1 };
    assert_eq!(Plaintext::Struct(vec![(bad_name, boolean(true))]).to_bits_le(), None);
    assert_eq!(Plaintext::Struct(vec![(id("x"), members(256))]).to_bits_be(), None);
}

fn sample_record() -> Record {
    let mut record = Record::new(Owner::Private(Group { x: sample_field(10) }), Group { x: sample_field(11) });
    assert_eq!(record.insert(id("amount"), Entry::Private(Plaintext::Literal(Literal::U64(1_000_000)))), None);
    assert_eq!(
        record.insert(
            id("memo"),
            Entry::Public(Plaintext::Struct(vec![
                (id("tag"), Plaintext::Literal(Literal::U8(7))),
                (id("to"), Plaintext::Literal(Literal::Address(Group { x: sample_field(12) }))),
            ]))
        ),
        None
    );
    assert_eq!(record.insert(id("kind"), Entry::Constant(boolean(true))), None);
    record
}

fn sample_ciphertext_record() -> Record {
    let mut record = Record::new(
        Owner::Encrypted(Ciphertext { elements: vec![sample_field(20), sample_field(21)] }),
        Group { x: sample_field(22) },
    );
    record.insert(id("amount"), Entry::Encrypted(Ciphertext { elements: vec![sample_field(23)] }));
    record.insert(id("kind"), Entry::Constant(boolean(false)));
    record.insert(id("empty"), Entry::Encrypted(Ciphertext { elements: vec![] }));
    record
}

#[test]
fn record_round_trips_through_its_bits() {
    for record in [
        sample_record(),
        sample_ciphertext_record(),
        Record::new(Owner::Public(Group { x: Field::zero() }), Group { x: Field::one() }),
    ] {
        let le = record.to_bits_le().unwrap();
        let be = record.to_bits_be().unwrap();
        assert_eq!(le.len(), be.len());
        assert_eq!(Record::from_bits_le(&le).unwrap(), record);
        assert_eq!(Record::from_bits_be(&be).unwrap(), record);
        assert_eq!(Record::from_bits_le(&le).unwrap().to_bits_le().unwrap(), le);
        assert_eq!(record.to_bits(true).unwrap(), le);
        assert_eq!(Record::from_bits(&be, false).unwrap(), record);
        // The order of the entries is kept.
        let read = Record::from_bits_le(&le).unwrap();
        assert_eq!(read.data.keys().collect::<Vec<_>>(), record.data.keys().collect::<Vec<_>>());
    }
    assert_ne!(sample_record().to_bits_le().unwrap(), sample_record().to_bits_be().unwrap());
}

#[test]
fn record_bits_are_owner_length_data_nonce() {
    let record = sample_record();
    let bits = record.to_bits_le().unwrap();

    // The owner: the variant 1 in two bits, then the address.
    let owner_bits = 2 + 256;
    assert!(bits[0] && !bits[1]);
    assert_eq!(&bits[2..owner_bits], &sample_field(10).to_bits_le()[..]);

    // The length of the data, in 32 bits, least significant first.
    let data_length = bits.len() - owner_bits - 32 - 256;
    assert_eq!(read_bits_le(&bits, owner_bits, 32), data_length as u64);

    // The data: for each entry its name, its visibility, its value.
    let mut pos = owner_bits + 32;
    // "amount": a length of 6, then six bytes.
    assert_eq!(read_bits_le(&bits, pos, 8), 6);
    assert_eq!(read_bits_le(&bits, pos + 8, 8), b'a' as u64);
    pos += 8 + 6 * 8;
    // Private = 2, then the plaintext: a literal of type U64.
    assert_eq!(read_bits_le(&bits, pos, 2), 2);
    assert!(!bits[pos + 2]);
    assert_eq!(read_bits_le(&bits, pos + 3, 8), 7);
    assert_eq!(read_bits_le(&bits, pos + 11, 64), 1_000_000);

    // The nonce closes the record.
    assert_eq!(&bits[bits.len() - 256..], &sample_field(11).to_bits_le()[..]);

    // Most significant bit first the parts stand in the same places, and the length is still least significant first.
    let be = record.to_bits_be().unwrap();
    assert!(!be[0] && be[1]);
    assert_eq!(&be[2..owner_bits], &sample_field(10).to_bits_be()[..]);
    assert_eq!(read_bits_le(&be, owner_bits, 32), data_length as u64);
    assert_eq!(read_bits_be(&be, owner_bits + 32, 8), 6);
    assert_eq!(&be[be.len() - 256..], &sample_field(11).to_bits_be()[..]);
}

#[test]
fn record_bits_that_spell_no_record_are_rejected() {
    let record = sample_record();
    let bits = record.to_bits_le().unwrap();
    assert_eq!(Record::from_bits_le(&bits[..bits.len() - 1].to_vec()), None);
    let mut longer = bits.clone();
    longer.push(true);
    assert_eq!(Record::from_bits_le(&longer), None);
    assert_eq!(Record::from_bits_le(&vec![]), None);
    // An owner of the variant 3.
    let mut bad_owner = bits.clone();
    bad_owner[0] = true;
    bad_owner[1] = true;
    assert_eq!(Record::from_bits_le(&bad_owner), None);
    // A length that does not match the data.
    let mut bad_length = bits.clone();
    bad_length[258] = !bad_length[258];
    assert_eq!(Record::from_bits_le(&bad_length), None);
    // Bits in the other order.
    assert_eq!(Record::from_bits_be(&bits), None);
}

#[test]
fn record_bits_with_two_entries_of_one_name_are_rejected() {
    // Write the bits of a record with the entries "a" and "b", then rename "b" to "a".
    let mut record = Record::new(Owner::Public(Group { x: Field::zero() }), Group { x: Field::one() });
    record.insert(id("a"), Entry::Constant(boolean(true)));
    record.insert(id("b"), Entry::Constant(boolean(false)));
    let mut bits = record.to_bits_le().unwrap();
    assert!(Record::from_bits_le(&bits).is_some());
    let second_name = 258 + 32 + (8 + 8) + (2 + 10) + 8;
    assert_eq!(read_bits_le(&bits, second_name, 8), b'b' as u64);
    bits[second_name] = true;
    bits[second_name + 1] = false;
    assert_eq!(read_bits_le(&bits, second_name, 8), b'a' as u64);
    assert_eq!(Record::from_bits_le(&bits), None);
}

#[test]
fn record_entries_keep_their_order_of_insertion() {
    let mut record = sample_record();
    assert_eq!(record.len(), 3);
    let names = |record: &Record| record.data.keys().map(|k| String::from_utf8(k.to_bytes()).unwrap()).collect::<Vec<_>>();
    assert_eq!(names(&record), vec!["amount", "memo", "kind"]);

    // An entry that is replaced keeps its place, and the old entry is handed back.
    let old = record.insert(id("amount"), Entry::Public(boolean(false)));
    assert_eq!(old, Some(Entry::Private(Plaintext::Literal(Literal::U64(1_000_000)))));
    assert_eq!(record.len(), 3);
    assert_eq!(names(&record), vec!["amount", "memo", "kind"]);
    assert_eq!(record.data.get_index(0), Some((&id("amount"), &Entry::Public(boolean(false)))));

    // A new entry goes last.
    assert_eq!(record.insert(id("zero"), Entry::Constant(boolean(false))), None);
    assert_eq!(record.len(), 4);
    assert_eq!(names(&record), vec!["amount", "memo", "kind", "zero"]);
    assert_eq!(Record::new(Owner::Public(Group { x: Field::zero() }), Group { x: Field::zero() }).len(), 0);
}

#[test]
fn record_with_parts_that_do_not_fit_has_no_bits() {
    let mut record = Record::new(Owner::Public(Group { x: Field::zero() }), Group { x: Field::one() });
    assert!(record.check_parts());
    record.insert(Identifier { value: Field::zero(), len: 0 }, Entry::Constant(boolean(true)));
    assert!(!record.check_parts());
    assert_eq!(record.to_bits_le(), None);
    assert_eq!(record.to_bits_be(), None);

    let wide = Record::new(
        Owner::Encrypted(Ciphertext { elements: vec![Field::zero(); 65536] }),
        Group { x: Field::one() },
    );
    assert_eq!(wide.to_bits_le(), None);
}

#[test]
fn field_bits_and_bytes_round_trip() {
    let x = Field { l0: 0x0102_0304_0506_0708, l1: 1, l2: 0, l3: 0x8000_0000_0000_0000 };
    let le = x.to_bits_le();
    let be = x.to_bits_be();
    assert_eq!(le.len(), 256);
    assert_eq!(be, le.iter().rev().copied().collect::<Vec<_>>());
    assert!(!le[0] && le[3] && le[64] && le[255] && !le[254]);
    assert_eq!(Field::read_bits_le(&le, 0), x);
    assert_eq!(Field::read_bits_be(&be, 0), x);
    assert_eq!(Field::read_bits(&le, 0, true), x);
    assert_eq!(Field::read_bits(&be, 0, false), x);

    let mut bytes = vec![0xaa];
    x.push_bytes_le(&mut bytes);
    assert_eq!(bytes.len(), 33);
    assert_eq!(&bytes[1..9], &[8, 7, 6, 5, 4, 3, 2, 1]);
    assert_eq!(bytes[9], 1);
    assert_eq!(bytes[32], 0x80);
    assert_eq!(Field::read_bytes_le(&bytes, 1), x);

    assert!(Field::zero().is_zero());
    assert!(!Field::one().is_zero());
    assert_eq!(Field::one(), Field::from_u64(1));
}

#[test]
fn numbers_are_written_in_either_bit_order() {
    let mut bits = vec![true];
    push_bits_le(&mut bits, 0b1011, 6);
    assert_eq!(bits, vec![true, true, true, false, true, false, false]);
    push_bits_be(&mut bits, 0b1011, 6);
    assert_eq!(&bits[7..], &[false, false, true, false, true, true]);
    assert_eq!(read_bits_le(&bits, 1, 6), 0b1011);
    assert_eq!(read_bits_be(&bits, 7, 6), 0b1011);
    assert_eq!(read_bits(&bits, 1, 6, true), 0b1011);
    assert_eq!(read_bits(&bits, 7, 6, false), 0b1011);

    let mut out = vec![];
    push_bits(&mut out, u64::MAX, 64, true);
    push_bits(&mut out, 1, 64, false);
    assert_eq!(read_bits_le(&out, 0, 64), u64::MAX);
    assert_eq!(read_bits_be(&out, 64, 64), 1);
    // Only the low bits are written.
    let mut low = vec![];
    push_bits_le(&mut low, 0xff, 4);
    assert_eq!(low, vec![true; 4]);

    let mut bytes = vec![];
    push_bytes_le(&mut bytes, 0x0102_0304, 3);
    assert_eq!(bytes, vec![4, 3, 2]);
    assert_eq!(read_bytes_le(&bytes, 0, 3), 0x02_0304);
    assert_eq!(read_bytes_le(&bytes, 1, 0), 0);
}

#[test]
fn identifiers_are_names_of_letters_digits_and_underscores() {
    let name = id("token_2");
    assert_eq!(name.len, 7);
    assert_eq!(name.to_bytes(), b"token_2".to_vec());
    assert!(name.is_wf());
    assert_eq!(Identifier::from_bytes(&b"token_2".to_vec()), Some(name));
    // The bytes of the name, least significant first, in the field element.
    assert_eq!(name.value, Field { l0: u64::from_le_bytes(*b"token_2\0"), l1: 0, l2: 0, l3: 0 });

    let longest = "a234567890123456789012345678901";
    assert_eq!(longest.len(), 31);
    assert_eq!(id(longest).to_bytes(), longest.as_bytes().to_vec());
    for bad in ["", "2token", "_token", "to-ken", "to ken", "a2345678901234567890123456789012", "tök"] {
        assert_eq!(Identifier::from_str(bad), None, "{bad}");
    }
    assert!(!Identifier { value: Field::from_u64(b'a' as u64), len: 2 }.is_wf());
    assert!(!Identifier { value: Field::from_u64(0x6261), len: 1 }.is_wf());
    assert!(!Identifier { value: Field::from_u64(b'a' as u64), len: 40 }.is_wf());

    assert!(is_letter(b'a') && is_letter(b'Z') && !is_letter(b'1') && !is_letter(b'_'));
    assert!(is_digit(b'0') && is_digit(b'9') && !is_digit(b'a'));
    assert!(is_name_byte(b'_') && is_name_byte(b'x') && is_name_byte(b'5') && !is_name_byte(b'['));
}
