//! The bit-level encoding of records:
//! `owner || u32(bit length of data) || data || nonce`.
//!
//! Every part is written so that it says where it ends. The encoding comes
//! in two bit orders, selected by `le`: least significant bit first, or
//! most significant bit first. The length of the data is written least
//! significant bit first in both.

use vstd::prelude::*;
use crate::bits::{bits_le, push_bits, push_bits_le, spec_bits};
use crate::field::Field;
use crate::ident::Identifier;
use crate::record::{
    data_get_index, data_len, entries_of, lemma_members_view, members_view, Ciphertext, Entry,
    EntryView, Literal, Owner, OwnerView, Plaintext, PlaintextView, Record, RecordView,
};

verus! {

/// The bits of the bytes of a name from position `i` on, eight per byte.
pub open spec fn name_bits(name: Seq<u8>, i: nat, le: bool) -> Seq<bool>
    decreases name.len() - i,
{
    if i >= name.len() {
        Seq::empty()
    } else {
        spec_bits(name[i as int] as nat, 8, le) + name_bits(name, i + 1, le)
    }
}

/// An identifier: the length of its name in eight bits, then the name.
pub open spec fn identifier_bits(id: Identifier, le: bool) -> Seq<bool> {
    spec_bits(id.len as nat, 8, le) + name_bits(id.spec_name(), 0, le)
}

/// The number that tags the type of a literal.
pub open spec fn literal_tag(literal: Literal) -> nat {
    match literal {
        Literal::Address(_) => 0,
        Literal::Boolean(_) => 1,
        Literal::Field(_) => 2,
        Literal::Group(_) => 3,
        Literal::U8(_) => 4,
        Literal::U16(_) => 5,
        Literal::U32(_) => 6,
        Literal::U64(_) => 7,
    }
}

/// A literal: the tag of its type in eight bits, then its value.
pub open spec fn literal_bits(literal: Literal, le: bool) -> Seq<bool> {
    spec_bits(literal_tag(literal), 8, le) + match literal {
        Literal::Address(address) => address.x.spec_bits(le),
        Literal::Boolean(b) => seq![b],
        Literal::Field(x) => x.spec_bits(le),
        Literal::Group(g) => g.x.spec_bits(le),
        Literal::U8(x) => spec_bits(x as nat, 8, le),
        Literal::U16(x) => spec_bits(x as nat, 16, le),
        Literal::U32(x) => spec_bits(x as nat, 32, le),
        Literal::U64(x) => spec_bits(x as nat, 64, le),
    }
}

/// A plaintext: one bit that tells a literal from a struct; then the
/// literal, or the number of members in eight bits and the members.
pub open spec fn plaintext_bits(plaintext: PlaintextView, le: bool) -> Seq<bool>
    decreases plaintext, 0nat,
{
    match plaintext {
        PlaintextView::Literal(literal) => seq![false] + literal_bits(literal, le),
        PlaintextView::Struct(members) => seq![true] + spec_bits(members.len(), 8, le)
            + members_bits(members, 0, le),
    }
}

/// The members of a struct from position `i` on: for each its name and
/// its value.
pub open spec fn members_bits(members: Seq<(Identifier, PlaintextView)>, i: nat, le: bool) -> Seq<
    bool,
>
    decreases members, members.len() - i,
{
    if i >= members.len() {
        Seq::empty()
    } else {
        identifier_bits(members[i as int].0, le) + plaintext_bits(members[i as int].1, le)
            + members_bits(members, i + 1, le)
    }
}

/// Field elements from position `i` on.
pub open spec fn fields_bits(elements: Seq<Field>, i: nat, le: bool) -> Seq<bool>
    decreases elements.len() - i,
{
    if i >= elements.len() {
        Seq::empty()
    } else {
        elements[i as int].spec_bits(le) + fields_bits(elements, i + 1, le)
    }
}

/// A ciphertext: the number of its field elements in sixteen bits, then
/// the elements.
pub open spec fn ciphertext_bits(elements: Seq<Field>, le: bool) -> Seq<bool> {
    spec_bits(elements.len(), 16, le) + fields_bits(elements, 0, le)
}

/// An owner: two bits for the variant, then the address or the ciphertext.
pub open spec fn owner_bits(owner: OwnerView, le: bool) -> Seq<bool> {
    match owner {
        OwnerView::Public(address) => spec_bits(0, 2, le) + address.x.spec_bits(le),
        OwnerView::Private(address) => spec_bits(1, 2, le) + address.x.spec_bits(le),
        OwnerView::Encrypted(elements) => spec_bits(2, 2, le) + ciphertext_bits(elements, le),
    }
}

/// An entry: two bits for the visibility, then the plaintext or the
/// ciphertext.
pub open spec fn entry_bits(entry: EntryView, le: bool) -> Seq<bool> {
    match entry {
        EntryView::Constant(plaintext) => spec_bits(0, 2, le) + plaintext_bits(plaintext, le),
        EntryView::Public(plaintext) => spec_bits(1, 2, le) + plaintext_bits(plaintext, le),
        EntryView::Private(plaintext) => spec_bits(2, 2, le) + plaintext_bits(plaintext, le),
        EntryView::Encrypted(elements) => spec_bits(3, 2, le) + ciphertext_bits(elements, le),
    }
}

/// The entries of a record from position `i` on: for each its name and
/// the entry.
pub open spec fn data_bits(data: Seq<(Identifier, EntryView)>, i: nat, le: bool) -> Seq<bool>
    decreases data.len() - i,
{
    if i >= data.len() {
        Seq::empty()
    } else {
        identifier_bits(data[i as int].0, le) + entry_bits(data[i as int].1, le) + data_bits(
            data,
            i + 1,
            le,
        )
    }
}

/// A record: the owner, the number of bits of the data in 32 bits, least
/// significant first, the data, and the nonce.
pub open spec fn record_bits(record: RecordView, le: bool) -> Seq<bool> {
    owner_bits(record.owner, le) + bits_le(data_bits(record.data, 0, le).len(), 32) + data_bits(
        record.data,
        0,
        le,
    ) + record.nonce.x.spec_bits(le)
}

/// Appends the encoding of an identifier.
pub fn push_identifier(out: &mut Vec<bool>, id: &Identifier, le: bool)
    requires
        id.len <= 32,
    ensures
        final(out)@ == old(out)@ + identifier_bits(*id, le),
{
    push_bits(out, id.len as u64, 8, le);
    let name = id.to_bytes();
    proof {
        id.value.lemma_bytes_len();
    }
    let n: usize = name.len();
    let ghost start = out@;
    let mut i: usize = 0;
    assert(start + name_bits(name@, 0, le) =~= old(out)@ + identifier_bits(*id, le));
    while i < n
        invariant
            i <= n,
            n == name@.len(),
            out@ + name_bits(name@, i as nat, le) == start + name_bits(name@, 0, le),
        decreases n - i,
    {
        let ghost before = out@;
        push_bits(out, name[i] as u64, 8, le);
        assert(out@ + name_bits(name@, (i + 1) as nat, le) =~= before + name_bits(
            name@,
            i as nat,
            le,
        ));
        i = i + 1;
    }
    assert(out@ + name_bits(name@, n as nat, le) =~= out@);
}

/// Appends the encoding of a literal.
pub fn push_literal(out: &mut Vec<bool>, literal: &Literal, le: bool)
    ensures
        final(out)@ == old(out)@ + literal_bits(*literal, le),
{
    match literal {
        Literal::Address(address) => {
            push_bits(out, 0, 8, le);
            address.x.push_bits(out, le);
        },
        Literal::Boolean(b) => {
            push_bits(out, 1, 8, le);
            out.push(*b);
        },
        Literal::Field(x) => {
            push_bits(out, 2, 8, le);
            x.push_bits(out, le);
        },
        Literal::Group(g) => {
            push_bits(out, 3, 8, le);
            g.x.push_bits(out, le);
        },
        Literal::U8(x) => {
            push_bits(out, 4, 8, le);
            push_bits(out, *x as u64, 8, le);
        },
        Literal::U16(x) => {
            push_bits(out, 5, 8, le);
            push_bits(out, *x as u64, 16, le);
        },
        Literal::U32(x) => {
            push_bits(out, 6, 8, le);
            push_bits(out, *x as u64, 32, le);
        },
        Literal::U64(x) => {
            push_bits(out, 7, 8, le);
            push_bits(out, *x, 64, le);
        },
    }
    assert(out@ =~= old(out)@ + literal_bits(*literal, le));
}

/// The members of a struct are at most 255 and have well-formed names, at
/// every depth.
pub open spec fn plaintext_fits(plaintext: PlaintextView) -> bool
    decreases plaintext, 0nat,
{
    match plaintext {
        PlaintextView::Literal(_) => true,
        PlaintextView::Struct(members) => members.len() <= 255 && members_fit(members, 0),
    }
}

/// The members from position `i` on fit.
pub open spec fn members_fit(members: Seq<(Identifier, PlaintextView)>, i: nat) -> bool
    decreases members, members.len() - i,
{
    if i >= members.len() {
        true
    } else {
        members[i as int].0.wf() && plaintext_fits(members[i as int].1) && members_fit(
            members,
            i + 1,
        )
    }
}

/// Appends the encoding of a plaintext.
pub fn push_plaintext(out: &mut Vec<bool>, plaintext: &Plaintext, le: bool)
    requires
        plaintext_fits(plaintext.view()),
    ensures
        final(out)@ == old(out)@ + plaintext_bits(plaintext.view(), le),
    decreases *plaintext,
{
    match plaintext {
        Plaintext::Literal(literal) => {
            out.push(false);
            push_literal(out, literal, le);
            assert(out@ =~= old(out)@ + plaintext_bits(plaintext.view(), le));
        },
        Plaintext::Struct(members) => {
            let n: usize = members.len();
            let ghost views = members_view(members@, members@.len());
            proof {
                lemma_members_view(members@, members@.len());
            }
            out.push(true);
            push_bits(out, n as u64, 8, le);
            let ghost start = out@;
            assert(start + members_bits(views, 0, le) =~= old(out)@ + plaintext_bits(
                plaintext.view(),
                le,
            ));
            let mut i: usize = 0;
            while i < n
                invariant
                    i <= n,
                    n == members@.len(),
                    views == members_view(members@, members@.len()),
                    views.len() == n,
                    forall|j: int|
                        0 <= j < n ==> #[trigger] views[j] == (members@[j].0, members@[j].1.view()),
                    members_fit(views, i as nat),
                    decreases_to!(*plaintext => *members),
                    out@ + members_bits(views, i as nat, le) == start + members_bits(views, 0, le),
                decreases n - i,
            {
                let ghost before = out@;
                proof {
                    assert(decreases_to!(*members => members[i as int]));
                    assert(decreases_to!(members[i as int] => members[i as int].1));
                    assert(views[i as int] == (members@[i as int].0, members@[i as int].1.view()));
                }
                push_identifier(out, &members[i].0, le);
                push_plaintext(out, &members[i].1, le);
                assert(out@ + members_bits(views, (i + 1) as nat, le) =~= before + members_bits(
                    views,
                    i as nat,
                    le,
                ));
                i = i + 1;
            }
            assert(out@ + members_bits(views, n as nat, le) =~= out@);
        },
    }
}

/// Appends the encoding of a ciphertext.
pub fn push_ciphertext(out: &mut Vec<bool>, ciphertext: &Ciphertext, le: bool)
    requires
        ciphertext@.len() <= 65535,
    ensures
        final(out)@ == old(out)@ + ciphertext_bits(ciphertext@, le),
{
    let n: usize = ciphertext.elements.len();
    push_bits(out, n as u64, 16, le);
    let ghost start = out@;
    let ghost elements = ciphertext@;
    assert(start + fields_bits(elements, 0, le) =~= old(out)@ + ciphertext_bits(elements, le));
    let mut i: usize = 0;
    while i < n
        invariant
            i <= n,
            n == ciphertext.elements@.len(),
            elements == ciphertext@,
            out@ + fields_bits(elements, i as nat, le) == start + fields_bits(elements, 0, le),
        decreases n - i,
    {
        let ghost before = out@;
        ciphertext.elements[i].push_bits(out, le);
        assert(out@ + fields_bits(elements, (i + 1) as nat, le) =~= before + fields_bits(
            elements,
            i as nat,
            le,
        ));
        i = i + 1;
    }
    assert(out@ + fields_bits(elements, n as nat, le) =~= out@);
}

/// The ciphertext of an encrypted owner has at most 65535 elements.
pub open spec fn owner_fits(owner: OwnerView) -> bool {
    match owner {
        OwnerView::Encrypted(elements) => elements.len() <= 65535,
        _ => true,
    }
}

/// The plaintext or ciphertext of an entry fits.
pub open spec fn entry_fits(entry: EntryView) -> bool {
    match entry {
        EntryView::Constant(plaintext) => plaintext_fits(plaintext),
        EntryView::Public(plaintext) => plaintext_fits(plaintext),
        EntryView::Private(plaintext) => plaintext_fits(plaintext),
        EntryView::Encrypted(elements) => elements.len() <= 65535,
    }
}

/// The entries from position `i` on fit, and so do their names.
pub open spec fn data_fits(data: Seq<(Identifier, EntryView)>, i: nat) -> bool
    decreases data.len() - i,
{
    if i >= data.len() {
        true
    } else {
        data[i as int].0.wf() && entry_fits(data[i as int].1) && data_fits(data, i + 1)
    }
}

/// Every part of the record fits the width of the count that is written
/// before it, and so does the data as a whole.
pub open spec fn record_fits(record: RecordView, le: bool) -> bool {
    &&& owner_fits(record.owner)
    &&& data_fits(record.data, 0)
    &&& data_bits(record.data, 0, le).len() <= u32::MAX
}

/// Whether the plaintext fits.
pub fn check_plaintext(plaintext: &Plaintext) -> (r: bool)
    ensures
        r == plaintext_fits(plaintext.view()),
    decreases *plaintext,
{
    match plaintext {
        Plaintext::Literal(_) => true,
        Plaintext::Struct(members) => {
            let n: usize = members.len();
            let ghost views = members_view(members@, members@.len());
            proof {
                lemma_members_view(members@, members@.len());
            }
            if n > 255 {
                return false;
            }
            let mut i: usize = 0;
            while i < n
                invariant
                    i <= n,
                    n == members@.len(),
                    views == members_view(members@, members@.len()),
                    views.len() == n,
                    forall|j: int|
                        0 <= j < n ==> #[trigger] views[j] == (members@[j].0, members@[j].1.view()),
                    members_fit(views, 0) == members_fit(views, i as nat),
                    plaintext.view() == PlaintextView::Struct(views),
                    decreases_to!(*plaintext => *members),
                decreases n - i,
            {
                proof {
                    assert(decreases_to!(*members => members[i as int]));
                    assert(decreases_to!(members[i as int] => members[i as int].1));
                    assert(views[i as int] == (members@[i as int].0, members@[i as int].1.view()));
                }
                if !members[i].0.is_wf() || !check_plaintext(&members[i].1) {
                    return false;
                }
                i = i + 1;
            }
            true
        },
    }
}

/// Whether the owner fits.
pub fn check_owner(owner: &Owner) -> (r: bool)
    ensures
        r == owner_fits(owner@),
{
    match owner {
        Owner::Encrypted(ciphertext) => ciphertext.elements.len() <= 65535,
        _ => true,
    }
}

/// Whether the entry fits.
pub fn check_entry(entry: &Entry) -> (r: bool)
    ensures
        r == entry_fits(entry@),
{
    match entry {
        Entry::Constant(plaintext) => check_plaintext(plaintext),
        Entry::Public(plaintext) => check_plaintext(plaintext),
        Entry::Private(plaintext) => check_plaintext(plaintext),
        Entry::Encrypted(ciphertext) => ciphertext.elements.len() <= 65535,
    }
}

/// Appends the encoding of an owner.
pub fn push_owner(out: &mut Vec<bool>, owner: &Owner, le: bool)
    requires
        owner_fits(owner@),
    ensures
        final(out)@ == old(out)@ + owner_bits(owner@, le),
{
    match owner {
        Owner::Public(address) => {
            push_bits(out, 0, 2, le);
            address.x.push_bits(out, le);
        },
        Owner::Private(address) => {
            push_bits(out, 1, 2, le);
            address.x.push_bits(out, le);
        },
        Owner::Encrypted(ciphertext) => {
            push_bits(out, 2, 2, le);
            push_ciphertext(out, ciphertext, le);
        },
    }
    assert(out@ =~= old(out)@ + owner_bits(owner@, le));
}

/// Appends the encoding of an entry.
pub fn push_entry(out: &mut Vec<bool>, entry: &Entry, le: bool)
    requires
        entry_fits(entry@),
    ensures
        final(out)@ == old(out)@ + entry_bits(entry@, le),
{
    match entry {
        Entry::Constant(plaintext) => {
            push_bits(out, 0, 2, le);
            push_plaintext(out, plaintext, le);
        },
        Entry::Public(plaintext) => {
            push_bits(out, 1, 2, le);
            push_plaintext(out, plaintext, le);
        },
        Entry::Private(plaintext) => {
            push_bits(out, 2, 2, le);
            push_plaintext(out, plaintext, le);
        },
        Entry::Encrypted(ciphertext) => {
            push_bits(out, 3, 2, le);
            push_ciphertext(out, ciphertext, le);
        },
    }
    assert(out@ =~= old(out)@ + entry_bits(entry@, le));
}

impl Record {
    /// Whether the owner and every entry fit.
    pub fn check_parts(&self) -> (r: bool)
        ensures
            r == (owner_fits(self@.owner) && data_fits(self@.data, 0)),
    {
        if !check_owner(&self.owner) {
            return false;
        }
        let n: usize = data_len(&self.data);
        let ghost data = self@.data;
        let mut i: usize = 0;
        while i < n
            invariant
                i <= n,
                n == entries_of(self.data).len(),
                data == self@.data,
                data_fits(data, 0) == data_fits(data, i as nat),
            decreases n - i,
        {
            match data_get_index(&self.data, i) {
                Some((identifier, entry)) => {
                    assert(data[i as int] == (*identifier, entry@));
                    if !identifier.is_wf() || !check_entry(entry) {
                        return false;
                    }
                },
                None => {},
            }
            i = i + 1;
        }
        true
    }

    /// The encoding of the record in the bit order that `le` selects.
    /// `None` when a part of the record does not fit the width of the
    /// count that is written before it.
    pub fn to_bits(&self, le: bool) -> (r: Option<Vec<bool>>)
        ensures
            match r {
                Some(bits) => record_fits(self@, le) && bits@ == record_bits(self@, le),
                None => !record_fits(self@, le),
            },
    {
        if !self.check_parts() {
            return None;
        }
        // Compute the data bits.
        let n: usize = data_len(&self.data);
        let ghost data = self@.data;
        let mut data_bits_out: Vec<bool> = Vec::new();
        let mut i: usize = 0;
        assert(data_bits_out@ + data_bits(data, 0, le) =~= data_bits(data, 0, le));
        while i < n
            invariant
                i <= n,
                n == entries_of(self.data).len(),
                data == self@.data,
                data_fits(data, i as nat),
                data_bits_out@ + data_bits(data, i as nat, le) == data_bits(data, 0, le),
            decreases n - i,
        {
            let ghost before = data_bits_out@;
            match data_get_index(&self.data, i) {
                Some((identifier, entry)) => {
                    assert(data[i as int] == (*identifier, entry@));
                    push_identifier(&mut data_bits_out, identifier, le);
                    push_entry(&mut data_bits_out, entry, le);
                },
                None => {},
            }
            assert(data_bits_out@ + data_bits(data, (i + 1) as nat, le) =~= before + data_bits(
                data,
                i as nat,
                le,
            ));
            i = i + 1;
        }
        assert(data_bits_out@ + data_bits(data, n as nat, le) =~= data_bits_out@);
        if data_bits_out.len() > 0xffff_ffff {
            return None;
        }
        // Construct the record bits.
        let mut bits: Vec<bool> = Vec::new();
        push_owner(&mut bits, &self.owner, le);
        push_bits_le(&mut bits, data_bits_out.len() as u64, 32);
        let m: usize = data_bits_out.len();
        let ghost start = bits@;
        let mut j: usize = 0;
        while j < m
            invariant
                j <= m,
                m == data_bits_out@.len(),
                bits@ == start + data_bits_out@.take(j as int),
            decreases m - j,
        {
            bits.push(data_bits_out[j]);
            assert(bits@ =~= start + data_bits_out@.take(j + 1));
            j = j + 1;
        }
        assert(data_bits_out@.take(m as int) =~= data_bits_out@);
        self.nonce.x.push_bits(&mut bits, le);
        assert(bits@ =~= record_bits(self@, le));
        Some(bits)
    }

    /// Returns this record as a list of **little-endian** bits. `None`
    /// when a part of the record does not fit the width of its count.
    pub fn to_bits_le(&self) -> (r: Option<Vec<bool>>)
        ensures
            match r {
                Some(bits) => record_fits(self@, true) && bits@ == record_bits(self@, true),
                None => !record_fits(self@, true),
            },
    {
        self.to_bits(true)
    }

    /// Returns this record as a list of **big-endian** bits. `None` when
    /// a part of the record does not fit the width of its count.
    pub fn to_bits_be(&self) -> (r: Option<Vec<bool>>)
        ensures
            match r {
                Some(bits) => record_fits(self@, false) && bits@ == record_bits(self@, false),
                None => !record_fits(self@, false),
            },
    {
        self.to_bits(false)
    }
}

} // verus!
