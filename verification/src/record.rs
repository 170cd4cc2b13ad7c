//! Records and the values they hold.

use indexmap::IndexMap;
use vstd::prelude::*;
use crate::field::{Field, Group};
use crate::ident::Identifier;

verus! {

/// The map type of the `indexmap` crate, which keeps its entries in the
/// order in which their keys were first inserted.
#[verifier::external_type_specification]
#[verifier::external_body]
#[verifier::reject_recursive_types(K)]
#[verifier::reject_recursive_types(V)]
#[verifier::reject_recursive_types(S)]
pub struct ExIndexMap<K, V, S>(IndexMap<K, V, S>);

/// A value of a primitive type.
#[derive(Clone, Copy, Debug, PartialEq, Eq, Structural)]
pub enum Literal {
    Address(Group),
    Boolean(bool),
    Field(Field),
    Group(Group),
    U8(u8),
    U16(u16),
    U32(u32),
    U64(u64),
}

/// A value in the clear: a literal, or a struct of named members in the
/// order they were declared.
#[derive(Debug, PartialEq, Eq)]
pub enum Plaintext {
    Literal(Literal),
    Struct(Vec<(Identifier, Plaintext)>),
}

/// An encrypted value: the field elements of its ciphertext.
#[derive(Debug, PartialEq, Eq)]
pub struct Ciphertext {
    pub elements: Vec<Field>,
}

/// The owner of a record: an address in the clear, either public or
/// private, or the ciphertext of a private one.
#[derive(Debug, PartialEq, Eq)]
pub enum Owner {
    Public(Group),
    Private(Group),
    Encrypted(Ciphertext),
}

/// One named entry of a record, with its visibility. A private entry is
/// held in the clear or as its ciphertext.
#[derive(Debug, PartialEq, Eq)]
pub enum Entry {
    Constant(Plaintext),
    Public(Plaintext),
    Private(Plaintext),
    Encrypted(Ciphertext),
}

/// A record: an owner, named entries in the order they were inserted, and
/// the nonce that binds the record to the transition that produced it.
#[derive(Debug, PartialEq, Eq)]
pub struct Record {
    pub owner: Owner,
    pub data: IndexMap<Identifier, Entry>,
    pub nonce: Group,
}

/// An input or output of a function.
#[derive(Debug, PartialEq, Eq)]
pub enum Value {
    Plaintext(Plaintext),
    Record(Record),
}

/// A plaintext as a mathematical value.
pub enum PlaintextView {
    Literal(Literal),
    Struct(Seq<(Identifier, PlaintextView)>),
}

/// An owner as a mathematical value.
pub enum OwnerView {
    Public(Group),
    Private(Group),
    Encrypted(Seq<Field>),
}

/// An entry as a mathematical value.
pub enum EntryView {
    Constant(PlaintextView),
    Public(PlaintextView),
    Private(PlaintextView),
    Encrypted(Seq<Field>),
}

/// A record as a mathematical value.
pub struct RecordView {
    pub owner: OwnerView,
    pub data: Seq<(Identifier, EntryView)>,
    pub nonce: Group,
}

/// The entries of a map, in the order in which it yields them.
pub uninterp spec fn entries_of(map: IndexMap<Identifier, Entry>) -> Seq<(Identifier, Entry)>;

/// The first `n` members of a struct as mathematical values.
pub open spec fn members_view(members: Seq<(Identifier, Plaintext)>, n: nat) -> Seq<
    (Identifier, PlaintextView),
>
    decreases members, n,
{
    if n == 0 || n > members.len() {
        Seq::empty()
    } else {
        members_view(members, (n - 1) as nat).push((members[n - 1].0, members[n - 1].1.view()))
    }
}

/// The first `n` members are as many, and each is the view of the member
/// at its place.
pub proof fn lemma_members_view(members: Seq<(Identifier, Plaintext)>, n: nat)
    requires
        n <= members.len(),
    ensures
        members_view(members, n).len() == n,
        forall|i: int|
            0 <= i < n ==> #[trigger] members_view(members, n)[i] == (
                members[i].0,
                members[i].1.view(),
            ),
    decreases n,
{
    if n > 0 {
        lemma_members_view(members, (n - 1) as nat);
    }
}

/// The entries of a record as mathematical values.
pub open spec fn data_view(entries: Seq<(Identifier, Entry)>) -> Seq<(Identifier, EntryView)> {
    Seq::new(entries.len(), |i: int| (entries[i].0, entries[i].1@))
}

impl Plaintext {
    /// The plaintext as a mathematical value.
    pub open spec fn view(&self) -> PlaintextView
        decreases self,
    {
        match self {
            Plaintext::Literal(literal) => PlaintextView::Literal(*literal),
            Plaintext::Struct(members) => PlaintextView::Struct(
                members_view(members@, members@.len()),
            ),
        }
    }
}

impl From<Literal> for Plaintext {
    /// Returns a new `Plaintext` from a `Literal`.
    fn from(literal: Literal) -> (r: Plaintext) {
        Plaintext::Literal(literal)
    }
}

impl vstd::std_specs::convert::FromSpecImpl<Literal> for Plaintext {
    open spec fn obeys_from_spec() -> bool {
        true
    }

    open spec fn from_spec(literal: Literal) -> Plaintext {
        Plaintext::Literal(literal)
    }
}

impl View for Ciphertext {
    type V = Seq<Field>;

    open spec fn view(&self) -> Seq<Field> {
        self.elements@
    }
}

impl View for Owner {
    type V = OwnerView;

    open spec fn view(&self) -> OwnerView {
        match self {
            Owner::Public(address) => OwnerView::Public(*address),
            Owner::Private(address) => OwnerView::Private(*address),
            Owner::Encrypted(ciphertext) => OwnerView::Encrypted(ciphertext@),
        }
    }
}

impl View for Entry {
    type V = EntryView;

    open spec fn view(&self) -> EntryView {
        match self {
            Entry::Constant(plaintext) => EntryView::Constant(plaintext.view()),
            Entry::Public(plaintext) => EntryView::Public(plaintext.view()),
            Entry::Private(plaintext) => EntryView::Private(plaintext.view()),
            Entry::Encrypted(ciphertext) => EntryView::Encrypted(ciphertext@),
        }
    }
}

impl View for Record {
    type V = RecordView;

    open spec fn view(&self) -> RecordView {
        RecordView { owner: self.owner@, data: data_view(entries_of(self.data)), nonce: self.nonce }
    }
}

/// The position of the first of the first `n` entries under the key, if
/// there is one.
pub open spec fn spec_entry_position<V>(
    entries: Seq<(Identifier, V)>,
    key: Identifier,
    n: nat,
) -> Option<int>
    decreases n,
{
    if n == 0 {
        None
    } else {
        match spec_entry_position(entries, key, (n - 1) as nat) {
            Some(i) => Some(i),
            None => if entries[n - 1].0 == key {
                Some(n - 1)
            } else {
                None
            },
        }
    }
}

/// `IndexMap::new`: a map without entries.
#[verifier::external_body]
pub(crate) fn data_new() -> (r: IndexMap<Identifier, Entry>)
    ensures
        entries_of(r) == Seq::<(Identifier, Entry)>::empty(),
{
    IndexMap::new()
}

/// `IndexMap::len`: the number of entries.
#[verifier::external_body]
pub(crate) fn data_len(map: &IndexMap<Identifier, Entry>) -> (r: usize)
    ensures
        r == entries_of(*map).len(),
{
    map.len()
}

/// `IndexMap::get_index`: the entry at a position, which is there exactly
/// when the position is below the number of entries.
#[verifier::external_body]
pub(crate) fn data_get_index(map: &IndexMap<Identifier, Entry>, index: usize) -> (r: Option<
    (&Identifier, &Entry),
>)
    ensures
        index < entries_of(*map).len() ==> r is Some && *r->Some_0.0 == entries_of(
            *map,
        )[index as int].0 && *r->Some_0.1 == entries_of(*map)[index as int].1,
        index >= entries_of(*map).len() ==> r is None,
{
    map.get_index(index)
}

/// `IndexMap::insert`: where the map has an entry under the key, the entry
/// keeps its place, gets the new value, and the old value is returned;
/// where it has none, the entry is added last and nothing is returned.
/// Keys are told apart by the derived `==` of `Identifier`, which compares
/// the field element and the length.
#[verifier::external_body]
pub(crate) fn data_insert(map: &mut IndexMap<Identifier, Entry>, key: Identifier, value: Entry) -> (r:
    Option<Entry>)
    ensures
        match spec_entry_position(entries_of(*old(map)), key, entries_of(*old(map)).len()) {
            Some(i) => r == Some(entries_of(*old(map))[i].1) && entries_of(*final(map))
                == entries_of(*old(map)).update(i, (key, value)),
            None => r is None && entries_of(*final(map)) == entries_of(*old(map)).push(
                (key, value),
            ),
        },
{
    map.insert(key, value)
}

impl Record {
    /// A record without entries.
    pub fn new(owner: Owner, nonce: Group) -> (r: Record)
        ensures
            r@ == (RecordView { owner: owner@, data: Seq::empty(), nonce }),
    {
        let r = Record { owner, data: data_new(), nonce };
        assert(r@.data =~= Seq::empty());
        r
    }

    /// The number of entries.
    pub fn len(&self) -> (r: usize)
        ensures
            r == self@.data.len(),
    {
        data_len(&self.data)
    }

    /// Puts an entry under a name: in place of the entry of that name, or
    /// else behind the other entries. Returns the entry that was replaced.
    pub fn insert(&mut self, name: Identifier, entry: Entry) -> (r: Option<Entry>)
        ensures
            final(self)@.owner == old(self)@.owner,
            final(self)@.nonce == old(self)@.nonce,
            match spec_entry_position(old(self)@.data, name, old(self)@.data.len()) {
                Some(i) => r is Some && r->Some_0@ == old(self)@.data[i].1 && final(self)@.data
                    == old(self)@.data.update(i, (name, entry@)),
                None => r is None && final(self)@.data == old(self)@.data.push((name, entry@)),
            },
    {
        proof {
            lemma_position_of_views(entries_of(self.data), name, entries_of(self.data).len());
        }
        let ghost before = entries_of(self.data);
        let r = data_insert(&mut self.data, name, entry);
        proof {
            match spec_entry_position(before, name, before.len()) {
                Some(i) => {
                    lemma_entry_position(before, name, before.len());
                    assert(self@.data =~= old(self)@.data.update(i, (name, entry@)));
                },
                None => {
                    assert(self@.data =~= old(self)@.data.push((name, entry@)));
                },
            }
        }
        r
    }
}

/// The position of a key among entries is its position among their views.
pub proof fn lemma_position_of_views(entries: Seq<(Identifier, Entry)>, key: Identifier, n: nat)
    requires
        n <= entries.len(),
    ensures
        spec_entry_position(data_view(entries), key, n) == spec_entry_position(entries, key, n),
    decreases n,
{
    if n > 0 {
        lemma_position_of_views(entries, key, (n - 1) as nat);
    }
}

/// What `spec_entry_position` finds is the first entry under the key.
pub proof fn lemma_entry_position<V>(entries: Seq<(Identifier, V)>, key: Identifier, n: nat)
    requires
        n <= entries.len(),
    ensures
        match spec_entry_position(entries, key, n) {
            Some(i) => 0 <= i < n && entries[i].0 == key && forall|j: int|
                0 <= j < i ==> (#[trigger] entries[j]).0 != key,
            None => forall|j: int| 0 <= j < n ==> (#[trigger] entries[j]).0 != key,
        },
    decreases n,
{
    if n > 0 {
        lemma_entry_position(entries, key, (n - 1) as nat);
    }
}

} // verus!
