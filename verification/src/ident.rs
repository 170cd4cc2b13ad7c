//! Identifiers: the names of programs, functions, mappings and record
//! entries.

use vstd::prelude::*;
use vstd::string::{StrSliceExecFns, StringSliceAdditionalSpecFns};
use crate::field::{Field, FIELD_BYTES};

verus! {

/// The greatest number of bytes in an identifier.
pub const MAX_IDENTIFIER_LEN: usize = 31;

/// Whether `b` is an ASCII letter.
pub open spec fn spec_is_letter(b: u8) -> bool {
    (0x41 <= b <= 0x5a) || (0x61 <= b <= 0x7a)
}

/// Whether `b` is an ASCII digit.
pub open spec fn spec_is_digit(b: u8) -> bool {
    0x30 <= b <= 0x39
}

/// Whether `b` may stand in an identifier: a letter, a digit or `_`.
pub open spec fn spec_is_name_byte(b: u8) -> bool {
    spec_is_letter(b) || spec_is_digit(b) || b == 0x5f
}

/// Whether `name` is a well-formed identifier: 1 to 31 bytes, a letter
/// first, then letters, digits and underscores.
pub open spec fn valid_name(name: Seq<u8>) -> bool {
    &&& 1 <= name.len() <= MAX_IDENTIFIER_LEN
    &&& spec_is_letter(name[0])
    &&& forall|i: int| 0 <= i < name.len() ==> spec_is_name_byte(#[trigger] name[i])
}

/// `n` zero bytes.
pub open spec fn zero_bytes(n: nat) -> Seq<u8> {
    Seq::new(n, |i: int| 0u8)
}

/// Whether `b` is an ASCII letter.
pub fn is_letter(b: u8) -> (r: bool)
    ensures
        r == spec_is_letter(b),
{
    (0x41 <= b && b <= 0x5a) || (0x61 <= b && b <= 0x7a)
}

/// Whether `b` is an ASCII digit.
pub fn is_digit(b: u8) -> (r: bool)
    ensures
        r == spec_is_digit(b),
{
    0x30 <= b && b <= 0x39
}

/// Whether `b` may stand in an identifier.
pub fn is_name_byte(b: u8) -> (r: bool)
    ensures
        r == spec_is_name_byte(b),
{
    is_letter(b) || is_digit(b) || b == 0x5f
}

/// An identifier: its bytes packed into a field element, least significant
/// byte first, and their number.
#[derive(Clone, Copy, Debug, PartialEq, Eq, Structural, Hash)]
pub struct Identifier {
    pub value: Field,
    pub len: u8,
}

/// The identifier of a program: its name and the network-level domain it
/// is registered under, written `name.domain`.
#[derive(Clone, Copy, Debug, PartialEq, Eq, Structural, Hash)]
pub struct ProgramID {
    pub name: Identifier,
    pub domain: Identifier,
}

impl Identifier {
    /// The bytes of the name.
    pub open spec fn spec_name(self) -> Seq<u8> {
        self.value.spec_bytes_le().take(self.len as int)
    }

    /// The identifier is well formed: its name is valid and the unused
    /// bytes of the field element are zero.
    pub open spec fn wf(self) -> bool {
        &&& 1 <= self.len <= MAX_IDENTIFIER_LEN
        &&& valid_name(self.spec_name())
        &&& self.value.spec_bytes_le() == self.spec_name() + zero_bytes(
            (FIELD_BYTES - self.len) as nat,
        )
    }

    /// The identifier with the given name.
    pub open spec fn spec_from_name(name: Seq<u8>) -> Identifier {
        Identifier {
            value: Field::spec_from_bytes_le(name + zero_bytes((FIELD_BYTES - name.len()) as nat)),
            len: name.len() as u8,
        }
    }

    /// The identifier made from a valid name is well formed and has that name.
    pub proof fn lemma_from_name(name: Seq<u8>)
        requires
            valid_name(name),
        ensures
            Identifier::spec_from_name(name).wf(),
            Identifier::spec_from_name(name).spec_name() == name,
    {
        let padded = name + zero_bytes((FIELD_BYTES - name.len()) as nat);
        Field::lemma_bytes_of_decoded(padded);
        assert(padded.take(name.len() as int) =~= name);
        assert(Identifier::spec_from_name(name).len == name.len());
    }

    /// A well-formed identifier is the one made from its name.
    pub proof fn lemma_name_determines(self)
        requires
            self.wf(),
        ensures
            Identifier::spec_from_name(self.spec_name()) == self,
    {
        self.value.lemma_bytes_round_trip();
        self.value.lemma_bytes_len();
        assert(self.spec_name().len() == self.len);
    }

    /// Makes an identifier from its name. `None` when the name is not a
    /// valid identifier.
    pub fn from_bytes(name: &Vec<u8>) -> (r: Option<Identifier>)
        ensures
            valid_name(name@) ==> r == Some(Identifier::spec_from_name(name@)),
            !valid_name(name@) ==> r is None,
    {
        let n: usize = name.len();
        if n == 0 || n > MAX_IDENTIFIER_LEN {
            return None;
        }
        if !is_letter(name[0]) {
            return None;
        }
        let mut padded: Vec<u8> = Vec::new();
        let mut i: usize = 0;
        while i < n
            invariant
                i <= n,
                n == name@.len(),
                padded@ == name@.take(i as int),
                forall|j: int| 0 <= j < i ==> spec_is_name_byte(#[trigger] name@[j]),
            decreases n - i,
        {
            if !is_name_byte(name[i]) {
                return None;
            }
            padded.push(name[i]);
            assert(padded@ =~= name@.take(i + 1));
            i = i + 1;
        }
        assert(padded@ =~= name@);
        while i < FIELD_BYTES
            invariant
                n <= i <= FIELD_BYTES,
                n == name@.len(),
                padded@ == name@ + zero_bytes((i - n) as nat),
            decreases FIELD_BYTES - i,
        {
            padded.push(0u8);
            assert(padded@ =~= name@ + zero_bytes((i + 1 - n) as nat));
            i = i + 1;
        }
        let value = Field::read_bytes_le(&padded, 0);
        assert(padded@.subrange(0, FIELD_BYTES as int) =~= padded@);
        Some(Identifier { value, len: n as u8 })
    }

    /// Makes an identifier from its name as text.
    pub fn from_str(name: &str) -> (r: Option<Identifier>)
        ensures
            valid_name(name.spec_bytes()) ==> r == Some(
                Identifier::spec_from_name(name.spec_bytes()),
            ),
            !valid_name(name.spec_bytes()) ==> r is None,
    {
        let bytes = name.as_bytes_vec();
        Identifier::from_bytes(&bytes)
    }

    /// Whether the identifier is well formed.
    pub fn is_wf(&self) -> (r: bool)
        ensures
            r == self.wf(),
    {
        if self.len as usize > MAX_IDENTIFIER_LEN {
            return false;
        }
        let name = self.to_bytes();
        match Identifier::from_bytes(&name) {
            Some(id) => {
                proof {
                    Identifier::lemma_from_name(name@);
                    if self.wf() {
                        self.lemma_name_determines();
                    }
                    if id == *self {
                        assert(self.wf());
                    }
                }
                id == *self
            },
            None => false,
        }
    }

    /// Appends the bytes of the name.
    pub fn push_name(&self, out: &mut Vec<u8>)
        requires
            self.len <= FIELD_BYTES,
        ensures
            final(out)@ == old(out)@ + self.spec_name(),
    {
        let mut all: Vec<u8> = Vec::new();
        self.value.push_bytes_le(&mut all);
        proof {
            self.value.lemma_bytes_len();
            assert(all@ =~= self.value.spec_bytes_le());
        }
        let n: usize = self.len as usize;
        let mut i: usize = 0;
        while i < n
            invariant
                i <= n,
                n == self.len,
                n <= FIELD_BYTES,
                all@ == self.value.spec_bytes_le(),
                all@.len() == FIELD_BYTES,
                out@ == old(out)@ + all@.take(i as int),
            decreases n - i,
        {
            out.push(all[i]);
            assert(out@ =~= old(out)@ + all@.take(i + 1));
            i = i + 1;
        }
    }

    /// The bytes of the name.
    pub fn to_bytes(&self) -> (r: Vec<u8>)
        requires
            self.len <= FIELD_BYTES,
        ensures
            r@ == self.spec_name(),
    {
        let mut out: Vec<u8> = Vec::new();
        self.push_name(&mut out);
        assert(out@ =~= self.spec_name());
        out
    }
}

impl ProgramID {
    /// Both parts are well formed.
    pub open spec fn wf(self) -> bool {
        self.name.wf() && self.domain.wf()
    }

    /// Whether both parts are well formed.
    pub fn is_wf(&self) -> (r: bool)
        ensures
            r == self.wf(),
    {
        self.name.is_wf() && self.domain.is_wf()
    }
}

} // verus!
