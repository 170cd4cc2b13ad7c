//! Programs and the signatures of their functions.

use vstd::prelude::*;
use crate::ident::{Identifier, ProgramID};

verus! {

/// The declared type of an input or output of a function.
#[derive(Clone, Copy, Debug, PartialEq, Eq, Structural)]
pub enum ValueType {
    /// A constant of the named plaintext type.
    Constant(Identifier),
    /// A public value of the named plaintext type.
    Public(Identifier),
    /// A private value of the named plaintext type.
    Private(Identifier),
    /// A record of the named record type.
    Record(Identifier),
    /// A record of a record type of another program.
    ExternalRecord(ProgramID, Identifier),
}

/// A function of a program: its name and the types of its inputs and
/// outputs, in order.
#[derive(Debug, PartialEq, Eq)]
pub struct Function {
    pub name: Identifier,
    pub input_types: Vec<ValueType>,
    pub output_types: Vec<ValueType>,
}

/// A program: its ID and its functions, in the order they were declared.
#[derive(Debug, PartialEq, Eq)]
pub struct Program {
    pub id: ProgramID,
    pub functions: Vec<Function>,
}

/// A function as a mathematical value.
pub struct FunctionView {
    pub name: Identifier,
    pub input_types: Seq<ValueType>,
    pub output_types: Seq<ValueType>,
}

/// A program as a mathematical value.
pub struct ProgramView {
    pub id: ProgramID,
    pub functions: Seq<FunctionView>,
}

impl View for Function {
    type V = FunctionView;

    open spec fn view(&self) -> FunctionView {
        FunctionView {
            name: self.name,
            input_types: self.input_types@,
            output_types: self.output_types@,
        }
    }
}

impl View for Program {
    type V = ProgramView;

    open spec fn view(&self) -> ProgramView {
        ProgramView {
            id: self.id,
            functions: Seq::new(self.functions@.len(), |i: int| self.functions@[i]@),
        }
    }
}

impl ProgramView {
    /// Whether the program has a function of the given name.
    pub open spec fn contains_function(self, name: Identifier) -> bool {
        self.position(name, self.functions.len()) is Some
    }

    /// The position of the first function of the given name among the first
    /// `n`, if there is one.
    pub open spec fn position(self, name: Identifier, n: nat) -> Option<int>
        decreases n,
    {
        if n == 0 {
            None
        } else {
            match self.position(name, (n - 1) as nat) {
                Some(i) => Some(i),
                None => if self.functions[n - 1].name == name {
                    Some(n - 1)
                } else {
                    None
                },
            }
        }
    }

    /// No two functions have the same name.
    pub open spec fn names_distinct(self) -> bool {
        forall|i: int, j: int|
            0 <= i < j < self.functions.len() ==> (#[trigger] self.functions[i]).name != (
            #[trigger] self.functions[j]).name
    }

    /// What `position` finds is the first function of that name.
    pub proof fn lemma_position(self, name: Identifier, n: nat)
        requires
            n <= self.functions.len(),
        ensures
            match self.position(name, n) {
                Some(i) => 0 <= i < n && self.functions[i].name == name && forall|j: int|
                    0 <= j < i ==> (#[trigger] self.functions[j]).name != name,
                None => forall|j: int| 0 <= j < n ==> (#[trigger] self.functions[j]).name != name,
            },
        decreases n,
    {
        if n > 0 {
            self.lemma_position(name, (n - 1) as nat);
        }
    }

    /// Once a function is found, looking further finds the same one.
    pub proof fn lemma_position_stays(self, name: Identifier, n: nat, m: nat)
        requires
            n <= m,
            self.position(name, n) is Some,
        ensures
            self.position(name, m) == self.position(name, n),
        decreases m,
    {
        if n < m {
            self.lemma_position_stays(name, n, (m - 1) as nat);
        }
    }
}

/// Copies a list of value types.
pub fn duplicate_types(types: &Vec<ValueType>) -> (r: Vec<ValueType>)
    ensures
        r@ == types@,
{
    let n: usize = types.len();
    let mut out: Vec<ValueType> = Vec::new();
    let mut i: usize = 0;
    while i < n
        invariant
            i <= n,
            n == types@.len(),
            out@ == types@.take(i as int),
        decreases n - i,
    {
        out.push(types[i]);
        assert(out@ =~= types@.take(i + 1));
        i = i + 1;
    }
    assert(out@ =~= types@);
    out
}

impl Function {
    /// A function from its parts.
    pub fn new(name: Identifier, input_types: Vec<ValueType>, output_types: Vec<ValueType>) -> (r:
        Function)
        ensures
            r == (Function { name, input_types, output_types }),
    {
        Function { name, input_types, output_types }
    }

    /// The name of the function.
    pub fn name(&self) -> (r: &Identifier)
        ensures
            *r == self@.name,
    {
        &self.name
    }

    /// The types of the inputs, in order.
    pub fn input_types(&self) -> (r: &Vec<ValueType>)
        ensures
            r@ == self@.input_types,
    {
        &self.input_types
    }

    /// A copy of the function.
    pub fn duplicate(&self) -> (r: Function)
        ensures
            r@ == self@,
    {
        Function {
            name: self.name,
            input_types: duplicate_types(&self.input_types),
            output_types: duplicate_types(&self.output_types),
        }
    }
}

impl Program {
    /// A program from its parts.
    pub fn new(id: ProgramID, functions: Vec<Function>) -> (r: Program)
        ensures
            r == (Program { id, functions }),
    {
        Program { id, functions }
    }

    /// The ID of the program.
    pub fn id(&self) -> (r: &ProgramID)
        ensures
            *r == self@.id,
    {
        &self.id
    }

    /// The functions, in the order they were declared.
    pub fn functions(&self) -> (r: &Vec<Function>)
        ensures
            r@.len() == self@.functions.len(),
            forall|i: int| 0 <= i < r@.len() ==> (#[trigger] r@[i])@ == self@.functions[i],
    {
        &self.functions
    }

    /// A copy of the program.
    pub fn duplicate(&self) -> (r: Program)
        ensures
            r@ == self@,
    {
        let n: usize = self.functions.len();
        let mut functions: Vec<Function> = Vec::new();
        let mut i: usize = 0;
        while i < n
            invariant
                i <= n,
                n == self.functions@.len(),
                functions@.len() == i,
                forall|j: int| 0 <= j < i ==> (#[trigger] functions@[j])@ == self.functions@[j]@,
            decreases n - i,
        {
            functions.push(self.functions[i].duplicate());
            i = i + 1;
        }
        let r = Program { id: self.id, functions };
        assert(r@.functions =~= self@.functions);
        r
    }

    /// The position of the first function of the given name, if there is
    /// one.
    pub fn position(&self, name: &Identifier) -> (r: Option<usize>)
        ensures
            match r {
                Some(i) => self@.position(*name, self@.functions.len()) == Some(i as int) && i
                    < self.functions@.len(),
                None => self@.position(*name, self@.functions.len()) is None,
            },
    {
        let n: usize = self.functions.len();
        let mut i: usize = 0;
        while i < n
            invariant
                i <= n,
                n == self.functions@.len(),
                n == self@.functions.len(),
                self@.position(*name, i as nat) is None,
            decreases n - i,
        {
            if self.functions[i].name == *name {
                proof {
                    assert(self@.functions[i as int].name == *name);
                    assert(self@.position(*name, (i + 1) as nat) == Some(i as int));
                    self@.lemma_position_stays(*name, (i + 1) as nat, n as nat);
                }
                return Some(i);
            }
            assert(self@.functions[i as int].name != *name);
            i = i + 1;
        }
        None
    }

    /// The first function of the given name, if there is one.
    pub fn get_function(&self, name: &Identifier) -> (r: Option<&Function>)
        ensures
            match r {
                Some(f) => self@.position(*name, self@.functions.len()) is Some && f@
                    == self@.functions[self@.position(*name, self@.functions.len()).unwrap()],
                None => self@.position(*name, self@.functions.len()) is None,
            },
    {
        match self.position(name) {
            Some(i) => Some(&self.functions[i]),
            None => None,
        }
    }

    /// Whether the program has a function of the given name.
    pub fn contains_function(&self, name: &Identifier) -> (r: bool)
        ensures
            r == self@.contains_function(*name),
    {
        self.position(name).is_some()
    }

    /// Whether no two functions have the same name.
    pub fn names_distinct(&self) -> (r: bool)
        ensures
            r == self@.names_distinct(),
    {
        let n: usize = self.functions.len();
        let mut j: usize = 0;
        while j < n
            invariant
                j <= n,
                n == self.functions@.len(),
                n == self@.functions.len(),
                forall|a: int, b: int|
                    0 <= a < b < j ==> (#[trigger] self@.functions[a]).name != (
                    #[trigger] self@.functions[b]).name,
            decreases n - j,
        {
            let mut i: usize = 0;
            while i < j
                invariant
                    i <= j < n,
                    n == self.functions@.len(),
                    n == self@.functions.len(),
                    forall|a: int|
                        0 <= a < i ==> (#[trigger] self@.functions[a]).name
                            != self@.functions[j as int].name,
                decreases j - i,
            {
                if self.functions[i].name == self.functions[j].name {
                    assert(self@.functions[i as int].name == self@.functions[j as int].name);
                    return false;
                }
                assert(self@.functions[i as int].name != self@.functions[j as int].name);
                i = i + 1;
            }
            j = j + 1;
        }
        true
    }
}

} // verus!
