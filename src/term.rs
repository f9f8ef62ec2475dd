//! The expression tree that every query is built from.

use vstd::prelude::*;

verus! {

/// A decimal number `mantissa * 10^exponent`.
#[derive(Debug, Clone, Copy, PartialEq, Eq, Structural)]
pub struct Decimal {
    pub mantissa: i128,
    pub exponent: i32,
}

impl Decimal {
    /// The integer `n`.
    pub fn integer(n: i128) -> (r: Decimal)
        ensures
            r.mantissa == n,
            r.exponent == 0,
    {
        Decimal { mantissa: n, exponent: 0 }
    }

    /// The number `mantissa * 10^exponent`.
    pub fn new(mantissa: i128, exponent: i32) -> (r: Decimal)
        ensures
            r.mantissa == mantissa,
            r.exponent == exponent,
    {
        Decimal { mantissa, exponent }
    }
}

/// Operation codes of the query language.
#[derive(Debug, Clone, Copy, PartialEq, Eq, Structural)]
pub enum TermType {
    MakeArray,
    Var,
    Db,
    Table,
    Get,
    Mod,
    GetField,
    MapOp,
    Func,
    GetAll,
    Changes,
    Uuid,
}

impl TermType {
    pub open spec fn spec_code(self) -> u32 {
        match self {
            TermType::MakeArray => 2,
            TermType::Var => 10,
            TermType::Db => 14,
            TermType::Table => 15,
            TermType::Get => 16,
            TermType::Mod => 28,
            TermType::GetField => 31,
            TermType::MapOp => 38,
            TermType::Func => 69,
            TermType::GetAll => 78,
            TermType::Changes => 152,
            TermType::Uuid => 169,
        }
    }

    /// The numeric code that stands for this operation on the wire.
    #[verifier::when_used_as_spec(spec_code)]
    pub fn code(self) -> (r: u32)
        ensures
            r == self.spec_code(),
    {
        match self {
            TermType::MakeArray => 2,
            TermType::Var => 10,
            TermType::Db => 14,
            TermType::Table => 15,
            TermType::Get => 16,
            TermType::Mod => 28,
            TermType::GetField => 31,
            TermType::MapOp => 38,
            TermType::Func => 69,
            TermType::GetAll => 78,
            TermType::Changes => 152,
            TermType::Uuid => 169,
        }
    }
}

/// A node of a query expression: a literal leaf or an operation node with
/// positional arguments and named options.
#[derive(Debug)]
pub enum Term {
    Null,
    Bool(bool),
    Num(Decimal),
    Str(String),
    Array(Vec<Term>),
    Object(Vec<(String, Term)>),
    Op(u32, Vec<Term>, Vec<(String, Term)>),
}

/// Whether a term is a literal leaf rather than an operation node.
pub trait IsDatum {
    spec fn spec_is_datum(&self) -> bool;

    fn is_datum(&self) -> (b: bool)
        ensures
            b == self.spec_is_datum(),
    ;
}

impl IsDatum for Term {
    open spec fn spec_is_datum(&self) -> bool {
        !(*self is Op)
    }

    fn is_datum(&self) -> (b: bool) {
        match self {
            Term::Op(..) => false,
            _ => true,
        }
    }
}

/// The keys of a sequence of named options.
pub open spec fn keys_of(opts: Seq<(String, Term)>) -> Seq<Seq<char>> {
    opts.map_values(|p: (String, Term)| p.0@)
}

/// No key occurs twice.
pub open spec fn keys_unique(opts: Seq<(String, Term)>) -> bool {
    forall|i: int, j: int|
        0 <= i < j < opts.len() ==> (#[trigger] opts[i]).0@ != (#[trigger] opts[j]).0@
}

impl Term {
    pub open spec fn is_op(self) -> bool {
        self is Op
    }

    pub open spec fn opcode(self) -> u32 {
        match self {
            Term::Op(c, _, _) => c,
            _ => 1,
        }
    }

    pub open spec fn args(self) -> Seq<Term> {
        match self {
            Term::Op(_, a, _) => a@,
            _ => Seq::empty(),
        }
    }

    pub open spec fn optargs(self) -> Seq<(String, Term)> {
        match self {
            Term::Op(_, _, o) => o@,
            _ => Seq::empty(),
        }
    }

    /// A literal text leaf.
    pub fn text(s: &str) -> (r: Term)
        ensures
            r matches Term::Str(t) && t@ == s@,
    {
        Term::Str(s.to_string())
    }

    /// A literal number leaf.
    pub fn number(n: Decimal) -> (r: Term)
        ensures
            r == Term::Num(n),
    {
        Term::Num(n)
    }

    /// An operation node with no options, whose first argument is the
    /// predecessor, if there is one.
    pub fn new_op(t: TermType, prev: Option<Term>) -> (r: Term)
        ensures
            r.is_op(),
            r.opcode() == t.spec_code(),
            r.optargs().len() == 0,
            prev is None ==> r.args().len() == 0,
            prev is Some ==> r.args() == seq![prev->0],
    {
        let mut args: Vec<Term> = Vec::new();
        match prev {
            Some(p) => {
                args.push(p);
            },
            None => {},
        }
        Term::Op(t.code(), args, Vec::new())
    }
}

} // verus!
