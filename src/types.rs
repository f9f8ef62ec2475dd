//! Logical kinds of query values. A kind carries the term it was built
//! from and only decides which composer operations may follow it.

use vstd::prelude::*;
use crate::term::{keys_unique, Decimal, Term, TermType};

verus! {

/// A query value of some logical kind: a term in a typed wrapper.
pub trait DataType: Sized {
    spec fn term(&self) -> Term;

    fn from_term(t: Term) -> (r: Self)
        ensures
            r.term() == t,
    ;

    fn into_term(self) -> (r: Term)
        ensures
            r == self.term(),
    ;
}

/// **Arrays**: lists of zero or more elements, loaded fully into memory.
#[derive(Debug)]
pub struct Array(pub Term);

impl DataType for Array {
    open spec fn term(&self) -> Term {
        self.0
    }

    fn from_term(t: Term) -> (r: Array) {
        Array(t)
    }

    fn into_term(self) -> (r: Term) {
        self.0
    }
}

/// **Booleans**: `true` and `false`.
#[derive(Debug)]
pub struct Bool(pub Term);

impl DataType for Bool {
    open spec fn term(&self) -> Term {
        self.0
    }

    fn from_term(t: Term) -> (r: Bool) {
        Bool(t)
    }

    fn into_term(self) -> (r: Term) {
        self.0
    }
}

/// **Databases**: the result of `db`.
#[derive(Debug)]
pub struct Db(pub Term);

impl DataType for Db {
    open spec fn term(&self) -> Term {
        self.0
    }

    fn from_term(t: Term) -> (r: Db) {
        Db(t)
    }

    fn into_term(self) -> (r: Term) {
        self.0
    }
}

/// **Functions**: row functions passed to commands such as `map`.
#[derive(Debug)]
pub struct Function(pub Term);

impl DataType for Function {
    open spec fn term(&self) -> Term {
        self.0
    }

    fn from_term(t: Term) -> (r: Function) {
        Function(t)
    }

    fn into_term(self) -> (r: Term) {
        self.0
    }
}

/// **Null**: a value distinct from zero, an empty set or an empty string.
#[derive(Debug)]
pub struct Null(pub Term);

impl DataType for Null {
    open spec fn term(&self) -> Term {
        self.0
    }

    fn from_term(t: Term) -> (r: Null) {
        Null(t)
    }

    fn into_term(self) -> (r: Term) {
        self.0
    }
}

/// **Numbers**: any finite real number.
#[derive(Debug)]
pub struct Number(pub Term);

impl DataType for Number {
    open spec fn term(&self) -> Term {
        self.0
    }

    fn from_term(t: Term) -> (r: Number) {
        Number(t)
    }

    fn into_term(self) -> (r: Term) {
        self.0
    }
}

/// **Objects**: key-value documents.
#[derive(Debug)]
pub struct Object(pub Term);

impl DataType for Object {
    open spec fn term(&self) -> Term {
        self.0
    }

    fn from_term(t: Term) -> (r: Object) {
        Object(t)
    }

    fn into_term(self) -> (r: Term) {
        self.0
    }
}

/// **Strings**: any valid UTF-8 text.
#[derive(Debug)]
pub struct Text(pub Term);

impl DataType for Text {
    open spec fn term(&self) -> Term {
        self.0
    }

    fn from_term(t: Term) -> (r: Text) {
        Text(t)
    }

    fn into_term(self) -> (r: Term) {
        self.0
    }
}

/// **Streams**: lists that are loaded lazily, through a cursor.
#[derive(Debug)]
pub struct Stream(pub Term);

impl DataType for Stream {
    open spec fn term(&self) -> Term {
        self.0
    }

    fn from_term(t: Term) -> (r: Stream) {
        Stream(t)
    }

    fn into_term(self) -> (r: Term) {
        self.0
    }
}

/// **Tables**: database tables, which behave like writable selections.
#[derive(Debug)]
pub struct Table(pub Term);

impl DataType for Table {
    open spec fn term(&self) -> Term {
        self.0
    }

    fn from_term(t: Term) -> (r: Table) {
        Table(t)
    }

    fn into_term(self) -> (r: Term) {
        self.0
    }
}

/// A value looked up in a table's primary key.
#[derive(Debug)]
pub struct PrimaryKey(pub Term);

impl DataType for PrimaryKey {
    open spec fn term(&self) -> Term {
        self.0
    }

    fn from_term(t: Term) -> (r: PrimaryKey) {
        PrimaryKey(t)
    }

    fn into_term(self) -> (r: Term) {
        self.0
    }
}

/// A value looked up in a table index.
#[derive(Debug)]
pub struct SecondaryKey(pub Term);

impl DataType for SecondaryKey {
    open spec fn term(&self) -> Term {
        self.0
    }

    fn from_term(t: Term) -> (r: SecondaryKey) {
        SecondaryKey(t)
    }

    fn into_term(self) -> (r: Term) {
        self.0
    }
}

/// **Selections**: writable subsets of a table, such as the result of
/// `get` (a selection of an object) or `get_all` (a selection of a stream).
#[derive(Debug)]
pub struct Selection<T>(pub T);

impl<T: DataType> DataType for Selection<T> {
    open spec fn term(&self) -> Term {
        self.0.term()
    }

    fn from_term(t: Term) -> (r: Selection<T>) {
        Selection(T::from_term(t))
    }

    fn into_term(self) -> (r: Term) {
        self.0.into_term()
    }
}

pub type ObjectSelection = Selection<Object>;

pub type ArraySelection = Selection<Array>;

pub type StreamSelection = Selection<Stream>;

impl Text {
    /// A text literal.
    pub fn new(s: &str) -> (r: Text)
        ensures
            r.0 matches Term::Str(t) && t@ == s@,
    {
        Text(Term::text(s))
    }
}

impl Number {
    /// A number literal.
    pub fn new(n: Decimal) -> (r: Number)
        ensures
            r.0 == Term::Num(n),
    {
        Number(Term::Num(n))
    }
}

impl PrimaryKey {
    /// A text key.
    pub fn text(s: &str) -> (r: PrimaryKey)
        ensures
            r.0 matches Term::Str(t) && t@ == s@,
    {
        PrimaryKey(Term::text(s))
    }

    /// A number key.
    pub fn number(n: Decimal) -> (r: PrimaryKey)
        ensures
            r.0 == Term::Num(n),
    {
        PrimaryKey(Term::Num(n))
    }

    /// A boolean key.
    pub fn boolean(b: bool) -> (r: PrimaryKey)
        ensures
            r.0 == Term::Bool(b),
    {
        PrimaryKey(Term::Bool(b))
    }
}

impl SecondaryKey {
    /// A text key.
    pub fn text(s: &str) -> (r: SecondaryKey)
        ensures
            r.0 matches Term::Str(t) && t@ == s@,
    {
        SecondaryKey(Term::text(s))
    }

    /// A number key.
    pub fn number(n: Decimal) -> (r: SecondaryKey)
        ensures
            r.0 == Term::Num(n),
    {
        SecondaryKey(Term::Num(n))
    }

    /// A boolean key.
    pub fn boolean(b: bool) -> (r: SecondaryKey)
        ensures
            r.0 == Term::Bool(b),
    {
        SecondaryKey(Term::Bool(b))
    }
}

/// `j` is the first position of key `k` in `s`.
pub open spec fn first_key_at(s: Seq<(String, Term)>, k: Seq<char>, j: int) -> bool {
    &&& 0 <= j < s.len()
    &&& s[j].0@ == k
    &&& forall|i: int| 0 <= i < j ==> (#[trigger] s[i]).0@ != k
}

/// `s` with the option `k` set to `v`: its first occurrence replaced where
/// `k` is already a key, appended otherwise.
pub open spec fn set_opt(s: Seq<(String, Term)>, k: String, v: Term) -> Seq<(String, Term)> {
    if exists|j: int| first_key_at(s, k@, j) {
        let j = choose|j: int| first_key_at(s, k@, j);
        s.update(j, (k, v))
    } else {
        s.push((k, v))
    }
}

/// `s` with the first `n` options of `pairs` set, in order.
pub open spec fn set_opts(s: Seq<(String, Term)>, pairs: Seq<(String, Term)>, n: nat) -> Seq<
    (String, Term),
>
    decreases n,
{
    if n == 0 || n > pairs.len() {
        s
    } else {
        set_opt(set_opts(s, pairs, (n - 1) as nat), pairs[n - 1].0, pairs[n - 1].1)
    }
}

/// Sets option `key` to `val`; keys that were unique stay unique.
pub fn set_option(opts: &mut Vec<(String, Term)>, key: String, val: Term)
    ensures
        keys_unique(old(opts)@) ==> keys_unique(final(opts)@),
        final(opts)@ == set_opt(old(opts)@, key, val),
{
    let mut i: usize = 0;
    let mut pos: Option<usize> = None;
    while i < opts.len()
        invariant
            i <= opts@.len(),
            opts@ == old(opts)@,
            pos is None ==> forall|j: int| 0 <= j < i ==> (#[trigger] opts@[j]).0@ != key@,
            pos is Some ==> first_key_at(opts@, key@, pos->0 as int),
        decreases opts.len() - i,
    {
        if pos.is_none() && opts[i].0 == key {
            pos = Some(i);
        }
        i += 1;
    }
    match pos {
        Some(p) => {
            proof {
                let j = choose|j: int| first_key_at(opts@, key@, j);
                if j < p {
                    assert(opts@[j].0@ != key@);
                } else if p < j {
                    assert(opts@[p as int].0@ != key@);
                }
            }
            opts.set(p, (key, val));
        },
        None => {
            proof {
                if exists|j: int| first_key_at(opts@, key@, j) {
                    let j = choose|j: int| first_key_at(opts@, key@, j);
                    assert(opts@[j].0@ != key@);
                }
            }
            opts.push((key, val));
        },
    }
}

/// A raw operation node under construction.
#[derive(Debug)]
pub struct Command(pub Term);

impl Command {
    /// An operation node whose receiver is `prev`, if there is one.
    pub fn new(t: TermType, prev: Option<Term>) -> (r: Command)
        ensures
            r.0.is_op(),
            r.0.opcode() == t.spec_code(),
            r.0.optargs().len() == 0,
            prev is None ==> r.0.args().len() == 0,
            prev is Some ==> r.0.args() == seq![prev->0],
    {
        Command(Term::new_op(t, prev))
    }

    /// Appends a positional argument.
    pub fn with_args(&mut self, arg: Term)
        requires
            old(self).0.is_op(),
        ensures
            final(self).0.is_op(),
            final(self).0.opcode() == old(self).0.opcode(),
            final(self).0.args() == old(self).0.args().push(arg),
            final(self).0.optargs() == old(self).0.optargs(),
    {
        let mut t = Term::Null;
        core::mem::swap(&mut self.0, &mut t);
        match t {
            Term::Op(c, mut args, opts) => {
                args.push(arg);
                self.0 = Term::Op(c, args, opts);
            },
            other => {
                self.0 = other;
            },
        }
    }

    /// Sets each of the named options `opts`, in order.
    pub fn with_opts(&mut self, opts: Vec<(String, Term)>)
        requires
            old(self).0.is_op(),
        ensures
            final(self).0.is_op(),
            final(self).0.opcode() == old(self).0.opcode(),
            final(self).0.args() == old(self).0.args(),
            final(self).0.optargs() == set_opts(old(self).0.optargs(), opts@, opts@.len() as nat),
            keys_unique(old(self).0.optargs()) ==> keys_unique(final(self).0.optargs()),
    {
        let mut t = Term::Null;
        core::mem::swap(&mut self.0, &mut t);
        match t {
            Term::Op(c, args, mut cur) => {
                let ghost start = cur@;
                let mut pairs = opts;
                let ghost given = pairs@;
                let total: usize = pairs.len();
                let mut rest: Vec<(String, Term)> = Vec::new();
                // Move the pairs out from the back, then set them front to back.
                while pairs.len() > 0
                    invariant
                        pairs@ == given.subrange(0, pairs@.len() as int),
                        rest@.len() + pairs@.len() == given.len(),
                        forall|k: int|
                            0 <= k < rest@.len() ==> #[trigger] rest@[k] == given[given.len() - 1
                                - k],
                    decreases pairs.len(),
                {
                    let p = pairs.pop().unwrap();
                    rest.push(p);
                }
                let mut n: usize = 0;
                while rest.len() > 0
                    invariant
                        keys_unique(start) ==> keys_unique(cur@),
                        n + rest@.len() == given.len(),
                        given.len() == total,
                        forall|k: int|
                            0 <= k < rest@.len() ==> #[trigger] rest@[k] == given[given.len() - 1
                                - k],
                        cur@ == set_opts(start, given, n as nat),
                    decreases rest.len(),
                {
                    let p = rest.pop().unwrap();
                    assert(p == given[n as int]);
                    set_option(&mut cur, p.0, p.1);
                    n += 1;
                }
                self.0 = Term::Op(c, args, cur);
            },
            other => {
                self.0 = other;
            },
        }
    }

    /// The node as a value of kind `O`.
    pub fn into<O: DataType>(self) -> (r: O)
        ensures
            r.term() == self.0,
    {
        O::from_term(self.0)
    }
}

} // verus!
