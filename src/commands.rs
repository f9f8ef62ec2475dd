//! The query composer. A `Command<T, O>` is a query value of logical kind
//! `T` whose own options `O` are still pending; each kind offers only the
//! operations that are legal on it.

use vstd::prelude::*;
use crate::term::{keys_unique, Decimal, IsDatum, Term, TermType};
use crate::types::{
    set_opts, Array, DataType, Db, Function, Number, Object, ObjectSelection, PrimaryKey,
    SecondaryKey, StreamSelection, Table, Text,
};
use crate::types;
use crate::types::Command as Cmd;

verus! {

/// `t` is the text literal `s`.
pub open spec fn is_text(t: Term, s: Seq<char>) -> bool {
    t matches Term::Str(x) && x@ == s
}

/// `t` is an operation node `c` with `n` arguments and no options.
pub open spec fn op_shape(t: Term, c: u32, n: nat) -> bool {
    &&& t.is_op()
    &&& t.opcode() == c
    &&& t.args().len() == n
    &&& t.optargs().len() == 0
}

/// The whole number `n` as a literal.
pub open spec fn int_lit(n: int) -> Term {
    Term::Num(Decimal { mantissa: n as i128, exponent: 0 })
}

/// A reference to the parameter with index `i` of the enclosing function.
pub open spec fn is_var(t: Term, i: int) -> bool {
    op_shape(t, TermType::Var.spec_code(), 1) && t.args()[0] == int_lit(i)
}

/// A function whose parameters carry the indices `1..=k` and whose body is `body`.
pub open spec fn is_func(t: Term, k: int, body: Term) -> bool {
    &&& op_shape(t, TermType::Func.spec_code(), 2)
    &&& t.args()[0] matches Term::Array(ps)
    &&& ps@.len() == k
    &&& forall|i: int| 0 <= i < k ==> #[trigger] ps@[i] == int_lit(i + 1)
    &&& t.args()[1] == body
}

/// An options record that becomes named options of the operation it belongs to.
pub trait OptArgs: Sized {
    /// `o` holds exactly the options of this record, in their order.
    spec fn options_are(&self, o: Seq<(String, Term)>) -> bool;

    fn options(&self) -> (o: Vec<(String, Term)>)
        ensures
            self.options_are(o@),
            keys_unique(o@),
    ;
}

impl OptArgs for () {
    open spec fn options_are(&self, o: Seq<(String, Term)>) -> bool {
        o.len() == 0
    }

    fn options(&self) -> (o: Vec<(String, Term)>) {
        Vec::new()
    }
}

/// Consistency of a table read.
#[derive(Debug, Clone, Copy, PartialEq, Eq, Structural)]
pub enum ReadMode {
    Single,
    Majority,
    Outdated,
}

impl ReadMode {
    pub open spec fn spec_name(self) -> Seq<char> {
        match self {
            ReadMode::Single => "single"@,
            ReadMode::Majority => "majority"@,
            ReadMode::Outdated => "outdated"@,
        }
    }

    /// The name of the mode on the wire.
    pub fn name(self) -> (s: &'static str)
        ensures
            s@ == self.spec_name(),
    {
        match self {
            ReadMode::Single => "single",
            ReadMode::Majority => "majority",
            ReadMode::Outdated => "outdated",
        }
    }
}

/// How system tables refer to servers, databases and tables.
#[derive(Debug, Clone, Copy, PartialEq, Eq, Structural)]
pub enum IdentifierFormat {
    Name,
    Uuid,
}

impl IdentifierFormat {
    pub open spec fn spec_name(self) -> Seq<char> {
        match self {
            IdentifierFormat::Name => "name"@,
            IdentifierFormat::Uuid => "uuid"@,
        }
    }

    /// The name of the format on the wire.
    pub fn name(self) -> (s: &'static str)
        ensures
            s@ == self.spec_name(),
    {
        match self {
            IdentifierFormat::Name => "name",
            IdentifierFormat::Uuid => "uuid",
        }
    }
}

/// Options of `table`.
#[derive(Debug, Clone, Copy, PartialEq, Eq, Structural)]
pub struct TableOpts {
    pub read_mode: ReadMode,
    pub identifier_format: IdentifierFormat,
}

impl TableOpts {
    pub open spec fn spec_default() -> TableOpts {
        TableOpts { read_mode: ReadMode::Single, identifier_format: IdentifierFormat::Name }
    }
}

impl Default for TableOpts {
    fn default() -> (o: TableOpts)
        ensures
            o == TableOpts::spec_default(),
    {
        TableOpts { read_mode: ReadMode::Single, identifier_format: IdentifierFormat::Name }
    }
}

impl OptArgs for TableOpts {
    open spec fn options_are(&self, o: Seq<(String, Term)>) -> bool {
        &&& o.len() == 2
        &&& o[0].0@ == "read_mode"@
        &&& is_text(o[0].1, self.read_mode.spec_name())
        &&& o[1].0@ == "identifier_format"@
        &&& is_text(o[1].1, self.identifier_format.spec_name())
    }

    fn options(&self) -> (o: Vec<(String, Term)>) {
        let mut o: Vec<(String, Term)> = Vec::new();
        o.push(("read_mode".to_string(), Term::text(self.read_mode.name())));
        o.push(("identifier_format".to_string(), Term::text(self.identifier_format.name())));
        proof {
            reveal_strlit("read_mode");
            reveal_strlit("identifier_format");
            assert("read_mode"@.len() != "identifier_format"@.len());
        }
        o
    }
}

/// The `squash` option: a flag, or a number of seconds to batch changes over.
#[derive(Debug, Clone, Copy, PartialEq, Eq, Structural)]
pub enum Squash {
    Flag(bool),
    Fraction(Decimal),
}

impl Squash {
    pub open spec fn spec_term(self) -> Term {
        match self {
            Squash::Flag(b) => Term::Bool(b),
            Squash::Fraction(d) => Term::Num(d),
        }
    }

    /// The option value as a literal.
    pub fn term(self) -> (t: Term)
        ensures
            t == self.spec_term(),
    {
        match self {
            Squash::Flag(b) => Term::Bool(b),
            Squash::Fraction(d) => Term::Num(d),
        }
    }
}

/// The values that `squash` accepts: a flag or a fraction.
pub trait SquashArg: Sized {
    spec fn spec_squash(&self) -> Squash;

    fn into_squash(self) -> (s: Squash)
        ensures
            s == self.spec_squash(),
    ;
}

impl SquashArg for bool {
    open spec fn spec_squash(&self) -> Squash {
        Squash::Flag(*self)
    }

    fn into_squash(self) -> (s: Squash) {
        Squash::Flag(self)
    }
}

impl SquashArg for Decimal {
    open spec fn spec_squash(&self) -> Squash {
        Squash::Fraction(*self)
    }

    fn into_squash(self) -> (s: Squash) {
        Squash::Fraction(self)
    }
}

/// Options of `changes`.
#[derive(Debug, Clone, Copy, PartialEq, Eq, Structural)]
pub struct ChangesOpts {
    pub squash: Squash,
    pub changefeed_queue_size: u64,
    pub include_initial: bool,
    pub include_states: bool,
    pub include_offsets: bool,
    pub include_types: bool,
}

impl ChangesOpts {
    pub open spec fn spec_default() -> ChangesOpts {
        ChangesOpts {
            squash: Squash::Flag(false),
            changefeed_queue_size: 100000,
            include_initial: true,
            include_states: false,
            include_offsets: false,
            include_types: false,
        }
    }
}

impl Default for ChangesOpts {
    fn default() -> (o: ChangesOpts)
        ensures
            o == ChangesOpts::spec_default(),
    {
        ChangesOpts {
            squash: Squash::Flag(false),
            changefeed_queue_size: 100000,
            include_initial: true,
            include_states: false,
            include_offsets: false,
            include_types: false,
        }
    }
}

impl OptArgs for ChangesOpts {
    open spec fn options_are(&self, o: Seq<(String, Term)>) -> bool {
        &&& o.len() == 6
        &&& o[0].0@ == "squash"@
        &&& o[0].1 == self.squash.spec_term()
        &&& o[1].0@ == "changefeed_queue_size"@
        &&& o[1].1 == int_lit(self.changefeed_queue_size as int)
        &&& o[2].0@ == "include_initial"@
        &&& o[2].1 == Term::Bool(self.include_initial)
        &&& o[3].0@ == "include_states"@
        &&& o[3].1 == Term::Bool(self.include_states)
        &&& o[4].0@ == "include_offsets"@
        &&& o[4].1 == Term::Bool(self.include_offsets)
        &&& o[5].0@ == "include_types"@
        &&& o[5].1 == Term::Bool(self.include_types)
    }

    fn options(&self) -> (o: Vec<(String, Term)>) {
        let mut o: Vec<(String, Term)> = Vec::new();
        o.push(("squash".to_string(), self.squash.term()));
        o.push(
            (
                "changefeed_queue_size".to_string(),
                Term::Num(Decimal::integer(self.changefeed_queue_size as i128)),
            ),
        );
        o.push(("include_initial".to_string(), Term::Bool(self.include_initial)));
        o.push(("include_states".to_string(), Term::Bool(self.include_states)));
        o.push(("include_offsets".to_string(), Term::Bool(self.include_offsets)));
        o.push(("include_types".to_string(), Term::Bool(self.include_types)));
        proof {
            reveal_strlit("squash");
            reveal_strlit("changefeed_queue_size");
            reveal_strlit("include_initial");
            reveal_strlit("include_states");
            reveal_strlit("include_offsets");
            reveal_strlit("include_types");
            assert("include_initial"@[8] != "include_offsets"@[8]);
            assert forall|i: int, j: int| 0 <= i < j < o@.len() implies (#[trigger] o@[i]).0@
                != (#[trigger] o@[j]).0@ by {
                if o@[i].0@ == o@[j].0@ {
                    assert(o@[i].0@.len() == o@[j].0@.len());
                    assert(o@[i].0@[8] == o@[j].0@[8]);
                }
            }
        }
        o
    }
}

/// Options of `get_all`: the index to look keys up in; empty for the primary key.
#[derive(Debug, Clone)]
pub struct GetAllOpts {
    pub index: String,
}

impl GetAllOpts {
    pub open spec fn spec_is_default(self) -> bool {
        self.index@ == Seq::<char>::empty()
    }
}

impl Default for GetAllOpts {
    fn default() -> (o: GetAllOpts)
        ensures
            o.spec_is_default(),
    {
        GetAllOpts { index: String::new() }
    }
}

impl OptArgs for GetAllOpts {
    open spec fn options_are(&self, o: Seq<(String, Term)>) -> bool {
        &&& o.len() == 1
        &&& o[0].0@ == "index"@
        &&& is_text(o[0].1, self.index@)
    }

    fn options(&self) -> (o: Vec<(String, Term)>) {
        let mut o: Vec<(String, Term)> = Vec::new();
        o.push(("index".to_string(), Term::Str(self.index.clone())));
        o
    }
}

/// A query value of logical kind `T`, with its own options `O` not yet
/// attached to its term.
#[derive(Debug)]
pub struct Command<T, O>(pub T, pub Option<O>);

/// The parameter of a one-parameter row function.
pub type Arg = Command<Object, ()>;

impl<T: DataType, O: OptArgs> Command<T, O> {
    /// `t` is this command as one term, with its options attached.
    pub open spec fn finishes_as(self, t: Term) -> bool {
        let d = self.0.term();
        if !d.is_op() {
            t == d
        } else {
            &&& t.is_op()
            &&& t.opcode() == d.opcode()
            &&& t.args() == d.args()
            &&& match self.1 {
                None => t.optargs() == d.optargs(),
                Some(o) => exists|p: Seq<(String, Term)>|
                    #![trigger o.options_are(p)]
                    o.options_are(p) && keys_unique(p) && t.optargs() == set_opts(
                        d.optargs(),
                        p,
                        p.len() as nat,
                    ),
            }
        }
    }

    /// The command as one term, with its options attached.
    pub fn into_term(self) -> (t: Term)
        ensures
            self.finishes_as(t),
    {
        let Command(data, opts) = self;
        let t = data.into_term();
        match opts {
            None => t,
            Some(o) => {
                if t.is_datum() {
                    t
                } else {
                    let p = o.options();
                    let mut c = Cmd(t);
                    c.with_opts(p);
                    c.0
                }
            },
        }
    }

    /// The wire encoding of the command.
    pub fn encode(self) -> (b: Vec<u8>)
        ensures
            exists|t: Term| self.finishes_as(t) && b@ == crate::encode::enc(t),
    {
        let t = self.into_term();
        crate::encode::encode_term(&t)
    }

    /// Chains operation `typ` after this command, with the further
    /// positional arguments `args` and the options `opts`.
    fn chain<T2: DataType, O2: OptArgs>(self, typ: TermType, args: Vec<Term>, opts: Option<O2>) -> (c: Command<T2, O2>)
        ensures
            op_shape(c.0.term(), typ.spec_code(), 1 + args@.len()),
            self.finishes_as(c.0.term().args()[0]),
            c.0.term().args() == seq![c.0.term().args()[0]] + args@,
            c.1 == opts,
    {
        let prev = self.into_term();
        let c: Command<T2, O2> = Cmd::make(typ, args, opts, Some(prev));
        c
    }
}

impl Cmd {
    /// A command of kind `T` for operation `typ`: the predecessor `prev`,
    /// if any, is its first argument and `args` follow.
    pub fn make<T: DataType, O: OptArgs>(
        typ: TermType,
        args: Vec<Term>,
        opts: Option<O>,
        prev: Option<Term>,
    ) -> (c: Command<T, O>)
        ensures
            c.0.term().is_op(),
            c.0.term().opcode() == typ.spec_code(),
            c.0.term().optargs().len() == 0,
            prev is None ==> c.0.term().args() == args@,
            prev is Some ==> c.0.term().args() == seq![prev->0] + args@,
            c.1 == opts,
    {
        let mut all: Vec<Term> = Vec::new();
        match prev {
            Some(p) => {
                all.push(p);
            },
            None => {},
        }
        let mut rest = args;
        all.append(&mut rest);
        Command(T::from_term(Term::Op(typ.code(), all, Vec::new())), opts)
    }
}

/// The entry point of every query.
#[derive(Debug, Clone, Copy)]
pub struct Client;

#[allow(non_upper_case_globals)]
pub const r: Client = Client;

impl Client {
    /// Refers to a database.
    pub fn db(&self, name: &str) -> (c: Command<Db, ()>)
        ensures
            op_shape(c.0.term(), TermType::Db.spec_code(), 1),
            is_text(c.0.term().args()[0], name@),
            c.1 is None,
    {
        let mut args: Vec<Term> = Vec::new();
        args.push(Term::text(name));
        Cmd::make(TermType::Db, args, None, None)
    }

    /// A fresh random identifier, computed by the server.
    pub fn uuid(&self) -> (c: Command<Text, ()>)
        ensures
            op_shape(c.0.term(), TermType::Uuid.spec_code(), 0),
            c.1 is None,
    {
        Cmd::make(TermType::Uuid, Vec::new(), None, None)
    }
}

/// Commands that start from the root and default the database.
pub trait RootCommand {
    /// All documents of table `name` in the default database `test`.
    fn table(&self, name: &str) -> (c: Command<Table, TableOpts>)
        ensures
            op_shape(c.0.term(), TermType::Table.spec_code(), 2),
            op_shape(c.0.term().args()[0], TermType::Db.spec_code(), 1),
            is_text(c.0.term().args()[0].args()[0], "test"@),
            is_text(c.0.term().args()[1], name@),
            c.1 == Some(TableOpts::spec_default()),
    ;
}

impl RootCommand for Client {
    fn table(&self, name: &str) -> (c: Command<Table, TableOpts>) {
        self.db("test").table(name)
    }
}

impl<O: OptArgs> Command<Db, O> {
    /// All documents of table `name`, with the default table options.
    pub fn table(self, name: &str) -> (c: Command<Table, TableOpts>)
        ensures
            op_shape(c.0.term(), TermType::Table.spec_code(), 2),
            self.finishes_as(c.0.term().args()[0]),
            is_text(c.0.term().args()[1], name@),
            c.1 == Some(TableOpts::spec_default()),
    {
        let mut args: Vec<Term> = Vec::new();
        args.push(Term::text(name));
        self.chain(TermType::Table, args, Some(TableOpts::default()))
    }
}

/// `t` is a one-parameter function whose body is what `f` returns for the
/// reference to parameter 1.
pub open spec fn lambda1_of<F: Fn(Arg) -> Command<R, RO>, R: DataType, RO: OptArgs>(
    f: F,
    t: Term,
) -> bool {
    exists|a: Arg, b: Command<R, RO>, body: Term|
        #![trigger f.ensures((a,), b), b.finishes_as(body)]
        is_var(a.0.0, 1) && a.1 is None && f.ensures((a,), b) && b.finishes_as(body) && is_func(
            t,
            1,
            body,
        )
}

/// `t` is a two-parameter function whose body is what `f` returns for the
/// references to parameters 1 and 2.
pub open spec fn lambda2_of<F: Fn(Arg, Arg) -> Command<R, RO>, R: DataType, RO: OptArgs>(
    f: F,
    t: Term,
) -> bool {
    exists|a1: Arg, a2: Arg, b: Command<R, RO>, body: Term|
        #![trigger f.ensures((a1, a2), b), b.finishes_as(body)]
        is_var(a1.0.0, 1) && a1.1 is None && is_var(a2.0.0, 2) && a2.1 is None && f.ensures(
            (a1, a2),
            b,
        ) && b.finishes_as(body) && is_func(t, 2, body)
}

/// A reference to parameter `i`.
fn var_arg(i: i128) -> (a: Arg)
    ensures
        is_var(a.0.0, i as int),
        a.1 is None,
{
    let mut args: Vec<Term> = Vec::new();
    args.push(Term::Num(Decimal::integer(i)));
    Command(Object(Term::Op(TermType::Var.code(), args, Vec::new())), None)
}

impl Function {
    /// A one-parameter row function; its parameter has index 1.
    pub fn lambda1<F, R: DataType, RO: OptArgs>(f: F) -> (g: Function)
        where
            F: Fn(Arg) -> Command<R, RO>,
        requires
            forall|a: Arg| f.requires((a,)),
        ensures
            lambda1_of(f, g.0),
    {
        let a = var_arg(1);
        let ghost ga = a;
        let b = f(a);
        let ghost gb = b;
        let body = b.into_term();
        let mut params: Vec<Term> = Vec::new();
        params.push(Term::Num(Decimal::integer(1)));
        let mut args: Vec<Term> = Vec::new();
        args.push(Term::Array(params));
        args.push(body);
        let g = Function(Term::Op(TermType::Func.code(), args, Vec::new()));
        assert(is_func(g.0, 1, body));
        assert(lambda1_of(f, g.0)) by {
            assert(f.ensures((ga,), gb) && gb.finishes_as(body));
        }
        g
    }

    /// A two-parameter row function; its parameters have indices 1 and 2,
    /// in order.
    pub fn lambda2<F, R: DataType, RO: OptArgs>(f: F) -> (g: Function)
        where
            F: Fn(Arg, Arg) -> Command<R, RO>,
        requires
            forall|a1: Arg, a2: Arg| f.requires((a1, a2)),
        ensures
            lambda2_of(f, g.0),
    {
        let a1 = var_arg(1);
        let a2 = var_arg(2);
        let ghost g1 = a1;
        let ghost g2 = a2;
        let b = f(a1, a2);
        let ghost gb = b;
        let body = b.into_term();
        let mut params: Vec<Term> = Vec::new();
        params.push(Term::Num(Decimal::integer(1)));
        params.push(Term::Num(Decimal::integer(2)));
        let mut args: Vec<Term> = Vec::new();
        args.push(Term::Array(params));
        args.push(body);
        let g = Function(Term::Op(TermType::Func.code(), args, Vec::new()));
        assert(is_func(g.0, 2, body));
        assert(lambda2_of(f, g.0)) by {
            assert(f.ensures((g1, g2), gb) && gb.finishes_as(body));
        }
        g
    }
}

impl<O: OptArgs> Command<Table, O> {
    /// A feed of changes, with the default feed options.
    pub fn changes(self) -> (c: Command<types::Stream, ChangesOpts>)
        ensures
            op_shape(c.0.term(), TermType::Changes.spec_code(), 1),
            self.finishes_as(c.0.term().args()[0]),
            c.1 == Some(ChangesOpts::spec_default()),
    {
        self.chain(TermType::Changes, Vec::new(), Some(ChangesOpts::default()))
    }

    /// The document whose primary key is `key`.
    pub fn get(self, key: PrimaryKey) -> (c: Command<ObjectSelection, ()>)
        ensures
            op_shape(c.0.term(), TermType::Get.spec_code(), 2),
            self.finishes_as(c.0.term().args()[0]),
            c.0.term().args()[1] == key.0,
            c.1 is None,
    {
        let mut args: Vec<Term> = Vec::new();
        args.push(key.0);
        self.chain(TermType::Get, args, None)
    }

    /// The documents whose key is `key`, looked up in the primary key
    /// unless an index is chosen with `index`.
    pub fn get_all(self, key: SecondaryKey) -> (c: Command<StreamSelection, GetAllOpts>)
        ensures
            op_shape(c.0.term(), TermType::GetAll.spec_code(), 2),
            self.finishes_as(c.0.term().args()[0]),
            c.0.term().args()[1] == key.0,
            c.1 is Some && c.1->0.spec_is_default(),
    {
        let mut args: Vec<Term> = Vec::new();
        args.push(key.0);
        self.chain(TermType::GetAll, args, Some(GetAllOpts::default()))
    }

    /// Applies the row function `f` to every element.
    pub fn map<F, R: DataType, RO: OptArgs>(self, f: F) -> (c: Command<types::Stream, ()>)
        where
            F: Fn(Arg) -> Command<R, RO>,
        requires
            forall|a: Arg| f.requires((a,)),
        ensures
            op_shape(c.0.term(), TermType::MapOp.spec_code(), 2),
            self.finishes_as(c.0.term().args()[0]),
            lambda1_of(f, c.0.term().args()[1]),
            c.1 is None,
    {
        let func = Function::lambda1(f);
        let mut args: Vec<Term> = Vec::new();
        args.push(func.0);
        self.chain(TermType::MapOp, args, None)
    }
}

impl<O: OptArgs> Command<types::Stream, O> {
    /// A feed of changes, with the default feed options.
    pub fn changes(self) -> (c: Command<types::Stream, ChangesOpts>)
        ensures
            op_shape(c.0.term(), TermType::Changes.spec_code(), 1),
            self.finishes_as(c.0.term().args()[0]),
            c.1 == Some(ChangesOpts::spec_default()),
    {
        self.chain(TermType::Changes, Vec::new(), Some(ChangesOpts::default()))
    }

    /// Applies the row function `f` to every element.
    pub fn map<F, R: DataType, RO: OptArgs>(self, f: F) -> (c: Command<types::Stream, ()>)
        where
            F: Fn(Arg) -> Command<R, RO>,
        requires
            forall|a: Arg| f.requires((a,)),
        ensures
            op_shape(c.0.term(), TermType::MapOp.spec_code(), 2),
            self.finishes_as(c.0.term().args()[0]),
            lambda1_of(f, c.0.term().args()[1]),
            c.1 is None,
    {
        let func = Function::lambda1(f);
        let mut args: Vec<Term> = Vec::new();
        args.push(func.0);
        self.chain(TermType::MapOp, args, None)
    }
}

impl<O: OptArgs> Command<StreamSelection, O> {
    /// A feed of changes, with the default feed options.
    pub fn changes(self) -> (c: Command<types::Stream, ChangesOpts>)
        ensures
            op_shape(c.0.term(), TermType::Changes.spec_code(), 1),
            self.finishes_as(c.0.term().args()[0]),
            c.1 == Some(ChangesOpts::spec_default()),
    {
        self.chain(TermType::Changes, Vec::new(), Some(ChangesOpts::default()))
    }
}

impl<O: OptArgs> Command<ObjectSelection, O> {
    /// A feed of changes, with the default feed options.
    pub fn changes(self) -> (c: Command<types::Stream, ChangesOpts>)
        ensures
            op_shape(c.0.term(), TermType::Changes.spec_code(), 1),
            self.finishes_as(c.0.term().args()[0]),
            c.1 == Some(ChangesOpts::spec_default()),
    {
        self.chain(TermType::Changes, Vec::new(), Some(ChangesOpts::default()))
    }

    /// The value of field `name`.
    pub fn get_field<V: DataType>(self, name: &str) -> (c: Command<V, ()>)
        ensures
            op_shape(c.0.term(), TermType::GetField.spec_code(), 2),
            self.finishes_as(c.0.term().args()[0]),
            is_text(c.0.term().args()[1], name@),
            c.1 is None,
    {
        let mut args: Vec<Term> = Vec::new();
        args.push(Term::text(name));
        self.chain(TermType::GetField, args, None)
    }
}

impl<O: OptArgs> Command<Object, O> {
    /// The value of field `name`.
    pub fn get_field<V: DataType>(self, name: &str) -> (c: Command<V, ()>)
        ensures
            op_shape(c.0.term(), TermType::GetField.spec_code(), 2),
            self.finishes_as(c.0.term().args()[0]),
            is_text(c.0.term().args()[1], name@),
            c.1 is None,
    {
        let mut args: Vec<Term> = Vec::new();
        args.push(Term::text(name));
        self.chain(TermType::GetField, args, None)
    }
}

impl<O: OptArgs> Command<Array, O> {
    /// The value of field `name`.
    pub fn get_field(self, name: &str) -> (c: Command<Array, ()>)
        ensures
            op_shape(c.0.term(), TermType::GetField.spec_code(), 2),
            self.finishes_as(c.0.term().args()[0]),
            is_text(c.0.term().args()[1], name@),
            c.1 is None,
    {
        let mut args: Vec<Term> = Vec::new();
        args.push(Term::text(name));
        self.chain(TermType::GetField, args, None)
    }

    /// Applies the array-valued `f` to every element.
    pub fn map(self, f: Array) -> (c: Command<Array, ()>)
        ensures
            op_shape(c.0.term(), TermType::MapOp.spec_code(), 2),
            self.finishes_as(c.0.term().args()[0]),
            c.0.term().args()[1] == f.0,
            c.1 is None,
    {
        let mut args: Vec<Term> = Vec::new();
        args.push(f.0);
        self.chain(TermType::MapOp, args, None)
    }
}

impl<O: OptArgs> Command<Number, O> {
    /// The remainder of dividing by `n`.
    pub fn rem(self, n: Number) -> (c: Command<Number, ()>)
        ensures
            op_shape(c.0.term(), TermType::Mod.spec_code(), 2),
            self.finishes_as(c.0.term().args()[0]),
            c.0.term().args()[1] == n.0,
            c.1 is None,
    {
        let mut args: Vec<Term> = Vec::new();
        args.push(n.0);
        self.chain(TermType::Mod, args, None)
    }
}

impl<T> Command<T, TableOpts> {
    /// Sets the read mode.
    pub fn read_mode(self, m: ReadMode) -> (c: Self)
        ensures
            c.0 == self.0,
            self.1 is None ==> c.1 is None,
            self.1 is Some ==> c.1 == Some(TableOpts { read_mode: m, ..self.1->0 }),
    {
        let Command(data, opts) = self;
        match opts {
            Some(o) => Command(data, Some(TableOpts { read_mode: m, ..o })),
            None => Command(data, None),
        }
    }

    /// Sets the identifier format.
    pub fn identifier_format(self, f: IdentifierFormat) -> (c: Self)
        ensures
            c.0 == self.0,
            self.1 is None ==> c.1 is None,
            self.1 is Some ==> c.1 == Some(TableOpts { identifier_format: f, ..self.1->0 }),
    {
        let Command(data, opts) = self;
        match opts {
            Some(o) => Command(data, Some(TableOpts { identifier_format: f, ..o })),
            None => Command(data, None),
        }
    }
}

impl<T> Command<T, ChangesOpts> {
    /// Sets `squash` to a flag or a fraction; other values are not accepted.
    pub fn squash<B: SquashArg>(self, arg: B) -> (c: Self)
        ensures
            c.0 == self.0,
            self.1 is None ==> c.1 == Some(ChangesOpts { squash: arg.spec_squash(), ..ChangesOpts::spec_default() }),
            self.1 is Some ==> c.1 == Some(ChangesOpts { squash: arg.spec_squash(), ..self.1->0 }),
    {
        let Command(data, opts) = self;
        let o = match opts {
            Some(o) => o,
            None => ChangesOpts::default(),
        };
        Command(data, Some(ChangesOpts { squash: arg.into_squash(), ..o }))
    }

    /// Sets how many changes the server buffers for a slow reader.
    pub fn changefeed_queue_size(self, v: u64) -> (c: Self)
        ensures
            c.0 == self.0,
            self.1 is None ==> c.1 is None,
            self.1 is Some ==> c.1 == Some(ChangesOpts { changefeed_queue_size: v, ..self.1->0 }),
    {
        let Command(data, opts) = self;
        match opts {
            Some(o) => Command(data, Some(ChangesOpts { changefeed_queue_size: v, ..o })),
            None => Command(data, None),
        }
    }

    /// Sets whether the feed starts with the current values.
    pub fn include_initial(self, v: bool) -> (c: Self)
        ensures
            c.0 == self.0,
            self.1 is None ==> c.1 is None,
            self.1 is Some ==> c.1 == Some(ChangesOpts { include_initial: v, ..self.1->0 }),
    {
        let Command(data, opts) = self;
        match opts {
            Some(o) => Command(data, Some(ChangesOpts { include_initial: v, ..o })),
            None => Command(data, None),
        }
    }

    /// Sets whether the feed reports its state.
    pub fn include_states(self, v: bool) -> (c: Self)
        ensures
            c.0 == self.0,
            self.1 is None ==> c.1 is None,
            self.1 is Some ==> c.1 == Some(ChangesOpts { include_states: v, ..self.1->0 }),
    {
        let Command(data, opts) = self;
        match opts {
            Some(o) => Command(data, Some(ChangesOpts { include_states: v, ..o })),
            None => Command(data, None),
        }
    }

    /// Sets whether the feed reports the positions of changes.
    pub fn include_offsets(self, v: bool) -> (c: Self)
        ensures
            c.0 == self.0,
            self.1 is None ==> c.1 is None,
            self.1 is Some ==> c.1 == Some(ChangesOpts { include_offsets: v, ..self.1->0 }),
    {
        let Command(data, opts) = self;
        match opts {
            Some(o) => Command(data, Some(ChangesOpts { include_offsets: v, ..o })),
            None => Command(data, None),
        }
    }

    /// Sets whether the feed reports the kind of each change.
    pub fn include_types(self, v: bool) -> (c: Self)
        ensures
            c.0 == self.0,
            self.1 is None ==> c.1 is None,
            self.1 is Some ==> c.1 == Some(ChangesOpts { include_types: v, ..self.1->0 }),
    {
        let Command(data, opts) = self;
        match opts {
            Some(o) => Command(data, Some(ChangesOpts { include_types: v, ..o })),
            None => Command(data, None),
        }
    }
}

impl<T> Command<T, GetAllOpts> {
    /// Looks keys up in the index `name` instead of the primary key.
    pub fn index(self, name: &str) -> (c: Self)
        ensures
            c.0 == self.0,
            c.1 is Some && c.1->0.index@ == name@,
    {
        let Command(data, _) = self;
        Command(data, Some(GetAllOpts { index: name.to_string() }))
    }
}

/// Kinds that `map` can take as further sequences, beside the one it is
/// called on.
pub trait Stream: DataType {}

impl Stream for Table {}

impl Stream for types::Stream {}

/// The further arguments of a `map` over several sequences at once: the
/// other sequences, then the function, which takes one element of each.
#[derive(Debug)]
pub struct MapArg<T>(pub Vec<T>);

/// Each command as one term, in order.
fn finish_all<CT: DataType, CO: OptArgs>(v: Vec<Command<CT, CO>>) -> (ts: Vec<Term>)
    ensures
        ts@.len() == v@.len(),
        forall|i: int| 0 <= i < v@.len() ==> v@[i].finishes_as(#[trigger] ts@[i]),
{
    let ghost orig = v@;
    let n: usize = v.len();
    let mut v = v;
    let mut rev: Vec<Command<CT, CO>> = Vec::new();
    while v.len() > 0
        invariant
            v@ == orig.subrange(0, v@.len() as int),
            rev@.len() + v@.len() == n,
            n == orig.len(),
            forall|k: int| 0 <= k < rev@.len() ==> #[trigger] rev@[k] == orig[n - 1 - k],
        decreases v.len(),
    {
        let c = v.pop().unwrap();
        rev.push(c);
    }
    let mut out: Vec<Term> = Vec::new();
    while rev.len() > 0
        invariant
            out@.len() + rev@.len() == n,
            n == orig.len(),
            forall|k: int| 0 <= k < rev@.len() ==> #[trigger] rev@[k] == orig[n - 1 - k],
            forall|k: int| 0 <= k < out@.len() ==> orig[k].finishes_as(#[trigger] out@[k]),
        decreases rev.len(),
    {
        let c = rev.pop().unwrap();
        assert(c == orig[out@.len() as int]);
        let t = c.into_term();
        out.push(t);
    }
    out
}

/// The terms of each value, in order.
fn terms_of<T: DataType>(v: Vec<T>) -> (ts: Vec<Term>)
    ensures
        ts@.len() == v@.len(),
        forall|i: int| 0 <= i < v@.len() ==> #[trigger] ts@[i] == v@[i].term(),
{
    let ghost orig = v@;
    let n: usize = v.len();
    let mut v = v;
    let mut rev: Vec<T> = Vec::new();
    while v.len() > 0
        invariant
            v@ == orig.subrange(0, v@.len() as int),
            rev@.len() + v@.len() == n,
            n == orig.len(),
            forall|k: int| 0 <= k < rev@.len() ==> #[trigger] rev@[k] == orig[n - 1 - k],
        decreases v.len(),
    {
        let c = v.pop().unwrap();
        rev.push(c);
    }
    let mut out: Vec<Term> = Vec::new();
    while rev.len() > 0
        invariant
            out@.len() + rev@.len() == n,
            n == orig.len(),
            forall|k: int| 0 <= k < rev@.len() ==> #[trigger] rev@[k] == orig[n - 1 - k],
            forall|k: int| 0 <= k < out@.len() ==> #[trigger] out@[k] == orig[k].term(),
        decreases rev.len(),
    {
        let c = rev.pop().unwrap();
        assert(c == orig[out@.len() as int]);
        let t = c.into_term();
        out.push(t);
    }
    out
}

impl MapArg<types::Stream> {
    /// The sequences `seqs`, then the function `f`.
    pub fn new<CT: Stream, CO: OptArgs>(seqs: Vec<Command<CT, CO>>, f: Function) -> (m: MapArg<
        types::Stream,
    >)
        ensures
            m.0@.len() == seqs@.len() + 1,
            forall|i: int| 0 <= i < seqs@.len() ==> seqs@[i].finishes_as(#[trigger] m.0@[i].0),
            m.0@[seqs@.len() as int].0 == f.0,
    {
        let terms = finish_all(seqs);
        let ghost ts = terms@;
        let mut out: Vec<types::Stream> = Vec::new();
        let mut terms = terms;
        let mut rev: Vec<Term> = Vec::new();
        while terms.len() > 0
            invariant
                terms@ == ts.subrange(0, terms@.len() as int),
                rev@.len() + terms@.len() == ts.len(),
                forall|k: int| 0 <= k < rev@.len() ==> #[trigger] rev@[k] == ts[ts.len() - 1 - k],
            decreases terms.len(),
        {
            let t = terms.pop().unwrap();
            rev.push(t);
        }
        while rev.len() > 0
            invariant
                out@.len() + rev@.len() == ts.len(),
                forall|k: int| 0 <= k < rev@.len() ==> #[trigger] rev@[k] == ts[ts.len() - 1 - k],
                forall|k: int| 0 <= k < out@.len() ==> #[trigger] out@[k].0 == ts[k],
            decreases rev.len(),
        {
            let t = rev.pop().unwrap();
            out.push(types::Stream(t));
        }
        out.push(types::Stream(f.0));
        MapArg(out)
    }
}

impl<O: OptArgs> Command<Table, O> {
    /// Maps over this sequence together with the sequences of `arg`, with
    /// its function last.
    pub fn map_many(self, arg: MapArg<types::Stream>) -> (c: Command<types::Stream, ()>)
        ensures
            op_shape(c.0.term(), TermType::MapOp.spec_code(), 1 + arg.0@.len()),
            self.finishes_as(c.0.term().args()[0]),
            forall|i: int| 0 <= i < arg.0@.len() ==> c.0.term().args()[i + 1] == #[trigger] arg.0@[i].0,
            c.1 is None,
    {
        let ghost a = arg.0@;
        let args = terms_of(arg.0);
        let c: Command<types::Stream, ()> = self.chain(TermType::MapOp, args, None);
        assert forall|i: int| 0 <= i < a.len() implies c.0.term().args()[i + 1] == #[trigger] a[i].0 by {
            assert(c.0.term().args()[i + 1] == args@[i]);
        }
        c
    }
}

impl<O: OptArgs> Command<types::Stream, O> {
    /// Maps over this sequence together with the sequences of `arg`, with
    /// its function last.
    pub fn map_many(self, arg: MapArg<types::Stream>) -> (c: Command<types::Stream, ()>)
        ensures
            op_shape(c.0.term(), TermType::MapOp.spec_code(), 1 + arg.0@.len()),
            self.finishes_as(c.0.term().args()[0]),
            forall|i: int| 0 <= i < arg.0@.len() ==> c.0.term().args()[i + 1] == #[trigger] arg.0@[i].0,
            c.1 is None,
    {
        let ghost a = arg.0@;
        let args = terms_of(arg.0);
        let c: Command<types::Stream, ()> = self.chain(TermType::MapOp, args, None);
        assert forall|i: int| 0 <= i < a.len() implies c.0.term().args()[i + 1] == #[trigger] a[i].0 by {
            assert(c.0.term().args()[i + 1] == args@[i]);
        }
        c
    }
}

} // verus!
