//! Wire-level protocol: message codes, framing, the error taxonomy, the
//! classification of responses and the rule for what may be retried.

use vstd::prelude::*;
use crate::encode::digits;

verus! {

/// What a query envelope asks of the server.
#[derive(Debug, Clone, Copy, PartialEq, Eq, Structural)]
pub enum QueryType {
    Start,
    Continue,
    Stop,
}

impl QueryType {
    pub open spec fn spec_code(self) -> u8 {
        match self {
            QueryType::Start => 1,
            QueryType::Continue => 2,
            QueryType::Stop => 3,
        }
    }

    #[verifier::when_used_as_spec(spec_code)]
    pub fn code(self) -> (c: u8)
        ensures
            c == self.spec_code(),
    {
        match self {
            QueryType::Start => 1,
            QueryType::Continue => 2,
            QueryType::Stop => 3,
        }
    }
}

/// The kind of a response.
#[derive(Debug, Clone, Copy, PartialEq, Eq, Structural)]
pub enum ResponseType {
    SuccessAtom,
    SuccessSequence,
    SuccessPartial,
    WaitComplete,
    ServerInfo,
    ClientError,
    CompileError,
    RuntimeError,
}

impl ResponseType {
    pub open spec fn spec_from_code(c: i64) -> Option<ResponseType> {
        if c == 1 {
            Some(ResponseType::SuccessAtom)
        } else if c == 2 {
            Some(ResponseType::SuccessSequence)
        } else if c == 3 {
            Some(ResponseType::SuccessPartial)
        } else if c == 4 {
            Some(ResponseType::WaitComplete)
        } else if c == 5 {
            Some(ResponseType::ServerInfo)
        } else if c == 16 {
            Some(ResponseType::ClientError)
        } else if c == 17 {
            Some(ResponseType::CompileError)
        } else if c == 18 {
            Some(ResponseType::RuntimeError)
        } else {
            None
        }
    }

    /// The response kind with wire code `c`, if there is one.
    pub fn from_code(c: i64) -> (t: Option<ResponseType>)
        ensures
            t == ResponseType::spec_from_code(c),
    {
        if c == 1 {
            Some(ResponseType::SuccessAtom)
        } else if c == 2 {
            Some(ResponseType::SuccessSequence)
        } else if c == 3 {
            Some(ResponseType::SuccessPartial)
        } else if c == 4 {
            Some(ResponseType::WaitComplete)
        } else if c == 5 {
            Some(ResponseType::ServerInfo)
        } else if c == 16 {
            Some(ResponseType::ClientError)
        } else if c == 17 {
            Some(ResponseType::CompileError)
        } else if c == 18 {
            Some(ResponseType::RuntimeError)
        } else {
            None
        }
    }

    pub open spec fn is_generic_error(self) -> bool {
        self == ResponseType::ClientError || self == ResponseType::CompileError || self
            == ResponseType::RuntimeError
    }
}

/// The subtype of a server-reported error.
#[derive(Debug, Clone, Copy, PartialEq, Eq, Structural)]
pub enum ErrorType {
    Internal,
    ResourceLimit,
    QueryLogic,
    NonExistence,
    OpFailed,
    OpIndeterminate,
    User,
    PermissionError,
}

impl ErrorType {
    pub open spec fn spec_from_code(c: i64) -> Option<ErrorType> {
        if c == 1000000 {
            Some(ErrorType::Internal)
        } else if c == 2000000 {
            Some(ErrorType::ResourceLimit)
        } else if c == 3000000 {
            Some(ErrorType::QueryLogic)
        } else if c == 3100000 {
            Some(ErrorType::NonExistence)
        } else if c == 4100000 {
            Some(ErrorType::OpFailed)
        } else if c == 4200000 {
            Some(ErrorType::OpIndeterminate)
        } else if c == 5000000 {
            Some(ErrorType::User)
        } else if c == 6000000 {
            Some(ErrorType::PermissionError)
        } else {
            None
        }
    }

    /// The error subtype with wire code `c`, if there is one.
    pub fn from_code(c: i64) -> (t: Option<ErrorType>)
        ensures
            t == ErrorType::spec_from_code(c),
    {
        if c == 1000000 {
            Some(ErrorType::Internal)
        } else if c == 2000000 {
            Some(ErrorType::ResourceLimit)
        } else if c == 3000000 {
            Some(ErrorType::QueryLogic)
        } else if c == 3100000 {
            Some(ErrorType::NonExistence)
        } else if c == 4100000 {
            Some(ErrorType::OpFailed)
        } else if c == 4200000 {
            Some(ErrorType::OpIndeterminate)
        } else if c == 5000000 {
            Some(ErrorType::User)
        } else if c == 6000000 {
            Some(ErrorType::PermissionError)
        } else {
            None
        }
    }
}

/// Transport or handshake failures that are not about credentials.
#[derive(Debug)]
pub enum ConnectionError {
    Io(String),
    Other(String),
}

/// Failures on the client's side of the protocol.
#[derive(Debug)]
pub enum DriverError {
    Auth(String),
    Other(String),
}

/// A response whose payload has none of the expected shapes; holds the
/// payload's JSON text.
#[derive(Debug)]
pub enum ResponseError {
    Db(String),
}

/// The operation could not be done, or may or may not have been done.
#[derive(Debug)]
pub enum AvailabilityError {
    OpFailed(String),
    OpIndeterminate(String),
}

/// Errors the server reports while running a query.
#[derive(Debug)]
pub enum RuntimeError {
    Internal(String),
    ResourceLimit(String),
    QueryLogic(String),
    NonExistence(String),
    User(String),
    Permission(String),
    Availability(AvailabilityError),
}

/// Every failure this library reports.
#[derive(Debug)]
pub enum ReqlError {
    Compile(String),
    Runtime(RuntimeError),
    Driver(DriverError),
    Connection(ConnectionError),
    Response(ResponseError),
}

/// The error that a server error subtype `k` stands for, with message `msg`.
pub open spec fn subtype_error(k: ErrorType, msg: String) -> ReqlError {
    match k {
        ErrorType::Internal => ReqlError::Runtime(RuntimeError::Internal(msg)),
        ErrorType::ResourceLimit => ReqlError::Runtime(RuntimeError::ResourceLimit(msg)),
        ErrorType::QueryLogic => ReqlError::Runtime(RuntimeError::QueryLogic(msg)),
        ErrorType::NonExistence => ReqlError::Runtime(RuntimeError::NonExistence(msg)),
        ErrorType::OpFailed => ReqlError::Runtime(
            RuntimeError::Availability(AvailabilityError::OpFailed(msg)),
        ),
        ErrorType::OpIndeterminate => ReqlError::Runtime(
            RuntimeError::Availability(AvailabilityError::OpIndeterminate(msg)),
        ),
        ErrorType::User => ReqlError::Runtime(RuntimeError::User(msg)),
        ErrorType::PermissionError => ReqlError::Runtime(RuntimeError::Permission(msg)),
    }
}

/// The outcome of a response of known kind `t`, with error subtype code
/// `e`, sole message `msg` (present when the payload is an array of exactly
/// one string) and payload text `raw`.
pub open spec fn classify_known(
    t: ResponseType,
    e: Option<i64>,
    msg: Option<String>,
    raw: String,
) -> Result<ResponseType, ReqlError> {
    if (e is Some || t.is_generic_error()) && msg is None {
        Err(ReqlError::Response(ResponseError::Db(raw)))
    } else if e is Some {
        match ErrorType::spec_from_code(e->0) {
            Some(k) => Err(subtype_error(k, msg->0)),
            None => Err(ReqlError::Response(ResponseError::Db(raw))),
        }
    } else if t == ResponseType::ClientError {
        Err(ReqlError::Driver(DriverError::Other(msg->0)))
    } else if t == ResponseType::CompileError {
        Err(ReqlError::Compile(msg->0))
    } else if t == ResponseType::RuntimeError {
        Err(ReqlError::Response(ResponseError::Db(raw)))
    } else {
        Ok(t)
    }
}

/// Classifies a decoded response envelope: its kind on success, else the
/// error it reports.
pub fn classify_response(t: i64, e: Option<i64>, msg: Option<String>, raw: String) -> (res: Result<
    ResponseType,
    ReqlError,
>)
    ensures
        ResponseType::spec_from_code(t) is None ==> (res matches Err(
            ReqlError::Driver(DriverError::Other(m)),
        ) && exists|code: String|
            vstd::string::to_string_from_display_ensures::<i64>(&t, code) && m@
                == "Unsupported response type ("@ + code@ + "), returned by the database."@),
        ResponseType::spec_from_code(t) is Some ==> res == classify_known(
            ResponseType::spec_from_code(t)->0,
            e,
            msg,
            raw,
        ),
{
    let kind = match ResponseType::from_code(t) {
        Some(k) => k,
        None => {
            let mut m = String::from_str("Unsupported response type (");
            let code = t.to_string();
            m.append(code.as_str());
            m.append("), returned by the database.");
            return Err(ReqlError::Driver(DriverError::Other(m)));
        },
    };
    let generic = match kind {
        ResponseType::ClientError | ResponseType::CompileError | ResponseType::RuntimeError => true,
        _ => false,
    };
    if e.is_some() || generic {
        let m = match msg {
            Some(m) => m,
            None => {
                return Err(ReqlError::Response(ResponseError::Db(raw)));
            },
        };
        match e {
            Some(code) => {
                return match ErrorType::from_code(code) {
                    Some(ErrorType::Internal) => Err(ReqlError::Runtime(RuntimeError::Internal(m))),
                    Some(ErrorType::ResourceLimit) => Err(
                        ReqlError::Runtime(RuntimeError::ResourceLimit(m)),
                    ),
                    Some(ErrorType::QueryLogic) => Err(ReqlError::Runtime(RuntimeError::QueryLogic(m))),
                    Some(ErrorType::NonExistence) => Err(
                        ReqlError::Runtime(RuntimeError::NonExistence(m)),
                    ),
                    Some(ErrorType::OpFailed) => Err(
                        ReqlError::Runtime(RuntimeError::Availability(AvailabilityError::OpFailed(m))),
                    ),
                    Some(ErrorType::OpIndeterminate) => Err(
                        ReqlError::Runtime(
                            RuntimeError::Availability(AvailabilityError::OpIndeterminate(m)),
                        ),
                    ),
                    Some(ErrorType::User) => Err(ReqlError::Runtime(RuntimeError::User(m))),
                    Some(ErrorType::PermissionError) => Err(
                        ReqlError::Runtime(RuntimeError::Permission(m)),
                    ),
                    None => Err(ReqlError::Response(ResponseError::Db(raw))),
                };
            },
            None => {},
        }
        match kind {
            ResponseType::ClientError => Err(ReqlError::Driver(DriverError::Other(m))),
            ResponseType::CompileError => Err(ReqlError::Compile(m)),
            _ => Err(ReqlError::Response(ResponseError::Db(raw))),
        }
    } else {
        Ok(kind)
    }
}

/// The sole message of an error payload: present when the payload is an
/// array (`items` holds, for each element, its text where it is a string)
/// of exactly one element, and that element is a string.
pub fn sole_message(items: Option<Vec<Option<String>>>) -> (m: Option<String>)
    ensures
        m == (match items {
            Some(v) => if v@.len() == 1 {
                v@[0]
            } else {
                None
            },
            None => None,
        }),
{
    match items {
        Some(mut v) => {
            if v.len() == 1 {
                v.pop().unwrap()
            } else {
                None
            }
        },
        None => None,
    }
}

/// The status record that a write command returns.
#[derive(Debug, Clone)]
pub struct WriteStatus {
    pub inserted: u32,
    pub replaced: u32,
    pub unchanged: u32,
    pub skipped: u32,
    pub deleted: u32,
    pub errors: u32,
    pub first_error: Option<String>,
    pub generated_keys: Option<Vec<String>>,
    pub warnings: Option<Vec<String>>,
    /// The `changes` value, as JSON text.
    pub changes: Option<String>,
}

/// The message of a write that failed because a shard's primary replica
/// could not be reached.
pub open spec fn shard_unavailable_prefix() -> Seq<char> {
    "Cannot perform write: primary replica for shard"@
}

pub open spec fn starts_with(s: Seq<char>, p: Seq<char>) -> bool {
    p.len() <= s.len() && s.subrange(0, p.len() as int) == p
}

pub open spec fn spec_is_retryable(e: ReqlError) -> bool {
    match e {
        ReqlError::Connection(_) => true,
        ReqlError::Runtime(RuntimeError::Availability(AvailabilityError::OpFailed(m))) => starts_with(
            m@,
            shard_unavailable_prefix(),
        ),
        _ => false,
    }
}

fn has_prefix(s: &str, p: &str) -> (b: bool)
    ensures
        b == starts_with(s@, p@),
{
    let n = p.unicode_len();
    if n > s.unicode_len() {
        return false;
    }
    let mut i: usize = 0;
    while i < n
        invariant
            n == p@.len(),
            n <= s@.len(),
            i <= n,
            forall|j: int| 0 <= j < i ==> s@[j] == p@[j],
        decreases n - i,
    {
        if s.get_char(i) != p.get_char(i) {
            assert(s@.subrange(0, n as int)[i as int] != p@[i as int]);
            return false;
        }
        i += 1;
    }
    assert(s@.subrange(0, n as int) =~= p@);
    true
}

/// Whether a dispatch that failed with `e` may be tried again on a new
/// connection: transport failures, and writes refused because a shard's
/// primary replica is unavailable.
pub fn is_retryable(e: &ReqlError) -> (b: bool)
    ensures
        b == spec_is_retryable(*e),
{
    match e {
        ReqlError::Connection(_) => true,
        ReqlError::Runtime(RuntimeError::Availability(AvailabilityError::OpFailed(m))) => {
            has_prefix(m.as_str(), "Cannot perform write: primary replica for shard")
        },
        _ => false,
    }
}

/// The `k` low bytes of `n`, least significant first.
pub open spec fn le_bytes(n: nat, k: nat) -> Seq<u8>
    decreases k,
{
    if k == 0 {
        Seq::empty()
    } else {
        seq![(n % 256) as u8] + le_bytes(n / 256, (k - 1) as nat)
    }
}

/// The number whose little-endian bytes are `s`.
pub open spec fn le_value(s: Seq<u8>) -> nat
    decreases s.len(),
{
    if s.len() == 0 {
        0
    } else {
        s[0] as nat + 256 * le_value(s.drop_first())
    }
}

pub open spec fn pow256(k: nat) -> nat
    decreases k,
{
    if k == 0 {
        1
    } else {
        256 * pow256((k - 1) as nat)
    }
}

proof fn lemma_le_value_bound(s: Seq<u8>)
    ensures
        le_value(s) < pow256(s.len()),
    decreases s.len(),
{
    if s.len() > 0 {
        lemma_le_value_bound(s.drop_first());
        let a = s[0] as nat;
        let b = le_value(s.drop_first());
        let p = pow256((s.len() - 1) as nat);
        assert(a + 256 * b < 256 * p) by (nonlinear_arith)
            requires
                a < 256,
                b < p,
        ;
    }
}

fn push_le(out: &mut Vec<u8>, n: u64, k: usize)
    ensures
        final(out)@ == old(out)@ + le_bytes(n as nat, k as nat),
    decreases k,
{
    if k > 0 {
        out.push((n % 256) as u8);
        push_le(out, n / 256, k - 1);
        assert(final(out)@ =~= old(out)@ + le_bytes(n as nat, k as nat));
    } else {
        assert(final(out)@ =~= old(out)@ + le_bytes(n as nat, k as nat));
    }
}

/// A query envelope on the wire: the token as 8 little-endian bytes, the
/// payload's length as 4 little-endian bytes, then the payload. A payload
/// too long for its length field is refused.
pub fn frame_query(token: u64, payload: &Vec<u8>) -> (res: Result<Vec<u8>, ReqlError>)
    ensures
        payload@.len() > u32::MAX ==> res matches Err(ReqlError::Driver(DriverError::Other(_))),
        payload@.len() <= u32::MAX ==> (res matches Ok(b) && b@ == le_bytes(token as nat, 8)
            + le_bytes(payload@.len(), 4) + payload@),
{
    if payload.len() > 0xffff_ffff {
        return Err(ReqlError::Driver(DriverError::Other(String::from_str("query too large to frame"))));
    }
    let mut out: Vec<u8> = Vec::new();
    push_le(&mut out, token, 8);
    push_le(&mut out, payload.len() as u64, 4);
    let mut i: usize = 0;
    let ghost head = out@;
    while i < payload.len()
        invariant
            i <= payload@.len(),
            out@ == head + payload@.subrange(0, i as int),
        decreases payload.len() - i,
    {
        out.push(payload[i]);
        assert(out@ =~= head + payload@.subrange(0, i + 1));
        i += 1;
    }
    assert(payload@.subrange(0, payload@.len() as int) =~= payload@);
    Ok(out)
}

fn read_le(b: &[u8], start: usize, k: usize) -> (v: u64)
    requires
        k <= 8,
        start + k <= b@.len(),
    ensures
        v as nat == le_value(b@.subrange(start as int, start + k)),
{
    let n: usize = b.len();
    let mut v: u64 = 0;
    let mut i: usize = k;
    while i > 0
        invariant
            i <= k <= 8,
            start + k <= b@.len(),
            n == b@.len(),
            v as nat == le_value(b@.subrange(start + i, start + k)),
        decreases i,
    {
        let ghost s = b@.subrange(start + i - 1, start + k);
        proof {
            assert(s.drop_first() =~= b@.subrange(start + i, start + k));
            lemma_le_value_bound(s);
            lemma_pow256_values();
            lemma_pow256_mono(s.len(), 8);
        }
        let idx: usize = start + (i - 1);
        v = (b[idx] as u64) + 256 * v;
        i -= 1;
    }
    v
}

proof fn lemma_pow256_values()
    ensures
        pow256(4) == 0x1_0000_0000,
        pow256(8) == 0x1_0000_0000_0000_0000,
{
    assert(pow256(0) == 1);
    assert(pow256(1) == 0x100);
    assert(pow256(2) == 0x1_0000);
    assert(pow256(3) == 0x100_0000);
    assert(pow256(4) == 0x1_0000_0000);
    assert(pow256(5) == 0x100_0000_0000);
    assert(pow256(6) == 0x1_0000_0000_0000);
    assert(pow256(7) == 0x100_0000_0000_0000);
    assert(pow256(8) == 0x1_0000_0000_0000_0000);
}

proof fn lemma_pow256_mono(a: nat, b: nat)
    requires
        a <= b,
    ensures
        pow256(a) <= pow256(b),
    decreases b,
{
    if a < b {
        lemma_pow256_mono(a, (b - 1) as nat);
    }
}

/// The token and payload length of a response header.
pub fn parse_header(h: &[u8]) -> (r: (u64, u32))
    requires
        h@.len() >= 12,
    ensures
        r.0 as nat == le_value(h@.subrange(0, 8)),
        r.1 as nat == le_value(h@.subrange(8, 12)),
{
    let token = read_le(h, 0, 8);
    let len = read_le(h, 8, 4);
    proof {
        lemma_le_value_bound(h@.subrange(8, 12));
        lemma_pow256_values();
    }
    (token, len as u32)
}

/// The payload of a query envelope: `[type]`, `[type,query]` or
/// `[type,query,options]`, as `query_type_code ("," query)? ("," options)?`
/// between brackets.
pub fn wrap_query(query_type: QueryType, query: Option<Vec<u8>>, options: Option<Vec<u8>>) -> (b:
    Vec<u8>)
    ensures
        b@ == seq![91u8] + digits(query_type.spec_code() as nat) + (match query {
            Some(q) => seq![44u8] + q@,
            None => Seq::empty(),
        }) + (match options {
            Some(o) => seq![44u8] + o@,
            None => Seq::empty(),
        }) + seq![93u8],
{
    let mut b: Vec<u8> = Vec::new();
    b.push(91);
    b.push(48 + query_type.code());
    let ghost a = b@;
    assert(a =~= seq![91u8] + digits(query_type.spec_code() as nat));
    match query {
        Some(q) => {
            b.push(44);
            let mut q = q;
            b.append(&mut q);
        },
        None => {},
    }
    match options {
        Some(o) => {
            b.push(44);
            let mut o = o;
            b.append(&mut o);
        },
        None => {},
    }
    b.push(93);
    assert(b@ =~= seq![91u8] + digits(query_type.spec_code() as nat) + (match query {
        Some(q) => seq![44u8] + q@,
        None => Seq::empty(),
    }) + (match options {
        Some(o) => seq![44u8] + o@,
        None => Seq::empty(),
    }) + seq![93u8]);
    b
}

} // verus!
