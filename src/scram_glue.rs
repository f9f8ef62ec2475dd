//! The calls into the `scram` crate that the handshake makes. Each SCRAM
//! state travels with plain copies of what scram computes from (password,
//! client-first message, server-first message), so contracts can speak of
//! it. The fields are private and only the wrappers below set them, so the
//! copies always belong to the state beside them.

use vstd::prelude::*;
use vstd::utf8::encode_utf8;
use scram::client::{ClientFinal, ServerFinal, ServerFirst};
use scram::ScramClient;

verus! {

#[verifier::external_type_specification]
#[verifier::external_body]
pub struct ExScramClient<'a>(ScramClient<'a>);

#[verifier::external_type_specification]
#[verifier::external_body]
pub struct ExServerFirst<'a>(ServerFirst<'a>);

#[verifier::external_type_specification]
#[verifier::external_body]
pub struct ExClientFinal(ClientFinal);

#[verifier::external_type_specification]
#[verifier::external_body]
pub struct ExServerFinal(ServerFinal);

#[verifier::external_type_specification]
#[verifier::external_body]
pub struct ExScramError(scram::Error);

/// The client-final message that scram computes for a password, the
/// client-first message and the server-first message; None where scram
/// refuses the server-first message (malformed, unknown extension, or a
/// nonce that does not extend the client's).
pub uninterp spec fn client_final_of(
    password: Seq<char>,
    client_first: Seq<char>,
    server_first: Seq<char>,
) -> Option<Seq<char>>;

/// Whether scram accepts a server-final message: it carries the server
/// signature that follows from the password and the two earlier messages.
pub uninterp spec fn server_final_accepted(
    password: Seq<char>,
    client_first: Seq<char>,
    server_first: Seq<char>,
    server_final: Seq<char>,
) -> bool;

/// A nonce as scram draws it: 24 characters from `!` to `}`, never `,`.
pub open spec fn is_nonce(n: Seq<char>) -> bool {
    &&& n.len() == 24
    &&& forall|i: int| 0 <= i < 24 ==> '!' <= #[trigger] n[i] <= '}' && n[i] != ','
}

/// `m` is the client-first message for `user` with no authorization
/// identity: `n,,n=`, the user name, `,r=` and a nonce.
pub open spec fn is_client_first(m: Seq<char>, user: Seq<char>) -> bool {
    exists|nonce: Seq<char>| is_nonce(nonce) && m == "n,,n="@ + user + ",r="@ + nonce
}

/// The SCRAM state before the first message, for `user` and `password`,
/// with no authorization identity.
pub struct ScramStart<'a> {
    client: ScramClient<'a>,
    user: String,
    password: String,
}

impl<'a> ScramStart<'a> {
    pub closed spec fn user(&self) -> Seq<char> {
        self.user@
    }

    pub closed spec fn password(&self) -> Seq<char> {
        self.password@
    }
}

/// The SCRAM state that waits for the server-first message.
pub struct ScramFirst<'a> {
    inner: ServerFirst<'a>,
    password: String,
    client_first: String,
}

impl<'a> ScramFirst<'a> {
    pub closed spec fn password(&self) -> Seq<char> {
        self.password@
    }

    pub closed spec fn client_first(&self) -> Seq<char> {
        self.client_first@
    }

    /// The client-first message.
    pub fn client_first_text(&self) -> (s: &str)
        ensures
            s@ == self.client_first(),
    {
        self.client_first.as_str()
    }
}

/// The SCRAM state that holds the client proof.
pub struct ScramProof {
    inner: ClientFinal,
    password: String,
    client_first: String,
    server_first: String,
}

impl ScramProof {
    pub closed spec fn password(&self) -> Seq<char> {
        self.password@
    }

    pub closed spec fn client_first(&self) -> Seq<char> {
        self.client_first@
    }

    pub closed spec fn server_first(&self) -> Seq<char> {
        self.server_first@
    }
}

/// The SCRAM state that checks the server's signature.
pub struct ScramFinal {
    inner: ServerFinal,
    password: String,
    client_first: String,
    server_first: String,
}

impl ScramFinal {
    pub closed spec fn password(&self) -> Seq<char> {
        self.password@
    }

    pub closed spec fn client_first(&self) -> Seq<char> {
        self.client_first@
    }

    pub closed spec fn server_first(&self) -> Seq<char> {
        self.server_first@
    }
}

/// Relies on scram::ScramClient::new: the first SCRAM state for these
/// credentials, with no authorization identity and a fresh random nonce.
#[verifier::external_body]
pub(crate) fn scram_client<'a>(user: &'a str, password: &'a str) -> (s: ScramStart<'a>)
    ensures
        s.user() == user@,
        s.password() == password@,
{
    ScramStart {
        client: ScramClient::new(user, password, None),
        user: user.to_string(),
        password: password.to_string(),
    }
}

/// Relies on scram::ScramClient::client_first: with no authorization
/// identity the message is `n,,n=`, the user name as given, `,r=` and the
/// 24-character nonce drawn by `new`.
#[verifier::external_body]
pub(crate) fn scram_client_first<'a>(s: ScramStart<'a>) -> (r: ScramFirst<'a>)
    ensures
        r.password() == s.password(),
        is_client_first(r.client_first(), s.user()),
{
    let (inner, m) = s.client.client_first();
    ScramFirst { inner, password: s.password, client_first: m }
}

/// The first `k` comma-separated fields of `b` that exist have at least
/// two bytes each.
pub open spec fn fields_ok(b: Seq<u8>, k: nat) -> bool
    decreases b.len(),
{
    if k == 0 {
        true
    } else if b.len() < 2 || b[0] == 44 || b[1] == 44 {
        false
    } else {
        field_tail_ok(b.subrange(2, b.len() as int), k)
    }
}

/// The rest of the current field, then the further fields, up to field `k`.
pub open spec fn field_tail_ok(b: Seq<u8>, k: nat) -> bool
    decreases b.len(),
{
    if b.len() == 0 {
        true
    } else if b[0] == 44 {
        if k <= 1 {
            true
        } else {
            fields_ok(b.drop_first(), (k - 1) as nat)
        }
    } else {
        field_tail_ok(b.drop_first(), k)
    }
}

/// Relies on scram::ServerFirst::handle_server_first: checks the server-first
/// message and computes the client proof, from the password and the two
/// messages alone. It reads the first two bytes of each of the first three
/// fields, so shorter ones are kept out.
#[verifier::external_body]
pub(crate) fn scram_handle_server_first<'a>(s: ScramFirst<'a>, server_first: &str) -> (r: Result<
    ScramProof,
    scram::Error,
>)
    requires
        fields_ok(encode_utf8(server_first@), 3),
    ensures
        r is Ok <==> client_final_of(s.password(), s.client_first(), server_first@) is Some,
        r matches Ok(p) ==> p.password() == s.password() && p.client_first() == s.client_first()
            && p.server_first() == server_first@,
{
    match s.inner.handle_server_first(server_first) {
        Ok(cf) => Ok(
            ScramProof {
                inner: cf,
                password: s.password,
                client_first: s.client_first,
                server_first: server_first.to_string(),
            },
        ),
        Err(e) => Err(e),
    }
}

/// Relies on scram::ClientFinal::client_final: hands out the client-final
/// message that `handle_server_first` computed.
#[verifier::external_body]
pub(crate) fn scram_client_final(p: ScramProof) -> (r: (ScramFinal, String))
    requires
        client_final_of(p.password(), p.client_first(), p.server_first()) is Some,
    ensures
        r.1@ == client_final_of(p.password(), p.client_first(), p.server_first())->0,
        r.0.password() == p.password(),
        r.0.client_first() == p.client_first(),
        r.0.server_first() == p.server_first(),
{
    let (inner, m) = p.inner.client_final();
    (
        ScramFinal {
            inner,
            password: p.password,
            client_first: p.client_first,
            server_first: p.server_first,
        },
        m,
    )
}

/// The first two bytes of `b` end on a character boundary, or `b` is
/// shorter than that.
pub open spec fn two_byte_prefix_ok(b: Seq<u8>) -> bool {
    b.len() <= 2 || b[2] < 128 || b[2] >= 192
}

/// Relies on scram::ServerFinal::handle_server_final: compares the server's
/// signature with the one `handle_server_first` computed. It slices the
/// text at byte 2, which must then be a character boundary.
#[verifier::external_body]
pub(crate) fn scram_handle_server_final(f: ScramFinal, server_final: &str) -> (r: Result<
    (),
    scram::Error,
>)
    requires
        two_byte_prefix_ok(encode_utf8(server_final@)),
    ensures
        r is Ok <==> server_final_accepted(
            f.password(),
            f.client_first(),
            f.server_first(),
            server_final@,
        ),
{
    f.inner.handle_server_final(server_final)
}

/// Relies on scram::Error's Display: a readable description of the error.
#[verifier::external_body]
pub(crate) fn scram_error_text(e: scram::Error) -> String {
    e.to_string()
}

pub open spec fn suf(b: Seq<u8>, p: int) -> Seq<u8> {
    b.subrange(p, b.len() as int)
}

fn fields_ok_at(b: &[u8], p: usize, k: u8) -> (ok: bool)
    requires
        p <= b@.len(),
    ensures
        ok == fields_ok(suf(b@, p as int), k as nat),
    decreases b@.len() - p, 1nat,
{
    let n = b.len();
    let ghost x = suf(b@, p as int);
    if k == 0 {
        true
    } else if n - p < 2 || b[p] == 44 || b[p + 1] == 44 {
        false
    } else {
        assert(x.subrange(2, x.len() as int) =~= suf(b@, p + 2));
        field_tail_ok_at(b, p + 2, k)
    }
}

fn field_tail_ok_at(b: &[u8], p: usize, k: u8) -> (ok: bool)
    requires
        p <= b@.len(),
    ensures
        ok == field_tail_ok(suf(b@, p as int), k as nat),
    decreases b@.len() - p, 0nat,
{
    let n = b.len();
    let ghost x = suf(b@, p as int);
    if p == n {
        true
    } else if b[p] == 44 {
        assert(x.drop_first() =~= suf(b@, p + 1));
        if k <= 1 {
            true
        } else {
            fields_ok_at(b, p + 1, k - 1)
        }
    } else {
        assert(x.drop_first() =~= suf(b@, p + 1));
        field_tail_ok_at(b, p + 1, k)
    }
}

/// Whether the first three fields of `s` are long enough for scram to read.
pub fn server_first_fields_ok(s: &str) -> (ok: bool)
    ensures
        ok == fields_ok(encode_utf8(s@), 3),
{
    let b = s.as_bytes();
    assert(suf(b@, 0) =~= b@);
    fields_ok_at(b, 0, 3)
}

} // verus!
