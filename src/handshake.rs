//! Session handshake: protocol version, then a SCRAM-SHA-256 exchange in
//! NUL-terminated JSON messages. The SCRAM computations themselves are
//! done by the `scram` crate.

use vstd::prelude::*;
use vstd::utf8::{decode_utf8, encode_utf8, valid_utf8};
use crate::encode::{push_quoted, push_utf8, quoted};
use crate::protocol::{le_bytes, ConnectionError, DriverError, ReqlError};
use crate::scram_glue::{
    client_final_of, fields_ok, is_client_first, scram_client, scram_client_final, scram_client_first,
    scram_error_text, scram_handle_server_final, scram_handle_server_first,
    server_final_accepted, server_first_fields_ok, two_byte_prefix_ok, ScramFinal, ScramFirst,
};

verus! {

/// Relies on String::from_utf8: the text of `b` when `b` is valid UTF-8.
#[verifier::external_body]
pub(crate) fn utf8_text(b: Vec<u8>) -> (r: Option<String>)
    ensures
        r is Some <==> valid_utf8(b@),
        r matches Some(s) ==> s@ == decode_utf8(b@),
{
    String::from_utf8(b).ok()
}

/// Settings for connecting to the database servers.
#[derive(Debug, Clone)]
pub struct ConnectionOpts {
    pub servers: Vec<String>,
    pub db: String,
    pub user: String,
    pub password: String,
    pub retries: u8,
    pub ssl: Option<SslCfg>,
    pub server: Option<String>,
}

/// TLS settings.
#[derive(Debug, Clone)]
pub struct SslCfg {
    pub ca_certs: String,
}

impl Default for ConnectionOpts {
    fn default() -> (o: ConnectionOpts)
        ensures
            o.servers@.len() == 1,
            o.servers@[0]@ == "localhost:28015"@,
            o.db@ == "test"@,
            o.user@ == "admin"@,
            o.password@ == ""@,
            o.retries == 5,
            o.ssl is None,
            o.server is None,
    {
        let mut servers: Vec<String> = Vec::new();
        servers.push(String::from_str("localhost:28015"));
        ConnectionOpts {
            servers,
            db: String::from_str("test"),
            user: String::from_str("admin"),
            password: String::from_str(""),
            retries: 5,
            ssl: None,
            server: None,
        }
    }
}

/// The server that was selected to connect to.
pub fn selected_server(opts: &ConnectionOpts) -> (res: Result<String, ReqlError>)
    ensures
        opts.server is None ==> (res matches Err(ReqlError::Connection(ConnectionError::Other(m)))
            && m@ == "No server selected."@),
        opts.server matches Some(s) ==> (res matches Ok(t) && t@ == s@),
{
    match &opts.server {
        Some(s) => Ok(s.clone()),
        None => Err(ReqlError::Connection(ConnectionError::Other(String::from_str("No server selected.")))),
    }
}

/// The code of protocol version 1.0.
pub const PROTOCOL_V1_0: u32 = 0x34c2bdc3;

/// The first bytes the client sends: the protocol version, little-endian.
pub fn version_bytes() -> (b: Vec<u8>)
    ensures
        b@ == le_bytes(PROTOCOL_V1_0 as nat, 4),
{
    let mut b: Vec<u8> = Vec::new();
    b.push(0xc3);
    b.push(0xbd);
    b.push(0xc2);
    b.push(0x34);
    proof {
        reveal_with_fuel(le_bytes, 5);
    }
    assert(b@ =~= le_bytes(PROTOCOL_V1_0 as nat, 4));
    b
}

/// The text of one server handshake message, read up to and including its
/// NUL terminator: refused when empty, not UTF-8 or not a JSON object.
pub fn parse_server_response(bytes: Vec<u8>) -> (res: Result<String, ReqlError>)
    ensures
        ({
            let body = if bytes@.len() > 0 && bytes@.last() == 0 {
                bytes@.drop_last()
            } else {
                bytes@
            };
            &&& body.len() == 0 ==> (res matches Err(ReqlError::Connection(ConnectionError::Other(m)))
                && m@ == "unable to connect for an unknown reason"@)
            &&& body.len() > 0 && !valid_utf8(body) ==> (res matches Err(ReqlError::Connection(ConnectionError::Other(m)))
                && m@ == "the server's answer is not UTF-8"@)
            &&& body.len() > 0 && valid_utf8(body) && body[0] != 123 ==> (res matches Err(ReqlError::Connection(ConnectionError::Other(m))) && m@ == decode_utf8(body))
            &&& body.len() > 0 && valid_utf8(body) && body[0] == 123 ==> (res matches Ok(s) && s@ == decode_utf8(body))
        }),
{
    let mut b = bytes;
    let n = b.len();
    if n > 0 && b[n - 1] == 0 {
        b.pop();
    }
    if b.len() == 0 {
        return Err(ReqlError::Connection(ConnectionError::Other(String::from_str("unable to connect for an unknown reason"))));
    }
    let first = b[0];
    match utf8_text(b) {
        None => Err(ReqlError::Connection(ConnectionError::Other(String::from_str("the server's answer is not UTF-8")))),
        Some(s) => {
            if first == 123 {
                Ok(s)
            } else {
                Err(ReqlError::Connection(ConnectionError::Other(s)))
            }
        },
    }
}

/// The server's answer to the protocol version: refused with its own text
/// unless it reports success.
pub fn check_server_info(success: bool, raw: String) -> (res: Result<(), ReqlError>)
    ensures
        success ==> res is Ok,
        !success ==> res == Err::<(), ReqlError>(ReqlError::Connection(ConnectionError::Other(raw))),
{
    if success {
        Ok(())
    } else {
        Err(ReqlError::Connection(ConnectionError::Other(raw)))
    }
}

/// The fields of a server authentication reply.
#[derive(Debug)]
pub struct AuthReply {
    pub success: bool,
    pub authentication: Option<String>,
    pub error_code: Option<u64>,
    pub error: Option<String>,
}

/// The error of a rejected authentication step: an authentication failure
/// when the code is in 10..=20, a connection failure otherwise; its message
/// is the reply's own, or else the whole reply text.
pub open spec fn auth_failure(code: Option<u64>, error: Option<String>, raw: String) -> ReqlError {
    let m = match error {
        Some(e) => e,
        None => raw,
    };
    if code matches Some(c) && 10 <= c <= 20 {
        ReqlError::Driver(DriverError::Auth(m))
    } else {
        ReqlError::Connection(ConnectionError::Other(m))
    }
}

/// Checks an authentication reply; on success, its SCRAM payload if any.
pub fn check_auth_reply(reply: AuthReply, raw: String) -> (res: Result<Option<String>, ReqlError>)
    ensures
        reply.success ==> res == Ok::<Option<String>, ReqlError>(reply.authentication),
        !reply.success ==> res == Err::<Option<String>, ReqlError>(auth_failure(reply.error_code, reply.error, raw)),
{
    let AuthReply { success, authentication, error_code, error } = reply;
    if success {
        return Ok(authentication);
    }
    let m = match error {
        Some(e) => e,
        None => raw,
    };
    match error_code {
        Some(c) => {
            if 10 <= c && c <= 20 {
                return Err(ReqlError::Driver(DriverError::Auth(m)));
            }
        },
        None => {},
    }
    Err(ReqlError::Connection(ConnectionError::Other(m)))
}

pub open spec fn auth_request_head() -> Seq<char> {
    "{\"protocol_version\":0,\"authentication_method\":\"SCRAM-SHA-256\",\"authentication\":"@
}

/// The client-first message: a JSON authentication request carrying the
/// SCRAM payload `m`, NUL-terminated.
pub open spec fn auth_request(m: Seq<char>) -> Seq<u8> {
    encode_utf8(auth_request_head()) + quoted(m) + seq![125u8, 0u8]
}

/// The client-final message: a JSON object carrying the SCRAM payload `m`,
/// NUL-terminated.
pub open spec fn auth_confirmation(m: Seq<char>) -> Seq<u8> {
    encode_utf8("{\"authentication\":"@) + quoted(m) + seq![125u8, 0u8]
}

/// Frames a SCRAM client-first payload as the first authentication message.
pub fn auth_request_bytes(m: &str) -> (b: Vec<u8>)
    ensures
        b@ == auth_request(m@),
{
    let mut b: Vec<u8> = Vec::new();
    push_utf8(&mut b, "{\"protocol_version\":0,\"authentication_method\":\"SCRAM-SHA-256\",\"authentication\":");
    push_quoted(&mut b, m);
    b.push(125);
    b.push(0);
    assert(b@ =~= auth_request(m@));
    b
}

/// Frames a SCRAM client-final payload as the final authentication message.
pub fn auth_confirmation_bytes(m: &str) -> (b: Vec<u8>)
    ensures
        b@ == auth_confirmation(m@),
{
    let mut b: Vec<u8> = Vec::new();
    push_utf8(&mut b, "{\"authentication\":");
    push_quoted(&mut b, m);
    b.push(125);
    b.push(0);
    assert(b@ =~= auth_confirmation(m@));
    b
}

/// Starts the SCRAM exchange for the configured credentials: the state to
/// continue from, and the first authentication message, which carries the
/// client-first payload `n,,n=<user>,r=<nonce>` with a random nonce.
pub fn client_first<'a>(opts: &'a ConnectionOpts) -> (res: (ScramFirst<'a>, Vec<u8>))
    ensures
        res.0.password() == opts.password@,
        is_client_first(res.0.client_first(), opts.user@),
        res.1@ == auth_request(res.0.client_first()),
{
    let c = scram_client(opts.user.as_str(), opts.password.as_str());
    let state = scram_client_first(c);
    let b = auth_request_bytes(state.client_first_text());
    (state, b)
}

/// Answers the server-first reply: the state that checks the server's
/// signature and the final authentication message.
pub fn client_final<'a>(state: ScramFirst<'a>, reply: AuthReply, raw: String) -> (res: Result<
    (ScramFinal, Vec<u8>),
    ReqlError,
>)
    ensures
        !reply.success ==> (res matches Err(e) && e == auth_failure(
            reply.error_code,
            reply.error,
            raw,
        )),
        reply.success && reply.authentication is None ==> (res matches Err(
            ReqlError::Connection(ConnectionError::Other(m)),
        ) && m@ == "Server did not send authentication info."@),
        reply.success && reply.authentication is Some ==> {
            let a = reply.authentication->0;
            let answer = client_final_of(state.password(), state.client_first(), a@);
            &&& !fields_ok(encode_utf8(a@), 3) ==> (res matches Err(
                ReqlError::Driver(DriverError::Other(m)),
            ) && m@ == "malformed server-first message"@)
            &&& fields_ok(encode_utf8(a@), 3) && answer is None ==> (res matches Err(
                ReqlError::Driver(DriverError::Auth(_)),
            ))
            &&& fields_ok(encode_utf8(a@), 3) && answer is Some ==> (res matches Ok((f, b)) && b@
                == auth_confirmation(answer->0) && f.password() == state.password()
                && f.client_first() == state.client_first() && f.server_first() == a@)
        },
{
    let auth = match check_auth_reply(reply, raw) {
        Err(e) => return Err(e),
        Ok(None) => return Err(
            ReqlError::Connection(
                ConnectionError::Other(String::from_str("Server did not send authentication info.")),
            ),
        ),
        Ok(Some(a)) => a,
    };
    if !server_first_fields_ok(auth.as_str()) {
        return Err(ReqlError::Driver(DriverError::Other(String::from_str("malformed server-first message"))));
    }
    match scram_handle_server_first(state, auth.as_str()) {
        Err(e) => Err(ReqlError::Driver(DriverError::Auth(scram_error_text(e)))),
        Ok(proof) => {
            let (fin, m) = scram_client_final(proof);
            let b = auth_confirmation_bytes(m.as_str());
            Ok((fin, b))
        },
    }
}

/// Checks the server-final reply: a successful reply must carry the
/// server's signature, and that signature must be the one the exchange
/// computed.
pub fn parse_server_final(state: ScramFinal, reply: AuthReply, raw: String) -> (res: Result<(), ReqlError>)
    ensures
        !reply.success ==> (res matches Err(e) && e == auth_failure(
            reply.error_code,
            reply.error,
            raw,
        )),
        reply.success && reply.authentication is None ==> (res matches Err(
            ReqlError::Driver(DriverError::Auth(m)),
        ) && m@ == "Server did not send its final signature."@),
        reply.success && reply.authentication is Some ==> {
            let a = reply.authentication->0;
            &&& !two_byte_prefix_ok(encode_utf8(a@)) ==> (res matches Err(
                ReqlError::Driver(DriverError::Other(m)),
            ) && m@ == "malformed server-final message"@)
            &&& two_byte_prefix_ok(encode_utf8(a@)) ==> (res is Ok <==> server_final_accepted(
                state.password(),
                state.client_first(),
                state.server_first(),
                a@,
            ))
            &&& two_byte_prefix_ok(encode_utf8(a@)) && res is Err ==> (res matches Err(
                ReqlError::Driver(DriverError::Auth(_)),
            ))
        },
{
    let auth = match check_auth_reply(reply, raw) {
        Err(e) => return Err(e),
        Ok(None) => return Err(
            ReqlError::Driver(DriverError::Auth(String::from_str("Server did not send its final signature."))),
        ),
        Ok(Some(a)) => a,
    };
    let b = auth.as_str().as_bytes();
    if b.len() > 2 && b[2] >= 128 && b[2] < 192 {
        return Err(ReqlError::Driver(DriverError::Other(String::from_str("malformed server-final message"))));
    }
    match scram_handle_server_final(state, auth.as_str()) {
        Err(e) => Err(ReqlError::Driver(DriverError::Auth(scram_error_text(e)))),
        Ok(()) => Ok(()),
    }
}

} // verus!
