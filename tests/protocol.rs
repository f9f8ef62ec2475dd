use ql2::handshake::{
    auth_confirmation_bytes, auth_request_bytes, check_auth_reply, check_server_info, client_final,
    client_first, parse_server_final, parse_server_response, selected_server, version_bytes,
    AuthReply, ConnectionOpts,
};
use ql2::scram_glue::server_first_fields_ok;
use ql2::protocol::{
    classify_response, frame_query, is_retryable, parse_header, sole_message, wrap_query,
    AvailabilityError,
    ConnectionError, DriverError, QueryType, ReqlError, ResponseError, ResponseType, RuntimeError,
};
use ql2::session::{Connection, Dispatch, Event, Step};

fn s(x: &str) -> String {
    x.to_string()
}

fn op_failed(m: &str) -> ReqlError {
    ReqlError::Runtime(RuntimeError::Availability(AvailabilityError::OpFailed(s(m))))
}

#[test]
fn wrap_query_forms() {
    assert_eq!(wrap_query(QueryType::Start, Some(b"[14]".to_vec()), None), b"[1,[14]]".to_vec());
    assert_eq!(
        wrap_query(QueryType::Start, Some(b"[14]".to_vec()), Some(b"{\"db\":1}".to_vec())),
        b"[1,[14],{\"db\":1}]".to_vec()
    );
    assert_eq!(wrap_query(QueryType::Continue, None, None), b"[2]".to_vec());
    assert_eq!(wrap_query(QueryType::Stop, None, None), b"[3]".to_vec());
}

#[test]
fn frames_are_little_endian() {
    let f = frame_query(0x0102030405060708, &b"[2]".to_vec()).unwrap();
    assert_eq!(f, vec![8, 7, 6, 5, 4, 3, 2, 1, 3, 0, 0, 0, b'[', b'2', b']']);
    let (token, len) = parse_header(&f);
    assert_eq!(token, 0x0102030405060708);
    assert_eq!(len, 3);
    let h = [0xff; 12];
    assert_eq!(parse_header(&h), (u64::MAX, u32::MAX));
    let empty = frame_query(0, &Vec::new()).unwrap();
    assert_eq!(empty, vec![0; 12]);
}

#[test]
fn response_success_kinds() {
    assert!(matches!(classify_response(1, None, None, s("[1]")), Ok(ResponseType::SuccessAtom)));
    assert!(matches!(classify_response(2, None, None, s("[]")), Ok(ResponseType::SuccessSequence)));
    assert!(matches!(classify_response(3, None, None, s("[]")), Ok(ResponseType::SuccessPartial)));
    assert!(matches!(classify_response(4, None, None, s("[]")), Ok(ResponseType::WaitComplete)));
    assert!(matches!(classify_response(5, None, None, s("{}")), Ok(ResponseType::ServerInfo)));
}

#[test]
fn response_unsupported_kind() {
    match classify_response(99, None, None, s("[]")) {
        Err(ReqlError::Driver(DriverError::Other(m))) => {
            assert_eq!(m, "Unsupported response type (99), returned by the database.")
        }
        other => panic!("{:?}", other),
    }
}

#[test]
fn response_generic_errors() {
    assert!(matches!(
        classify_response(16, None, Some(s("bad")), s("[\"bad\"]")),
        Err(ReqlError::Driver(DriverError::Other(m))) if m == "bad"
    ));
    assert!(matches!(
        classify_response(17, None, Some(s("syntax")), s("[\"syntax\"]")),
        Err(ReqlError::Compile(m)) if m == "syntax"
    ));
    assert!(matches!(
        classify_response(18, None, Some(s("x")), s("[\"x\"]")),
        Err(ReqlError::Response(ResponseError::Db(m))) if m == "[\"x\"]"
    ));
    assert!(matches!(
        classify_response(17, None, None, s("[1,2]")),
        Err(ReqlError::Response(ResponseError::Db(m))) if m == "[1,2]"
    ));
}

#[test]
fn response_error_subtypes() {
    let cases: Vec<(i64, fn(&ReqlError) -> bool)> = vec![
        (1000000, |e| matches!(e, ReqlError::Runtime(RuntimeError::Internal(m)) if m == "m")),
        (2000000, |e| matches!(e, ReqlError::Runtime(RuntimeError::ResourceLimit(m)) if m == "m")),
        (3000000, |e| matches!(e, ReqlError::Runtime(RuntimeError::QueryLogic(m)) if m == "m")),
        (3100000, |e| matches!(e, ReqlError::Runtime(RuntimeError::NonExistence(m)) if m == "m")),
        (4100000, |e| matches!(e, ReqlError::Runtime(RuntimeError::Availability(AvailabilityError::OpFailed(m))) if m == "m")),
        (4200000, |e| matches!(e, ReqlError::Runtime(RuntimeError::Availability(AvailabilityError::OpIndeterminate(m))) if m == "m")),
        (5000000, |e| matches!(e, ReqlError::Runtime(RuntimeError::User(m)) if m == "m")),
        (6000000, |e| matches!(e, ReqlError::Runtime(RuntimeError::Permission(m)) if m == "m")),
        (7, |e| matches!(e, ReqlError::Response(ResponseError::Db(m)) if m == "[\"m\"]")),
    ];
    for (code, check) in cases {
        let r = classify_response(18, Some(code), Some(s("m")), s("[\"m\"]"));
        assert!(check(r.as_ref().unwrap_err()), "{}: {:?}", code, r);
    }
    assert!(matches!(
        classify_response(1, Some(1000000), None, s("{}")),
        Err(ReqlError::Response(ResponseError::Db(m))) if m == "{}"
    ));
}

#[test]
fn shard_write_failure_is_retried() {
    assert!(is_retryable(&op_failed(
        "Cannot perform write: primary replica for shard [\"\", +inf) not available"
    )));
    let mut d = Dispatch::new(3).0;
    let e = op_failed("Cannot perform write: primary replica for shard 7 is not available");
    assert!(matches!(d.next(Event::Response(Err(e))), Step::Connect));
    assert_eq!(d.used, 1);
}

#[test]
fn other_failures_are_not_retried() {
    assert!(!is_retryable(&op_failed("Duplicate primary key")));
    assert!(!is_retryable(&op_failed("Cannot perform write")));
    assert!(!is_retryable(&ReqlError::Compile(s("x"))));
    assert!(!is_retryable(&ReqlError::Runtime(RuntimeError::Availability(
        AvailabilityError::OpIndeterminate(s("Cannot perform write: primary replica for shard"))
    ))));
    assert!(is_retryable(&ReqlError::Connection(ConnectionError::Io(s("reset")))));
    let mut d = Dispatch::new(3).0;
    match d.next(Event::Response(Err(op_failed("Duplicate primary key")))) {
        Step::Fail(ReqlError::Runtime(RuntimeError::Availability(AvailabilityError::OpFailed(m)))) => {
            assert_eq!(m, "Duplicate primary key")
        }
        other => panic!("{:?}", other),
    }
    assert_eq!(d.used, 0);
}

#[test]
fn partial_batches_are_continued() {
    let responses = vec![
        (ResponseType::SuccessPartial, vec![1, 2, 3]),
        (ResponseType::SuccessPartial, vec![4, 5]),
        (ResponseType::SuccessSequence, vec![6]),
    ];
    let (mut d, mut step) = Dispatch::new(3);
    let mut rows: Vec<i32> = Vec::new();
    let mut continues = 0;
    let mut starts = 0;
    let mut next_response = 0;
    loop {
        step = match step {
            Step::Connect => d.next(Event::Connected),
            Step::Send(t) => {
                if t == QueryType::Continue {
                    continues += 1;
                } else {
                    starts += 1;
                }
                d.next(Event::Sent)
            }
            Step::Read => {
                let (kind, batch) = responses[next_response].clone();
                next_response += 1;
                rows.extend(batch);
                d.next(Event::Response(Ok(kind)))
            }
            Step::Done => break,
            other => panic!("{:?}", other),
        };
    }
    assert_eq!(rows, vec![1, 2, 3, 4, 5, 6]);
    assert_eq!(continues, 2);
    assert_eq!(starts, 1);
    assert_eq!(d.used, 0);
}

#[test]
fn one_transport_failure_costs_one_retry() {
    let (mut d, step) = Dispatch::new(3);
    assert!(matches!(step, Step::Connect));
    assert!(matches!(d.next(Event::Connected), Step::Send(QueryType::Start)));
    let fail = ReqlError::Connection(ConnectionError::Io(s("broken pipe")));
    assert!(matches!(d.next(Event::SendFailed(fail)), Step::Connect));
    assert!(matches!(d.next(Event::Connected), Step::Send(QueryType::Start)));
    assert!(matches!(d.next(Event::Sent), Step::Read));
    assert!(matches!(d.next(Event::Response(Ok(ResponseType::SuccessAtom))), Step::Done));
    assert_eq!(d.used, 1);
    assert_eq!(d.budget, 3);
}

#[test]
fn exhausted_budget_surfaces_last_error() {
    let (mut d, _) = Dispatch::new(1);
    assert!(matches!(
        d.next(Event::ReadFailed(ReqlError::Connection(ConnectionError::Io(s("a"))))),
        Step::Connect
    ));
    match d.next(Event::ConnectFailed(ReqlError::Connection(ConnectionError::Other(s("b"))))) {
        Step::Fail(ReqlError::Connection(ConnectionError::Other(m))) => assert_eq!(m, "b"),
        other => panic!("{:?}", other),
    }
    assert_eq!(d.used, 1);
}

#[test]
fn closed_sink_aborts() {
    let (mut d, _) = Dispatch::new(5);
    assert!(matches!(d.next(Event::SinkClosed), Step::Abort));
    assert_eq!(d.used, 0);
}

#[test]
fn connection_tokens_increase() {
    let mut c = Connection::new(());
    assert_eq!(c.token(), 0);
    assert_eq!(c.next_token(), Some(1));
    assert_eq!(c.next_token(), Some(2));
    assert_eq!(c.token(), 2);
    c.set_token(u64::MAX);
    assert_eq!(c.next_token(), None);
    assert!(!c.broken());
    c.set_boken(true);
    assert!(c.broken());
}

#[test]
fn auth_error_code_in_range_is_auth_failure() {
    let reply = AuthReply { success: false, authentication: None, error_code: Some(15), error: Some(s("wrong password")) };
    match check_auth_reply(reply, s("{\"success\":false}")) {
        Err(ReqlError::Driver(DriverError::Auth(m))) => assert_eq!(m, "wrong password"),
        other => panic!("{:?}", other),
    }
}

#[test]
fn auth_error_without_code_is_connection_failure() {
    let reply = AuthReply { success: false, authentication: None, error_code: None, error: Some(s("wrong password")) };
    match check_auth_reply(reply, s("{\"success\":false}")) {
        Err(ReqlError::Connection(ConnectionError::Other(m))) => assert_eq!(m, "wrong password"),
        other => panic!("{:?}", other),
    }
    let reply = AuthReply { success: false, authentication: None, error_code: Some(21), error: None };
    match check_auth_reply(reply, s("{\"success\":false}")) {
        Err(ReqlError::Connection(ConnectionError::Other(m))) => assert_eq!(m, "{\"success\":false}"),
        other => panic!("{:?}", other),
    }
    let reply = AuthReply { success: false, authentication: None, error_code: Some(10), error: None };
    assert!(matches!(check_auth_reply(reply, s("r")), Err(ReqlError::Driver(DriverError::Auth(_)))));
    let reply = AuthReply { success: true, authentication: Some(s("v=x")), error_code: Some(15), error: None };
    assert!(matches!(check_auth_reply(reply, s("r")), Ok(Some(a)) if a == "v=x"));
}

fn reply(success: bool, authentication: Option<&str>) -> AuthReply {
    AuthReply { success, authentication: authentication.map(s), error_code: None, error: None }
}

#[test]
fn scram_handshake_messages() {
    let mut opts = ConnectionOpts::default();
    opts.user = s("admin");
    let (state, first) = client_first(&opts);
    let payload = state.client_first_text().to_string();
    assert!(payload.starts_with("n,,n=admin,r="));
    let nonce: Vec<char> = payload["n,,n=admin,r=".len()..].chars().collect();
    assert_eq!(nonce.len(), 24);
    assert!(nonce.iter().all(|c| ('!'..='}').contains(c) && *c != ','));
    assert_eq!(first, auth_request_bytes(&payload));
    let first = String::from_utf8(first).unwrap();
    assert!(first.starts_with(
        "{\"protocol_version\":0,\"authentication_method\":\"SCRAM-SHA-256\",\"authentication\":\"n,,n=admin,r="
    ));
    assert!(first.ends_with("\"}\0"));
    let rejected = AuthReply { success: false, authentication: None, error_code: Some(15), error: Some(s("no")) };
    assert!(matches!(
        client_final(state, rejected, s("raw")),
        Err(ReqlError::Driver(DriverError::Auth(m))) if m == "no"
    ));
    let (state, _) = client_first(&opts);
    let bad_nonce = reply(true, Some("r=zzz,s=QSXCR+Q6sek8bf92,i=4096"));
    assert!(matches!(client_final(state, bad_nonce, s("raw")), Err(ReqlError::Driver(DriverError::Auth(_)))));
    let (state, _) = client_first(&opts);
    let later_short_field = reply(true, Some("r=zzz,s=QSXCR+Q6sek8bf92,i=4096,x"));
    assert!(matches!(client_final(state, later_short_field, s("raw")), Err(ReqlError::Driver(DriverError::Auth(_)))));
    let (state, _) = client_first(&opts);
    let short = reply(true, Some("r=abc,s"));
    assert!(matches!(
        client_final(state, short, s("raw")),
        Err(ReqlError::Driver(DriverError::Other(m))) if m == "malformed server-first message"
    ));
    let (state, _) = client_first(&opts);
    assert!(matches!(
        client_final(state, reply(true, None), s("raw")),
        Err(ReqlError::Connection(ConnectionError::Other(m))) if m == "Server did not send authentication info."
    ));
}

#[test]
fn server_first_field_lengths() {
    assert!(server_first_fields_ok("r=a,s=b,i=1"));
    assert!(server_first_fields_ok("r=a,s=b,i=1,x"));
    assert!(server_first_fields_ok("r=a"));
    assert!(!server_first_fields_ok("r=a,s"));
    assert!(!server_first_fields_ok("r=a,s=b,"));
    assert!(!server_first_fields_ok("r"));
    assert!(!server_first_fields_ok(""));
}

fn accepted_server_first(opts: &ConnectionOpts) -> (ql2::scram_glue::ScramFinal, Vec<u8>) {
    let (state, _) = client_first(opts);
    let nonce = state.client_first_text()["n,,n=admin,r=".len()..].to_string();
    let server_first = format!("r={}srv,s=QSXCR+Q6sek8bf92,i=4096", nonce);
    match client_final(state, reply(true, Some(&server_first)), s("raw")) {
        Ok(r) => r,
        Err(e) => panic!("{:?}", e),
    }
}

#[test]
fn client_final_message_carries_the_proof() {
    let opts = ConnectionOpts::default();
    let (_, msg) = accepted_server_first(&opts);
    let msg = String::from_utf8(msg).unwrap();
    assert!(msg.starts_with("{\"authentication\":\"c=biws,r="));
    assert!(msg.contains("srv,p="));
    assert!(msg.ends_with("\"}\0"));
}

#[test]
fn server_final_needs_a_valid_signature() {
    let opts = ConnectionOpts::default();
    let (fin, _) = accepted_server_first(&opts);
    assert!(matches!(
        parse_server_final(fin, reply(true, None), s("raw")),
        Err(ReqlError::Driver(DriverError::Auth(m))) if m == "Server did not send its final signature."
    ));
    let (fin, _) = accepted_server_first(&opts);
    assert!(matches!(
        parse_server_final(fin, reply(true, Some("v=AAAA")), s("raw")),
        Err(ReqlError::Driver(DriverError::Auth(_)))
    ));
    let (fin, _) = accepted_server_first(&opts);
    assert!(matches!(
        parse_server_final(fin, reply(true, Some("vé")), s("raw")),
        Err(ReqlError::Driver(DriverError::Other(m))) if m == "malformed server-final message"
    ));
    let (fin, _) = accepted_server_first(&opts);
    let failed = AuthReply { success: false, authentication: None, error_code: Some(12), error: None };
    assert!(matches!(
        parse_server_final(fin, failed, s("raw")),
        Err(ReqlError::Driver(DriverError::Auth(m))) if m == "raw"
    ));
}

#[test]
fn sole_message_of_payloads() {
    assert_eq!(sole_message(Some(vec![Some(s("m"))])), Some(s("m")));
    assert_eq!(sole_message(Some(vec![None])), None);
    assert_eq!(sole_message(Some(vec![Some(s("a")), Some(s("b"))])), None);
    assert_eq!(sole_message(Some(vec![])), None);
    assert_eq!(sole_message(None), None);
}

#[test]
fn auth_message_framing() {
    assert_eq!(
        auth_request_bytes("n,,n=u,r=a\"b"),
        b"{\"protocol_version\":0,\"authentication_method\":\"SCRAM-SHA-256\",\"authentication\":\"n,,n=u,r=a\\\"b\"}\0".to_vec()
    );
    assert_eq!(auth_confirmation_bytes("c=biws"), b"{\"authentication\":\"c=biws\"}\0".to_vec());
    assert_eq!(version_bytes(), vec![0xc3, 0xbd, 0xc2, 0x34]);
}

#[test]
fn server_response_text() {
    assert_eq!(parse_server_response(b"{\"success\":true}\0".to_vec()).unwrap(), "{\"success\":true}");
    assert_eq!(parse_server_response(b"{}".to_vec()).unwrap(), "{}");
    match parse_server_response(b"ERROR: no\0".to_vec()) {
        Err(ReqlError::Connection(ConnectionError::Other(m))) => assert_eq!(m, "ERROR: no"),
        other => panic!("{:?}", other),
    }
    assert!(matches!(
        parse_server_response(b"\0".to_vec()),
        Err(ReqlError::Connection(ConnectionError::Other(m))) if m == "unable to connect for an unknown reason"
    ));
    assert!(matches!(
        parse_server_response(vec![0xff, 0xfe, 0]),
        Err(ReqlError::Connection(ConnectionError::Other(m))) if m == "the server's answer is not UTF-8"
    ));
    assert!(check_server_info(true, s("x")).is_ok());
    assert!(matches!(check_server_info(false, s("x")), Err(ReqlError::Connection(ConnectionError::Other(m))) if m == "x"));
}

#[test]
fn connection_options() {
    let o = ConnectionOpts::default();
    assert_eq!(o.servers, vec![s("localhost:28015")]);
    assert_eq!(o.db, "test");
    assert_eq!(o.user, "admin");
    assert_eq!(o.password, "");
    assert_eq!(o.retries, 5);
    assert!(o.ssl.is_none());
    assert!(matches!(
        selected_server(&o),
        Err(ReqlError::Connection(ConnectionError::Other(m))) if m == "No server selected."
    ));
    let mut o = o;
    o.server = Some(s("db1:28015"));
    assert_eq!(selected_server(&o).unwrap(), "db1:28015");
}
