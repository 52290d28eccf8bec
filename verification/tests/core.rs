use lsp_core::dispatch::{dispatch, Registry, HandlerKind};
use lsp_core::frame::{frame_bytes, parse_frame, FrameOutcome};
use lsp_core::json::{decode_json, Json};
use lsp_core::message::{decode_msg, encode_msg, ErrorObj, Message, RequestId};
use lsp_core::server::{Action, Server};
use lsp_core::lifecycle::ServerState;
use lsp_core::correlator::Correlator;

fn req(id: i64, method: &str, params: Json) -> Message {
    Message::Request {
        id: RequestId::Num(id),
        method: method.as_bytes().to_vec(),
        params,
    }
}

fn note(method: &str) -> Message {
    Message::Notification {
        method: method.as_bytes().to_vec(),
        params: Json::Null,
    }
}

fn reply_error_code(a: &Action) -> Option<i64> {
    match a {
        Action::Reply(Message::Response {
            outcome: Err(ErrorObj { code, .. }),
            ..
        }) => Some(*code),
        _ => None,
    }
}

#[test]
fn json_encode_exact_values() {
    assert_eq!(Json::Null.encode(), b"null".to_vec());
    assert_eq!(Json::Bool(true).encode(), b"true".to_vec());
    assert_eq!(Json::Int(-42).encode(), b"-42".to_vec());
    assert_eq!(Json::Int(i64::MIN).encode(), b"-9223372036854775808".to_vec());
    assert_eq!(
        Json::Str(b"a\"b\\c\nd".to_vec()).encode(),
        b"\"a\\\"b\\\\c\\u000ad\"".to_vec()
    );
    let arr = Json::Arr(vec![Json::Int(1), Json::Int(2)]);
    assert_eq!(arr.encode(), b"[1,2]".to_vec());
    let obj = Json::Obj(vec![(b"k".to_vec(), Json::Bool(false))]);
    assert_eq!(obj.encode(), b"{\"k\":false}".to_vec());
}

#[test]
fn json_decode_rejects_trailing_and_malformed() {
    assert!(decode_json(&b"nul".to_vec()).is_none());
    assert!(decode_json(&b"true false".to_vec()).is_none());
    assert!(decode_json(&b"{\"a\":}".to_vec()).is_none());
    assert!(decode_json(&b"[1,]".to_vec()).is_none());
    assert!(decode_json(&b"99999999999999999999999".to_vec()).is_none());
}

#[test]
fn json_roundtrip_by_reencoding() {
    let samples: Vec<Vec<u8>> = vec![
        b"null".to_vec(),
        b"[-7,\"x\",{\"a\":[true,false,null]},0]".to_vec(),
        b"{\"nested\":{\"deep\":[{\"k\":\"v\"}]}}".to_vec(),
        b"\"esc \\\\ \\\" \\u0001\"".to_vec(),
    ];
    for bytes in samples {
        let v = decode_json(&bytes).expect("decodes");
        assert_eq!(v.encode(), bytes);
    }
}

#[test]
fn message_roundtrip_request() {
    let m = req(
        7,
        "textDocument/definition",
        Json::Obj(vec![(b"uri".to_vec(), Json::Str(b"file:///x.rs".to_vec()))]),
    );
    let bytes = encode_msg(&m);
    let back = decode_msg(&bytes).expect("decodes");
    assert_eq!(encode_msg(&back), bytes);
}

#[test]
fn message_roundtrip_notification_and_responses() {
    let n = note("initialized");
    let bytes = encode_msg(&n);
    let back = decode_msg(&bytes).expect("decodes");
    assert!(matches!(back, Message::Notification { .. }));
    assert_eq!(encode_msg(&back), bytes);

    let ok = Message::Response {
        id: RequestId::Text(b"abc".to_vec()),
        outcome: Ok(Json::Arr(vec![])),
    };
    let bytes = encode_msg(&ok);
    assert_eq!(encode_msg(&decode_msg(&bytes).expect("decodes")), bytes);

    let err = Message::Response {
        id: RequestId::Num(3),
        outcome: Err(ErrorObj { code: -32601, message: b"method not found".to_vec() }),
    };
    let bytes = encode_msg(&err);
    assert_eq!(encode_msg(&decode_msg(&bytes).expect("decodes")), bytes);
}

#[test]
fn message_encode_exact_bytes() {
    let m = req(1, "shutdown", Json::Null);
    assert_eq!(
        encode_msg(&m),
        b"{\"jsonrpc\":\"2.0\",\"id\":1,\"method\":\"shutdown\",\"params\":null}".to_vec()
    );
}

#[test]
fn message_decode_rejects_bad_envelopes() {
    // wrong version
    assert!(decode_msg(&b"{\"jsonrpc\":\"1.0\",\"id\":1,\"method\":\"a\",\"params\":null}".to_vec()).is_none());
    // no method and no id
    assert!(decode_msg(&b"{\"jsonrpc\":\"2.0\",\"params\":null}".to_vec()).is_none());
    // method together with result
    assert!(decode_msg(&b"{\"jsonrpc\":\"2.0\",\"id\":1,\"method\":\"a\",\"result\":null}".to_vec()).is_none());
    // response with both result and error
    assert!(decode_msg(
        &b"{\"jsonrpc\":\"2.0\",\"id\":1,\"result\":null,\"error\":{\"code\":1,\"message\":\"x\"}}".to_vec()
    ).is_none());
    // id of a wrong type
    assert!(decode_msg(&b"{\"jsonrpc\":\"2.0\",\"id\":true,\"method\":\"a\"}".to_vec()).is_none());
}

#[test]
fn handshake_then_definition_returns_empty_array() {
    let mut s = Server::new();
    let a1 = s.step(req(0, "initialize", Json::Obj(vec![])));
    match &a1 {
        Action::Reply(Message::Response { id: RequestId::Num(0), outcome: Ok(_) }) => {}
        _ => panic!("initialize not acknowledged"),
    }
    assert_eq!(s.state, ServerState::Initializing);
    let a2 = s.step(note("initialized"));
    assert!(matches!(a2, Action::Silent));
    assert_eq!(s.state, ServerState::Running);

    let a3 = s.step(req(1, "textDocument/definition", Json::Int(99)));
    match a3 {
        Action::Reply(Message::Response { id: RequestId::Num(1), outcome: Ok(Json::Arr(items)) }) => {
            assert_eq!(items.len(), 0);
        }
        _ => panic!("definition request not answered with an empty array"),
    }
}

#[test]
fn notifications_never_get_a_reply() {
    let mut s = Server::new();
    assert!(matches!(s.step(note("initialized")), Action::Silent));
    assert!(matches!(s.step(note("window/logMessage")), Action::Silent));
    s.step(req(0, "initialize", Json::Null));
    s.step(note("initialized"));
    assert!(matches!(s.step(note("textDocument/didOpen")), Action::Silent));
}

#[test]
fn request_before_initialize_is_rejected_and_state_unchanged() {
    let mut s = Server::new();
    let a = s.step(req(5, "textDocument/definition", Json::Null));
    assert_eq!(reply_error_code(&a), Some(-32002));
    assert_eq!(s.state, ServerState::Uninitialized);
    // the same request still works after the handshake, under a new id
    s.step(req(0, "initialize", Json::Null));
    s.step(note("initialized"));
    let a2 = s.step(req(6, "textDocument/definition", Json::Null));
    assert!(matches!(
        a2,
        Action::Reply(Message::Response { outcome: Ok(Json::Arr(_)), .. })
    ));
}

#[test]
fn shutdown_then_exit_is_clean_exit_without_shutdown_is_not() {
    let mut s = Server::new();
    s.step(req(0, "initialize", Json::Null));
    s.step(note("initialized"));
    let a = s.step(req(1, "shutdown", Json::Null));
    assert!(matches!(
        a,
        Action::Reply(Message::Response { outcome: Ok(Json::Null), .. })
    ));
    assert_eq!(s.state, ServerState::ShuttingDown);
    let a2 = s.step(note("exit"));
    assert!(matches!(a2, Action::Exit(true)));
    assert_eq!(s.state, ServerState::Exited);

    let mut s2 = Server::new();
    s2.step(req(0, "initialize", Json::Null));
    s2.step(note("initialized"));
    let a3 = s2.step(note("exit"));
    assert!(matches!(a3, Action::Exit(false)));
}

#[test]
fn requests_while_shutting_down_are_refused_connection_stays() {
    let mut s = Server::new();
    s.step(req(0, "initialize", Json::Null));
    s.step(note("initialized"));
    s.step(req(1, "shutdown", Json::Null));
    let a = s.step(req(2, "textDocument/definition", Json::Null));
    assert_eq!(reply_error_code(&a), Some(-32600));
    assert_eq!(s.state, ServerState::ShuttingDown);
}

#[test]
fn duplicate_request_id_is_rejected_deterministically() {
    let mut s = Server::new();
    s.step(req(0, "initialize", Json::Null));
    s.step(note("initialized"));
    let a1 = s.step(req(1, "textDocument/definition", Json::Null));
    assert!(matches!(a1, Action::Reply(Message::Response { outcome: Ok(_), .. })));
    let a2 = s.step(req(1, "textDocument/definition", Json::Null));
    assert_eq!(reply_error_code(&a2), Some(-32600));
    // and again: the policy does not flip
    let a3 = s.step(req(1, "textDocument/codeAction", Json::Obj(vec![])));
    assert_eq!(reply_error_code(&a3), Some(-32600));
}

#[test]
fn unknown_method_and_bad_params_get_their_errors() {
    let mut s = Server::new();
    s.step(req(0, "initialize", Json::Null));
    s.step(note("initialized"));
    let a = s.step(req(1, "workspace/symbol", Json::Null));
    assert_eq!(reply_error_code(&a), Some(-32601));
    // the code-action decoder wants an object
    let a2 = s.step(req(2, "textDocument/codeAction", Json::Int(3)));
    assert_eq!(reply_error_code(&a2), Some(-32602));
    let a3 = s.step(req(3, "textDocument/codeAction", Json::Obj(vec![])));
    assert!(matches!(a3, Action::Reply(Message::Response { outcome: Ok(_), .. })));
}

#[test]
fn unmatched_response_is_dropped_and_loop_continues() {
    let mut s = Server::new();
    s.step(req(0, "initialize", Json::Null));
    s.step(note("initialized"));
    let a = s.step(Message::Response {
        id: RequestId::Num(1234),
        outcome: Ok(Json::Null),
    });
    assert!(matches!(a, Action::Silent));
    // the loop is still alive and answering
    let a2 = s.step(req(1, "textDocument/definition", Json::Null));
    assert!(matches!(a2, Action::Reply(_)));
}

#[test]
fn correlator_ids_are_fresh_and_resolve_removes() {
    let mut c = Correlator::new();
    let id0 = c.send_request(b"a".to_vec(), 10).unwrap();
    let id1 = c.send_request(b"b".to_vec(), 11).unwrap();
    assert_eq!(id0, 0);
    assert_eq!(id1, 1);
    let hit = c.resolve(&RequestId::Num(0)).expect("known id resolves");
    assert_eq!(hit.method, b"a".to_vec());
    assert_eq!(hit.issued_at, 10);
    assert!(c.resolve(&RequestId::Num(0)).is_none());
    assert!(c.resolve(&RequestId::Num(7)).is_none());
    assert!(c.resolve(&RequestId::Text(b"x".to_vec())).is_none());
    let cancelled = c.teardown();
    assert_eq!(cancelled.len(), 1);
    assert_eq!(cancelled[0].method, b"b".to_vec());
}

#[test]
fn server_send_request_allocates_fresh_ids() {
    let mut s = Server::new();
    let m1 = s.send_request(b"client/registerCapability".to_vec(), Json::Null, 1).unwrap();
    let m2 = s.send_request(b"client/registerCapability".to_vec(), Json::Null, 2).unwrap();
    let (i1, i2) = match (&m1, &m2) {
        (
            Message::Request { id: RequestId::Num(a), .. },
            Message::Request { id: RequestId::Num(b), .. },
        ) => (*a, *b),
        _ => panic!("send_request must build requests with numeric ids"),
    };
    assert_ne!(i1, i2);
    // its own response now resolves
    let a = s.step(Message::Response { id: RequestId::Num(i1), outcome: Ok(Json::Null) });
    assert!(matches!(a, Action::Silent));
}

#[test]
fn frame_roundtrip_and_incomplete() {
    let body = b"{\"jsonrpc\":\"2.0\"}".to_vec();
    let framed = frame_bytes(&body);
    assert_eq!(
        framed,
        b"Content-Length: 17\r\n\r\n{\"jsonrpc\":\"2.0\"}".to_vec()
    );
    match parse_frame(&framed) {
        FrameOutcome::Frame { body: b, consumed } => {
            assert_eq!(b, body);
            assert_eq!(consumed, framed.len());
        }
        _ => panic!("a written frame must read back"),
    }
    let partial = b"Content-Length: 17\r\n\r\n{\"json".to_vec();
    assert!(matches!(parse_frame(&partial), FrameOutcome::Incomplete));
    let no_header_yet = b"Content-Le".to_vec();
    assert!(matches!(parse_frame(&no_header_yet), FrameOutcome::Incomplete));
}

#[test]
fn frame_extra_headers_and_spacing_are_tolerated() {
    let framed = b"Content-Type: application/vscode-jsonrpc\r\nContent-Length:  2\r\n\r\n[]XX".to_vec();
    match parse_frame(&framed) {
        FrameOutcome::Frame { body, consumed } => {
            assert_eq!(body, b"[]".to_vec());
            assert_eq!(consumed, framed.len() - 2);
        }
        _ => panic!("headers before the length must be tolerated"),
    }
}

#[test]
fn nonnumeric_content_length_is_malformed() {
    let bad = b"Content-Length: abc\r\n\r\n{}".to_vec();
    assert!(matches!(parse_frame(&bad), FrameOutcome::Malformed));
    let bad2 = b"Content-Length: 1 2\r\n\r\n{}".to_vec();
    assert!(matches!(parse_frame(&bad2), FrameOutcome::Malformed));
    let no_colon = b"Content-Length 12\r\n\r\n{}".to_vec();
    assert!(matches!(parse_frame(&no_colon), FrameOutcome::Malformed));
    let missing = b"Content-Type: text\r\n\r\n{}".to_vec();
    assert!(matches!(parse_frame(&missing), FrameOutcome::Malformed));
}

#[test]
fn dispatch_carries_the_request_id() {
    let mut reg = Registry::new();
    assert!(reg.register(b"m".to_vec(), HandlerKind::EmptyDefinition));
    assert!(!reg.register(b"m".to_vec(), HandlerKind::EmptyCodeAction));
    let resp = dispatch(&reg, RequestId::Text(b"abc".to_vec()), &b"m".to_vec(), &Json::Null);
    match resp {
        Message::Response { id: RequestId::Text(t), outcome: Ok(_) } => {
            assert_eq!(t, b"abc".to_vec())
        }
        _ => panic!("dispatch must answer under the request's id"),
    }
}

#[test]
fn run_script_ends_cleanly_after_shutdown_and_exit() {
    let mut s = Server::new();
    let script = vec![
        req(0, "initialize", Json::Null),
        note("initialized"),
        req(1, "textDocument/definition", Json::Null),
        req(2, "shutdown", Json::Null),
        note("exit"),
        // nothing after exit is looked at
        req(3, "textDocument/definition", Json::Null),
    ];
    let (replies, status) = s.run_script(script);
    assert_eq!(replies.len(), 3);
    assert_eq!(status, Some(true));
    assert_eq!(s.state, ServerState::Exited);

    let mut s2 = Server::new();
    let (replies2, status2) = s2.run_script(vec![note("exit")]);
    assert_eq!(replies2.len(), 0);
    assert_eq!(status2, Some(false));
}
