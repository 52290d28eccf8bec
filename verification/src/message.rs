//! The JSON-RPC message model: the tagged union of request, response and
//! notification, its envelope shape, and the byte codec proved to
//! round-trip. A JSON object with a method and no id is a notification;
//! with a method and an id it is a request; with an id and exactly one of
//! result or error, and no method, it is a response. Anything else is a
//! protocol violation.

use vstd::prelude::*;
use crate::json::{
    Json, JsonV, spec_enc, spec_decode, view_json, view_member_seq, lemma_view_member_seq,
    lemma_decode_roundtrip, decode_json, push_string, clone_bytes, spec_enc_members,
    spec_enc_member, spec_esc,
};

verus! {

/// A correlation key: an integer or a string, compared by exact value.
pub enum RequestId {
    Num(i64),
    Text(Vec<u8>),
}

/// The model of a correlation key.
pub enum RequestIdV {
    Num(i64),
    Text(Seq<u8>),
}

impl View for RequestId {
    type V = RequestIdV;

    open spec fn view(&self) -> RequestIdV {
        match self {
            RequestId::Num(n) => RequestIdV::Num(*n),
            RequestId::Text(t) => RequestIdV::Text(t@),
        }
    }
}

/// A JSON-RPC error object: a numeric code and a message.
pub struct ErrorObj {
    pub code: i64,
    pub message: Vec<u8>,
}

/// The model of an error object.
pub struct ErrorObjV {
    pub code: i64,
    pub message: Seq<u8>,
}

impl View for ErrorObj {
    type V = ErrorObjV;

    open spec fn view(&self) -> ErrorObjV {
        ErrorObjV { code: self.code, message: self.message@ }
    }
}

/// A protocol message. A response carries either a result or an error
/// object, never both.
pub enum Message {
    Request { id: RequestId, method: Vec<u8>, params: Json },
    Response { id: RequestId, outcome: Result<Json, ErrorObj> },
    Notification { method: Vec<u8>, params: Json },
}

/// The model of a protocol message.
pub enum MessageV {
    Request { id: RequestIdV, method: Seq<u8>, params: JsonV },
    Response { id: RequestIdV, outcome: Result<JsonV, ErrorObjV> },
    Notification { method: Seq<u8>, params: JsonV },
}

impl View for Message {
    type V = MessageV;

    open spec fn view(&self) -> MessageV {
        match self {
            Message::Request { id, method, params } => MessageV::Request {
                id: id@,
                method: method@,
                params: view_json(*params),
            },
            Message::Response { id, outcome } => MessageV::Response {
                id: id@,
                outcome: match outcome {
                    Ok(r) => Ok(view_json(*r)),
                    Err(e) => Err(e@),
                },
            },
            Message::Notification { method, params } => MessageV::Notification {
                method: method@,
                params: view_json(*params),
            },
        }
    }
}

/// The envelope field names and the protocol version string.
pub open spec fn kw_jsonrpc() -> Seq<u8> {
    seq![106u8, 115u8, 111u8, 110u8, 114u8, 112u8, 99u8]
}

pub open spec fn kw_version() -> Seq<u8> {
    seq![50u8, 46u8, 48u8]
}

pub open spec fn kw_id() -> Seq<u8> {
    seq![105u8, 100u8]
}

pub open spec fn kw_method() -> Seq<u8> {
    seq![109u8, 101u8, 116u8, 104u8, 111u8, 100u8]
}

pub open spec fn kw_params() -> Seq<u8> {
    seq![112u8, 97u8, 114u8, 97u8, 109u8, 115u8]
}

pub open spec fn kw_result() -> Seq<u8> {
    seq![114u8, 101u8, 115u8, 117u8, 108u8, 116u8]
}

pub open spec fn kw_error() -> Seq<u8> {
    seq![101u8, 114u8, 114u8, 111u8, 114u8]
}

pub open spec fn kw_code() -> Seq<u8> {
    seq![99u8, 111u8, 100u8, 101u8]
}

pub open spec fn kw_message() -> Seq<u8> {
    seq![109u8, 101u8, 115u8, 115u8, 97u8, 103u8, 101u8]
}

/// The JSON form of a correlation key.
pub open spec fn id_to_json(id: RequestIdV) -> JsonV {
    match id {
        RequestIdV::Num(n) => JsonV::Int(n),
        RequestIdV::Text(t) => JsonV::Str(t),
    }
}

/// The envelope object of a message.
pub open spec fn msg_to_json(m: MessageV) -> JsonV {
    match m {
        MessageV::Request { id, method, params } => JsonV::Obj(
            seq![
                (kw_jsonrpc(), JsonV::Str(kw_version())),
                (kw_id(), id_to_json(id)),
                (kw_method(), JsonV::Str(method)),
                (kw_params(), params),
            ],
        ),
        MessageV::Notification { method, params } => JsonV::Obj(
            seq![
                (kw_jsonrpc(), JsonV::Str(kw_version())),
                (kw_method(), JsonV::Str(method)),
                (kw_params(), params),
            ],
        ),
        MessageV::Response { id, outcome } => match outcome {
            Ok(r) => JsonV::Obj(
                seq![
                    (kw_jsonrpc(), JsonV::Str(kw_version())),
                    (kw_id(), id_to_json(id)),
                    (kw_result(), r),
                ],
            ),
            Err(e) => JsonV::Obj(
                seq![
                    (kw_jsonrpc(), JsonV::Str(kw_version())),
                    (kw_id(), id_to_json(id)),
                    (
                        kw_error(),
                        JsonV::Obj(
                            seq![
                                (kw_code(), JsonV::Int(e.code)),
                                (kw_message(), JsonV::Str(e.message)),
                            ],
                        ),
                    ),
                ],
            ),
        },
    }
}

/// The byte encoding of a message.
pub open spec fn spec_encode_msg(m: MessageV) -> Seq<u8> {
    spec_enc(msg_to_json(m))
}

/// The value under the first member with the given key, if any.
pub open spec fn lookup(members: Seq<(Seq<u8>, JsonV)>, key: Seq<u8>) -> Option<JsonV>
    decreases members.len(),
{
    if members.len() == 0 {
        None
    } else if members[0].0 == key {
        Some(members[0].1)
    } else {
        lookup(members.skip(1), key)
    }
}

/// The correlation key a JSON value stands for, if it is one.
pub open spec fn id_of_json(j: JsonV) -> Option<RequestIdV> {
    match j {
        JsonV::Int(n) => Some(RequestIdV::Num(n)),
        JsonV::Str(t) => Some(RequestIdV::Text(t)),
        _ => None,
    }
}

/// Reads a decoded JSON value as a message envelope. The shape rules of the
/// protocol: a required jsonrpc field naming the version, classification by
/// the presence of method, id, result and error; params defaults to null.
pub open spec fn classify(j: JsonV) -> Option<MessageV> {
    match j {
        JsonV::Obj(ms) => {
            if lookup(ms, kw_jsonrpc()) != Some(JsonV::Str(kw_version())) {
                None
            } else {
                let params = match lookup(ms, kw_params()) {
                    Some(p) => p,
                    None => JsonV::Null,
                };
                match lookup(ms, kw_method()) {
                    Some(JsonV::Str(method)) => {
                        if lookup(ms, kw_result()) is Some || lookup(ms, kw_error()) is Some {
                            None
                        } else {
                            match lookup(ms, kw_id()) {
                                Some(idj) => match id_of_json(idj) {
                                    Some(id) => Some(
                                        MessageV::Request { id, method, params },
                                    ),
                                    None => None,
                                },
                                None => Some(MessageV::Notification { method, params }),
                            }
                        }
                    },
                    Some(_) => None,
                    None => {
                        match lookup(ms, kw_id()) {
                            Some(idj) => match id_of_json(idj) {
                                Some(id) => classify_response(ms, id),
                                None => None,
                            },
                            None => None,
                        }
                    },
                }
            }
        },
        _ => None,
    }
}

/// Reads the result-or-error half of a response envelope.
pub open spec fn classify_response(ms: Seq<(Seq<u8>, JsonV)>, id: RequestIdV) -> Option<
    MessageV,
> {
    match (lookup(ms, kw_result()), lookup(ms, kw_error())) {
        (Some(r), None) => Some(MessageV::Response { id, outcome: Ok(r) }),
        (None, Some(JsonV::Obj(ems))) => match (lookup(ems, kw_code()), lookup(
            ems,
            kw_message(),
        )) {
            (Some(JsonV::Int(code)), Some(JsonV::Str(message))) => Some(
                MessageV::Response { id, outcome: Err(ErrorObjV { code, message }) },
            ),
            _ => None,
        },
        _ => None,
    }
}

/// What decoding a whole body as a message yields.
pub open spec fn spec_decode_msg(bytes: Seq<u8>) -> Option<MessageV> {
    match spec_decode(bytes) {
        Some(j) => classify(j),
        None => None,
    }
}

/// Reading an envelope back yields the message it was built from.
pub proof fn lemma_classify_build(m: MessageV)
    ensures
        classify(msg_to_json(m)) == Some(m),
{
    reveal_with_fuel(lookup, 6);
    match m {
        MessageV::Request { id, method, params } => {
            let ms = msg_to_json(m)->Obj_0;
            assert(ms.skip(1) =~= ms.subrange(1, 4));
            assert(ms.skip(1)[0] == ms[1] && ms.skip(1).len() == 3);
            assert(ms.skip(1).skip(1) =~= ms.subrange(2, 4));
            assert(ms.skip(1).skip(1)[0] == ms[2] && ms.skip(1).skip(1).len() == 2);
            assert(ms.skip(1).skip(1).skip(1) =~= ms.subrange(3, 4));
            assert(ms.skip(1).skip(1).skip(1)[0] == ms[3] && ms.skip(1).skip(1).skip(1).len()
                == 1);
            assert(ms.skip(1).skip(1).skip(1).skip(1) =~= Seq::<(Seq<u8>, JsonV)>::empty());
            assert(lookup(ms, kw_jsonrpc()) == Some(JsonV::Str(kw_version())));
            assert(lookup(ms, kw_id()) == Some(id_to_json(id)));
            assert(lookup(ms, kw_method()) == Some(JsonV::Str(method)));
            assert(lookup(ms, kw_params()) == Some(params));
            assert(lookup(ms, kw_result()) is None);
            assert(lookup(ms, kw_error()) is None);
        },
        MessageV::Notification { method, params } => {
            let ms = msg_to_json(m)->Obj_0;
            assert(ms.skip(1) =~= ms.subrange(1, 3));
            assert(ms.skip(1)[0] == ms[1] && ms.skip(1).len() == 2);
            assert(ms.skip(1).skip(1) =~= ms.subrange(2, 3));
            assert(ms.skip(1).skip(1)[0] == ms[2] && ms.skip(1).skip(1).len() == 1);
            assert(ms.skip(1).skip(1).skip(1) =~= Seq::<(Seq<u8>, JsonV)>::empty());
            assert(lookup(ms, kw_jsonrpc()) == Some(JsonV::Str(kw_version())));
            assert(lookup(ms, kw_id()) is None);
            assert(lookup(ms, kw_method()) == Some(JsonV::Str(method)));
            assert(lookup(ms, kw_params()) == Some(params));
            assert(lookup(ms, kw_result()) is None);
            assert(lookup(ms, kw_error()) is None);
        },
        MessageV::Response { id, outcome } => {
            let ms = msg_to_json(m)->Obj_0;
            assert(ms.skip(1) =~= ms.subrange(1, 3));
            assert(ms.skip(1)[0] == ms[1] && ms.skip(1).len() == 2);
            assert(ms.skip(1).skip(1) =~= ms.subrange(2, 3));
            assert(ms.skip(1).skip(1)[0] == ms[2] && ms.skip(1).skip(1).len() == 1);
            assert(ms.skip(1).skip(1).skip(1) =~= Seq::<(Seq<u8>, JsonV)>::empty());
            assert(lookup(ms, kw_jsonrpc()) == Some(JsonV::Str(kw_version())));
            assert(lookup(ms, kw_id()) == Some(id_to_json(id)));
            assert(lookup(ms, kw_method()) is None);
            match outcome {
                Ok(r) => {
                    assert(lookup(ms, kw_result()) == Some(r));
                    assert(lookup(ms, kw_error()) is None);
                },
                Err(e) => {
                    assert(lookup(ms, kw_result()) is None);
                    let ems = seq![
                        (kw_code(), JsonV::Int(e.code)),
                        (kw_message(), JsonV::Str(e.message)),
                    ];
                    assert(lookup(ms, kw_error()) == Some(JsonV::Obj(ems)));
                    assert(ems.skip(1) =~= seq![(kw_message(), JsonV::Str(e.message))]);
                    assert(ems.skip(1).skip(1) =~= Seq::<(Seq<u8>, JsonV)>::empty());
                    assert(lookup(ems, kw_code()) == Some(JsonV::Int(e.code)));
                    assert(lookup(ems, kw_message()) == Some(JsonV::Str(e.message)));
                },
            }
        },
    }
}

/// The round-trip law at the message level: encoding a message and decoding
/// the bytes yields an equal message.
pub proof fn lemma_msg_roundtrip(m: MessageV)
    ensures
        spec_decode_msg(spec_encode_msg(m)) == Some(m),
{
    lemma_decode_roundtrip(msg_to_json(m));
    lemma_classify_build(m);
}

/// Writes a correlation key in its JSON form.
fn push_id(id: &RequestId, out: &mut Vec<u8>)
    ensures
        final(out)@ == old(out)@ + spec_enc(id_to_json(id@)),
{
    match id {
        RequestId::Num(n) => {
            let j = Json::Int(*n);
            j.encode_into(out);
        },
        RequestId::Text(t) => {
            push_string(t, out);
            assert(out@ =~= old(out)@ + spec_enc(id_to_json(id@)));
        },
    }
}

/// Writes one quoted, escaped key and the following colon.
fn push_key(key: &Vec<u8>, out: &mut Vec<u8>)
    ensures
        final(out)@ == old(out)@ + seq![34u8] + spec_esc(key@) + seq![34u8, 58u8],
{
    push_string(key, out);
    out.push(58);
    assert(out@ =~= old(out)@ + seq![34u8] + spec_esc(key@) + seq![34u8, 58u8]);
}

/// Writes the shared envelope head: the opening brace and the version
/// member.
#[verifier::rlimit(50)]
fn push_head(out: &mut Vec<u8>)
    ensures
        final(out)@ == old(out)@ + seq![123u8] + spec_enc_member(
            (kw_jsonrpc(), JsonV::Str(kw_version())),
        ),
{
    out.push(123);
    let kj: Vec<u8> = vec![106u8, 115u8, 111u8, 110u8, 114u8, 112u8, 99u8];
    let ver: Vec<u8> = vec![50u8, 46u8, 48u8];
    assert(kj@ =~= kw_jsonrpc());
    assert(ver@ =~= kw_version());
    push_key(&kj, out);
    push_string(&ver, out);
    assert(out@ =~= old(out)@ + seq![123u8] + spec_enc_member(
        (kw_jsonrpc(), JsonV::Str(kw_version())),
    ));
}

/// Encodes a request envelope.
#[verifier::rlimit(100)]
fn encode_request(id: &RequestId, method: &Vec<u8>, params: &Json) -> (out: Vec<u8>)
    ensures
        out@ == spec_enc(
            msg_to_json(MessageV::Request { id: id@, method: method@, params: params@ }),
        ),
{
    let ghost ms = msg_to_json(
        MessageV::Request { id: id@, method: method@, params: params@ },
    )->Obj_0;
    let mut out: Vec<u8> = Vec::new();
    push_head(&mut out);
    let ghost o1 = out@;
    out.push(44);
    let ki: Vec<u8> = vec![105u8, 100u8];
    assert(ki@ =~= kw_id());
    push_key(&ki, &mut out);
    push_id(id, &mut out);
    let ghost o2 = out@;
    proof {
        assert(o2 =~= o1 + seq![44u8] + spec_enc_member(ms[1]));
    }
    out.push(44);
    let km: Vec<u8> = vec![109u8, 101u8, 116u8, 104u8, 111u8, 100u8];
    assert(km@ =~= kw_method());
    push_key(&km, &mut out);
    push_string(method, &mut out);
    let ghost o3 = out@;
    proof {
        assert(o3 =~= o2 + seq![44u8] + spec_enc_member(ms[2]));
    }
    out.push(44);
    let kp: Vec<u8> = vec![112u8, 97u8, 114u8, 97u8, 109u8, 115u8];
    assert(kp@ =~= kw_params());
    push_key(&kp, &mut out);
    params.encode_into(&mut out);
    let ghost o4 = out@;
    proof {
        assert(o4 =~= o3 + seq![44u8] + spec_enc_member(ms[3]));
    }
    out.push(125);
    proof {
        reveal_with_fuel(spec_enc_members, 5);
        assert(ms.skip(1) =~= ms.subrange(1, 4));
        assert(ms.skip(1).skip(1) =~= ms.subrange(2, 4));
        assert(ms.skip(1).skip(1).skip(1) =~= ms.subrange(3, 4));
        assert(spec_enc_members(ms) =~= spec_enc_member(ms[0]) + seq![44u8] + spec_enc_member(
            ms[1],
        ) + seq![44u8] + spec_enc_member(ms[2]) + seq![44u8] + spec_enc_member(ms[3]));
        assert(out@ =~= seq![123u8] + spec_enc_members(ms) + seq![125u8]);
    }
    out
}

/// Encodes a notification envelope.
#[verifier::rlimit(100)]
fn encode_notification(method: &Vec<u8>, params: &Json) -> (out: Vec<u8>)
    ensures
        out@ == spec_enc(msg_to_json(MessageV::Notification { method: method@, params: params@ })),
{
    let ghost ms = msg_to_json(
        MessageV::Notification { method: method@, params: params@ },
    )->Obj_0;
    let mut out: Vec<u8> = Vec::new();
    push_head(&mut out);
    let ghost o1 = out@;
    out.push(44);
    let km: Vec<u8> = vec![109u8, 101u8, 116u8, 104u8, 111u8, 100u8];
    assert(km@ =~= kw_method());
    push_key(&km, &mut out);
    push_string(method, &mut out);
    let ghost o2 = out@;
    proof {
        assert(o2 =~= o1 + seq![44u8] + spec_enc_member(ms[1]));
    }
    out.push(44);
    let kp: Vec<u8> = vec![112u8, 97u8, 114u8, 97u8, 109u8, 115u8];
    assert(kp@ =~= kw_params());
    push_key(&kp, &mut out);
    params.encode_into(&mut out);
    let ghost o3 = out@;
    proof {
        assert(o3 =~= o2 + seq![44u8] + spec_enc_member(ms[2]));
    }
    out.push(125);
    proof {
        reveal_with_fuel(spec_enc_members, 4);
        assert(ms.skip(1) =~= ms.subrange(1, 3));
        assert(ms.skip(1).skip(1) =~= ms.subrange(2, 3));
        assert(spec_enc_members(ms) =~= spec_enc_member(ms[0]) + seq![44u8] + spec_enc_member(
            ms[1],
        ) + seq![44u8] + spec_enc_member(ms[2]));
        assert(out@ =~= seq![123u8] + spec_enc_members(ms) + seq![125u8]);
    }
    out
}

/// Encodes a success-response envelope.
#[verifier::rlimit(100)]
fn encode_response_ok(id: &RequestId, r: &Json) -> (out: Vec<u8>)
    ensures
        out@ == spec_enc(msg_to_json(MessageV::Response { id: id@, outcome: Ok(r@) })),
{
    let ghost ms = msg_to_json(MessageV::Response { id: id@, outcome: Ok(r@) })->Obj_0;
    let mut out: Vec<u8> = Vec::new();
    push_head(&mut out);
    let ghost o1 = out@;
    out.push(44);
    let ki: Vec<u8> = vec![105u8, 100u8];
    assert(ki@ =~= kw_id());
    push_key(&ki, &mut out);
    push_id(id, &mut out);
    let ghost o2 = out@;
    proof {
        assert(o2 =~= o1 + seq![44u8] + spec_enc_member(ms[1]));
    }
    out.push(44);
    let kr: Vec<u8> = vec![114u8, 101u8, 115u8, 117u8, 108u8, 116u8];
    assert(kr@ =~= kw_result());
    push_key(&kr, &mut out);
    r.encode_into(&mut out);
    let ghost o3 = out@;
    proof {
        assert(o3 =~= o2 + seq![44u8] + spec_enc_member(ms[2]));
    }
    out.push(125);
    proof {
        reveal_with_fuel(spec_enc_members, 4);
        assert(ms.skip(1) =~= ms.subrange(1, 3));
        assert(ms.skip(1).skip(1) =~= ms.subrange(2, 3));
        assert(spec_enc_members(ms) =~= spec_enc_member(ms[0]) + seq![44u8] + spec_enc_member(
            ms[1],
        ) + seq![44u8] + spec_enc_member(ms[2]));
        assert(out@ =~= seq![123u8] + spec_enc_members(ms) + seq![125u8]);
    }
    out
}

/// Encodes an error-response envelope.
#[verifier::rlimit(100)]
fn encode_response_err(id: &RequestId, e: &ErrorObj) -> (out: Vec<u8>)
    ensures
        out@ == spec_enc(msg_to_json(MessageV::Response { id: id@, outcome: Err(e@) })),
{
    let ghost ms = msg_to_json(MessageV::Response { id: id@, outcome: Err(e@) })->Obj_0;
    let mut out: Vec<u8> = Vec::new();
    push_head(&mut out);
    let ghost o1 = out@;
    out.push(44);
    let ki: Vec<u8> = vec![105u8, 100u8];
    assert(ki@ =~= kw_id());
    push_key(&ki, &mut out);
    push_id(id, &mut out);
    let ghost o2 = out@;
    proof {
        assert(o2 =~= o1 + seq![44u8] + spec_enc_member(ms[1]));
    }
    out.push(44);
    let ke: Vec<u8> = vec![101u8, 114u8, 114u8, 111u8, 114u8];
    assert(ke@ =~= kw_error());
    push_key(&ke, &mut out);
    out.push(123);
    let ghost ems = ms[2].1->Obj_0;
    let ghost p0 = out@;
    let kc: Vec<u8> = vec![99u8, 111u8, 100u8, 101u8];
    assert(kc@ =~= kw_code());
    push_key(&kc, &mut out);
    let cj = Json::Int(e.code);
    cj.encode_into(&mut out);
    let ghost p1 = out@;
    proof {
        assert(p1 =~= p0 + spec_enc_member(ems[0]));
    }
    out.push(44);
    let kg: Vec<u8> = vec![109u8, 101u8, 115u8, 115u8, 97u8, 103u8, 101u8];
    assert(kg@ =~= kw_message());
    push_key(&kg, &mut out);
    push_string(&e.message, &mut out);
    let ghost p2 = out@;
    proof {
        assert(p2 =~= p1 + seq![44u8] + spec_enc_member(ems[1]));
    }
    out.push(125);
    let ghost o3 = out@;
    proof {
        reveal_with_fuel(spec_enc_members, 3);
        assert(ems.skip(1) =~= ems.subrange(1, 2));
        assert(spec_enc_members(ems) =~= spec_enc_member(ems[0]) + seq![44u8] + spec_enc_member(
            ems[1],
        ));
        assert(spec_enc(ms[2].1) =~= seq![123u8] + spec_enc_members(ems) + seq![125u8]);
        assert(o3 =~= o2 + seq![44u8] + spec_enc_member(ms[2]));
    }
    out.push(125);
    proof {
        reveal_with_fuel(spec_enc_members, 4);
        assert(ms.skip(1) =~= ms.subrange(1, 3));
        assert(ms.skip(1).skip(1) =~= ms.subrange(2, 3));
        assert(spec_enc_members(ms) =~= spec_enc_member(ms[0]) + seq![44u8] + spec_enc_member(
            ms[1],
        ) + seq![44u8] + spec_enc_member(ms[2]));
        assert(out@ =~= seq![123u8] + spec_enc_members(ms) + seq![125u8]);
    }
    out
}

/// Encodes a message as its JSON-RPC envelope bytes.
pub fn encode_msg(m: &Message) -> (out: Vec<u8>)
    ensures
        out@ == spec_encode_msg(m@),
{
    match m {
        Message::Request { id, method, params } => encode_request(id, method, params),
        Message::Notification { method, params } => encode_notification(method, params),
        Message::Response { id, outcome } => match outcome {
            Ok(r) => encode_response_ok(id, r),
            Err(e) => encode_response_err(id, e),
        },
    }
}

/// Skipping members whose keys all differ from the key leaves the lookup
/// unchanged.
pub proof fn lemma_lookup_skip(ms: Seq<(Seq<u8>, JsonV)>, key: Seq<u8>, i: int)
    requires
        0 <= i <= ms.len(),
        forall|j: int| 0 <= j < i ==> (#[trigger] ms[j]).0 != key,
    ensures
        lookup(ms, key) == lookup(ms.skip(i), key),
    decreases i,
{
    if i == 0 {
        assert(ms.skip(0) =~= ms);
    } else {
        assert(ms[0].0 != key);
        assert forall|j: int| 0 <= j < i - 1 implies (#[trigger] ms.skip(1)[j]).0 != key by {
            assert(ms.skip(1)[j] == ms[j + 1]);
        }
        lemma_lookup_skip(ms.skip(1), key, i - 1);
        assert(ms.skip(1).skip(i - 1) =~= ms.skip(i));
    }
}

/// Byte-for-byte equality.
pub fn bytes_eq(a: &Vec<u8>, b: &Vec<u8>) -> (r: bool)
    ensures
        r == (a@ == b@),
{
    if a.len() != b.len() {
        return false;
    }
    let mut i: usize = 0;
    while i < a.len()
        invariant
            i <= a@.len(),
            a@.len() == b@.len(),
            forall|j: int| 0 <= j < i ==> a@[j] == b@[j],
        decreases a@.len() - i,
    {
        if a[i] != b[i] {
            return false;
        }
        i = i + 1;
    }
    assert(a@ =~= b@);
    true
}

/// Finds the first member with the given key; the found value is what the
/// lookup names.
#[verifier::loop_isolation(false)]
pub fn find_key(ms: &Vec<(Vec<u8>, Json)>, key: &Vec<u8>) -> (r: Option<usize>)
    ensures
        match r {
            Some(i) => i < ms@.len() && lookup(view_member_seq(ms@), key@) == Some(
                view_json(ms@[i as int].1),
            ),
            None => lookup(view_member_seq(ms@), key@) is None,
        },
{
    proof {
        lemma_view_member_seq(ms@);
    }
    let ghost msv = view_member_seq(ms@);
    let mut i: usize = 0;
    while i < ms.len()
        invariant
            i <= ms@.len(),
            forall|j: int| 0 <= j < i ==> (#[trigger] msv[j]).0 != key@,
        decreases ms@.len() - i,
    {
        if bytes_eq(&ms[i].0, key) {
            proof {
                lemma_lookup_skip(msv, key@, i as int);
                assert(msv.skip(i as int)[0] == msv[i as int]);
            }
            return Some(i);
        }
        i = i + 1;
    }
    proof {
        lemma_lookup_skip(msv, key@, msv.len() as int);
        assert(msv.skip(msv.len() as int) =~= Seq::<(Seq<u8>, JsonV)>::empty());
    }
    None
}

/// Reads a decoded JSON value as an envelope, by the shape rules.
#[verifier::rlimit(100)]
pub fn classify_exec(j: Json) -> (r: Option<Message>)
    ensures
        match r {
            Some(m) => classify(j@) == Some(m@),
            None => classify(j@) is None,
        },
{
    match j {
        Json::Obj(ms) => {
            let kj: Vec<u8> = vec![106u8, 115u8, 111u8, 110u8, 114u8, 112u8, 99u8];
            let ver: Vec<u8> = vec![50u8, 46u8, 48u8];
            let ki: Vec<u8> = vec![105u8, 100u8];
            assert(ki@ =~= kw_id());
            let km: Vec<u8> = vec![109u8, 101u8, 116u8, 104u8, 111u8, 100u8];
            assert(km@ =~= kw_method());
            let kp: Vec<u8> = vec![112u8, 97u8, 114u8, 97u8, 109u8, 115u8];
            assert(kp@ =~= kw_params());
            let kr: Vec<u8> = vec![114u8, 101u8, 115u8, 117u8, 108u8, 116u8];
            assert(kr@ =~= kw_result());
            let ke: Vec<u8> = vec![101u8, 114u8, 114u8, 111u8, 114u8];
            assert(ke@ =~= kw_error());
            let ok_version: bool = match find_key(&ms, &kj) {
                Some(i) => match &ms[i].1 {
                    Json::Str(s) => bytes_eq(s, &ver),
                    _ => false,
                },
                None => false,
            };
            if !ok_version {
                return None;
            }
            let params: Json = match find_key(&ms, &kp) {
                Some(i) => ms[i].1.deep_clone(),
                None => Json::Null,
            };
            match find_key(&ms, &km) {
                Some(mi) => {
                    let name: Vec<u8> = match &ms[mi].1 {
                        Json::Str(s) => clone_bytes(s),
                        _ => {
                            return None;
                        },
                    };
                    let has_result = match find_key(&ms, &kr) {
                        Some(_) => true,
                        None => false,
                    };
                    let has_error = match find_key(&ms, &ke) {
                        Some(_) => true,
                        None => false,
                    };
                    if has_result || has_error {
                        return None;
                    }
                    match find_key(&ms, &ki) {
                        Some(ii) => match &ms[ii].1 {
                            Json::Int(n) => Some(
                                Message::Request {
                                    id: RequestId::Num(*n),
                                    method: name,
                                    params,
                                },
                            ),
                            Json::Str(t) => Some(
                                Message::Request {
                                    id: RequestId::Text(clone_bytes(t)),
                                    method: name,
                                    params,
                                },
                            ),
                            _ => None,
                        },
                        None => Some(Message::Notification { method: name, params }),
                    }
                },
                None => {
                    match find_key(&ms, &ki) {
                        Some(ii) => {
                            let idv: RequestId = match &ms[ii].1 {
                                Json::Int(n) => RequestId::Num(*n),
                                Json::Str(t) => RequestId::Text(clone_bytes(t)),
                                _ => {
                                    return None;
                                },
                            };
                            let res = find_key(&ms, &kr);
                            let err = find_key(&ms, &ke);
                            match (res, err) {
                                (Some(ri), None) => Some(
                                    Message::Response {
                                        id: idv,
                                        outcome: Ok(ms[ri].1.deep_clone()),
                                    },
                                ),
                                (None, Some(ei)) => match &ms[ei].1 {
                                    Json::Obj(ems) => {
                                        let kc: Vec<u8> = vec![99u8, 111u8, 100u8, 101u8];
            assert(kc@ =~= kw_code());
                                        let kg: Vec<u8> = vec![
                                            109u8,
                                            101u8,
                                            115u8,
                                            115u8,
                                            97u8,
                                            103u8,
                                            101u8,
                                        ];
                                        match (find_key(ems, &kc), find_key(ems, &kg)) {
                                            (Some(ci), Some(gi)) => match (
                                                &ems[ci].1,
                                                &ems[gi].1,
                                            ) {
                                                (Json::Int(code), Json::Str(msgs)) => Some(
                                                    Message::Response {
                                                        id: idv,
                                                        outcome: Err(
                                                            ErrorObj {
                                                                code: *code,
                                                                message: clone_bytes(msgs),
                                                            },
                                                        ),
                                                    },
                                                ),
                                                _ => None,
                                            },
                                            _ => None,
                                        }
                                    },
                                    _ => None,
                                },
                                _ => None,
                            }
                        },
                        None => None,
                    }
                },
            }
        },
        _ => None,
    }
}

/// Decodes one body into a message: the envelope must be a whole JSON value
/// of the accepted shape.
pub fn decode_msg(bytes: &Vec<u8>) -> (r: Option<Message>)
    ensures
        match r {
            Some(m) => spec_decode_msg(bytes@) == Some(m@),
            None => spec_decode_msg(bytes@) is None,
        },
{
    match decode_json(bytes) {
        Some(j) => classify_exec(j),
        None => None,
    }
}

} // verus!
