//! The protocol words this core speaks: the lifecycle and application
//! method names, the capability field names, and the JSON-RPC error codes
//! with their messages.

use vstd::prelude::*;
use crate::json::{Json, JsonV, view_member_seq, lemma_view_member_seq, view_json};

verus! {

/// The error code a request gets while the server is not initialized.
pub const CODE_NOT_INITIALIZED: i64 = -32002;

/// The error code for a request that the lifecycle or the id rules refuse.
pub const CODE_INVALID_REQUEST: i64 = -32600;

/// The error code for an unregistered method.
pub const CODE_METHOD_NOT_FOUND: i64 = -32601;

/// The error code for parameters that a handler's decoder refuses.
pub const CODE_INVALID_PARAMS: i64 = -32602;

/// The bytes of `initialize`.
pub open spec fn kw_initialize() -> Seq<u8> {
    seq![105u8, 110u8, 105u8, 116u8, 105u8, 97u8, 108u8, 105u8, 122u8, 101u8]
}

/// The bytes of `initialize`, as a vector.
pub fn initialize_bytes() -> (v: Vec<u8>)
    ensures
        v@ == kw_initialize(),
{
    let v: Vec<u8> = vec![105u8, 110u8, 105u8, 116u8, 105u8, 97u8, 108u8, 105u8, 122u8, 101u8];
    assert(v@ =~= kw_initialize());
    v
}

/// The bytes of `initialized`.
pub open spec fn kw_initialized() -> Seq<u8> {
    seq![105u8, 110u8, 105u8, 116u8, 105u8, 97u8, 108u8, 105u8, 122u8, 101u8, 100u8]
}

/// The bytes of `initialized`, as a vector.
pub fn initialized_bytes() -> (v: Vec<u8>)
    ensures
        v@ == kw_initialized(),
{
    let v: Vec<u8> = vec![105u8, 110u8, 105u8, 116u8, 105u8, 97u8, 108u8, 105u8, 122u8, 101u8, 100u8];
    assert(v@ =~= kw_initialized());
    v
}

/// The bytes of `shutdown`.
pub open spec fn kw_shutdown() -> Seq<u8> {
    seq![115u8, 104u8, 117u8, 116u8, 100u8, 111u8, 119u8, 110u8]
}

/// The bytes of `shutdown`, as a vector.
pub fn shutdown_bytes() -> (v: Vec<u8>)
    ensures
        v@ == kw_shutdown(),
{
    let v: Vec<u8> = vec![115u8, 104u8, 117u8, 116u8, 100u8, 111u8, 119u8, 110u8];
    assert(v@ =~= kw_shutdown());
    v
}

/// The bytes of `exit`.
pub open spec fn kw_exit() -> Seq<u8> {
    seq![101u8, 120u8, 105u8, 116u8]
}

/// The bytes of `exit`, as a vector.
pub fn exit_bytes() -> (v: Vec<u8>)
    ensures
        v@ == kw_exit(),
{
    let v: Vec<u8> = vec![101u8, 120u8, 105u8, 116u8];
    assert(v@ =~= kw_exit());
    v
}

/// The bytes of `textDocument/definition`.
pub open spec fn kw_goto_definition() -> Seq<u8> {
    seq![116u8, 101u8, 120u8, 116u8, 68u8, 111u8, 99u8, 117u8, 109u8, 101u8, 110u8, 116u8, 47u8, 100u8, 101u8, 102u8, 105u8, 110u8, 105u8, 116u8, 105u8, 111u8, 110u8]
}

/// The bytes of `textDocument/definition`, as a vector.
pub fn goto_definition_bytes() -> (v: Vec<u8>)
    ensures
        v@ == kw_goto_definition(),
{
    let v: Vec<u8> = vec![116u8, 101u8, 120u8, 116u8, 68u8, 111u8, 99u8, 117u8, 109u8, 101u8, 110u8, 116u8, 47u8, 100u8, 101u8, 102u8, 105u8, 110u8, 105u8, 116u8, 105u8, 111u8, 110u8];
    assert(v@ =~= kw_goto_definition());
    v
}

/// The bytes of `textDocument/codeAction`.
pub open spec fn kw_code_action() -> Seq<u8> {
    seq![116u8, 101u8, 120u8, 116u8, 68u8, 111u8, 99u8, 117u8, 109u8, 101u8, 110u8, 116u8, 47u8, 99u8, 111u8, 100u8, 101u8, 65u8, 99u8, 116u8, 105u8, 111u8, 110u8]
}

/// The bytes of `textDocument/codeAction`, as a vector.
pub fn code_action_bytes() -> (v: Vec<u8>)
    ensures
        v@ == kw_code_action(),
{
    let v: Vec<u8> = vec![116u8, 101u8, 120u8, 116u8, 68u8, 111u8, 99u8, 117u8, 109u8, 101u8, 110u8, 116u8, 47u8, 99u8, 111u8, 100u8, 101u8, 65u8, 99u8, 116u8, 105u8, 111u8, 110u8];
    assert(v@ =~= kw_code_action());
    v
}

/// The bytes of `capabilities`.
pub open spec fn kw_capabilities() -> Seq<u8> {
    seq![99u8, 97u8, 112u8, 97u8, 98u8, 105u8, 108u8, 105u8, 116u8, 105u8, 101u8, 115u8]
}

/// The bytes of `capabilities`, as a vector.
pub fn capabilities_bytes() -> (v: Vec<u8>)
    ensures
        v@ == kw_capabilities(),
{
    let v: Vec<u8> = vec![99u8, 97u8, 112u8, 97u8, 98u8, 105u8, 108u8, 105u8, 116u8, 105u8, 101u8, 115u8];
    assert(v@ =~= kw_capabilities());
    v
}

/// The bytes of `definitionProvider`.
pub open spec fn kw_definition_provider() -> Seq<u8> {
    seq![100u8, 101u8, 102u8, 105u8, 110u8, 105u8, 116u8, 105u8, 111u8, 110u8, 80u8, 114u8, 111u8, 118u8, 105u8, 100u8, 101u8, 114u8]
}

/// The bytes of `definitionProvider`, as a vector.
pub fn definition_provider_bytes() -> (v: Vec<u8>)
    ensures
        v@ == kw_definition_provider(),
{
    let v: Vec<u8> = vec![100u8, 101u8, 102u8, 105u8, 110u8, 105u8, 116u8, 105u8, 111u8, 110u8, 80u8, 114u8, 111u8, 118u8, 105u8, 100u8, 101u8, 114u8];
    assert(v@ =~= kw_definition_provider());
    v
}

/// The bytes of `codeActionProvider`.
pub open spec fn kw_code_action_provider() -> Seq<u8> {
    seq![99u8, 111u8, 100u8, 101u8, 65u8, 99u8, 116u8, 105u8, 111u8, 110u8, 80u8, 114u8, 111u8, 118u8, 105u8, 100u8, 101u8, 114u8]
}

/// The bytes of `codeActionProvider`, as a vector.
pub fn code_action_provider_bytes() -> (v: Vec<u8>)
    ensures
        v@ == kw_code_action_provider(),
{
    let v: Vec<u8> = vec![99u8, 111u8, 100u8, 101u8, 65u8, 99u8, 116u8, 105u8, 111u8, 110u8, 80u8, 114u8, 111u8, 118u8, 105u8, 100u8, 101u8, 114u8];
    assert(v@ =~= kw_code_action_provider());
    v
}

/// The bytes of `server not initialized`.
pub open spec fn kw_msg_not_initialized() -> Seq<u8> {
    seq![115u8, 101u8, 114u8, 118u8, 101u8, 114u8, 32u8, 110u8, 111u8, 116u8, 32u8, 105u8, 110u8, 105u8, 116u8, 105u8, 97u8, 108u8, 105u8, 122u8, 101u8, 100u8]
}

/// The bytes of `server not initialized`, as a vector.
pub fn msg_not_initialized_bytes() -> (v: Vec<u8>)
    ensures
        v@ == kw_msg_not_initialized(),
{
    let v: Vec<u8> = vec![115u8, 101u8, 114u8, 118u8, 101u8, 114u8, 32u8, 110u8, 111u8, 116u8, 32u8, 105u8, 110u8, 105u8, 116u8, 105u8, 97u8, 108u8, 105u8, 122u8, 101u8, 100u8];
    assert(v@ =~= kw_msg_not_initialized());
    v
}

/// The bytes of `invalid request`.
pub open spec fn kw_msg_invalid_request() -> Seq<u8> {
    seq![105u8, 110u8, 118u8, 97u8, 108u8, 105u8, 100u8, 32u8, 114u8, 101u8, 113u8, 117u8, 101u8, 115u8, 116u8]
}

/// The bytes of `invalid request`, as a vector.
pub fn msg_invalid_request_bytes() -> (v: Vec<u8>)
    ensures
        v@ == kw_msg_invalid_request(),
{
    let v: Vec<u8> = vec![105u8, 110u8, 118u8, 97u8, 108u8, 105u8, 100u8, 32u8, 114u8, 101u8, 113u8, 117u8, 101u8, 115u8, 116u8];
    assert(v@ =~= kw_msg_invalid_request());
    v
}

/// The bytes of `method not found`.
pub open spec fn kw_msg_method_not_found() -> Seq<u8> {
    seq![109u8, 101u8, 116u8, 104u8, 111u8, 100u8, 32u8, 110u8, 111u8, 116u8, 32u8, 102u8, 111u8, 117u8, 110u8, 100u8]
}

/// The bytes of `method not found`, as a vector.
pub fn msg_method_not_found_bytes() -> (v: Vec<u8>)
    ensures
        v@ == kw_msg_method_not_found(),
{
    let v: Vec<u8> = vec![109u8, 101u8, 116u8, 104u8, 111u8, 100u8, 32u8, 110u8, 111u8, 116u8, 32u8, 102u8, 111u8, 117u8, 110u8, 100u8];
    assert(v@ =~= kw_msg_method_not_found());
    v
}

/// The bytes of `invalid params`.
pub open spec fn kw_msg_invalid_params() -> Seq<u8> {
    seq![105u8, 110u8, 118u8, 97u8, 108u8, 105u8, 100u8, 32u8, 112u8, 97u8, 114u8, 97u8, 109u8, 115u8]
}

/// The bytes of `invalid params`, as a vector.
pub fn msg_invalid_params_bytes() -> (v: Vec<u8>)
    ensures
        v@ == kw_msg_invalid_params(),
{
    let v: Vec<u8> = vec![105u8, 110u8, 118u8, 97u8, 108u8, 105u8, 100u8, 32u8, 112u8, 97u8, 114u8, 97u8, 109u8, 115u8];
    assert(v@ =~= kw_msg_invalid_params());
    v
}

/// The capabilities the server advertises: go-to-definition and code
/// actions.
pub open spec fn capabilities_json() -> JsonV {
    JsonV::Obj(
        seq![
            (
                kw_capabilities(),
                JsonV::Obj(
                    seq![
                        (kw_definition_provider(), JsonV::Bool(true)),
                        (kw_code_action_provider(), JsonV::Bool(true)),
                    ],
                ),
            ),
        ],
    )
}

/// Builds the advertised capabilities value.
pub fn build_capabilities() -> (j: Json)
    ensures
        j@ == capabilities_json(),
{
    let mut inner: Vec<(Vec<u8>, Json)> = Vec::new();
    inner.push((definition_provider_bytes(), Json::Bool(true)));
    inner.push((code_action_provider_bytes(), Json::Bool(true)));
    let ghost iv = inner@;
    let mut outer: Vec<(Vec<u8>, Json)> = Vec::new();
    outer.push((capabilities_bytes(), Json::Obj(inner)));
    proof {
        lemma_view_member_seq(iv);
        assert(view_member_seq(iv) =~= capabilities_json()->Obj_0[0].1->Obj_0);
        lemma_view_member_seq(outer@);
        assert(view_member_seq(outer@) =~= capabilities_json()->Obj_0);
    }
    Json::Obj(outer)
}

} // verus!
