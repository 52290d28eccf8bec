//! The dispatcher and its handler registry: methods are registered once at
//! startup, looked up by name, their parameters checked by the handler's
//! own decoder, and every request is answered exactly once — by the
//! handler's result, or by the method-not-found or invalid-params error.

use vstd::prelude::*;
use crate::json::{Json, JsonV};
use crate::message::{Message, MessageV, RequestId, ErrorObj, ErrorObjV, bytes_eq};
use crate::protocol::{
    CODE_METHOD_NOT_FOUND, CODE_INVALID_PARAMS, kw_msg_method_not_found, kw_msg_invalid_params,
    msg_method_not_found_bytes, msg_invalid_params_bytes,
};

verus! {

/// The closed set of handlers this core ships: the go-to-definition stub
/// and the code-action stub, both answering with an empty list.
#[derive(PartialEq, Eq, Structural, Clone, Copy, Debug)]
pub enum HandlerKind {
    EmptyDefinition,
    EmptyCodeAction,
}

/// A registered method: its name and its handler.
pub struct HandlerEntry {
    pub method: Vec<u8>,
    pub kind: HandlerKind,
}

/// The handler registry, filled at startup and read-only afterwards.
pub struct Registry {
    pub entries: Vec<HandlerEntry>,
}

/// The models of a registry's entries.
pub open spec fn view_entry_seq(s: Seq<HandlerEntry>) -> Seq<(Seq<u8>, HandlerKind)>
    decreases s.len(),
{
    if s.len() == 0 {
        seq![]
    } else {
        seq![(s[0].method@, s[0].kind)] + view_entry_seq(s.skip(1))
    }
}

/// The model of the entries, entry by entry.
pub proof fn lemma_view_entry_seq(s: Seq<HandlerEntry>)
    ensures
        view_entry_seq(s).len() == s.len(),
        forall|i: int|
            0 <= i < s.len() ==> #[trigger] view_entry_seq(s)[i] == (s[i].method@, s[i].kind),
    decreases s.len(),
{
    if s.len() > 0 {
        lemma_view_entry_seq(s.skip(1));
    }
}

/// The handler registered under the first entry with the given name, if any.
pub open spec fn find_method(s: Seq<(Seq<u8>, HandlerKind)>, name: Seq<u8>) -> Option<HandlerKind>
    decreases s.len(),
{
    if s.len() == 0 {
        None
    } else if s[0].0 == name {
        Some(s[0].1)
    } else {
        find_method(s.skip(1), name)
    }
}

/// Whether a handler's parameter decoder accepts the parameters. The
/// definition stub accepts anything; the code-action stub wants an object.
pub open spec fn spec_params_ok(kind: HandlerKind, params: JsonV) -> bool {
    match kind {
        HandlerKind::EmptyDefinition => true,
        HandlerKind::EmptyCodeAction => params is Obj,
    }
}

/// What a handler returns. Both shipped stubs answer an empty list.
pub open spec fn spec_handler_result(kind: HandlerKind, params: JsonV) -> JsonV {
    JsonV::Arr(seq![])
}

/// The outcome a dispatched request is answered with: method-not-found for
/// an unregistered method, invalid-params when the decoder refuses, else
/// the handler's result.
pub open spec fn spec_dispatch_outcome(
    reg: Seq<(Seq<u8>, HandlerKind)>,
    method: Seq<u8>,
    params: JsonV,
) -> Result<JsonV, ErrorObjV> {
    match find_method(reg, method) {
        None => Err(
            ErrorObjV { code: CODE_METHOD_NOT_FOUND, message: kw_msg_method_not_found() },
        ),
        Some(kind) => if !spec_params_ok(kind, params) {
            Err(ErrorObjV { code: CODE_INVALID_PARAMS, message: kw_msg_invalid_params() })
        } else {
            Ok(spec_handler_result(kind, params))
        },
    }
}

/// Looks a method up from the given entry on.
fn lookup_from(entries: &Vec<HandlerEntry>, name: &Vec<u8>, i: usize) -> (r: Option<HandlerKind>)
    requires
        i <= entries@.len(),
    ensures
        r == find_method(view_entry_seq(entries@).skip(i as int), name@),
    decreases entries@.len() - i,
{
    proof {
        lemma_view_entry_seq(entries@);
    }
    if i == entries.len() {
        assert(view_entry_seq(entries@).skip(i as int) =~= Seq::<(Seq<u8>, HandlerKind)>::empty());
        None
    } else {
        assert(view_entry_seq(entries@).skip(i as int)[0] == view_entry_seq(entries@)[i as int]);
        if bytes_eq(&entries[i].method, name) {
            Some(entries[i].kind)
        } else {
            let r = lookup_from(entries, name, i + 1);
            assert(view_entry_seq(entries@).skip(i as int).skip(1) =~= view_entry_seq(
                entries@,
            ).skip(i + 1));
            r
        }
    }
}

impl Registry {
    /// The model of the registry.
    pub open spec fn entries_view(&self) -> Seq<(Seq<u8>, HandlerKind)> {
        view_entry_seq(self.entries@)
    }

    /// An empty registry.
    pub fn new() -> (r: Registry)
        ensures
            r.entries_view() == Seq::<(Seq<u8>, HandlerKind)>::empty(),
    {
        let r = Registry { entries: Vec::new() };
        proof {
            assert(r.entries_view() =~= Seq::<(Seq<u8>, HandlerKind)>::empty());
        }
        r
    }

    /// The handler registered under a name, if any.
    pub fn lookup_method(&self, name: &Vec<u8>) -> (r: Option<HandlerKind>)
        ensures
            r == find_method(self.entries_view(), name@),
    {
        let r = lookup_from(&self.entries, name, 0);
        assert(self.entries_view().skip(0) =~= self.entries_view());
        r
    }

    /// Registers a handler. Registration happens once, at startup; a second
    /// registration under the same name is a configuration error and is
    /// refused.
    pub fn register(&mut self, method: Vec<u8>, kind: HandlerKind) -> (ok: bool)
        ensures
            ok == (find_method(old(self).entries_view(), method@) is None),
            ok ==> final(self).entries_view() == old(self).entries_view().push((method@, kind)),
            !ok ==> final(self).entries_view() == old(self).entries_view(),
    {
        match self.lookup_method(&method) {
            Some(_) => false,
            None => {
                let ghost prev = self.entries@;
                self.entries.push(HandlerEntry { method, kind });
                proof {
                    lemma_view_entry_seq(prev);
                    lemma_view_entry_seq(self.entries@);
                    assert(self.entries_view() =~= view_entry_seq(prev).push(
                        (self.entries@[prev.len() as int].method@, kind),
                    ));
                }
                true
            },
        }
    }
}

/// Runs a handler. Handlers are pure mappings from parameters to a result;
/// the shipped stubs ignore their parameters and answer an empty list.
pub fn run_handler(kind: HandlerKind, params: &Json) -> (r: Json)
    ensures
        r@ == spec_handler_result(kind, params@),
{
    let items: Vec<Json> = Vec::new();
    let r = Json::Arr(items);
    proof {
        assert(r@ =~= spec_handler_result(kind, params@));
    }
    r
}

/// Whether a handler's decoder accepts the parameters.
pub fn params_ok(kind: HandlerKind, params: &Json) -> (r: bool)
    ensures
        r == spec_params_ok(kind, params@),
{
    match kind {
        HandlerKind::EmptyDefinition => true,
        HandlerKind::EmptyCodeAction => match params {
            Json::Obj(_) => true,
            _ => false,
        },
    }
}

/// Answers one request: exactly one response, carrying the request's own
/// id, with the dispatch outcome.
pub fn dispatch(reg: &Registry, id: RequestId, method: &Vec<u8>, params: &Json) -> (resp: Message)
    ensures
        resp@ == (MessageV::Response {
            id: id@,
            outcome: spec_dispatch_outcome(reg.entries_view(), method@, params@),
        }),
{
    match reg.lookup_method(method) {
        None => Message::Response {
            id,
            outcome: Err(
                ErrorObj { code: CODE_METHOD_NOT_FOUND, message: msg_method_not_found_bytes() },
            ),
        },
        Some(kind) => {
            if !params_ok(kind, params) {
                Message::Response {
                    id,
                    outcome: Err(
                        ErrorObj { code: CODE_INVALID_PARAMS, message: msg_invalid_params_bytes() },
                    ),
                }
            } else {
                Message::Response { id, outcome: Ok(run_handler(kind, params)) }
            }
        },
    }
}

/// Takes one notification: the same lookup and decode as a request, but no
/// reply exists, whatever happens; the result only says whether a handler
/// both existed and accepted the parameters.
pub fn dispatch_notification(reg: &Registry, method: &Vec<u8>, params: &Json) -> (handled: bool)
    ensures
        handled == (match find_method(reg.entries_view(), method@) {
            Some(kind) => spec_params_ok(kind, params@),
            None => false,
        }),
{
    match reg.lookup_method(method) {
        None => false,
        Some(kind) => params_ok(kind, params),
    }
}

} // verus!
