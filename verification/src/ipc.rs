//! The JSON-RPC surface of a running node: requests as plain records, their
//! routing and parameters, and the answers with their error codes.

use vstd::prelude::*;
use crate::keyed_map::KeyedMap;
use crate::encoding::{hex_decode, hex_encode, hex_lower, hex_decodable, hex_bytes};
use crate::text::{decimal, decimal_text, normalized_path};
use crate::apps::drive::normalize_vpath;
use crate::api::{NexAppApi, CoreRuntimeError, runtime_error_text, runtime_error_debug};
use crate::model::ActorID;
use crate::object::types::{ObjectID, NamespaceID, ObjectType, NexObject};

verus! {

/// A JSON-RPC error: its code and message.
#[derive(Debug, Clone, PartialEq, Eq)]
pub struct JsonRpcError {
    pub code: i32,
    pub message: String,
}

/// The request dispatcher of a node's RPC server.
pub struct NexRpcDispatcher;

/// A request as the dispatcher reads it: the string-valued parameters, and the
/// string-valued entries of the `metadata` parameter.
pub struct RpcRequest {
    pub jsonrpc: String,
    pub id: u64,
    pub method: String,
    pub params: KeyedMap<String, String>,
    pub metadata: KeyedMap<String, String>,
}

/// One listed drive file.
#[derive(Debug)]
pub struct DriveListEntry {
    pub object_id: String,
    pub path: String,
    pub size_bytes: usize,
    pub created_epoch: u64,
}

/// What a successful call answers, field by field.
#[derive(Debug)]
pub enum RpcResult {
    Pong { actor_id: String },
    ObjectCreated { object_id: String },
    ObjectRead { object_id: String, payload_len: usize, tombstoned: bool },
    Synced { state_root: String, epoch: u64 },
    Status { actor_id: String, objects_count: usize, dag_count: usize },
    Reclaimed { reclaimed_chunks: usize },
    DrivePut { object_id: String, path: String },
    DriveList { entries: Vec<DriveListEntry> },
    ChatSent { object_id: String, channel_id: String },
    CommunityPosted { object_id: String, title: String },
}

/// A response: always version 2.0, the request's id, and a result or an error.
#[derive(Debug)]
pub struct RpcResponse {
    pub jsonrpc: String,
    pub id: u64,
    pub result: Option<RpcResult>,
    pub error: Option<JsonRpcError>,
}

/// What the node itself reports for status requests.
pub struct NodeFacts {
    pub actor_id: ActorID,
    pub objects_count: usize,
    pub dag_count: usize,
}

/// Where dispatching leaves a request: answered, or waiting on work only the
/// node can do (a chunk sweep; the epoch after a sync).
#[derive(Debug)]
pub enum RpcStep {
    Answered(RpcResponse),
    CollectGarbage { id: u64 },
    Synced { id: u64, state_root: [u8; 32] },
}

pub open spec fn key(s: Seq<char>) -> Seq<u8> {
    vstd::utf8::encode_utf8(s)
}

/// A string parameter, or `default` when it is absent.
pub open spec fn param(params: Map<Seq<u8>, String>, name: Seq<char>, default: Seq<char>) -> Seq<char> {
    if params.contains_key(key(name)) { params[key(name)]@ } else { default }
}

/// A 32-byte id from hex text; all zeros when the text is not 32 bytes of hex.
pub open spec fn id_from_hex(text: Seq<char>) -> Seq<u8> {
    let b = key(text);
    if hex_decodable(b) && hex_bytes(b).len() == 32 { hex_bytes(b) } else { Seq::new(32, |i: int| 0u8) }
}

/// A payload from text: the bytes it stands for when it is hex, else its own bytes.
pub open spec fn payload_from(text: Seq<char>) -> Seq<u8> {
    let b = key(text);
    if hex_decodable(b) { hex_bytes(b) } else { b }
}

/// The namespaces the named methods write to.
pub open spec fn filled(b: u8) -> Seq<u8> {
    Seq::new(32, |i: int| b)
}

/// The error with `code` and `message`.
pub open spec fn is_error(r: RpcResponse, id: u64, code: int, message: Seq<char>) -> bool {
    &&& r.jsonrpc@ == "2.0"@
    &&& r.id == id
    &&& r.result is None
    &&& r.error matches Some(e) && e.code == code && e.message@ == message
}

/// The answer `result`.
pub open spec fn is_answer(r: RpcResponse, id: u64) -> bool {
    &&& r.jsonrpc@ == "2.0"@
    &&& r.id == id
    &&& r.error is None
    &&& r.result is Some
}

/// Answered with a result that `ok` accepts.
pub open spec fn answered_ok(r: RpcStep, id: u64, ok: spec_fn(RpcResult) -> bool) -> bool {
    match r {
        RpcStep::Answered(a) => is_answer(a, id) && match a.result { Some(res) => ok(res), None => false },
        _ => false,
    }
}

/// Answered with the error `code` and `message`.
pub open spec fn answered_err(r: RpcStep, id: u64, code: int, message: Seq<char>) -> bool {
    match r {
        RpcStep::Answered(a) => is_error(a, id, code, message),
        _ => false,
    }
}

/// Answered either with a result that `ok` accepts or with an error of `code`.
pub open spec fn answered(r: RpcStep, id: u64, ok: spec_fn(RpcResult) -> bool, code: int) -> bool {
    match r {
        RpcStep::Answered(a) => a.jsonrpc@ == "2.0"@ && a.id == id && match (a.result, a.error) {
            (Some(res), None) => ok(res),
            (None, Some(e)) => e.code == code,
            _ => false,
        },
        _ => false,
    }
}

/// A pong carrying the node's actor id in hex.
pub open spec fn rpc_pong(res: RpcResult, actor: Seq<u8>) -> bool {
    match res {
        RpcResult::Pong { actor_id } => actor_id@ == hex_lower(actor),
        _ => false,
    }
}

/// The node's status as its facts give it.
pub open spec fn rpc_status(res: RpcResult, facts: NodeFacts) -> bool {
    match res {
        RpcResult::Status { actor_id, objects_count, dag_count } => actor_id@ == hex_lower(facts.actor_id@)
            && objects_count == facts.objects_count && dag_count == facts.dag_count,
        _ => false,
    }
}

/// The drive files listed under `prefix`, in id order.
pub open spec fn rpc_listing(res: RpcResult, es: Seq<(ObjectID, NexObject)>, prefix: Seq<char>) -> bool {
    match res {
        RpcResult::DriveList { entries } => {
            let l = drive_listing(es, prefix);
            &&& entries@.len() == l.len()
            &&& forall|i: int| 0 <= i < l.len() ==> drive_entry_of(#[trigger] entries@[i], l[i].0, l[i].1)
        },
        _ => false,
    }
}

/// A stored drive file at `path`.
pub open spec fn rpc_drive_put(res: RpcResult, path: Seq<char>) -> bool {
    match res {
        RpcResult::DrivePut { path: p, .. } => p@ == path,
        _ => false,
    }
}

/// A sent chat message on `channel`.
pub open spec fn rpc_chat_sent(res: RpcResult, channel: Seq<char>) -> bool {
    match res {
        RpcResult::ChatSent { channel_id, .. } => channel_id@ == channel,
        _ => false,
    }
}

/// A community post titled `title`.
pub open spec fn rpc_posted(res: RpcResult, title: Seq<char>) -> bool {
    match res {
        RpcResult::CommunityPosted { title: t, .. } => t@ == title,
        _ => false,
    }
}

/// A sync waiting on the node's epoch, or its error -32002.
pub open spec fn sync_step(r: RpcStep, id: u64) -> bool {
    match r {
        RpcStep::Synced { id: i, .. } => i == id,
        _ => answered(r, id, |res: RpcResult| false, -32002),
    }
}

/// Whether an object is listed under `prefix` (already normalized).
pub open spec fn drive_listed(o: NexObject, prefix: Seq<char>) -> bool {
    &&& o.namespace@ == filled(0xD1)
    &&& !o.tombstoned
    &&& o.metadata@.contains_key(key("path"@))
    &&& (prefix.is_prefix_of(o.metadata@[key("path"@)]@) || prefix == "/"@)
}

/// The entry listed for an object.
pub open spec fn drive_entry_of(e: DriveListEntry, id: ObjectID, o: NexObject) -> bool {
    &&& e.object_id@ == hex_lower(id@)
    &&& e.path@ == o.metadata@[key("path"@)]@
    &&& e.size_bytes == o.payload_bytes@.len()
    &&& e.created_epoch == o.created_epoch
}

/// The objects listed under `prefix`, in id order.
pub open spec fn drive_listing(es: Seq<(ObjectID, NexObject)>, prefix: Seq<char>) -> Seq<(ObjectID, NexObject)> {
    es.filter(|e: (ObjectID, NexObject)| drive_listed(e.1, prefix))
}

fn error_response(id: u64, code: i32, message: String) -> (r: RpcResponse)
    ensures
        is_error(r, id, code as int, message@),
{
    RpcResponse { jsonrpc: "2.0".to_string(), id, result: None, error: Some(JsonRpcError { code, message }) }
}

fn answer(id: u64, result: RpcResult) -> (r: RpcResponse)
    ensures
        is_answer(r, id),
        r.result == Some(result),
{
    RpcResponse { jsonrpc: "2.0".to_string(), id, result: Some(result), error: None }
}

/// A string parameter, or `default`.
fn param_or(params: &KeyedMap<String, String>, name: &str, default: &str) -> (r: String)
    ensures
        r@ == param(params@, name@, default@),
{
    match params.get(&name.to_string()) {
        Some(v) => v.as_str().to_string(),
        None => default.to_string(),
    }
}

/// A 32-byte id from hex text, all zeros when it is not.
fn id_of_hex(text: &str) -> (r: [u8; 32])
    ensures
        r@ == id_from_hex(text@),
{
    let mut id = [0u8; 32];
    assert(id@ =~= Seq::new(32, |i: int| 0u8));
    match hex_decode(text) {
        Ok(b) => {
            if b.len() == 32 {
                let mut i: usize = 0;
                while i < 32
                    invariant
                        i <= 32,
                        b@.len() == 32,
                        forall|j: int| 0 <= j < i ==> #[trigger] id@[j] == b@[j],
                    decreases 32 - i,
                {
                    id[i] = b[i];
                    i = i + 1;
                }
                assert(id@ =~= b@);
            }
        }
        Err(_) => {}
    }
    id
}

/// The payload a text parameter stands for.
fn payload_of(text: &str) -> (r: Vec<u8>)
    ensures
        r@ == payload_from(text@),
{
    match hex_decode(text) {
        Ok(b) => b,
        Err(_) => crate::bytes::to_vec(text.as_bytes()),
    }
}

/// Bytes filled with `b`.
fn filled_id(b: u8) -> (r: [u8; 32])
    ensures
        r@ == filled(b),
{
    let r = [b; 32];
    assert(r@ =~= filled(b));
    r
}

/// The drive objects listed under `prefix`, in id order.
fn drive_entries(objects: &KeyedMap<ObjectID, NexObject>, prefix: &String) -> (r: Vec<DriveListEntry>)
    ensures
        r@.len() == drive_listing(objects.entries_view(), prefix@).len(),
        forall|i: int| 0 <= i < r@.len() ==> drive_entry_of(#[trigger] r@[i],
            drive_listing(objects.entries_view(), prefix@)[i].0, drive_listing(objects.entries_view(), prefix@)[i].1),
{
    let ghost es = objects.entries_view();
    let ghost pred = |e: (ObjectID, NexObject)| drive_listed(e.1, prefix@);
    let n = objects.len();
    let drive_ns = filled_id(0xD1);
    let path_key = "path".to_string();
    let mut out: Vec<DriveListEntry> = Vec::new();
    let mut i: usize = 0;
    while i < n
        invariant
            i <= n,
            n == es.len(),
            es == objects.entries_view(),
            pred == (|e: (ObjectID, NexObject)| drive_listed(e.1, prefix@)),
            drive_ns@ == filled(0xD1),
            path_key@ == "path"@,
            out@.len() == es.take(i as int).filter(pred).len(),
            forall|j: int| 0 <= j < out@.len() ==> drive_entry_of(#[trigger] out@[j],
                es.take(i as int).filter(pred)[j].0, es.take(i as int).filter(pred)[j].1),
        decreases n - i,
    {
        let oid = *objects.key_at(i);
        let obj = objects.value_at(i);
        proof {
            assert(es.take(i + 1) =~= es.take(i as int).push(es[i as int]));
            es.take(i as int).lemma_filter_push(es[i as int], pred);
            assert(es[i as int].0 == oid && es[i as int].1 == *obj);
        }
        if crate::bytes::id_eq(&obj.namespace, &drive_ns) && !obj.tombstoned {
            match obj.metadata.get(&path_key) {
                Some(p) => {
                    let starts = prefix_chars(prefix.as_str(), p.as_str());
                    let is_root = str_is(prefix.as_str(), "/");
                    if starts || is_root {
                        let e = DriveListEntry {
                            object_id: hex_encode(oid.as_slice()),
                            path: p.as_str().to_string(),
                            size_bytes: obj.payload_bytes.len(),
                            created_epoch: obj.created_epoch,
                        };
                        out.push(e);
                    }
                }
                None => {}
            }
        }
        i = i + 1;
    }
    assert(es.take(n as int) =~= es);
    out
}

/// Whether `p` starts with `prefix`.
fn prefix_chars(prefix: &str, p: &str) -> (r: bool)
    ensures
        r == prefix@.is_prefix_of(p@),
{
    let a = crate::text::chars_of(prefix);
    let b = crate::text::chars_of(p);
    if a.len() > b.len() {
        return false;
    }
    let mut i: usize = 0;
    while i < a.len()
        invariant
            i <= a@.len(),
            a@.len() <= b@.len(),
            a@ == prefix@,
            b@ == p@,
            forall|j: int| 0 <= j < i ==> a@[j] == b@[j],
        decreases a@.len() - i,
    {
        if a[i] != b[i] {
            return false;
        }
        i = i + 1;
    }
    assert(b@.subrange(0, a@.len() as int) =~= a@);
    true
}

impl NexRpcDispatcher {
    /// Answers a request on `node`: version 2.0 only (-32600), then by method —
    /// `nex_ping`, `nex_createObject` (-32000), `nex_readObject` (-32001),
    /// `nex_syncNow` (-32002, finished by `finish_sync`), `nex_getStatus`,
    /// `nex_gcCas` (finished by `finish_gc`), `nex_drivePut` (-32010),
    /// `nex_driveList`, `nex_chatSend` (-32020), `nex_communityPost` (-32030) —
    /// and -32601 for any other method. A node error's message is its `Debug` text.
    pub fn dispatch_node<N: NexAppApi>(node: &mut N, facts: &NodeFacts, objects: &KeyedMap<ObjectID, NexObject>,
        req: RpcRequest) -> (r: RpcStep)
        ensures
            req.jsonrpc@ != "2.0"@ ==> answered_err(r, req.id, -32600, "Invalid Request: jsonrpc must be '2.0'"@),
            req.jsonrpc@ == "2.0"@ && req.method@ == "nex_ping"@
                ==> answered_ok(r, req.id, (|res: RpcResult| rpc_pong(res, facts.actor_id@))),
            req.jsonrpc@ == "2.0"@ && req.method@ == "nex_getStatus"@
                ==> answered_ok(r, req.id, (|res: RpcResult| rpc_status(res, *facts))),
            req.jsonrpc@ == "2.0"@ && req.method@ == "nex_gcCas"@ ==> (r == RpcStep::CollectGarbage { id: req.id }),
            req.jsonrpc@ == "2.0"@ && req.method@ == "nex_syncNow"@ ==> sync_step(r, req.id),
            req.jsonrpc@ == "2.0"@ && req.method@ == "nex_driveList"@ ==> answered_ok(r, req.id,
                (|res: RpcResult| rpc_listing(res, objects.entries_view(), normalized_path(param(req.params@, "path"@, "/"@))))),
            req.jsonrpc@ == "2.0"@ && req.method@ == "nex_createObject"@
                ==> answered(r, req.id, (|res: RpcResult| res is ObjectCreated), -32000),
            req.jsonrpc@ == "2.0"@ && req.method@ == "nex_readObject"@
                ==> answered(r, req.id, (|res: RpcResult| res is ObjectRead), -32001),
            req.jsonrpc@ == "2.0"@ && req.method@ == "nex_drivePut"@ ==> answered(r, req.id,
                (|res: RpcResult| rpc_drive_put(res, normalized_path(param(req.params@, "path"@, "/untitled.dat"@)))), -32010),
            req.jsonrpc@ == "2.0"@ && req.method@ == "nex_chatSend"@ ==> answered(r, req.id,
                (|res: RpcResult| rpc_chat_sent(res, param(req.params@, "channel_id"@, ""@))), -32020),
            req.jsonrpc@ == "2.0"@ && req.method@ == "nex_communityPost"@ ==> answered(r, req.id,
                (|res: RpcResult| rpc_posted(res, param(req.params@, "title"@, ""@))), -32030),
            req.jsonrpc@ == "2.0"@ && !known_method(req.method@)
                ==> answered_err(r, req.id, -32601, "Method '"@ + req.method@ + "' not found"@),
    {
        let id = req.id;
        if !str_is(req.jsonrpc.as_str(), "2.0") {
            return RpcStep::Answered(error_response(id, -32600, "Invalid Request: jsonrpc must be '2.0'".to_string()));
        }
        let m = req.method.as_str();
        proof {
            reveal_strlit("nex_ping");
            reveal_strlit("nex_getStatus");
            reveal_strlit("nex_gcCas");
            reveal_strlit("nex_syncNow");
            reveal_strlit("nex_driveList");
            reveal_strlit("nex_createObject");
            reveal_strlit("nex_readObject");
            reveal_strlit("nex_drivePut");
            reveal_strlit("nex_chatSend");
            reveal_strlit("nex_communityPost");
            assert("nex_ping"@.len() == 8);
            assert("nex_getStatus"@.len() == 13);
            assert("nex_gcCas"@.len() == 9);
            assert("nex_syncNow"@.len() == 11);
            assert("nex_driveList"@.len() == 13);
            assert("nex_createObject"@.len() == 16);
            assert("nex_readObject"@.len() == 14);
            assert("nex_drivePut"@.len() == 12);
            assert("nex_chatSend"@.len() == 12);
            assert("nex_communityPost"@.len() == 17);
            assert("nex_getStatus"@[4] != "nex_driveList"@[4]);
            assert("nex_drivePut"@[4] != "nex_chatSend"@[4]);
        }
        if str_is(m, "nex_ping") {
            RpcStep::Answered(answer(id, RpcResult::Pong { actor_id: hex_encode(facts.actor_id.as_slice()) }))
        } else if str_is(m, "nex_getStatus") {
            RpcStep::Answered(answer(id, RpcResult::Status {
                actor_id: hex_encode(facts.actor_id.as_slice()),
                objects_count: facts.objects_count,
                dag_count: facts.dag_count,
            }))
        } else if str_is(m, "nex_gcCas") {
            RpcStep::CollectGarbage { id }
        } else if str_is(m, "nex_syncNow") {
            match node.sync_now() {
                Ok(cp) => RpcStep::Synced { id, state_root: cp.body.state_root },
                Err(e) => RpcStep::Answered(error_response(id, -32002, runtime_error_text(&e))),
            }
        } else if str_is(m, "nex_driveList") {
            let prefix = normalize_vpath(param_or(&req.params, "path", "/").as_str());
            let entries = drive_entries(objects, &prefix);
            RpcStep::Answered(answer(id, RpcResult::DriveList { entries }))
        } else if str_is(m, "nex_createObject") {
            let ns = id_of_hex(param_or(&req.params, "namespace", "").as_str());
            let payload = payload_of(param_or(&req.params, "payload", "").as_str());
            match node.create_object(ns, ObjectType::Synthetic(1), req.metadata, payload) {
                Ok(oid) => RpcStep::Answered(answer(id, RpcResult::ObjectCreated { object_id: hex_encode(oid.as_slice()) })),
                Err(e) => RpcStep::Answered(error_response(id, -32000, runtime_error_text(&e))),
            }
        } else if str_is(m, "nex_readObject") {
            let oid = id_of_hex(param_or(&req.params, "object_id", "").as_str());
            match node.read_object(&oid) {
                Ok(obj) => RpcStep::Answered(answer(id, RpcResult::ObjectRead {
                    object_id: hex_encode(obj.object_id.as_slice()),
                    payload_len: obj.payload_bytes.len(),
                    tombstoned: obj.tombstoned,
                })),
                Err(e) => RpcStep::Answered(error_response(id, -32001, runtime_error_text(&e))),
            }
        } else if str_is(m, "nex_drivePut") {
            let path = normalize_vpath(param_or(&req.params, "path", "/untitled.dat").as_str());
            let payload = payload_of(param_or(&req.params, "payload", "").as_str());
            let mut metadata: KeyedMap<String, String> = KeyedMap::new();
            metadata.insert("path".to_string(), path.as_str().to_string());
            metadata.insert("size".to_string(), decimal_text(payload.len() as u64));
            match node.create_object(filled_id(0xD1), ObjectType::DriveInode, metadata, payload) {
                Ok(oid) => RpcStep::Answered(answer(id, RpcResult::DrivePut { object_id: hex_encode(oid.as_slice()), path })),
                Err(e) => RpcStep::Answered(error_response(id, -32010, runtime_error_text(&e))),
            }
        } else if str_is(m, "nex_chatSend") {
            let chan = param_or(&req.params, "channel_id", "");
            let text = param_or(&req.params, "text", "");
            let mut metadata: KeyedMap<String, String> = KeyedMap::new();
            metadata.insert("channel".to_string(), chan.as_str().to_string());
            metadata.insert("author".to_string(), hex_encode(facts.actor_id.as_slice()));
            let payload = crate::bytes::to_vec(text.as_str().as_bytes());
            match node.create_object(filled_id(0xC1), ObjectType::ChatMessage, metadata, payload) {
                Ok(oid) => RpcStep::Answered(answer(id, RpcResult::ChatSent { object_id: hex_encode(oid.as_slice()), channel_id: chan })),
                Err(e) => RpcStep::Answered(error_response(id, -32020, runtime_error_text(&e))),
            }
        } else if str_is(m, "nex_communityPost") {
            let chan = param_or(&req.params, "channel_id", "");
            let title = param_or(&req.params, "title", "");
            let content = param_or(&req.params, "content", "");
            let mut metadata: KeyedMap<String, String> = KeyedMap::new();
            metadata.insert("channel".to_string(), chan.as_str().to_string());
            metadata.insert("title".to_string(), title.as_str().to_string());
            metadata.insert("author".to_string(), hex_encode(facts.actor_id.as_slice()));
            let payload = crate::bytes::to_vec(content.as_str().as_bytes());
            match node.create_object(filled_id(0xB1), ObjectType::Community, metadata, payload) {
                Ok(oid) => RpcStep::Answered(answer(id, RpcResult::CommunityPosted { object_id: hex_encode(oid.as_slice()), title })),
                Err(e) => RpcStep::Answered(error_response(id, -32030, runtime_error_text(&e))),
            }
        } else {
            let mut msg = "Method '".to_string();
            vstd::string::StringExecFns::append(&mut msg, m);
            vstd::string::StringExecFns::append(&mut msg, "' not found");
            RpcStep::Answered(error_response(id, -32601, msg))
        }
    }

    /// The answer to `nex_syncNow` once the node reports its epoch.
    pub fn finish_sync(id: u64, state_root: [u8; 32], epoch: u64) -> (r: RpcResponse)
        ensures
            is_answer(r, id),
            r.result matches Some(RpcResult::Synced { state_root: s, epoch: e }) && s@ == hex_lower(state_root@) && e == epoch,
    {
        answer(id, RpcResult::Synced { state_root: hex_encode(state_root.as_slice()), epoch })
    }

    /// The answer to `nex_gcCas` once the node has swept its chunks.
    pub fn finish_gc(id: u64, reclaimed_chunks: usize) -> (r: RpcResponse)
        ensures
            is_answer(r, id),
            r.result matches Some(RpcResult::Reclaimed { reclaimed_chunks: n }) && n == reclaimed_chunks,
    {
        answer(id, RpcResult::Reclaimed { reclaimed_chunks })
    }
}

/// The methods the dispatcher knows.
pub open spec fn known_method(m: Seq<char>) -> bool {
    m == "nex_ping"@ || m == "nex_getStatus"@ || m == "nex_gcCas"@ || m == "nex_syncNow"@ || m == "nex_driveList"@
        || m == "nex_createObject"@ || m == "nex_readObject"@ || m == "nex_drivePut"@ || m == "nex_chatSend"@
        || m == "nex_communityPost"@
}

/// Whether `s` is the text `t`.
fn str_is(s: &str, t: &str) -> (r: bool)
    ensures
        r == (s@ == t@),
{
    let r = crate::bytes::bytes_eq(s.as_bytes(), t.as_bytes());
    proof {
        vstd::utf8::encode_utf8_decode_utf8(s@);
        vstd::utf8::encode_utf8_decode_utf8(t@);
    }
    r
}

} // verus!
