//! The node runtime.
//!
//! A node owns a byte-accounted store, a reply cache and a finger
//! table. The dispatch logic is here: a received frame is answered
//! from the cache when its id was answered before, and otherwise the
//! request is decoded, the operation executed against the store or the
//! finger table, and the encoded reply cached and returned. The
//! surrounding process does the socket work: it hands each received
//! datagram in and sends the returned bytes back.

use vstd::prelude::*;

use crate::cache::{cache_capacity, cache_get, cache_insert, cache_map, cache_weighted_size,
    new_bounded_cache, ReplyCacheInner};
use crate::errors::DhtError;
use crate::finger::{Endpoint, FingerTable};
use crate::proto::{
    encode_reply, extract_request, frame_checksum_ok, parse_message, spec_encode_reply,
    spec_parse_frame, spec_parse_request, FrameView, spec_status_code, validate_checksum, Frame, NodeInfo,
    Reply, ReplyView, Request, RequestView, Status,
};
use crate::store::DataStore;

verus! {

/// The largest value a put may carry, in bytes.
pub const MAX_VALUE_PAYLOAD_SIZE_BYTES: usize = 10240;

/// How long an unused cached reply stays alive, in milliseconds.
pub const CACHE_TTL_MILLIS: u64 = 1000;

/// One node of the store.
pub struct Node {
    store: DataStore,
    request_cache: ReplyCacheInner,
    finger_table: FingerTable,
    id: u32,
    process_id: u32,
    should_keep_running: bool,
}

/// A reply that carries a bare status.
pub open spec fn status_reply(st: Status) -> ReplyView {
    ReplyView { status: spec_status_code(st), value: None, pid: None, node_info: None }
}

impl Node {
    /// The mapping the store holds.
    pub closed spec fn spec_store(&self) -> Map<Seq<u8>, Seq<u8>> {
        self.store@
    }

    /// The bytes the store accounts for.
    pub closed spec fn spec_used(&self) -> u64 {
        self.store.spec_used()
    }

    /// The node's byte budget.
    pub closed spec fn spec_max_mem(&self) -> u64 {
        self.store.spec_max_mem()
    }

    /// The node's process id.
    pub closed spec fn spec_pid(&self) -> u32 {
        self.process_id
    }

    /// Whether the dispatch loop should keep running.
    pub closed spec fn spec_running(&self) -> bool {
        self.should_keep_running
    }

    /// The reply cache value.
    pub closed spec fn spec_cache(&self) -> ReplyCacheInner {
        self.request_cache
    }

    /// The node's finger table.
    pub closed spec fn spec_finger_table(&self) -> FingerTable {
        self.finger_table
    }

    /// The node's internal invariant.
    pub closed spec fn wf(&self) -> bool {
        &&& self.store.wf()
        &&& self.finger_table.wf()
    }

    /// Neither the store nor the running flag moved between two node
    /// states.
    pub open spec fn state_unchanged(pre: &Node, post: &Node) -> bool {
        &&& post.spec_store() == pre.spec_store()
        &&& post.spec_used() == pre.spec_used()
        &&& post.spec_running() == pre.spec_running()
    }

    /// What stays fixed across every dispatch.
    pub open spec fn fixtures_unchanged(pre: &Node, post: &Node) -> bool {
        &&& post.spec_max_mem() == pre.spec_max_mem()
        &&& post.spec_pid() == pre.spec_pid()
        &&& post.spec_finger_table() == pre.spec_finger_table()
        &&& post.wf()
    }

    /// The weight a put charges: the new entry's weight, less the old
    /// value's weight when the key is overwritten.
    pub open spec fn put_fits(pre: &Node, k: Seq<u8>, v: Seq<u8>) -> bool {
        pre.spec_used() - (if pre.spec_store().contains_key(k) {
            k.len() + pre.spec_store()[k].len() as int
        } else {
            0int
        }) + k.len() + v.len() <= pre.spec_max_mem()
    }

    /// The dispatch relation: how one request turns a node state into
    /// a reply and a next state. A payload that does not decode is an
    /// internal error; an operation code past the defined ones is
    /// undefined; every other case follows the operation's own rule.
    pub open spec fn spec_served(pre: &Node, payload: Seq<u8>, p: ReplyView, post: &Node) -> bool {
        &&& Node::fixtures_unchanged(pre, post)
        &&& match spec_parse_request(payload) {
            None => p == status_reply(Status::InternalError) && Node::state_unchanged(pre, post),
            Some(q) => Node::spec_request_served(pre, q, p, post),
        }
    }

    /// The dispatch relation, after the payload has decoded.
    pub open spec fn spec_request_served(
        pre: &Node,
        q: RequestView,
        p: ReplyView,
        post: &Node,
    ) -> bool {
        if q.operation == 0 {
            // Put
            match q.key {
                None => p == status_reply(Status::MissingKey) && Node::state_unchanged(pre, post),
                Some(k) => match q.value {
                    None => p == status_reply(Status::MissingValue) && Node::state_unchanged(
                        pre,
                        post,
                    ),
                    Some(v) => if v.len() > MAX_VALUE_PAYLOAD_SIZE_BYTES {
                        p == status_reply(Status::InvalidValueSize) && Node::state_unchanged(
                            pre,
                            post,
                        )
                    } else if Node::put_fits(pre, k, v) {
                        &&& p == status_reply(Status::Success)
                        &&& post.spec_store() == pre.spec_store().insert(k, v)
                        &&& post.spec_running() == pre.spec_running()
                    } else {
                        p == status_reply(Status::OutOfMemory) && Node::state_unchanged(pre, post)
                    },
                },
            }
        } else if q.operation == 1 {
            // Get
            match q.key {
                None => p == status_reply(Status::MissingKey) && Node::state_unchanged(pre, post),
                Some(k) => if pre.spec_store().contains_key(k) {
                    p == ReplyView {
                        status: spec_status_code(Status::Success),
                        value: Some(pre.spec_store()[k]),
                        pid: None,
                        node_info: None,
                    } && Node::state_unchanged(pre, post)
                } else {
                    p == status_reply(Status::KeyNotFound) && Node::state_unchanged(pre, post)
                },
            }
        } else if q.operation == 2 {
            // Delete
            match q.key {
                None => p == status_reply(Status::MissingKey) && Node::state_unchanged(pre, post),
                Some(k) => if pre.spec_store().contains_key(k) {
                    &&& p == ReplyView {
                        status: spec_status_code(Status::Success),
                        value: Some(pre.spec_store()[k]),
                        pid: None,
                        node_info: None,
                    }
                    &&& post.spec_store() == pre.spec_store().remove(k)
                    &&& post.spec_running() == pre.spec_running()
                } else {
                    p == status_reply(Status::KeyNotFound) && Node::state_unchanged(pre, post)
                },
            }
        } else if q.operation == 3 {
            // Wipe
            &&& p == status_reply(Status::Success)
            &&& post.spec_store() =~= Map::empty()
            &&& post.spec_used() == 0
            &&& post.spec_running() == pre.spec_running()
        } else if q.operation == 4 {
            // Ping
            p == status_reply(Status::Success) && Node::state_unchanged(pre, post)
        } else if q.operation == 5 {
            // Shutdown
            &&& p == status_reply(Status::Success)
            &&& post.spec_store() == pre.spec_store()
            &&& post.spec_used() == pre.spec_used()
            &&& !post.spec_running()
        } else if q.operation == 6 {
            // GetPid
            p == ReplyView {
                status: spec_status_code(Status::Success),
                value: None,
                pid: Some(pre.spec_pid()),
                node_info: None,
            } && Node::state_unchanged(pre, post)
        } else if q.operation == 7 {
            // GetNearestPrecedingNodeToKey
            Node::state_unchanged(pre, post) && match q.key {
                None => p == status_reply(Status::MissingKey),
                Some(k) => {
                    let ft = pre.spec_finger_table();
                    let kp = ft.spec_key_position(k);
                    if (exists|j: int| 0 <= j < ft.spec_m() && ft.finger_precedes_key(j, kp)) {
                        &&& p.status == spec_status_code(Status::Success)
                        &&& p.value is None && p.pid is None
                        &&& p.node_info matches Some(ni) && exists|i: int|
                            {
                                &&& 0 <= i < ft.spec_m()
                                &&& #[trigger] ft.finger_precedes_key(i, kp)
                                &&& forall|j: int|
                                    i < j < ft.spec_m() ==> !ft.finger_precedes_key(j, kp)
                                &&& ni.node_position == ft.spec_node_positions()[i]
                                &&& ni.node_address == ft.spec_node_addrs()[i]
                            }
                    } else {
                        p == status_reply(Status::InternalError)
                    }
                },
            }
        } else if q.operation == 8 {
            // GetSuccessor
            Node::state_unchanged(pre, post) && {
                let ft = pre.spec_finger_table();
                if ft.spec_m() >= 2 {
                    &&& p.status == spec_status_code(Status::Success)
                    &&& p.value is None && p.pid is None
                    &&& p.node_info matches Some(ni) && ni.node_position
                        == ft.spec_node_positions()[1] && ni.node_address
                        == ft.spec_node_addrs()[1]
                } else {
                    p == status_reply(Status::InternalError)
                }
            }
        } else {
            p == status_reply(Status::UndefinedOperation) && Node::state_unchanged(pre, post)
        }
    }

    /// A fresh node: an empty store with the given budget in MiB, an
    /// empty reply cache a tenth of it, and a finger table over the
    /// given peers.
    pub fn new(
        this_node_addr: Endpoint,
        peer_addrs: Vec<Endpoint>,
        id: u32,
        max_mem_mb: u32,
        size_factor: u32,
        process_id: u32,
    ) -> (r: Result<Node, DhtError>)
        requires
            1 <= size_factor <= 32,
            peer_addrs@.len() + 1 <= vstd::arithmetic::power2::pow2(size_factor as nat),
        ensures
            match r {
                Ok(node) => {
                    &&& node.wf()
                    &&& node.spec_store() =~= Map::<Seq<u8>, Seq<u8>>::empty()
                    &&& node.spec_used() == 0
                    &&& node.spec_max_mem() == max_mem_mb as u64 * 1024 * 1024
                    &&& node.spec_pid() == process_id
                    &&& node.spec_running()
                    &&& forall|k: Seq<u8>| !cache_map(node.spec_cache()).contains_key(k)
                    &&& cache_capacity(node.spec_cache()) == node.spec_max_mem() / 10
                },
                Err(_) => false,
            },
    {
        let max_mem_bytes: u64 = (max_mem_mb as u64) * 1024 * 1024;
        let store = DataStore::new(max_mem_bytes);
        let request_cache = new_bounded_cache(max_mem_bytes / 10, CACHE_TTL_MILLIS);
        let finger_table = match FingerTable::new(this_node_addr, peer_addrs, size_factor) {
            Ok(ft) => ft,
            Err(e) => {
                return Err(e);
            },
        };
        Ok(
            Node {
                store,
                request_cache,
                finger_table,
                id,
                process_id,
                should_keep_running: true,
            },
        )
    }

    /// Whether the dispatch loop should keep running.
    pub fn is_running(&self) -> (r: bool)
        ensures
            r == self.spec_running(),
    {
        self.should_keep_running
    }

    /// The bytes currently accounted for in the store.
    pub fn get_current_memory_usage(&self) -> (r: u64)
        requires
            self.wf(),
        ensures
            r == self.spec_used(),
    {
        self.store.used()
    }

    fn handle_put(&mut self, request: Request) -> (p: Reply)
        requires
            old(self).wf(),
        ensures
            final(self).wf(),
            Node::fixtures_unchanged(old(self), final(self)),
            final(self).spec_cache() == old(self).spec_cache(),
            Node::spec_request_served(
                old(self),
                RequestView { operation: 0, ..request@ },
                p@,
                final(self),
            ),
    {
        let key = match request.key {
            Some(key) => key,
            None => {
                return Reply {
                    status: Status::MissingKey.code(),
                    value: None,
                    pid: None,
                    node_info: None,
                };
            },
        };
        let value = match request.value {
            Some(value) => value,
            None => {
                return Reply {
                    status: Status::MissingValue.code(),
                    value: None,
                    pid: None,
                    node_info: None,
                };
            },
        };
        if value.len() > MAX_VALUE_PAYLOAD_SIZE_BYTES {
            return Reply {
                status: Status::InvalidValueSize.code(),
                value: None,
                pid: None,
                node_info: None,
            };
        }
        let ok = self.store.insert(key, value);
        if ok {
            Reply { status: Status::Success.code(), value: None, pid: None, node_info: None }
        } else {
            Reply { status: Status::OutOfMemory.code(), value: None, pid: None, node_info: None }
        }
    }

    fn handle_get(&self, request: Request) -> (p: Reply)
        requires
            self.wf(),
        ensures
            Node::spec_request_served(self, RequestView { operation: 1, ..request@ }, p@, self),
    {
        let key = match request.key {
            Some(key) => key,
            None => {
                return Reply {
                    status: Status::MissingKey.code(),
                    value: None,
                    pid: None,
                    node_info: None,
                };
            },
        };
        match self.store.get(&key) {
            Some(v) => {
                let value = crate::codec::copy_range(v, 0, v.len());
                proof {
                    assert(value@ =~= v@);
                }
                Reply {
                    status: Status::Success.code(),
                    value: Some(value),
                    pid: None,
                    node_info: None,
                }
            },
            None => Reply {
                status: Status::KeyNotFound.code(),
                value: None,
                pid: None,
                node_info: None,
            },
        }
    }

    fn handle_delete(&mut self, request: Request) -> (p: Reply)
        requires
            old(self).wf(),
        ensures
            final(self).wf(),
            Node::fixtures_unchanged(old(self), final(self)),
            final(self).spec_cache() == old(self).spec_cache(),
            Node::spec_request_served(
                old(self),
                RequestView { operation: 2, ..request@ },
                p@,
                final(self),
            ),
    {
        let key = match request.key {
            Some(key) => key,
            None => {
                return Reply {
                    status: Status::MissingKey.code(),
                    value: None,
                    pid: None,
                    node_info: None,
                };
            },
        };
        match self.store.remove(&key) {
            Some(value) => Reply {
                status: Status::Success.code(),
                value: Some(value),
                pid: None,
                node_info: None,
            },
            None => Reply {
                status: Status::KeyNotFound.code(),
                value: None,
                pid: None,
                node_info: None,
            },
        }
    }

    fn handle_wipe(&mut self) -> (p: Reply)
        requires
            old(self).wf(),
        ensures
            final(self).wf(),
            Node::fixtures_unchanged(old(self), final(self)),
            final(self).spec_cache() == old(self).spec_cache(),
            p@ == status_reply(Status::Success),
            final(self).spec_store() =~= Map::<Seq<u8>, Seq<u8>>::empty(),
            final(self).spec_used() == 0,
            final(self).spec_running() == old(self).spec_running(),
    {
        self.store.wipe();
        Reply { status: Status::Success.code(), value: None, pid: None, node_info: None }
    }

    fn handle_ping(&self) -> (p: Reply)
        ensures
            p@ == status_reply(Status::Success),
    {
        Reply { status: Status::Success.code(), value: None, pid: None, node_info: None }
    }

    fn handle_shutdown(&mut self) -> (p: Reply)
        requires
            old(self).wf(),
        ensures
            final(self).wf(),
            Node::fixtures_unchanged(old(self), final(self)),
            final(self).spec_cache() == old(self).spec_cache(),
            p@ == status_reply(Status::Success),
            final(self).spec_store() == old(self).spec_store(),
            final(self).spec_used() == old(self).spec_used(),
            !final(self).spec_running(),
    {
        self.should_keep_running = false;
        Reply { status: Status::Success.code(), value: None, pid: None, node_info: None }
    }

    fn handle_getpid(&self) -> (p: Reply)
        ensures
            p@ == (ReplyView {
                status: spec_status_code(Status::Success),
                value: None,
                pid: Some(self.spec_pid()),
                node_info: None,
            }),
    {
        Reply {
            status: Status::Success.code(),
            value: None,
            pid: Some(self.process_id),
            node_info: None,
        }
    }

    fn handle_undefined_operation(&self) -> (p: Reply)
        ensures
            p@ == status_reply(Status::UndefinedOperation),
    {
        Reply {
            status: Status::UndefinedOperation.code(),
            value: None,
            pid: None,
            node_info: None,
        }
    }

    fn handle_internal_error(&self) -> (p: Reply)
        ensures
            p@ == status_reply(Status::InternalError),
    {
        Reply { status: Status::InternalError.code(), value: None, pid: None, node_info: None }
    }

    fn handle_get_nearest_preceding(&self, request: Request) -> (p: Reply)
        requires
            self.wf(),
        ensures
            Node::spec_request_served(self, RequestView { operation: 7, ..request@ }, p@, self),
    {
        let key = match request.key {
            Some(key) => key,
            None => {
                return Reply {
                    status: Status::MissingKey.code(),
                    value: None,
                    pid: None,
                    node_info: None,
                };
            },
        };
        let key_position = self.finger_table.calculate_key_position(&key);
        match self.finger_table.find_nearest_preceding_finger_by_position(key_position) {
            Ok(i) => {
                let node_position = self.finger_table.get_node_position(i);
                let addr = self.finger_table.get_node_address(i);
                Reply {
                    status: Status::Success.code(),
                    value: None,
                    pid: None,
                    node_info: Some(
                        NodeInfo { node_position, node_address: addr.text },
                    ),
                }
            },
            Err(_) => self.handle_internal_error(),
        }
    }

    fn handle_get_successor(&self) -> (p: Reply)
        requires
            self.wf(),
        ensures
            Node::spec_request_served(
                self,
                RequestView { operation: 8, key: None, value: None },
                p@,
                self,
            ),
    {
        if self.finger_table.get_finger_table_size() >= 2 {
            let node_position = self.finger_table.get_successor_position_of_this_node();
            let addr = self.finger_table.get_successor_addr_of_this_node();
            Reply {
                status: Status::Success.code(),
                value: None,
                pid: None,
                node_info: Some(NodeInfo { node_position, node_address: addr.text }),
            }
        } else {
            self.handle_internal_error()
        }
    }

    /// Decodes the request a frame carries and performs its operation.
    pub fn handle_message(&mut self, msg: &Frame) -> (p: Reply)
        requires
            old(self).wf(),
        ensures
            final(self).wf(),
            final(self).spec_cache() == old(self).spec_cache(),
            Node::spec_served(old(self), msg@.payload, p@, final(self)),
    {
        let request = match extract_request(msg) {
            Ok(q) => q,
            Err(_) => {
                return self.handle_internal_error();
            },
        };
        let operation = request.operation;
        if operation == 0 {
            self.handle_put(request)
        } else if operation == 1 {
            self.handle_get(request)
        } else if operation == 2 {
            self.handle_delete(request)
        } else if operation == 3 {
            self.handle_wipe()
        } else if operation == 4 {
            self.handle_ping()
        } else if operation == 5 {
            self.handle_shutdown()
        } else if operation == 6 {
            self.handle_getpid()
        } else if operation == 7 {
            self.handle_get_nearest_preceding(request)
        } else if operation == 8 {
            self.handle_get_successor()
        } else {
            self.handle_undefined_operation()
        }
    }

    /// Answers a frame from the reply cache.
    pub fn get_reply_from_cache(&mut self, msg: &Frame) -> (r: Result<Vec<u8>, DhtError>)
        requires
            old(self).wf(),
        ensures
            final(self).wf(),
            Node::fixtures_unchanged(old(self), final(self)),
            Node::state_unchanged(old(self), final(self)),
            match r {
                Ok(bytes) => cache_map(old(self).spec_cache()).contains_key(msg@.id) && bytes@
                    == cache_map(old(self).spec_cache())[msg@.id],
                Err(e) => e == DhtError::NotFound,
            },
            Node::cache_shrunk(old(self), final(self)),
    {
        match cache_get(&mut self.request_cache, &msg.id) {
            Some(bytes) => Ok(bytes),
            None => Err(DhtError::NotFound),
        }
    }

    /// Every entry the cache still holds was held before, unchanged.
    pub open spec fn cache_shrunk(pre: &Node, post: &Node) -> bool {
        forall|k: Seq<u8>| #[trigger]
            cache_map(post.spec_cache()).contains_key(k) ==> cache_map(
                pre.spec_cache(),
            ).contains_key(k) && cache_map(post.spec_cache())[k] == cache_map(pre.spec_cache())[k]
    }

    /// Every entry the cache holds afterwards was held before,
    /// unchanged, or is the reply just cached under the frame's id.
    pub open spec fn cache_extended(pre: &Node, post: &Node, id: Seq<u8>, bytes: Seq<u8>) -> bool {
        forall|k: Seq<u8>| #[trigger]
            cache_map(post.spec_cache()).contains_key(k) ==> ((cache_map(
                pre.spec_cache(),
            ).contains_key(k) && cache_map(post.spec_cache())[k] == cache_map(pre.spec_cache())[k])
                || (k == id && cache_map(post.spec_cache())[k] == bytes))
    }

    /// How a frame is answered: either its id hits the reply cache, in
    /// which case the returned bytes are exactly the bytes cached for
    /// that id and neither the store nor the running flag moves; or
    /// the request is freshly dispatched and the returned bytes encode
    /// the reply the dispatch relation names.
    pub open spec fn reply_bytes_served(
        pre: &Node,
        msg: FrameView,
        bytes: Seq<u8>,
        post: &Node,
    ) -> bool {
        ||| {
            &&& cache_map(pre.spec_cache()).contains_key(msg.id)
            &&& bytes == cache_map(pre.spec_cache())[msg.id]
            &&& Node::state_unchanged(pre, post)
        }
        ||| (exists|p: ReplyView|
            bytes == #[trigger] spec_encode_reply(p) && Node::spec_served(
                pre,
                msg.payload,
                p,
                post,
            ))
    }

    /// Answers one frame: from the cache when its id was answered
    /// before, else by dispatching the request, caching the encoded
    /// reply (unless the store was out of memory, or caching it would
    /// exceed the byte budget) and returning it.
    pub fn get_reply(&mut self, msg: &Frame) -> (r: Vec<u8>)
        requires
            old(self).wf(),
        ensures
            final(self).wf(),
            Node::fixtures_unchanged(old(self), final(self)),
            Node::reply_bytes_served(old(self), msg@, r@, final(self)),
            Node::cache_extended(old(self), final(self), msg@.id, r@),
            // An out-of-memory reply is never cached: the client may
            // retry once capacity is reclaimed.
            forall|p: ReplyView|
                (#[trigger] Node::spec_served(old(self), msg@.payload, p, final(self))
                    && p.status == spec_status_code(Status::OutOfMemory)) ==> Node::cache_shrunk(
                    old(self),
                    final(self),
                ),
            // An entry that cannot fit beside the store's bytes is
            // never cached.
            final(self).spec_used() + msg@.id.len() + r@.len() > final(self).spec_max_mem()
                ==> Node::cache_shrunk(old(self), final(self)),
    {
        let cached = self.get_reply_from_cache(msg);
        match cached {
            Ok(bytes) => bytes,
            Err(_) => {
                let ghost mid = *self;
                let reply = self.handle_message(msg);
                let reply_bytes = encode_reply(&reply);
                proof {
                    assert(Node::spec_served(&mid, msg@.payload, reply@, self));
                    assert(Node::spec_served(old(self), msg@.payload, reply@, self));
                }
                if reply.status != Status::OutOfMemory.code() {
                    let entry_size: u128 = msg.id.len() as u128 + reply_bytes.len() as u128;
                    let cache_size: u64 = cache_weighted_size(&self.request_cache);
                    let used: u64 = self.store.used();
                    let total: u128 = used as u128 + cache_size as u128 + entry_size;
                    if total <= self.store.max_mem() as u128 {
                        let id_copy = crate::codec::copy_range(&msg.id, 0, msg.id.len());
                        let bytes_copy = crate::codec::copy_range(
                            &reply_bytes,
                            0,
                            reply_bytes.len(),
                        );
                        proof {
                            assert(id_copy@ =~= msg@.id);
                            assert(bytes_copy@ =~= reply_bytes@);
                        }
                        cache_insert(&mut self.request_cache, id_copy, bytes_copy);
                    }
                }
                reply_bytes
            },
        }
    }

    /// Handles one received datagram: decodes the frame, refuses it
    /// when its checksum does not match its content, and otherwise
    /// answers it. The returned bytes are the reply payload to frame
    /// and send back.
    pub fn handle_datagram(&mut self, datagram: Vec<u8>) -> (r: Result<Vec<u8>, DhtError>)
        requires
            old(self).wf(),
        ensures
            final(self).wf(),
            Node::fixtures_unchanged(old(self), final(self)),
            match r {
                Ok(bytes) => spec_parse_frame(datagram@) matches Some(f) && frame_checksum_ok(f)
                    && Node::reply_bytes_served(old(self), f, bytes@, final(self)),
                Err(e) => {
                    &&& e == DhtError::InvalidData
                    &&& Node::state_unchanged(old(self), final(self))
                    &&& match spec_parse_frame(datagram@) {
                        None => true,
                        Some(f) => !frame_checksum_ok(f),
                    }
                },
            },
    {
        let frame = match parse_message(datagram) {
            Ok(f) => f,
            Err(e) => {
                return Err(e);
            },
        };
        match validate_checksum(&frame) {
            Ok(_) => {},
            Err(e) => {
                return Err(e);
            },
        }
        Ok(self.get_reply(&frame))
    }
}

} // verus!
