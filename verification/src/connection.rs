//! Node addressing and routing identities.

use std::sync::Arc;
use vstd::prelude::*;
use vstd::string::StringExecFns;

use crate::bytes::{bytes_lt, compare_bytes, Cmp};
use crate::kv::key_bytes;
use crate::wire::{Message, MessageType, MessageTypeValues};
use dashmap::DashMap;

verus! {

/// What a value tells about how to reach a node.
pub trait ConnectionInfo<V> {
    fn connection_info(&self) -> V;
}

/// A bare port.
#[derive(Debug, Clone, Copy, PartialEq, Eq, Structural, Hash)]
pub struct NodePort {
    value: u16,
}

impl NodePort {
    pub closed spec fn spec_value(&self) -> u16 {
        self.value
    }

    pub fn new(value: u16) -> (res: Self)
        ensures
            res.spec_value() == value,
    {
        NodePort { value }
    }

    pub fn value(&self) -> (res: u16)
        ensures
            res == self.spec_value(),
    {
        self.value
    }
}

/// Two ports are equal exactly when they hold the same number; so
/// `NodePort::new(a) == NodePort::new(b)` exactly when `a == b`.
pub proof fn lemma_port_eq(a: NodePort, b: NodePort)
    ensures
        a == b <==> a.spec_value() == b.spec_value(),
{
}

impl ConnectionInfo<u16> for NodePort {
    fn connection_info(&self) -> (res: u16)
        ensures
            res == self.spec_value(),
    {
        self.value
    }
}

/// A host and port.
#[derive(Debug, Clone, PartialEq, Eq, Hash)]
pub struct NodeAddress {
    host: String,
    port: u16,
}

impl NodeAddress {
    pub closed spec fn spec_host(&self) -> Seq<char> {
        self.host@
    }

    pub closed spec fn spec_port(&self) -> u16 {
        self.port
    }

    pub fn new(host: String, port: u16) -> (res: Self)
        ensures
            res.spec_host() == host@,
            res.spec_port() == port,
    {
        NodeAddress { host, port }
    }

    pub fn host(&self) -> (res: &str)
        ensures
            res@ == self.spec_host(),
    {
        self.host.as_str()
    }

    pub fn port(&self) -> (res: u16)
        ensures
            res == self.spec_port(),
    {
        self.port
    }

    /// A copy of the address.
    pub fn duplicate(&self) -> (res: Self)
        ensures
            res.spec_host() == self.spec_host(),
            res.spec_port() == self.spec_port(),
    {
        NodeAddress { host: self.host.clone(), port: self.port }
    }
}

/// `a` and `b` name the same host and port.
pub open spec fn same_address(a: NodeAddress, b: NodeAddress) -> bool {
    a.spec_host() == b.spec_host() && a.spec_port() == b.spec_port()
}

/// `p` is the port of `a`.
pub open spec fn is_port_of(p: u16, a: NodeAddress) -> bool {
    p == a.spec_port()
}

impl ConnectionInfo<NodeAddress> for NodeAddress {
    fn connection_info(&self) -> (res: NodeAddress)
        ensures
            same_address(res, *self),
    {
        self.duplicate()
    }
}

impl ConnectionInfo<u16> for NodeAddress {
    fn connection_info(&self) -> (res: u16)
        ensures
            is_port_of(res, *self),
    {
        self.port
    }
}

/// `(host, port)` of `a` comes before that of `b`: hosts by byte order, then ports.
pub open spec fn spec_address_lt(a: NodeAddress, b: NodeAddress) -> bool {
    ||| bytes_lt(key_bytes(a.spec_host()), key_bytes(b.spec_host()))
    ||| (a.spec_host() == b.spec_host() && a.spec_port() < b.spec_port())
}

/// Compares two addresses as the tuples `(host, port)`.
pub fn address_lt(a: &NodeAddress, b: &NodeAddress) -> (res: bool)
    ensures
        res == spec_address_lt(*a, *b),
{
    match compare_bytes(a.host().as_bytes(), b.host().as_bytes()) {
        Cmp::Less => true,
        Cmp::Greater => {
            proof {
                if a.spec_host() == b.spec_host() {
                    crate::bytes::lemma_bytes_lt_irreflexive(key_bytes(a.spec_host()));
                }
                crate::bytes::lemma_bytes_lt_asymmetric(key_bytes(b.spec_host()), key_bytes(a.spec_host()));
            }
            false
        },
        Cmp::Equal => {
            proof {
                crate::kv::lemma_key_bytes_injective(a.spec_host(), b.spec_host());
                crate::bytes::lemma_bytes_lt_irreflexive(key_bytes(a.spec_host()));
            }
            a.port() < b.port()
        },
    }
}

/// Of two nodes with different addresses exactly one comes first, so exactly one
/// of them initiates reconciliation with the other.
pub proof fn lemma_one_initiator(a: NodeAddress, b: NodeAddress)
    requires
        a.spec_host() != b.spec_host() || a.spec_port() != b.spec_port(),
    ensures
        spec_address_lt(a, b) != spec_address_lt(b, a),
{
    let ka = key_bytes(a.spec_host());
    let kb = key_bytes(b.spec_host());
    if a.spec_host() == b.spec_host() {
        crate::bytes::lemma_bytes_lt_irreflexive(ka);
    } else {
        if ka == kb {
            crate::kv::lemma_key_bytes_injective(a.spec_host(), b.spec_host());
        }
        crate::bytes::lemma_bytes_lt_total(ka, kb);
        if crate::bytes::bytes_lt(ka, kb) {
            crate::bytes::lemma_bytes_lt_asymmetric(ka, kb);
        } else {
            crate::bytes::lemma_bytes_lt_asymmetric(kb, ka);
        }
    }
}

/// The neighbours a node starts reconciliations with: those whose address comes
/// after its own, so that of each pair of nodes exactly one initiates.
pub fn initiation_targets(local: &NodeAddress, neighbors: &[NodeAddress]) -> (res: Vec<NodeAddress>)
    ensures
        res@.map_values(|a: NodeAddress| (a.spec_host(), a.spec_port())) == neighbors@.filter(
            |a: NodeAddress| spec_address_lt(*local, a),
        ).map_values(|a: NodeAddress| (a.spec_host(), a.spec_port())),
{
    let ghost pred = |a: NodeAddress| spec_address_lt(*local, a);
    let ghost f = |a: NodeAddress| (a.spec_host(), a.spec_port());
    let mut out: Vec<NodeAddress> = Vec::new();
    let mut i: usize = 0;
    while i < neighbors.len()
        invariant
            i <= neighbors@.len(),
            pred == (|a: NodeAddress| spec_address_lt(*local, a)),
            f == (|a: NodeAddress| (a.spec_host(), a.spec_port())),
            out@.map_values(f) == neighbors@.subrange(0, i as int).filter(pred).map_values(f),
        decreases neighbors@.len() - i,
    {
        proof {
            let cur = neighbors@.subrange(0, i + 1);
            assert(cur.drop_last() =~= neighbors@.subrange(0, i as int));
            assert(cur.last() == neighbors@[i as int]);
            crate::rbf::session::lemma_filter_step(cur, pred);
        }
        let ghost prev = out@;
        if address_lt(local, &neighbors[i]) {
            let d = neighbors[i].duplicate();
            out.push(d);
            assert(out@.map_values(f) =~= prev.map_values(f).push(f(neighbors@[i as int])));
            assert(neighbors@.subrange(0, i + 1).filter(pred).map_values(f) =~= neighbors@.subrange(
                0,
                i as int,
            ).filter(pred).map_values(f).push(f(neighbors@[i as int])));
        }
        i = i + 1;
    }
    assert(neighbors@.subrange(0, i as int) =~= neighbors@);
    out
}

/// A node's identity: a name and how to reach it.
pub trait NodeIdentifier<T, V> where T: ConnectionInfo<V> {
    fn id(&self) -> String;

    fn connection_info(&self) -> T;
}

pub struct DefaultNodeIdentifier {
    id: String,
    address: NodeAddress,
}

impl DefaultNodeIdentifier {
    pub closed spec fn spec_id(&self) -> Seq<char> {
        self.id@
    }

    pub closed spec fn spec_address(&self) -> NodeAddress {
        self.address
    }

    pub fn new(id: String, address: NodeAddress) -> (res: Self)
        ensures
            res.spec_id() == id@,
            res.spec_address() == address,
    {
        DefaultNodeIdentifier { id, address }
    }

    pub fn address(&self) -> (res: NodeAddress)
        ensures
            res.spec_host() == self.spec_address().spec_host(),
            res.spec_port() == self.spec_address().spec_port(),
    {
        self.address.duplicate()
    }
}

impl NodeIdentifier<NodeAddress, NodeAddress> for DefaultNodeIdentifier {
    fn id(&self) -> (res: String)
        ensures
            res@ == self.spec_id(),
    {
        self.id.clone()
    }

    fn connection_info(&self) -> (res: NodeAddress)
        ensures
            res.spec_host() == self.spec_address().spec_host(),
            res.spec_port() == self.spec_address().spec_port(),
    {
        self.address.duplicate()
    }
}

/// Metadata attached to a socket task.
pub trait NodeSocketTaskMetadata {}

#[derive(Debug, Clone)]
pub struct DefaultNodeSocketTaskMetadata {
    protocol: String,
}

impl NodeSocketTaskMetadata for DefaultNodeSocketTaskMetadata {}

impl DefaultNodeSocketTaskMetadata {
    pub closed spec fn spec_protocol(&self) -> Seq<char> {
        self.protocol@
    }

    pub fn new(protocol: String) -> (res: Self)
        ensures
            res.spec_protocol() == protocol@,
    {
        DefaultNodeSocketTaskMetadata { protocol }
    }

    /// The protocol the task belongs to.
    pub fn protocol(&self) -> (res: &str)
        ensures
            res@ == self.spec_protocol(),
    {
        self.protocol.as_str()
    }
}

pub struct DefaultNodeSocketTask {
    metadata: Arc<DefaultNodeSocketTaskMetadata>,
}

impl DefaultNodeSocketTask {
    pub closed spec fn spec_metadata(&self) -> DefaultNodeSocketTaskMetadata {
        *self.metadata
    }

    pub fn new(metadata: Arc<DefaultNodeSocketTaskMetadata>) -> (res: Self)
        ensures
            res.spec_metadata() == *metadata,
    {
        DefaultNodeSocketTask { metadata }
    }

    /// The task's metadata, shared.
    pub fn metadata(&self) -> (res: Arc<DefaultNodeSocketTaskMetadata>)
        ensures
            *res == self.spec_metadata(),
    {
        Arc::clone(&self.metadata)
    }
}

impl RouteTask for DefaultNodeSocketTask {
    /// The default task does nothing with a message.
    fn run(&self, message: Vec<u8>, neighbor: NodeAddress) {
    }
}

/// A value that identifies a route.
pub trait RouteId<V> {
    fn id(&self) -> V;
}

/// The routing key of a socket: the local address and the protocol id.
#[derive(Debug, Clone, PartialEq, Eq, Hash)]
pub struct NodeSocketRouteIdInfo {
    port: NodeAddress,
    protocol: u64,
}

impl NodeSocketRouteIdInfo {
    pub closed spec fn spec_port(&self) -> NodeAddress {
        self.port
    }

    pub closed spec fn spec_protocol(&self) -> u64 {
        self.protocol
    }

    pub fn new(port: NodeAddress, protocol: u64) -> (res: Self)
        ensures
            res.spec_port() == port,
            res.spec_protocol() == protocol,
    {
        NodeSocketRouteIdInfo { port, protocol }
    }

    pub fn port(&self) -> (res: NodeAddress)
        ensures
            res.spec_host() == self.spec_port().spec_host(),
            res.spec_port() == self.spec_port().spec_port(),
    {
        self.port.duplicate()
    }

    pub fn protocol(&self) -> (res: u64)
        ensures
            res == self.spec_protocol(),
    {
        self.protocol
    }

    /// A copy of the routing key.
    pub fn duplicate(&self) -> (res: Self)
        ensures
            res.spec_port().spec_host() == self.spec_port().spec_host(),
            res.spec_port().spec_port() == self.spec_port().spec_port(),
            res.spec_protocol() == self.spec_protocol(),
    {
        NodeSocketRouteIdInfo { port: self.port.duplicate(), protocol: self.protocol }
    }
}

#[derive(Debug, PartialEq, Eq, Hash)]
pub struct NodeSocketRouteId {
    info: NodeSocketRouteIdInfo,
}

impl NodeSocketRouteId {
    pub closed spec fn spec_info(&self) -> NodeSocketRouteIdInfo {
        self.info
    }

    pub fn new(port: NodeAddress, protocol: u64) -> (res: Self)
        ensures
            res.spec_info().spec_port() == port,
            res.spec_info().spec_protocol() == protocol,
    {
        NodeSocketRouteId { info: NodeSocketRouteIdInfo::new(port, protocol) }
    }

    pub fn info(&self) -> (res: NodeSocketRouteIdInfo)
        ensures
            res.spec_port().spec_host() == self.spec_info().spec_port().spec_host(),
            res.spec_port().spec_port() == self.spec_info().spec_port().spec_port(),
            res.spec_protocol() == self.spec_info().spec_protocol(),
    {
        self.info.duplicate()
    }
}

/// Two routing keys are equal exactly when their addresses and protocol ids are.
pub proof fn lemma_route_info_eq(a: NodeSocketRouteIdInfo, b: NodeSocketRouteIdInfo)
    ensures
        a == b <==> a.spec_port() == b.spec_port() && a.spec_protocol() == b.spec_protocol(),
{
}

/// Two route ids are equal exactly when their routing keys are; so ids made
/// by `NodeSocketRouteId::new` from equal arguments are equal.
pub proof fn lemma_route_id_eq(a: NodeSocketRouteId, b: NodeSocketRouteId)
    ensures
        a == b <==> a.spec_info() == b.spec_info(),
{
}

/// Equal addresses name the same host and port.
pub proof fn lemma_address_eq(a: NodeAddress, b: NodeAddress)
    ensures
        a == b ==> same_address(a, b),
        a.spec_port() != b.spec_port() ==> a != b,
{
}

impl RouteId<NodeSocketRouteIdInfo> for NodeSocketRouteId {
    fn id(&self) -> (res: NodeSocketRouteIdInfo)
        ensures
            res.spec_port().spec_host() == self.spec_info().spec_port().spec_host(),
            res.spec_port().spec_port() == self.spec_info().spec_port().spec_port(),
            res.spec_protocol() == self.spec_info().spec_protocol(),
    {
        self.info.duplicate()
    }
}

/// The identity of a route as plain values: local host, local port, protocol id.
pub open spec fn route_key(info: NodeSocketRouteIdInfo) -> (Seq<char>, u16, u64) {
    (info.spec_port().spec_host(), info.spec_port().spec_port(), info.spec_protocol())
}

/// The text of a refused second registration: the route's description
/// between a fixed opening and a fixed closing.
pub open spec fn is_route_conflict_text(s: Seq<char>) -> bool {
    exists|d: Seq<char>|
        s == "route already registered for "@ + d + "; each (port, protocol id) pair must be unique"@
}

/// The `Debug` form of a route id, through `format!("{:?}")` with the derived
/// `Debug`; what it spells is left open.
#[verifier::external_body]
fn route_id_debug_text(key: &NodeSocketRouteId) -> String {
    format!("{:?}", key)
}

/// The message reporting a second registration of `key`: its description
/// between a fixed opening and a fixed closing.
fn route_conflict_message(key: &NodeSocketRouteId) -> (res: String)
    ensures
        is_route_conflict_text(res@),
{
    let described = route_id_debug_text(key);
    let mut s = "route already registered for ".to_owned();
    s.append(described.as_str());
    s.append("; each (port, protocol id) pair must be unique");
    assert(s@ == "route already registered for "@ + described@ + "; each (port, protocol id) pair must be unique"@);
    s
}

/// The work a route does with a message that reached it from `neighbor`.
pub trait RouteTask: Send + Sync {
    fn run(&self, message: Vec<u8>, neighbor: NodeAddress);
}

/// A registered route: it hands out the task that handles its messages.
pub trait Route {
    type Task: RouteTask;

    fn task(&self) -> Arc<Self::Task>;
}

/// The route of a socket: a single task.
pub struct NodeSocketRoute<T: RouteTask> {
    task: Arc<T>,
}

impl<T: RouteTask> NodeSocketRoute<T> {
    pub closed spec fn spec_task(&self) -> T {
        *self.task
    }

    pub fn new(task: Arc<T>) -> (res: Self)
        ensures
            res.spec_task() == *task,
    {
        NodeSocketRoute { task }
    }
}

impl<T: RouteTask> Route for NodeSocketRoute<T> {
    type Task = T;

    /// The route's task, shared.
    fn task(&self) -> (res: Arc<T>)
        ensures
            *res == self.spec_task(),
    {
        Arc::clone(&self.task)
    }
}

/// Stores routes by key; a key is registered at most once.
pub trait RouteStorage {
    type RouteIdValue;
    type Key: RouteId<Self::RouteIdValue>;
    type Value;

    /// Stores a route; fails when a route is already registered under `key`.
    fn store(&mut self, key: Self::Key, value: Self::Value) -> Result<(), String>;

    /// The route registered under `id`, if any.
    fn get(&self, id: Self::Key) -> Option<Self::Value>;
}

/// `dashmap::DashMap`, the concurrent map that indexes a node's routes.
#[verifier::external_type_specification]
#[verifier::external_body]
#[verifier::reject_recursive_types(K)]
#[verifier::reject_recursive_types(V)]
#[verifier::reject_recursive_types(S)]
pub struct ExDashMap<K, V, S>(DashMap<K, V, S>);

/// The slots a route index holds, by route key.
pub uninterp spec fn index_slots(m: DashMap<(String, u16, u64), usize>) -> Map<(Seq<char>, u16, u64), usize>;

/// `DashMap::new`: an empty index.
#[verifier::external_body]
fn index_new() -> (res: DashMap<(String, u16, u64), usize>)
    ensures
        index_slots(res).dom().is_empty(),
{
    DashMap::new()
}

/// `DashMap::get` of the key `(host, port, protocol)`, with the slot copied out
/// of the returned guard.
#[verifier::external_body]
fn index_get(m: &DashMap<(String, u16, u64), usize>, host: &str, port: u16, protocol: u64) -> (res: Option<
    usize,
>)
    ensures
        res is Some <==> index_slots(*m).contains_key((host@, port, protocol)),
        res matches Some(slot) ==> index_slots(*m)[(host@, port, protocol)] == slot,
{
    m.get(&(host.to_string(), port, protocol)).map(|entry| *entry.value())
}

/// `DashMap::insert`: the key now holds `slot`; the slot it held before, if
/// any, is returned.
#[verifier::external_body]
fn index_insert(m: &mut DashMap<(String, u16, u64), usize>, key: (String, u16, u64), slot: usize) -> (res:
    Option<usize>)
    ensures
        index_slots(*final(m)) == index_slots(*old(m)).insert((key.0@, key.1, key.2), slot),
        res is Some <==> index_slots(*old(m)).contains_key((key.0@, key.1, key.2)),
        res matches Some(prev) ==> index_slots(*old(m))[(key.0@, key.1, key.2)] == prev,
{
    m.insert(key, slot)
}

/// The routes of a node, one per (local address, protocol id): the routes in
/// registration order, and an index from route key to position.
pub struct RouteTable<V> {
    index: DashMap<(String, u16, u64), usize>,
    routes: Vec<V>,
}

impl<V> RouteTable<V> {
    /// The routes, by key.
    pub closed spec fn view(&self) -> Map<(Seq<char>, u16, u64), V> {
        Map::new(
            |k: (Seq<char>, u16, u64)| index_slots(self.index).contains_key(k),
            |k: (Seq<char>, u16, u64)| self.routes@[index_slots(self.index)[k] as int],
        )
    }

    /// Every indexed slot holds a route.
    #[verifier::type_invariant]
    spec fn slots_in_range(&self) -> bool {
        forall|k: (Seq<char>, u16, u64)| #[trigger]
            index_slots(self.index).contains_key(k) ==> index_slots(self.index)[k] < self.routes@.len()
    }

    pub fn new() -> (res: Self)
        ensures
            res@ == Map::<(Seq<char>, u16, u64), V>::empty(),
    {
        let res = RouteTable { index: index_new(), routes: Vec::new() };
        assert(res@ =~= Map::<(Seq<char>, u16, u64), V>::empty());
        res
    }
}

impl<V: Clone> RouteStorage for RouteTable<V> {
    type RouteIdValue = NodeSocketRouteIdInfo;
    type Key = NodeSocketRouteId;
    type Value = V;

    /// Registers a route. Fails, leaving the table unchanged, when a route with
    /// the same local address and protocol id is already registered.
    fn store(&mut self, key: NodeSocketRouteId, value: V) -> (res: Result<(), String>)
        ensures
            old(self)@.contains_key(route_key(key.spec_info())) ==> res is Err && final(self)@ == old(
                self,
            )@,
            res matches Err(e) ==> is_route_conflict_text(e@),
            !old(self)@.contains_key(route_key(key.spec_info())) ==> res is Ok && final(self)@ == old(
                self,
            )@.insert(route_key(key.spec_info()), value),
    {
        proof {
            use_type_invariant(&*self);
        }
        match index_get(&self.index, key.info.port.host(), key.info.port.port(), key.info.protocol) {
            Some(_) => Err(route_conflict_message(&key)),
            None => {
                let info = key.info;
                let ghost k = route_key(info);
                let ghost old_routes = self.routes@;
                let mut index = index_new();
                std::mem::swap(&mut index, &mut self.index);
                let mut routes: Vec<V> = Vec::new();
                std::mem::swap(&mut routes, &mut self.routes);
                let slot = routes.len();
                routes.push(value);
                let NodeSocketRouteIdInfo { port, protocol } = info;
                let NodeAddress { host, port } = port;
                index_insert(&mut index, (host, port, protocol), slot);
                self.routes = routes;
                self.index = index;
                proof {
                    assert forall|k2: (Seq<char>, u16, u64)| #[trigger] self@.contains_key(k2) implies self@[k2]
                        == old(self)@.insert(k, value)[k2] by {
                        if k2 != k {
                            assert(old_routes[index_slots(old(self).index)[k2] as int] == self.routes@[index_slots(
                                self.index,
                            )[k2] as int]);
                        }
                    }
                    assert(self@ =~= old(self)@.insert(k, value));
                }
                Ok(())
            },
        }
    }

    /// A copy of the route registered under a key, if any.
    fn get(&self, id: NodeSocketRouteId) -> (res: Option<V>)
        ensures
            match res {
                Some(v) => self@.contains_key(route_key(id.spec_info())) && cloned::<V>(
                    self@[route_key(id.spec_info())],
                    v,
                ),
                None => !self@.contains_key(route_key(id.spec_info())),
            },
    {
        proof {
            use_type_invariant(&*self);
        }
        match index_get(&self.index, id.info.port.host(), id.info.port.port(), id.info.protocol) {
            Some(slot) => Some(self.routes[slot].clone()),
            None => None,
        }
    }
}

/// Routes incoming messages by the local address they arrived on and their
/// protocol id.
pub struct DefaultRouteHandler<V> {
    storage: RouteTable<V>,
}

impl<V: Clone> DefaultRouteHandler<V> {
    /// The registered routes, by key.
    pub closed spec fn view(&self) -> Map<(Seq<char>, u16, u64), V> {
        self.storage@
    }

    pub fn new() -> (res: Self)
        ensures
            res@ == Map::<(Seq<char>, u16, u64), V>::empty(),
    {
        DefaultRouteHandler { storage: RouteTable::new() }
    }

    /// Registers a route; fails, leaving the routes unchanged, when one is
    /// already registered for the same local address and protocol id.
    pub fn add_route(&mut self, id: NodeSocketRouteId, route: V) -> (res: Result<(), String>)
        ensures
            old(self)@.contains_key(route_key(id.spec_info())) ==> res is Err && final(self)@ == old(
                self,
            )@,
            res matches Err(e) ==> is_route_conflict_text(e@),
            !old(self)@.contains_key(route_key(id.spec_info())) ==> res is Ok && final(self)@ == old(
                self,
            )@.insert(route_key(id.spec_info()), route),
    {
        self.storage.store(id, route)
    }

    /// The route that receives a message of `protocol` arriving at
    /// `local_address`, if one is registered.
    pub fn route_for(&self, protocol: u64, local_address: NodeAddress) -> (res: Option<V>)
        ensures
            match res {
                Some(v) => self@.contains_key((local_address.spec_host(), local_address.spec_port(), protocol))
                    && cloned::<V>(self@[(local_address.spec_host(), local_address.spec_port(), protocol)], v),
                None => !self@.contains_key((local_address.spec_host(), local_address.spec_port(), protocol)),
            },
    {
        self.storage.get(NodeSocketRouteId::new(local_address, protocol))
    }
}

/// The kind of the test message (it has a single kind).
#[derive(Debug, Clone, Copy, PartialEq, Eq, Structural)]
pub struct TestMessageTypeValues {}

impl TestMessageTypeValues {
    pub fn new() -> (res: Self) {
        TestMessageTypeValues {  }
    }
}

#[derive(Debug, Clone, Copy, PartialEq, Eq, Structural)]
pub struct TestMessageType {}

impl TestMessageType {
    pub fn new() -> (res: Self) {
        TestMessageType {  }
    }
}

impl MessageTypeValues for TestMessageTypeValues {}

impl MessageType for TestMessageType {
    type Values = TestMessageTypeValues;

    /// The kind of message: the single kind.
    fn value(&self) -> (res: TestMessageTypeValues) {
        TestMessageTypeValues::new()
    }
}

/// A placeholder message with no body, used when an incoming message cannot be read.
pub struct TestMessage {
    _type: Arc<TestMessageType>,
    protocol: Option<u64>,
}

impl TestMessage {
    pub closed spec fn spec_protocol(&self) -> Option<u64> {
        self.protocol
    }

    pub fn new(_type: Arc<TestMessageType>, protocol: Option<u64>) -> (res: Self)
        ensures
            res.spec_protocol() == protocol,
    {
        TestMessage { _type, protocol }
    }

    pub fn protocol(&self) -> (res: Option<u64>)
        ensures
            res == self.spec_protocol(),
    {
        self.protocol
    }

    pub closed spec fn spec_type(&self) -> TestMessageType {
        *self._type
    }
}

impl Message for TestMessage {
    type Type = TestMessageType;

    /// The (empty) body.
    fn content(&self) -> (res: Vec<u8>)
        ensures
            res@.len() == 0,
    {
        Vec::new()
    }

    fn get_type(&self) -> (res: TestMessageType)
        ensures
            res == self.spec_type(),
    {
        *self._type
    }

    fn protocol(&self) -> (res: Option<u64>)
        ensures
            res == self.spec_protocol(),
    {
        self.protocol
    }
}

} // verus!
