use replication_engine::connection::{
    address_lt, initiation_targets, ConnectionInfo, DefaultNodeIdentifier, DefaultRouteHandler, NodeAddress,
    NodeIdentifier, NodePort, NodeSocketRoute, NodeSocketRouteId, Route, RouteTask, NodeSocketRouteIdInfo, RouteStorage, RouteTable, TestMessage,
    TestMessageType,
};
use replication_engine::protocols::{
    DefaultMembershipProtocol, DefaultNodeConfig, DefaultSimilarityLevel,
    DefaultSimilartyLevelDetector, NodeConfig, SimilarityLevelDetector,
};
use replication_engine::wire::Message;
use std::sync::Arc;

fn addr(h: &str, p: u16) -> NodeAddress {
    NodeAddress::new(h.to_string(), p)
}

#[test]
fn ports_and_addresses() {
    let p = NodePort::new(9000);
    assert_eq!(p.value(), 9000);
    assert_eq!(ConnectionInfo::<u16>::connection_info(&p), 9000);
    let a = addr("127.0.0.1", 9001);
    assert_eq!(a.host(), "127.0.0.1");
    assert_eq!(a.port(), 9001);
    let id = DefaultNodeIdentifier::new("n".to_string(), a.clone());
    assert_eq!(id.id(), "n");
    assert_eq!(id.address(), a);
    assert_eq!(NodeIdentifier::connection_info(&id), a);
}

#[test]
fn address_order_picks_one_initiator() {
    let a = addr("127.0.0.1", 9000);
    let b = addr("127.0.0.1", 9001);
    let c = addr("127.0.0.2", 1);
    assert!(address_lt(&a, &b));
    assert!(!address_lt(&b, &a));
    assert!(address_lt(&b, &c));
    assert!(!address_lt(&a, &a));
    let targets = initiation_targets(&b, &[a.clone(), b.clone(), c.clone()]);
    assert_eq!(targets, vec![c.clone()]);
    let all = initiation_targets(&a, &[c.clone(), b.clone()]);
    assert_eq!(all, vec![c, b]);
}

#[test]
fn route_table_rejects_duplicates() {
    let mut t: RouteTable<u32> = RouteTable::new();
    assert!(t.store(NodeSocketRouteId::new(addr("h", 1), 3), 10).is_ok());
    assert!(t.store(NodeSocketRouteId::new(addr("h", 1), 4), 11).is_ok());
    let dup = t.store(NodeSocketRouteId::new(addr("h", 1), 3), 12);
    assert!(dup.is_err());
    let msg = dup.unwrap_err();
    assert!(msg.starts_with("route already registered for "));
    assert!(msg.ends_with("; each (port, protocol id) pair must be unique"));
    assert_eq!(t.get(NodeSocketRouteId::new(addr("h", 1), 3)), Some(10));
    assert_eq!(t.get(NodeSocketRouteId::new(addr("h", 1), 4)), Some(11));
    assert_eq!(t.get(NodeSocketRouteId::new(addr("h", 2), 3)), None);
}

#[test]
fn route_ids() {
    let info = NodeSocketRouteIdInfo::new(addr("h", 5), 2);
    assert_eq!(info.port(), addr("h", 5));
    assert_eq!(info.protocol(), 2);
    let id = NodeSocketRouteId::new(addr("h", 5), 2);
    assert_eq!(id.info(), info);
}

#[test]
fn placeholders_and_config() {
    let m = TestMessage::new(Arc::new(TestMessageType::new()), Some(9));
    assert_eq!(m.protocol(), Some(9));
    assert!(m.content().is_empty());
    let n = DefaultNodeConfig::new().neighbors();
    assert_eq!(n.len(), 2);
    assert_eq!(n[0].0, "node9000");
    assert_eq!(n[0].1, addr("127.0.0.1", 9000));
    assert_eq!(n[1].0, "node9001");
    assert_eq!(n[1].1, addr("127.0.0.1", 9001));
    assert_eq!(DefaultSimilartyLevelDetector::new().degree(), DefaultSimilarityLevel::Low);
    let a = DefaultMembershipProtocol::new();
    let b = DefaultMembershipProtocol::new();
    // two random ids coincide with negligible probability
    assert_ne!(a.id(), b.id());
}

#[test]
fn route_handler_picks_route_by_address_and_protocol() {
    let mut h: DefaultRouteHandler<&'static str> = DefaultRouteHandler::new();
    assert!(h.add_route(NodeSocketRouteId::new(addr("h", 1), 2), "merkle").is_ok());
    assert!(h.add_route(NodeSocketRouteId::new(addr("h", 1), 3), "rbf").is_ok());
    assert!(h.add_route(NodeSocketRouteId::new(addr("h", 1), 2), "again").is_err());
    assert_eq!(h.route_for(2, addr("h", 1)), Some("merkle"));
    assert_eq!(h.route_for(3, addr("h", 1)), Some("rbf"));
    assert_eq!(h.route_for(3, addr("h", 9)), None);
    assert_eq!(h.route_for(4, addr("h", 1)), None);
}

struct CountingTask {
    seen: std::sync::Mutex<Vec<(Vec<u8>, u16)>>,
}

impl RouteTask for CountingTask {
    fn run(&self, message: Vec<u8>, neighbor: NodeAddress) {
        self.seen.lock().unwrap().push((message, neighbor.port()));
    }
}

#[test]
fn socket_route_hands_out_its_task() {
    let task = Arc::new(CountingTask { seen: std::sync::Mutex::new(Vec::new()) });
    let route = NodeSocketRoute::new(task.clone());
    assert!(Arc::ptr_eq(&route.task(), &task));
    route.task().run(vec![7, 8], addr("h", 4));
    assert_eq!(task.seen.lock().unwrap().clone(), vec![(vec![7u8, 8u8], 4u16)]);
}
