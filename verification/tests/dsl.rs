use replication_engine::dsl::{
    plan_node_task, CheckerBuilder, CheckerChoice, NodeBuilder, ProtocolChoice, ServiceBuilder,
    ServiceConfig,
};

#[test]
fn checker_builder() {
    assert_eq!(CheckerBuilder::new().local().build(), Ok(CheckerChoice::Local));
    assert_eq!(
        CheckerBuilder::new().build(),
        Err("no checker selected in CheckerBuilder".to_string())
    );
}

#[test]
fn service_builder() {
    assert_eq!(ServiceBuilder::http().port(3000).build(), Ok(ServiceConfig::Http { port: 3000 }));
    assert_eq!(ServiceBuilder::ws().port(7).build(), Ok(ServiceConfig::Ws { port: 7 }));
    assert_eq!(ServiceBuilder::http().build(), Err("service requires a port".to_string()));
}

#[test]
fn node_builder_errors() {
    let err = |r: Result<replication_engine::dsl::BuildPlan, String>| match r {
        Ok(_) => panic!("expected an error"),
        Err(e) => e,
    };
    assert_eq!(err(NodeBuilder::new().plan()), "no nodes configured in NodeBuilder");
    assert_eq!(
        err(NodeBuilder::new().node().port(1).plan()),
        "no checker configured in NodeBuilder"
    );
    assert_eq!(
        err(NodeBuilder::new().node().port(1).checker(CheckerBuilder::new()).plan()),
        "no checker selected in CheckerBuilder"
    );
    assert_eq!(
        err(NodeBuilder::new().node().protocol(ProtocolChoice::Riblt).checker(CheckerBuilder::new().local()).plan()),
        "missing port on node"
    );
    assert_eq!(
        err(NodeBuilder::new().node().port(9000).checker(CheckerBuilder::new().local()).plan()),
        "missing protocol on node"
    );
    assert_eq!(
        err(NodeBuilder::new()
            .node()
            .port(9000)
            .protocol(ProtocolChoice::Merkle)
            .service(ServiceBuilder::http())
            .checker(CheckerBuilder::new().local())
            .plan()),
        "service requires a port"
    );
}

#[test]
fn node_builder_plan() {
    let plan = NodeBuilder::new()
        .node()
        .addr("10.0.0.1".to_string())
        .port(9000)
        .dataset("data/a.json".to_string())
        .protocol(ProtocolChoice::Riblt)
        .service(ServiceBuilder::http().port(3000))
        .node()
        .port(9001)
        .protocol(ProtocolChoice::RbfRiblt)
        .checker(CheckerBuilder::new().local())
        .plan()
        .unwrap();
    assert_eq!(plan.checker, CheckerChoice::Local);
    assert_eq!(plan.nodes.len(), 2);
    assert_eq!(plan.nodes[0].host, "10.0.0.1");
    assert_eq!(plan.nodes[0].port, 9000);
    assert_eq!(plan.nodes[0].dataset, "data/a.json");
    assert_eq!(plan.nodes[0].protocol, ProtocolChoice::Riblt);
    assert_eq!(plan.nodes[0].services, vec![ServiceConfig::Http { port: 3000 }]);
    assert_eq!(plan.nodes[1].host, "127.0.0.1");
    assert_eq!(plan.nodes[1].dataset, "");
    // a setter without a node starts one
    let p2 = NodeBuilder::new()
        .port(5)
        .protocol(ProtocolChoice::Merkle)
        .checker(CheckerBuilder::new().local())
        .plan()
        .unwrap();
    assert_eq!(p2.nodes.len(), 1);
    assert_eq!(p2.nodes[0].port, 5);
    // a service without a node is dropped
    let p3 = NodeBuilder::new()
        .service(ServiceBuilder::http())
        .node()
        .port(6)
        .protocol(ProtocolChoice::RfRiblt)
        .checker(CheckerBuilder::new().local())
        .plan()
        .unwrap();
    assert!(p3.nodes[0].services.is_empty());

    let task = plan_node_task(&plan.nodes[0]);
    assert_eq!(task.name, "10.0.0.1:9000");
    assert_eq!(task.address.host(), "10.0.0.1");
    assert_eq!(task.address.port(), 9000);
    assert_eq!(task.http_services.len(), 1);
    assert_eq!(task.http_services[0].port(), 3000);
}
