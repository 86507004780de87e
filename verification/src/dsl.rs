//! The fluent builders that describe a set of nodes to launch, and the checks
//! that turn such a description into a launch plan.

use vstd::prelude::*;
use vstd::string::StringExecFns;

use crate::connection::NodeAddress;

verus! {

/// Which reconciliation checker to run.
#[derive(Debug, Clone, Copy, PartialEq, Eq, Structural)]
pub enum CheckerChoice {
    Local,
}

/// Builder for the reconciliation checker; a variant is selected with
/// [`CheckerBuilder::local`] and resolved by [`CheckerBuilder::build`].
pub struct CheckerBuilder {
    choice: Option<CheckerChoice>,
}

impl CheckerBuilder {
    pub closed spec fn spec_choice(&self) -> Option<CheckerChoice> {
        self.choice
    }

    pub fn new() -> (res: Self)
        ensures
            res.spec_choice() is None,
    {
        CheckerBuilder { choice: None }
    }

    pub fn local(self) -> (res: Self)
        ensures
            res.spec_choice() == Some(CheckerChoice::Local),
    {
        CheckerBuilder { choice: Some(CheckerChoice::Local) }
    }

    /// The selected checker, or an error when none was selected.
    pub fn build(self) -> (res: Result<CheckerChoice, String>)
        ensures
            match self.spec_choice() {
                Some(c) => res == Ok::<CheckerChoice, String>(c),
                None => res matches Err(e) && e@ == "no checker selected in CheckerBuilder"@,
            },
    {
        match self.choice {
            Some(c) => Ok(c),
            None => Err("no checker selected in CheckerBuilder".to_owned()),
        }
    }
}

impl Default for CheckerBuilder {
    fn default() -> (res: Self)
        ensures
            res.spec_choice() is None,
    {
        CheckerBuilder::new()
    }
}

/// A node service with its port.
#[derive(Debug, Clone, Copy, PartialEq, Eq, Structural)]
pub enum ServiceConfig {
    Http { port: u16 },
    Ws { port: u16 },
}

/// The kind of a node service.
#[derive(Debug, Clone, Copy, PartialEq, Eq, Structural)]
pub enum ServiceKind {
    Http,
    Ws,
}

/// Builder for one node service (HTTP or WebSocket), resolved into a
/// [`ServiceConfig`] by [`ServiceBuilder::build`].
#[derive(Debug, Clone, Copy, PartialEq, Eq, Structural)]
pub struct ServiceBuilder {
    kind: ServiceKind,
    port: Option<u16>,
}

/// Two service builders are equal exactly when their kinds and ports are.
pub proof fn lemma_service_builder_eq(a: ServiceBuilder, b: ServiceBuilder)
    ensures
        a == b <==> a.spec_kind() == b.spec_kind() && a.spec_port() == b.spec_port(),
{
}

/// What a service builder resolves into: its config, or `None` without a port.
pub open spec fn spec_service(kind: ServiceKind, port: Option<u16>) -> Option<ServiceConfig> {
    match port {
        Some(p) => Some(
            match kind {
                ServiceKind::Http => ServiceConfig::Http { port: p },
                ServiceKind::Ws => ServiceConfig::Ws { port: p },
            },
        ),
        None => None,
    }
}

impl ServiceBuilder {
    pub closed spec fn spec_kind(&self) -> ServiceKind {
        self.kind
    }

    pub closed spec fn spec_port(&self) -> Option<u16> {
        self.port
    }

    pub fn http() -> (res: Self)
        ensures
            res.spec_kind() == ServiceKind::Http,
            res.spec_port() is None,
    {
        ServiceBuilder { kind: ServiceKind::Http, port: None }
    }

    pub fn ws() -> (res: Self)
        ensures
            res.spec_kind() == ServiceKind::Ws,
            res.spec_port() is None,
    {
        ServiceBuilder { kind: ServiceKind::Ws, port: None }
    }

    pub fn port(self, port: u16) -> (res: Self)
        ensures
            res.spec_kind() == self.spec_kind(),
            res.spec_port() == Some(port),
    {
        ServiceBuilder { kind: self.kind, port: Some(port) }
    }

    /// The service's config, or an error when no port was set.
    pub fn build(self) -> (res: Result<ServiceConfig, String>)
        ensures
            match spec_service(self.spec_kind(), self.spec_port()) {
                Some(c) => res == Ok::<ServiceConfig, String>(c),
                None => res matches Err(e) && e@ == "service requires a port"@,
            },
    {
        let port = match self.port {
            Some(p) => p,
            None => {
                return Err("service requires a port".to_owned());
            },
        };
        Ok(
            match self.kind {
                ServiceKind::Http => ServiceConfig::Http { port },
                ServiceKind::Ws => ServiceConfig::Ws { port },
            },
        )
    }
}

/// The reconciliation protocol a node runs.
#[derive(Debug, Clone, Copy, PartialEq, Eq, Structural)]
pub enum ProtocolChoice {
    Merkle,
    Riblt,
    RbfRiblt,
    RfRiblt,
}

/// A node as described so far.
pub struct InternalNode {
    host: String,
    port: Option<u16>,
    dataset: Option<String>,
    protocol: Option<ProtocolChoice>,
    services: Vec<ServiceBuilder>,
}

/// The mathematical content of a node description.
pub struct NodeView {
    pub host: Seq<char>,
    pub port: Option<u16>,
    pub dataset: Option<Seq<char>>,
    pub protocol: Option<ProtocolChoice>,
    pub services: Seq<ServiceBuilder>,
}

/// A fresh node description: host `127.0.0.1`, nothing else set.
pub open spec fn default_node() -> NodeView {
    NodeView { host: "127.0.0.1"@, port: None, dataset: None, protocol: None, services: Seq::empty() }
}

impl InternalNode {
    pub closed spec fn view(&self) -> NodeView {
        NodeView {
            host: self.host@,
            port: self.port,
            dataset: match self.dataset {
                Some(d) => Some(d@),
                None => None,
            },
            protocol: self.protocol,
            services: self.services@,
        }
    }

    fn new() -> (res: Self)
        ensures
            res.view() == default_node(),
    {
        let res = InternalNode {
            host: "127.0.0.1".to_owned(),
            port: None,
            dataset: None,
            protocol: None,
            services: Vec::new(),
        };
        assert(res.view().services =~= Seq::<ServiceBuilder>::empty());
        res
    }
}

/// The nodes of a builder, as views.
pub open spec fn nodes_view(nodes: Seq<InternalNode>) -> Seq<NodeView> {
    nodes.map_values(|n: InternalNode| n.view())
}

/// The node list an edit of the last node works on: one fresh node when empty.
pub open spec fn with_current(nodes: Seq<NodeView>) -> Seq<NodeView> {
    if nodes.len() == 0 {
        seq![default_node()]
    } else {
        nodes
    }
}

/// Builder for a set of nodes: each `node()` starts a description, the other
/// setters edit the last one (starting one when there is none).
pub struct NodeBuilder {
    nodes: Vec<InternalNode>,
    checker: Option<CheckerBuilder>,
}

/// What a node description resolves into.
pub struct NodePlan {
    pub host: String,
    pub port: u16,
    pub dataset: String,
    pub protocol: ProtocolChoice,
    pub services: Vec<ServiceConfig>,
}

/// What a builder resolves into: the checker and each node's plan.
pub struct BuildPlan {
    pub checker: CheckerChoice,
    pub nodes: Vec<NodePlan>,
}

/// The error of the first node description that cannot be resolved, if any.
pub open spec fn spec_node_error(n: NodeView) -> Option<Seq<char>> {
    if n.port is None {
        Some("missing port on node"@)
    } else if n.protocol is None {
        Some("missing protocol on node"@)
    } else if exists|i: int| 0 <= i < n.services.len() && #[trigger] n.services[i].spec_port() is None {
        Some("service requires a port"@)
    } else {
        None
    }
}

/// The error of the first of `nodes` that cannot be resolved, if any.
pub open spec fn spec_nodes_error(nodes: Seq<NodeView>) -> Option<Seq<char>>
    decreases nodes.len(),
{
    if nodes.len() == 0 {
        None
    } else {
        match spec_nodes_error(nodes.drop_last()) {
            Some(e) => Some(e),
            None => spec_node_error(nodes.last()),
        }
    }
}

/// The error a build ends with, if any.
pub open spec fn spec_build_error(nodes: Seq<NodeView>, checker: Option<Option<CheckerChoice>>) -> Option<
    Seq<char>,
> {
    if nodes.len() == 0 {
        Some("no nodes configured in NodeBuilder"@)
    } else {
        match checker {
            None => Some("no checker configured in NodeBuilder"@),
            Some(None) => Some("no checker selected in CheckerBuilder"@),
            Some(Some(_)) => spec_nodes_error(nodes),
        }
    }
}

/// A node plan matches a node description.
pub open spec fn plan_matches(p: NodePlan, n: NodeView) -> bool {
    &&& p.host@ == n.host
    &&& n.port == Some(p.port)
    &&& p.dataset@ == match n.dataset {
        Some(d) => d,
        None => Seq::empty(),
    }
    &&& n.protocol == Some(p.protocol)
    &&& p.services@.len() == n.services.len()
    &&& forall|i: int|
        0 <= i < n.services.len() ==> Some(#[trigger] p.services@[i]) == spec_service(
            n.services[i].spec_kind(),
            n.services[i].spec_port(),
        )
}

impl NodeBuilder {
    pub closed spec fn spec_nodes(&self) -> Seq<NodeView> {
        nodes_view(self.nodes@)
    }

    /// The checker builder handed in, by its choice.
    pub closed spec fn spec_checker(&self) -> Option<Option<CheckerChoice>> {
        match self.checker {
            Some(c) => Some(c.spec_choice()),
            None => None,
        }
    }

    pub fn new() -> (res: Self)
        ensures
            res.spec_nodes() == Seq::<NodeView>::empty(),
            res.spec_checker() is None,
    {
        let res = NodeBuilder { nodes: Vec::new(), checker: None };
        assert(res.spec_nodes() =~= Seq::<NodeView>::empty());
        res
    }

    /// Starts a new node description.
    pub fn node(self) -> (res: Self)
        ensures
            res.spec_nodes() == self.spec_nodes().push(default_node()),
            res.spec_checker() == self.spec_checker(),
    {
        let mut b = self;
        let ghost before = b.nodes@;
        b.nodes.push(InternalNode::new());
        assert(nodes_view(b.nodes@) =~= nodes_view(before).push(default_node()));
        b
    }

    /// Makes sure there is a node to edit.
    fn ensure_current(&mut self)
        ensures
            nodes_view(final(self).nodes@) == with_current(nodes_view(old(self).nodes@)),
            final(self).nodes@.len() > 0,
            final(self).checker == old(self).checker,
    {
        if self.nodes.len() == 0 {
            self.nodes.push(InternalNode::new());
            assert(nodes_view(self.nodes@) =~= seq![default_node()]);
        }
    }

    pub fn port(self, port: u16) -> (res: Self)
        ensures
            ({
                let base = with_current(self.spec_nodes());
                let last = base.last();
                res.spec_nodes() == base.update(
                    base.len() - 1,
                    NodeView { port: Some(port), ..last },
                )
            }),
            res.spec_checker() == self.spec_checker(),
    {
        let mut b = self;
        b.ensure_current();
        let ghost base = nodes_view(b.nodes@);
        let n = b.nodes.len();
        let mut node = b.nodes.pop().unwrap();
        node.port = Some(port);
        b.nodes.push(node);
        assert(nodes_view(b.nodes@) =~= base.update(n - 1, NodeView { port: Some(port), ..base.last() }));
        b
    }

    pub fn addr(self, addr: String) -> (res: Self)
        ensures
            ({
                let base = with_current(self.spec_nodes());
                let last = base.last();
                res.spec_nodes() == base.update(base.len() - 1, NodeView { host: addr@, ..last })
            }),
            res.spec_checker() == self.spec_checker(),
    {
        let mut b = self;
        b.ensure_current();
        let ghost base = nodes_view(b.nodes@);
        let n = b.nodes.len();
        let mut node = b.nodes.pop().unwrap();
        node.host = addr;
        b.nodes.push(node);
        assert(nodes_view(b.nodes@) =~= base.update(n - 1, NodeView { host: addr@, ..base.last() }));
        b
    }

    pub fn dataset(self, path: String) -> (res: Self)
        ensures
            ({
                let base = with_current(self.spec_nodes());
                let last = base.last();
                res.spec_nodes() == base.update(
                    base.len() - 1,
                    NodeView { dataset: Some(path@), ..last },
                )
            }),
            res.spec_checker() == self.spec_checker(),
    {
        let mut b = self;
        b.ensure_current();
        let ghost base = nodes_view(b.nodes@);
        let n = b.nodes.len();
        let mut node = b.nodes.pop().unwrap();
        node.dataset = Some(path);
        b.nodes.push(node);
        assert(nodes_view(b.nodes@) =~= base.update(
            n - 1,
            NodeView { dataset: Some(path@), ..base.last() },
        ));
        b
    }

    pub fn protocol(self, protocol: ProtocolChoice) -> (res: Self)
        ensures
            ({
                let base = with_current(self.spec_nodes());
                let last = base.last();
                res.spec_nodes() == base.update(
                    base.len() - 1,
                    NodeView { protocol: Some(protocol), ..last },
                )
            }),
            res.spec_checker() == self.spec_checker(),
    {
        let mut b = self;
        b.ensure_current();
        let ghost base = nodes_view(b.nodes@);
        let n = b.nodes.len();
        let mut node = b.nodes.pop().unwrap();
        node.protocol = Some(protocol);
        b.nodes.push(node);
        assert(nodes_view(b.nodes@) =~= base.update(
            n - 1,
            NodeView { protocol: Some(protocol), ..base.last() },
        ));
        b
    }

    /// Adds a service to the last node (ignored when there is no node yet).
    pub fn service(self, service: ServiceBuilder) -> (res: Self)
        ensures
            self.spec_nodes().len() == 0 ==> res.spec_nodes() == self.spec_nodes(),
            self.spec_nodes().len() > 0 ==> ({
                let base = self.spec_nodes();
                let last = base.last();
                res.spec_nodes() == base.update(
                    base.len() - 1,
                    NodeView { services: last.services.push(service), ..last },
                )
            }),
            res.spec_checker() == self.spec_checker(),
    {
        let mut b = self;
        if b.nodes.len() == 0 {
            return b;
        }
        let ghost base = nodes_view(b.nodes@);
        let n = b.nodes.len();
        let mut node = b.nodes.pop().unwrap();
        node.services.push(service);
        b.nodes.push(node);
        assert(nodes_view(b.nodes@) =~= base.update(
            n - 1,
            NodeView { services: base.last().services.push(service), ..base.last() },
        ));
        b
    }

    /// Sets the checker, resolved when the nodes are built.
    pub fn checker(self, checker: CheckerBuilder) -> (res: Self)
        ensures
            res.spec_nodes() == self.spec_nodes(),
            res.spec_checker() == Some(checker.spec_choice()),
    {
        NodeBuilder { nodes: self.nodes, checker: Some(checker) }
    }

    /// Resolves the description into a launch plan, or the first error: no
    /// nodes, no checker, no checker selected, then per node in order a missing
    /// port, a missing protocol, a service without a port.
    pub fn plan(self) -> (res: Result<BuildPlan, String>)
        ensures
            match spec_build_error(self.spec_nodes(), self.spec_checker()) {
                Some(e) => res matches Err(m) && m@ == e,
                None => res matches Ok(plan) && self.spec_checker() == Some(Some(plan.checker))
                    && plan.nodes@.len() == self.spec_nodes().len() && forall|i: int|
                    0 <= i < plan.nodes@.len() ==> plan_matches(
                        #[trigger] plan.nodes@[i],
                        self.spec_nodes()[i],
                    ),
            },
    {
        let ghost views = nodes_view(self.nodes@);
        if self.nodes.len() == 0 {
            return Err("no nodes configured in NodeBuilder".to_owned());
        }
        let checker = match self.checker {
            Some(c) => c,
            None => {
                return Err("no checker configured in NodeBuilder".to_owned());
            },
        };
        let ghost checker_choice = checker.spec_choice();
        assert(self.spec_checker() == Some(checker_choice));
        let choice = match checker.build() {
            Ok(c) => c,
            Err(e) => {
                return Err(e);
            },
        };
        assert(checker_choice == Some(choice));
        let nodes = self.nodes;
        let mut plans: Vec<NodePlan> = Vec::new();
        let mut i: usize = 0;
        while i < nodes.len()
            invariant
                views == nodes_view(nodes@),
                views == self.spec_nodes(),
                views.len() > 0,
                self.spec_checker() == Some(Some(choice)),
                i <= nodes@.len(),
                spec_nodes_error(views.subrange(0, i as int)) is None,
                plans@.len() == i,
                forall|j: int| 0 <= j < i ==> plan_matches(#[trigger] plans@[j], views[j]),
            decreases nodes@.len() - i,
        {
            proof {
                assert(views.subrange(0, i + 1).drop_last() =~= views.subrange(0, i as int));
                assert(views.subrange(0, i + 1).last() == views[i as int]);
            }
            let node = &nodes[i];
            let ghost v = views[i as int];
            assert(v == node.view());
            let port = match node.port {
                Some(p) => p,
                None => {
                    proof {
                        lemma_error_prefix(views, i as int + 1);
                    }
                    return Err("missing port on node".to_owned());
                },
            };
            let protocol = match node.protocol {
                Some(p) => p,
                None => {
                    proof {
                        lemma_error_prefix(views, i as int + 1);
                    }
                    return Err("missing protocol on node".to_owned());
                },
            };
            let mut services: Vec<ServiceConfig> = Vec::new();
            let mut s: usize = 0;
            while s < node.services.len()
                invariant
                    v == node.view(),
                    views == nodes_view(nodes@),
                    views == self.spec_nodes(),
                    views.len() > 0,
                    self.spec_checker() == Some(Some(choice)),
                    i < nodes@.len(),
                    v == views[i as int],
                    v.port == Some(port),
                    v.protocol == Some(protocol),
                    spec_nodes_error(views.subrange(0, i as int)) is None,
                    s <= v.services.len(),
                    services@.len() == s,
                    forall|t: int| 0 <= t < s ==> v.services[t].spec_port() is Some,
                    forall|t: int|
                        0 <= t < s ==> Some(#[trigger] services@[t]) == spec_service(
                            v.services[t].spec_kind(),
                            v.services[t].spec_port(),
                        ),
                decreases v.services.len() - s,
            {
                match node.services[s].build() {
                    Ok(c) => {
                        services.push(c);
                    },
                    Err(e) => {
                        proof {
                            assert(v.services[s as int].spec_port() is None);
                            lemma_error_prefix(views, i as int + 1);
                        }
                        return Err(e);
                    },
                }
                s = s + 1;
            }
            assert(spec_node_error(v) is None);
            let dataset = match &node.dataset {
                Some(d) => d.clone(),
                None => String::new(),
            };
            plans.push(NodePlan { host: node.host.clone(), port, dataset, protocol, services });
            i = i + 1;
        }
        assert(views.subrange(0, i as int) =~= views);
        Ok(BuildPlan { checker: choice, nodes: plans })
    }
}

/// The first node with an error decides the build's error.
proof fn lemma_error_prefix(nodes: Seq<NodeView>, k: int)
    requires
        0 < k <= nodes.len(),
        spec_nodes_error(nodes.subrange(0, k - 1)) is None,
        spec_node_error(nodes[k - 1]) is Some,
    ensures
        spec_nodes_error(nodes) == spec_node_error(nodes[k - 1]),
{
    let pre = nodes.subrange(0, k);
    assert(pre.drop_last() =~= nodes.subrange(0, k - 1));
    assert(pre.last() == nodes[k - 1]);
    assert(spec_nodes_error(pre) == spec_node_error(nodes[k - 1]));
    lemma_error_prefix_extends(nodes, k);
}

/// Once a prefix has an error, every longer prefix has the same one.
proof fn lemma_error_prefix_extends(nodes: Seq<NodeView>, k: int)
    requires
        0 < k <= nodes.len(),
        spec_nodes_error(nodes.subrange(0, k)) is Some,
    ensures
        spec_nodes_error(nodes) == spec_nodes_error(nodes.subrange(0, k)),
    decreases nodes.len() - k,
{
    if k < nodes.len() {
        let next = nodes.subrange(0, k + 1);
        assert(next.drop_last() =~= nodes.subrange(0, k));
        lemma_error_prefix_extends(nodes, k + 1);
    } else {
        assert(nodes.subrange(0, k) =~= nodes);
    }
}

/// The decimal digits of `n`.
pub open spec fn spec_decimal(n: nat) -> Seq<char>
    decreases n,
{
    if n < 10 {
        seq![(('0' as nat) + n) as char]
    } else {
        spec_decimal(n / 10).push((('0' as nat) + n % 10) as char)
    }
}

/// The one-character text of decimal digit `d`.
fn digit_str(d: u16) -> (res: &'static str)
    requires
        d < 10,
    ensures
        res@ == seq![(('0' as nat) + d) as char],
{
    if d == 0 {
        proof {
            reveal_strlit("0");
        }
        "0"
    } else if d == 1 {
        proof {
            reveal_strlit("1");
        }
        "1"
    } else if d == 2 {
        proof {
            reveal_strlit("2");
        }
        "2"
    } else if d == 3 {
        proof {
            reveal_strlit("3");
        }
        "3"
    } else if d == 4 {
        proof {
            reveal_strlit("4");
        }
        "4"
    } else if d == 5 {
        proof {
            reveal_strlit("5");
        }
        "5"
    } else if d == 6 {
        proof {
            reveal_strlit("6");
        }
        "6"
    } else if d == 7 {
        proof {
            reveal_strlit("7");
        }
        "7"
    } else if d == 8 {
        proof {
            reveal_strlit("8");
        }
        "8"
    } else {
        proof {
            reveal_strlit("9");
        }
        "9"
    }
}

/// `n` written in decimal.
fn decimal_text(n: u16) -> (res: String)
    ensures
        res@ == spec_decimal(n as nat),
    decreases n,
{
    if n < 10 {
        digit_str(n).to_owned()
    } else {
        let mut s = decimal_text(n / 10);
        s.append(digit_str(n % 10));
        s
    }
}

/// `host:port`, with the port in decimal.
fn host_port_label(host: &str, port: u16) -> (res: String)
    ensures
        res@ == host@ + ":"@ + spec_decimal(port as nat),
{
    let mut s = host.to_owned();
    s.append(":");
    let digits = decimal_text(port);
    s.append(digits.as_str());
    s
}

/// What a node task sets up: its name, its address, its protocol and the
/// addresses of its HTTP services.
pub struct NodeTaskPlan {
    pub name: String,
    pub address: NodeAddress,
    pub protocol: ProtocolChoice,
    pub http_services: Vec<NodeAddress>,
}

/// Lays out a node task from its plan: the node is named `host:port`, listens
/// at `(host, port)`, and each HTTP service listens on the node's host.
pub fn plan_node_task(node: &NodePlan) -> (res: NodeTaskPlan)
    requires
        forall|i: int| 0 <= i < node.services@.len() ==> node.services@[i] is Http,
    ensures
        res.name@ == node.host@ + ":"@ + spec_decimal(node.port as nat),
        res.address.spec_host() == node.host@,
        res.address.spec_port() == node.port,
        res.protocol == node.protocol,
        res.http_services@.len() == node.services@.len(),
        forall|i: int|
            0 <= i < node.services@.len() ==> (#[trigger] res.http_services@[i]).spec_host() == node.host@
                && res.http_services@[i].spec_port() == node.services@[i]->Http_port,
{
    let name = host_port_label(node.host.as_str(), node.port);
    let address = NodeAddress::new(node.host.clone(), node.port);
    let mut http: Vec<NodeAddress> = Vec::new();
    let mut i: usize = 0;
    while i < node.services.len()
        invariant
            i <= node.services@.len(),
            forall|t: int| 0 <= t < node.services@.len() ==> node.services@[t] is Http,
            http@.len() == i,
            forall|t: int|
                0 <= t < i ==> (#[trigger] http@[t]).spec_host() == node.host@ && http@[t].spec_port()
                    == node.services@[t]->Http_port,
        decreases node.services@.len() - i,
    {
        match node.services[i] {
            ServiceConfig::Http { port } => {
                http.push(NodeAddress::new(node.host.clone(), port));
            },
            ServiceConfig::Ws { .. } => {
                assert(false);
            },
        }
        i = i + 1;
    }
    NodeTaskPlan { name, address, protocol: node.protocol, http_services: http }
}

} // verus!
