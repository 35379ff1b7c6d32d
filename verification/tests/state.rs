use sozu::net::{IpAddress, SocketAddress};
use sozu::state::{ConfigCommand, ConfigState, ListenerConfig, StateError};
use sozu::types::{
    Backend, BackendKey, Cluster, DeepEq, HttpFrontend, HttpListenerConfig,
    LoadBalancingAlgorithm, PathRule, ProtocolVersion, Route, RulePosition,
};

fn addr(d: u8, port: u16) -> SocketAddress {
    SocketAddress::new_v4(127, 0, 0, d, port)
}

fn http_listener(a: SocketAddress) -> HttpListenerConfig {
    let mut c = HttpListenerConfig::default();
    c.address = a;
    c
}

fn cluster(id: &str) -> Cluster {
    Cluster {
        cluster_id: String::from(id),
        sticky_name: String::from("SOZUBALANCEID"),
        load_balancing: LoadBalancingAlgorithm::RoundRobin,
        protocol_version: ProtocolVersion::Http1,
        health_check_interval: None,
    }
}

fn frontend(a: SocketAddress, host: &str, cid: &str) -> HttpFrontend {
    HttpFrontend {
        route: Route::ClusterId(String::from(cid)),
        address: a,
        hostname: String::from(host),
        path: PathRule::Prefix(String::from("/")),
        method: None,
        position: RulePosition::Tree,
        tags: None,
    }
}

fn backend(cid: &str, bid: &str, a: SocketAddress) -> Backend {
    Backend {
        cluster_id: String::from(cid),
        backend_id: String::from(bid),
        address: a,
        sticky_id: None,
        load_balancing_parameters: None,
        backup: None,
    }
}

#[test]
fn add_http_listener_and_frontend() {
    let mut state = ConfigState::new();
    let a = addr(1, 8080);
    assert_eq!(
        state.apply(&ConfigCommand::AddHttpListener(http_listener(a))),
        Ok(true)
    );
    assert_eq!(
        state.apply(&ConfigCommand::ActivateListener { address: a }),
        Ok(true)
    );
    assert_eq!(state.apply(&ConfigCommand::AddCluster(cluster("c1"))), Ok(true));
    assert_eq!(
        state.apply(&ConfigCommand::AddHttpFrontend(frontend(a, "a.test", "c1"))),
        Ok(true)
    );
    assert_eq!(
        state.apply(&ConfigCommand::AddBackend(backend("c1", "b1", addr(1, 9000)))),
        Ok(true)
    );
    assert_eq!(state.http_frontends.len(), 1);
    assert!(state
        .http_frontends
        .get(&frontend(a, "a.test", "c1").route_key())
        .unwrap()
        .is_cluster_id("c1"));
    assert_eq!(state.clusters.len(), 1);
    assert_eq!(state.backends.len(), 1);
    let entry = state.listeners.get(&a).unwrap();
    assert!(entry.active);
}

#[test]
fn duplicate_listener_is_refused() {
    let mut state = ConfigState::new();
    let a = addr(1, 8080);
    let mut other = http_listener(a);
    other.front_timeout = 99;
    assert_eq!(
        state.apply(&ConfigCommand::AddHttpListener(http_listener(a))),
        Ok(true)
    );
    assert_eq!(
        state.apply(&ConfigCommand::AddHttpListener(other)),
        Err(StateError::ListenerAlreadyExists)
    );
    // the state is unchanged: the first configuration still stands
    let entry = state.listeners.get(&a).unwrap();
    match &entry.config {
        ListenerConfig::Http(c) => assert_eq!(c.front_timeout, 60),
        _ => panic!("wrong listener kind"),
    }
    assert_eq!(state.listeners.len(), 1);
}

#[test]
fn replaying_a_command_is_a_no_op() {
    let mut state = ConfigState::new();
    let cmd = ConfigCommand::AddCluster(cluster("c1"));
    assert_eq!(state.apply(&cmd), Ok(true));
    assert_eq!(state.apply(&cmd), Ok(false));
    assert_eq!(state.clusters.len(), 1);

    let listener = ConfigCommand::AddHttpListener(http_listener(addr(1, 8080)));
    assert_eq!(state.apply(&listener), Ok(true));
    assert_eq!(state.apply(&listener), Ok(false));
}

#[test]
fn empty_command_list_is_a_no_op() {
    let mut state = ConfigState::new();
    state
        .apply(&ConfigCommand::AddCluster(cluster("c1")))
        .unwrap();
    let before = state.clone();
    let failures = state.apply_all(&Vec::new());
    assert_eq!(failures, 0);
    assert_eq!(state, before);
}

#[test]
fn removal_needs_deactivation_first() {
    let mut state = ConfigState::new();
    let a = addr(1, 8080);
    state
        .apply(&ConfigCommand::AddHttpListener(http_listener(a)))
        .unwrap();
    state
        .apply(&ConfigCommand::ActivateListener { address: a })
        .unwrap();
    assert_eq!(
        state.apply(&ConfigCommand::RemoveListener { address: a }),
        Err(StateError::ListenerStillActive)
    );
    assert_eq!(
        state.apply(&ConfigCommand::DeactivateListener { address: a }),
        Ok(true)
    );
    assert_eq!(
        state.apply(&ConfigCommand::RemoveListener { address: a }),
        Ok(true)
    );
    // removing what is gone is an accepted no-op
    assert_eq!(
        state.apply(&ConfigCommand::RemoveListener { address: a }),
        Ok(false)
    );
}

fn states_agree(s: &ConfigState, t: &ConfigState) -> bool {
    if s.listeners.len() != t.listeners.len()
        || s.clusters.len() != t.clusters.len()
        || s.http_frontends.len() != t.http_frontends.len()
        || s.https_frontends.len() != t.https_frontends.len()
        || s.tcp_frontends.len() != t.tcp_frontends.len()
        || s.backends.len() != t.backends.len()
        || s.certificates.len() != t.certificates.len()
    {
        return false;
    }
    for (k, v) in &t.listeners.entries {
        match s.listeners.get(k) {
            Some(w) => {
                if !w.deep_eq(v) {
                    return false;
                }
            }
            None => return false,
        }
    }
    for (k, v) in &t.clusters.entries {
        match s.clusters.get(k) {
            Some(w) => {
                if !w.deep_eq(v) {
                    return false;
                }
            }
            None => return false,
        }
    }
    for (k, v) in &t.http_frontends.entries {
        match s.http_frontends.get(k) {
            Some(w) => {
                if !w.deep_eq(v) {
                    return false;
                }
            }
            None => return false,
        }
    }
    for (k, v) in &t.backends.entries {
        match s.backends.get(k) {
            Some(w) => {
                if !w.deep_eq(v) {
                    return false;
                }
            }
            None => return false,
        }
    }
    true
}

#[test]
fn diff_carries_one_state_into_another() {
    let mut s = ConfigState::new();
    let mut t = ConfigState::new();
    let a = addr(1, 8080);
    let b = addr(2, 8081);

    // origin: listener a active, cluster c1, a frontend, a backend
    s.apply(&ConfigCommand::AddHttpListener(http_listener(a))).unwrap();
    s.apply(&ConfigCommand::ActivateListener { address: a }).unwrap();
    s.apply(&ConfigCommand::AddCluster(cluster("c1"))).unwrap();
    s.apply(&ConfigCommand::AddHttpFrontend(frontend(a, "a.test", "c1"))).unwrap();
    s.apply(&ConfigCommand::AddBackend(backend("c1", "b1", addr(1, 9000)))).unwrap();

    // target: listener b inactive, clusters c1 (changed) and c2, another frontend
    t.apply(&ConfigCommand::AddHttpListener(http_listener(b))).unwrap();
    let mut c1 = cluster("c1");
    c1.load_balancing = LoadBalancingAlgorithm::Random;
    t.apply(&ConfigCommand::AddCluster(c1)).unwrap();
    t.apply(&ConfigCommand::AddCluster(cluster("c2"))).unwrap();
    t.apply(&ConfigCommand::AddHttpFrontend(frontend(b, "b.test", "c2"))).unwrap();

    let cmds = s.diff(&t);
    assert!(!cmds.is_empty());
    let failures = s.apply_all(&cmds);
    assert_eq!(failures, 0);
    assert!(states_agree(&s, &t));
}

#[test]
fn diff_of_equal_states_is_empty() {
    let mut s = ConfigState::new();
    let a = addr(1, 8080);
    s.apply(&ConfigCommand::AddHttpListener(http_listener(a))).unwrap();
    s.apply(&ConfigCommand::AddCluster(cluster("c1"))).unwrap();
    let cmds = s.diff(&s);
    assert!(cmds.is_empty());
}

#[test]
fn backend_removal_by_key() {
    let mut state = ConfigState::new();
    state
        .apply(&ConfigCommand::AddBackend(backend("c1", "b1", addr(1, 9000))))
        .unwrap();
    assert_eq!(
        state.apply(&ConfigCommand::RemoveBackend {
            key: BackendKey { cluster_id: String::from("c1"), backend_id: String::from("b1") },
        }),
        Ok(true)
    );
    assert_eq!(state.backends.len(), 0);
}

#[test]
fn activate_missing_listener_fails() {
    let mut state = ConfigState::new();
    assert_eq!(
        state.apply(&ConfigCommand::ActivateListener { address: addr(9, 80) }),
        Err(StateError::ListenerNotFound)
    );
    let _ = IpAddress::V4(0);
}
