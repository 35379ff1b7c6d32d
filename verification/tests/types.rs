use std::cmp::Ordering;

use sozu::net::{socketaddr_cmp, IpAddress, SocketAddress};
use sozu::types::{
    is_default_path_rule, u32_to_string, Backend, HttpListenerConfig, HttpsListenerConfig,
    LoadBalancingParams, PathRule, Route, RulePosition, RunState, TlsVersion,
};

#[test]
fn path_rule_from_cli_options() {
    assert_eq!(
        PathRule::from_cli_options(Some(String::from("/api")), Some(String::from("x")), None),
        PathRule::Prefix(String::from("/api"))
    );
    assert_eq!(
        PathRule::from_cli_options(None, Some(String::from("^/a")), Some(String::from("/b"))),
        PathRule::Regex(String::from("^/a"))
    );
    assert_eq!(
        PathRule::from_cli_options(None, None, Some(String::from("/c"))),
        PathRule::Equals(String::from("/c"))
    );
    assert_eq!(
        PathRule::from_cli_options(None, None, None),
        PathRule::Prefix(String::new())
    );
}

#[test]
fn default_path_rule_is_the_empty_prefix() {
    assert!(is_default_path_rule(&PathRule::default()));
    assert!(is_default_path_rule(&PathRule::Prefix(String::new())));
    assert!(!is_default_path_rule(&PathRule::Prefix(String::from("/"))));
    assert!(!is_default_path_rule(&PathRule::Regex(String::new())));
    assert!(!is_default_path_rule(&PathRule::Equals(String::new())));
    assert_eq!(RulePosition::default(), RulePosition::Tree);
}

#[test]
fn display_strings() {
    assert_eq!(Route::Deny.display_string(), String::from("deny"));
    assert_eq!(
        Route::ClusterId(String::from("c1")).display_string(),
        String::from("c1")
    );
    assert_eq!(
        PathRule::Prefix(String::from("/api")).display_string(),
        String::from("prefix '/api'")
    );
    assert_eq!(
        PathRule::Regex(String::from("^/")).display_string(),
        String::from("regexp '^/'")
    );
    assert_eq!(
        PathRule::Equals(String::from("/x")).display_string(),
        String::from("equals '/x'")
    );
    assert_eq!(RunState::NotAnswering.display_string(), String::from("NotAnswering"));
    assert_eq!(u32_to_string(0), String::from("0"));
    assert_eq!(u32_to_string(12034), String::from("12034"));
}

#[test]
fn http_listener_defaults() {
    let c = HttpListenerConfig::default();
    assert_eq!(c.address, SocketAddress { ip: IpAddress::V4(0x7f000001), port: 8080 });
    assert_eq!(c.sticky_name, String::from("SOZUBALANCEID"));
    assert!(c.answer_404.starts_with("HTTP/1.1 404 Not Found"));
    assert!(c.answer_503.starts_with("HTTP/1.1 503 Service Unavailable"));
    assert_eq!(c.front_timeout, 60);
    assert_eq!(c.back_timeout, 30);
    assert_eq!(c.connect_timeout, 3);
    assert_eq!(c.request_timeout, 10);
    assert!(!c.expect_proxy);
    assert!(c.public_address.is_none());
}

#[test]
fn https_listener_defaults() {
    let c = HttpsListenerConfig::default();
    assert_eq!(c.address, SocketAddress { ip: IpAddress::V4(0x7f000001), port: 8443 });
    assert_eq!(c.versions, vec![TlsVersion::TLSv1_2]);
    assert_eq!(c.cipher_list.len(), 9);
    assert_eq!(c.cipher_suites.len(), 3);
    assert_eq!(c.groups_list.len(), 4);
    assert!(c.certificate.is_none());
    assert!(c.certificate_chain.is_empty());
    assert!(c.key.is_none());
    assert_eq!(c.front_timeout, 60);
}

fn backend(cid: &str, bid: &str, port: u16) -> Backend {
    Backend {
        cluster_id: String::from(cid),
        backend_id: String::from(bid),
        address: SocketAddress::new_v4(127, 0, 0, 1, port),
        sticky_id: None,
        load_balancing_parameters: None,
        backup: None,
    }
}

#[test]
fn backend_order_is_stable() {
    let a = backend("alpha", "b1", 9000);
    let b = backend("beta", "b1", 9000);
    assert_eq!(a.cmp(&b), Ordering::Less);
    assert_eq!(b.cmp(&a), Ordering::Greater);
    assert_eq!(a.cmp(&a), Ordering::Equal);

    // same cluster: the backend id decides
    let c = backend("alpha", "b2", 9000);
    assert_eq!(a.cmp(&c), Ordering::Less);

    // absent sticky id sorts before a present one
    let mut d = backend("alpha", "b1", 9000);
    d.sticky_id = Some(String::from("s"));
    assert_eq!(a.cmp(&d), Ordering::Less);

    // then the weight
    let mut e = backend("alpha", "b1", 9000);
    e.load_balancing_parameters = Some(LoadBalancingParams { weight: 3 });
    let mut f = backend("alpha", "b1", 9000);
    f.load_balancing_parameters = Some(LoadBalancingParams { weight: 5 });
    assert_eq!(e.cmp(&f), Ordering::Less);

    // finally the address
    let g = backend("alpha", "b1", 9001);
    assert_eq!(a.cmp(&g), Ordering::Less);
}

#[test]
fn socket_addresses_order_ip_first() {
    let a = SocketAddress::new_v4(127, 0, 0, 1, 9000);
    let b = SocketAddress::new_v4(127, 0, 0, 2, 80);
    let c = SocketAddress { ip: IpAddress::V6(1), port: 1 };
    assert_eq!(socketaddr_cmp(&a, &b), Ordering::Less);
    assert_eq!(socketaddr_cmp(&b, &a), Ordering::Greater);
    assert_eq!(socketaddr_cmp(&a, &a), Ordering::Equal);
    // all v4 addresses come before all v6 addresses
    assert_eq!(socketaddr_cmp(&b, &c), Ordering::Less);
    // same ip: the port decides
    let d = SocketAddress::new_v4(127, 0, 0, 1, 9001);
    assert_eq!(socketaddr_cmp(&a, &d), Ordering::Less);
}

#[test]
fn frontend_route_key_identifies_the_frontend() {
    let f = sozu::types::HttpFrontend {
        route: Route::ClusterId(String::from("c1")),
        address: SocketAddress::new_v4(127, 0, 0, 1, 8080),
        hostname: String::from("a.test"),
        path: PathRule::Prefix(String::from("/")),
        method: None,
        position: RulePosition::Pre,
        tags: Some(vec![(String::from("k"), String::from("v"))]),
    };
    assert!(f.is_cluster_id("c1"));
    assert!(!f.is_cluster_id("c2"));
    let k = f.route_key();
    assert_eq!(k.hostname, f.hostname);
    assert_eq!(k.address, f.address);
    assert_eq!(k.position, RulePosition::Pre);
}
