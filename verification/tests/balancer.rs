use load_balancer::config::{
    AclConfig, Algorithm, Config, ListenerConfig, ListenerMode, ServerConfig,
};
use load_balancer::lb::net::{apply_probe, health_change, request_target, HealthChange};
use load_balancer::lb::{LeastConnections, LoadBalancer, RoundRobin, Server};
use load_balancer::text::{ends_with, str_equal};
use std::sync::Arc;

fn three_servers() -> Vec<Arc<Server>> {
    ["localhost:9001", "localhost:9002", "localhost:9003"]
        .iter()
        .map(|h| Arc::new(Server::new(h.to_string(), 100, 1)))
        .collect()
}

fn even_odd_rules() -> Vec<AclConfig> {
    vec![
        AclConfig {
            name: "even".to_string(),
            pattern: "/even".to_string(),
            target_hosts: vec!["localhost:9002".to_string()],
        },
        AclConfig {
            name: "odd".to_string(),
            pattern: "/odd".to_string(),
            target_hosts: vec!["localhost:9001".to_string(), "localhost:9003".to_string()],
        },
    ]
}

fn hosts(pool: &[Arc<Server>]) -> Vec<String> {
    pool.iter().map(|s| s.host.clone()).collect()
}

#[test]
fn even_path_always_goes_to_second_server() {
    let lb = LoadBalancer::new(three_servers(), Box::new(RoundRobin::new()), even_odd_rules());
    for _ in 0..5 {
        assert_eq!(lb.select_server_with_path("/even").unwrap().host, "localhost:9002");
    }
}

#[test]
fn odd_path_alternates_first_and_third_servers() {
    let lb = LoadBalancer::new(three_servers(), Box::new(RoundRobin::new()), even_odd_rules());
    let picks: Vec<String> = (0..4)
        .map(|_| lb.select_server_with_path("/odd").unwrap().host.clone())
        .collect();
    assert_eq!(
        picks,
        vec!["localhost:9001", "localhost:9003", "localhost:9001", "localhost:9003"]
    );
}

#[test]
fn routing_pool_per_path() {
    let lb = LoadBalancer::new(three_servers(), Box::new(RoundRobin::new()), even_odd_rules());
    assert_eq!(hosts(&lb.routing_pool("/api/even")), vec!["localhost:9002"]);
    assert_eq!(hosts(&lb.routing_pool("/odd")), vec!["localhost:9001", "localhost:9003"]);
    assert_eq!(
        hosts(&lb.routing_pool("/other")),
        vec!["localhost:9001", "localhost:9002", "localhost:9003"]
    );
    assert_eq!(hosts(&lb.routing_pool("")).len(), 3);
    assert_eq!(lb.get_servers().len(), 3);
}

#[test]
fn rule_without_known_host_falls_through() {
    let rules = vec![
        AclConfig {
            name: "ghost".to_string(),
            pattern: "/x".to_string(),
            target_hosts: vec!["elsewhere:1".to_string()],
        },
        AclConfig {
            name: "x".to_string(),
            pattern: "x".to_string(),
            target_hosts: vec!["localhost:9003".to_string()],
        },
    ];
    let lb = LoadBalancer::new(three_servers(), Box::new(RoundRobin::new()), rules);
    assert_eq!(hosts(&lb.routing_pool("/x")), vec!["localhost:9003"]);
}

#[test]
fn unhealthy_rule_pool_yields_nothing() {
    let servers = three_servers();
    servers[1].set_healthy(false);
    let lb = LoadBalancer::new(servers, Box::new(LeastConnections::new()), even_odd_rules());
    assert!(lb.select_server_with_path("/even").is_none());
    assert!(lb.select_server_with_path("/").is_some());
}

#[test]
fn select_server_uses_whole_pool() {
    let lb = LoadBalancer::new(three_servers(), Box::new(RoundRobin::new()), even_odd_rules());
    let picks: Vec<String> = (0..3).map(|_| lb.select_server().unwrap().host.clone()).collect();
    assert_eq!(picks, vec!["localhost:9001", "localhost:9002", "localhost:9003"]);
    let empty = LoadBalancer::new(Vec::new(), Box::new(RoundRobin::new()), Vec::new());
    assert!(empty.select_server().is_none());
    assert!(empty.select_server_with_path("/even").is_none());
}

#[test]
fn server_pool_defaults_weight_to_one() {
    let cfg = Config {
        health_check_interval: "5s".to_string(),
        listeners: vec![ListenerConfig {
            listen_addr: "0.0.0.0:8000".to_string(),
            mode: "http".to_string(),
            algorithm: "weighted_round_robin".to_string(),
            acls: None,
        }],
        servers: vec![
            ServerConfig { host: "a:1".to_string(), max_connections: 5, weight: None },
            ServerConfig { host: "b:2".to_string(), max_connections: 7, weight: Some(3) },
        ],
    };
    let pool = cfg.server_pool();
    assert_eq!(pool.len(), 2);
    assert_eq!(pool[0].host, "a:1");
    assert_eq!(pool[0].weight, 1);
    assert_eq!(pool[0].max_connections, 5);
    assert_eq!(pool[1].weight, 3);
    assert!(pool[0].is_healthy());
    assert_eq!(pool[0].get_active_connections(), 0);
    assert_eq!(cfg.servers[0].effective_weight(), 1);
    assert_eq!(cfg.servers[1].effective_weight(), 3);
}

#[test]
fn algorithm_and_mode_names() {
    assert_eq!(Algorithm::from_name("round_robin"), Some(Algorithm::RoundRobin));
    assert_eq!(Algorithm::from_name("least_connections"), Some(Algorithm::LeastConnections));
    assert_eq!(
        Algorithm::from_name("weighted_round_robin"),
        Some(Algorithm::WeightedRoundRobin)
    );
    assert_eq!(Algorithm::from_name("random"), None);
    assert_eq!(Algorithm::for_listener("random"), Algorithm::RoundRobin);
    assert_eq!(Algorithm::for_listener("least_connections"), Algorithm::LeastConnections);
    assert_eq!(ListenerMode::from_name("http"), Some(ListenerMode::Http));
    assert_eq!(ListenerMode::from_name("tcp"), Some(ListenerMode::Tcp));
    assert_eq!(ListenerMode::from_name("udp"), None);
}

#[test]
fn health_transitions() {
    assert_eq!(health_change(true, true), HealthChange::Unchanged);
    assert_eq!(health_change(false, false), HealthChange::Unchanged);
    assert_eq!(health_change(false, true), HealthChange::Up);
    assert_eq!(health_change(true, false), HealthChange::Down);
    let s = Server::new("h:1".to_string(), 1, 1);
    assert_eq!(apply_probe(&s, false), (true, HealthChange::Down));
    assert!(!s.is_healthy());
    assert_eq!(apply_probe(&s, false), (false, HealthChange::Unchanged));
    assert_eq!(apply_probe(&s, true), (false, HealthChange::Up));
    assert!(s.is_healthy());
    assert_eq!(apply_probe(&s, true), (true, HealthChange::Unchanged));
}

#[test]
fn request_target_of_request_line() {
    let head = b"GET /odd HTTP/1.1\r\nHost: x\r\n\r\n";
    assert_eq!(request_target(head), Some((4, 8)));
    assert_eq!(request_target(b"GET /even"), Some((4, 9)));
    assert_eq!(request_target(b"GET\r\n /x y"), None);
    assert_eq!(request_target(b""), None);
    assert_eq!(request_target(b"GET  x"), Some((4, 4)));
}

#[test]
fn text_helpers() {
    assert!(ends_with("/api/even", "/even"));
    assert!(ends_with("/even", "/even"));
    assert!(ends_with("abc", ""));
    assert!(!ends_with("/eve", "/even"));
    assert!(!ends_with("/odd", "/even"));
    assert!(ends_with("/päth", "äth"));
    assert!(str_equal("tcp", "tcp"));
    assert!(!str_equal("tcp", "tc"));
    assert!(!str_equal("tcp", "tcq"));
}

#[test]
fn connection_counting() {
    let s = Server::new("h:1".to_string(), 2, 1);
    s.increment_connections();
    s.increment_connections();
    assert_eq!(s.get_active_connections(), 2);
    s.decrement_connections();
    assert_eq!(s.get_active_connections(), 1);
    assert_eq!(s.get_weight(), 1);
    assert_eq!(s.host_str(), "h:1");
}
