use load_balancer::lb::strategy::least_connections::least_connections_pick;
use load_balancer::lb::strategy::round_robin::round_robin_pick;
use load_balancer::lb::strategy::snapshot::healthy_indices;
use load_balancer::lb::strategy::weighted_round_robin::{
    healthy_weight_sum, weighted_round_robin_pick,
};
use load_balancer::lb::{LeastConnections, RoundRobin, Server, Strategy, WeightedRoundRobin};
use std::sync::Arc;

fn pool(specs: &[(&str, usize)]) -> Vec<Arc<Server>> {
    specs
        .iter()
        .map(|(h, w)| Arc::new(Server::new(h.to_string(), 10, *w)))
        .collect()
}

fn hosts_of(picks: &[Option<&Arc<Server>>]) -> Vec<String> {
    picks
        .iter()
        .map(|p| p.map(|s| s.host.clone()).unwrap_or_default())
        .collect()
}

#[test]
fn healthy_indices_keeps_order() {
    assert_eq!(healthy_indices(&[true, false, true, true]), vec![0, 2, 3]);
    assert_eq!(healthy_indices(&[false, false]), Vec::<usize>::new());
}

#[test]
fn round_robin_pick_exact_values() {
    let h = [true, false, true, true];
    assert_eq!(round_robin_pick(&h, 0), Some(0));
    assert_eq!(round_robin_pick(&h, 1), Some(2));
    assert_eq!(round_robin_pick(&h, 2), Some(3));
    assert_eq!(round_robin_pick(&h, 3), Some(0));
    assert_eq!(round_robin_pick(&h, 7), Some(2));
    assert_eq!(round_robin_pick(&h, usize::MAX), Some(0));
    assert_eq!(round_robin_pick(&[false, false], 5), None);
    assert_eq!(round_robin_pick(&[], 0), None);
}

#[test]
fn round_robin_cycle_visits_each_healthy_once() {
    let h = [true, true, false, true, true];
    for c in [0usize, 3, 17, 1000] {
        let mut seen: Vec<usize> = (0..4).map(|j| round_robin_pick(&h, c + j).unwrap()).collect();
        seen.sort();
        assert_eq!(seen, vec![0, 1, 3, 4]);
    }
}

#[test]
fn round_robin_select_cycles_over_healthy_servers() {
    let servers = pool(&[("a", 1), ("b", 1), ("c", 1)]);
    let rr = RoundRobin::new();
    let picks: Vec<Option<&Arc<Server>>> = (0..4).map(|_| rr.select(&servers)).collect();
    assert_eq!(hosts_of(&picks), vec!["a", "b", "c", "a"]);
    servers[1].set_healthy(false);
    let rr = RoundRobin::new();
    let picks: Vec<Option<&Arc<Server>>> = (0..3).map(|_| rr.select(&servers)).collect();
    assert_eq!(hosts_of(&picks), vec!["a", "c", "a"]);
}

#[test]
fn round_robin_select_without_healthy_servers() {
    let servers = pool(&[("a", 1), ("b", 1)]);
    servers[0].set_healthy(false);
    servers[1].set_healthy(false);
    let rr = RoundRobin::new();
    assert!(rr.select(&servers).is_none());
    assert!(rr.select(&[]).is_none());
    // The counter did not move: once a server is back, it starts from the first.
    servers[1].set_healthy(true);
    servers[0].set_healthy(true);
    assert_eq!(rr.select(&servers).unwrap().host, "a");
}

#[test]
fn weighted_pick_exact_values() {
    let h = [true, true, true];
    let w = [1, 1, 2];
    let picks: Vec<Option<usize>> = (0..8).map(|c| weighted_round_robin_pick(&h, &w, c)).collect();
    assert_eq!(
        picks,
        vec![Some(0), Some(1), Some(2), Some(2), Some(0), Some(1), Some(2), Some(2)]
    );
    // Unhealthy and zero-weight servers are skipped.
    let h = [true, false, true, true];
    let w = [0, 5, 2, 1];
    assert_eq!(healthy_weight_sum(&h, &w), 3);
    assert_eq!(weighted_round_robin_pick(&h, &w, 0), Some(2));
    assert_eq!(weighted_round_robin_pick(&h, &w, 1), Some(2));
    assert_eq!(weighted_round_robin_pick(&h, &w, 2), Some(3));
    assert_eq!(weighted_round_robin_pick(&h, &w, 3), Some(2));
}

#[test]
fn weighted_pick_zero_total() {
    assert_eq!(weighted_round_robin_pick(&[true, true], &[0, 0], 4), None);
    assert_eq!(weighted_round_robin_pick(&[false, false], &[3, 4], 4), None);
    assert_eq!(weighted_round_robin_pick(&[], &[], 0), None);
}

#[test]
fn weighted_turn_serves_each_server_its_weight() {
    let h = [true, false, true, true];
    let w = [1, 9, 3, 2];
    let total = healthy_weight_sum(&h, &w);
    assert_eq!(total, 6);
    for c in [0usize, 4, 11, 1_000_003] {
        let mut counts = [0usize; 4];
        for j in 0..total {
            counts[weighted_round_robin_pick(&h, &w, c + j).unwrap()] += 1;
        }
        assert_eq!(counts, [1, 0, 3, 2]);
    }
}

#[test]
fn weighted_select_gives_double_share_to_double_weight() {
    let servers = pool(&[("s1", 1), ("s2", 1), ("s3", 2)]);
    let wrr = WeightedRoundRobin::new();
    let picks: Vec<Option<&Arc<Server>>> = (0..8).map(|_| wrr.select(&servers)).collect();
    assert_eq!(
        hosts_of(&picks),
        vec!["s1", "s2", "s3", "s3", "s1", "s2", "s3", "s3"]
    );
}

#[test]
fn weighted_select_all_zero_weights() {
    let servers = pool(&[("s1", 0), ("s2", 0)]);
    let wrr = WeightedRoundRobin::new();
    assert!(wrr.select(&servers).is_none());
}

#[test]
fn least_connections_pick_prefers_fewest_then_first() {
    assert_eq!(least_connections_pick(&[true, true, true], &[3, 1, 1]), Some(1));
    assert_eq!(least_connections_pick(&[true, false, true], &[3, 0, 2]), Some(2));
    assert_eq!(least_connections_pick(&[true, true], &[4, 4]), Some(0));
    assert_eq!(least_connections_pick(&[false, false], &[0, 0]), None);
}

#[test]
fn least_connections_select_follows_open_connections() {
    let servers = pool(&[("a", 1), ("b", 1)]);
    let lc = LeastConnections::new();
    assert_eq!(lc.select(&servers).unwrap().host, "a");
    servers[0].increment_connections();
    assert_eq!(lc.select(&servers).unwrap().host, "b");
    servers[1].increment_connections();
    servers[1].increment_connections();
    assert_eq!(lc.select(&servers).unwrap().host, "a");
    servers[1].decrement_connections();
    servers[1].decrement_connections();
    assert_eq!(lc.select(&servers).unwrap().host, "b");
    servers[1].set_healthy(false);
    assert_eq!(lc.select(&servers).unwrap().host, "a");
}
