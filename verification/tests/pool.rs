use turbine::config::{ChainConfig, EndpointConfig, HealthConfig, RotationStrategy};
use turbine::health::pool::ChainPool;
use turbine::health::state::RosterStatus;

const NOW: u64 = 1_000_000;

fn make_config(endpoints: Vec<EndpointConfig>) -> ChainConfig {
    ChainConfig {
        name: "test".to_string(),
        route: "/test".to_string(),
        endpoints,
        health: HealthConfig {
            max_consecutive_failures: 3,
            cooldown_seconds: 30,
            health_method: None,
            health_check_interval_seconds: 30,
            max_block_lag: 10,
            max_retries: 1,
            retry_delay_ms: 0,
        },
        rotation: RotationStrategy::RoundRobin,
        cache: None,
        chain_id: None,
        rate_limit: None,
        hedge: None,
    }
}

fn ep(url: &str, methods: Option<Vec<&str>>) -> EndpointConfig {
    EndpointConfig {
        url: url.to_string(),
        weight: 1,
        auth: None,
        methods: methods.map(|m| m.into_iter().map(String::from).collect()),
        ws_url: None,
    }
}

#[test]
fn all_unconstrained_returns_all_indices() {
    let config = make_config(vec![ep("https://a.com", None), ep("https://b.com", None)]);
    let pool = ChainPool::new(&config);
    let eligible = pool.eligible_indices_for_method("eth_call");
    assert_eq!(eligible, vec![0, 1]);
}

#[test]
fn claimed_method_routes_only_to_claiming_endpoint() {
    let config = make_config(vec![
        ep("https://private.com", Some(vec!["eth_sendRawTransaction"])),
        ep("https://public.com", None),
    ]);
    let pool = ChainPool::new(&config);
    let eligible = pool.eligible_indices_for_method("eth_sendRawTransaction");
    assert_eq!(eligible, vec![0]);
}

#[test]
fn unconstrained_endpoint_excluded_from_claimed_method() {
    let config = make_config(vec![
        ep("https://private.com", Some(vec!["eth_sendRawTransaction"])),
        ep("https://public.com", None),
    ]);
    let pool = ChainPool::new(&config);
    let eligible = pool.eligible_indices_for_method("eth_call");
    assert_eq!(eligible, vec![1]);
}

#[test]
fn unclaimed_method_returns_only_unconstrained_endpoints() {
    let config = make_config(vec![
        ep("https://private.com", Some(vec!["eth_sendRawTransaction"])),
        ep("https://public-a.com", None),
        ep("https://public-b.com", None),
    ]);
    let pool = ChainPool::new(&config);
    let eligible = pool.eligible_indices_for_method("eth_getBalance");
    assert_eq!(eligible, vec![1, 2]);
}

#[test]
fn next_endpoint_from_eligible_returns_none_on_empty_set() {
    let config = make_config(vec![ep("https://a.com", None)]);
    let mut pool = ChainPool::new(&config);
    let result = pool.next_endpoint_from_eligible(&[], &[], NOW);
    assert!(result.is_none());
}

#[test]
fn next_endpoint_from_eligible_selects_from_eligible_only() {
    let config = make_config(vec![
        ep("https://private.com", Some(vec!["eth_sendRawTransaction"])),
        ep("https://public.com", None),
    ]);
    let mut pool = ChainPool::new(&config);
    let eligible = vec![0]; // only the private endpoint
    let (idx, url) = pool.next_endpoint_from_eligible(&eligible, &[], NOW).unwrap();
    assert_eq!(idx, 0);
    assert_eq!(url, "https://private.com");
}

#[test]
fn roster_initializes_all_active_when_5_or_fewer_endpoints() {
    let config = make_config(vec![
        ep("https://a.com", None),
        ep("https://b.com", None),
        ep("https://c.com", None),
    ]);
    let pool = ChainPool::new(&config);
    let active = pool.active_indices();
    let house = pool.rpc_house();
    assert_eq!(active.len(), 3);
    assert!(house.is_empty());
}

#[test]
fn roster_splits_when_more_than_5_endpoints() {
    let config = make_config(vec![
        ep("https://a.com", None),
        ep("https://b.com", None),
        ep("https://c.com", None),
        ep("https://d.com", None),
        ep("https://e.com", None),
        ep("https://f.com", None),
        ep("https://g.com", None),
        ep("https://h.com", None),
    ]);
    let pool = ChainPool::new(&config);
    let active = pool.active_indices();
    let house = pool.rpc_house();
    assert_eq!(active.len(), 5);
    assert_eq!(house.len(), 3);
    // All indices accounted for
    let mut all: Vec<usize> = active.iter().copied().collect();
    all.extend(house.iter());
    all.sort();
    assert_eq!(all, vec![0, 1, 2, 3, 4, 5, 6, 7]);
}

#[test]
fn next_endpoint_only_returns_active_indices() {
    let config = make_config(vec![
        ep("https://a.com", None),
        ep("https://b.com", None),
        ep("https://c.com", None),
        ep("https://d.com", None),
        ep("https://e.com", None),
        ep("https://f.com", None),
        ep("https://g.com", None),
    ]);
    let mut pool = ChainPool::new(&config);
    let active = pool.active_indices();

    for _ in 0..50 {
        let (idx, _) = pool.next_endpoint(NOW).unwrap();
        assert!(
            active.contains(&idx),
            "Selected index {} is not in active set {:?}",
            idx,
            active
        );
    }
}

#[test]
fn eligible_indices_intersects_with_active_set() {
    let config = make_config(vec![
        ep("https://a.com", None),
        ep("https://b.com", None),
        ep("https://c.com", None),
        ep("https://d.com", None),
        ep("https://e.com", None),
        ep("https://f.com", None),
        ep("https://g.com", None),
    ]);
    let pool = ChainPool::new(&config);
    let active = pool.active_indices();
    let eligible = pool.eligible_indices_for_method("eth_call");

    for idx in &eligible {
        assert!(
            active.contains(idx),
            "Eligible index {} is not in active set {:?}",
            idx,
            active
        );
    }
    assert_eq!(eligible.len(), active.len());
}

#[test]
fn healthy_count_only_counts_active_endpoints() {
    let config = make_config(vec![
        ep("https://a.com", None),
        ep("https://b.com", None),
        ep("https://c.com", None),
        ep("https://d.com", None),
        ep("https://e.com", None),
        ep("https://f.com", None),
        ep("https://g.com", None),
    ]);
    let mut pool = ChainPool::new(&config);
    assert_eq!(pool.healthy_count(NOW), 5);
}

#[test]
fn demote_and_replace_swaps_endpoint() {
    let config = make_config(vec![
        ep("https://a.com", None),
        ep("https://b.com", None),
        ep("https://c.com", None),
        ep("https://d.com", None),
        ep("https://e.com", None),
        ep("https://f.com", None),
        ep("https://g.com", None),
    ]);
    let mut pool = ChainPool::new(&config);
    let active_before = pool.active_indices();
    let demoted_idx = active_before[0];

    pool.demote_and_replace(demoted_idx);

    let active_after = pool.active_indices();
    assert_eq!(active_after.len(), 5);
    assert!(!active_after.contains(&demoted_idx));
    let house = pool.rpc_house();
    assert!(house.contains(&demoted_idx));
}

#[test]
fn demote_recycles_when_rpc_house_exhausted() {
    // 6 endpoints: 5 active, 1 reserve
    let config = make_config(vec![
        ep("https://a.com", None),
        ep("https://b.com", None),
        ep("https://c.com", None),
        ep("https://d.com", None),
        ep("https://e.com", None),
        ep("https://f.com", None),
    ]);
    let mut pool = ChainPool::new(&config);

    // Demote once — uses the single reserve endpoint
    let first_demoted = pool.active_indices()[0];
    pool.demote_and_replace(first_demoted);

    // Demote again — rpc_house only has first_demoted, triggers recycle
    let second_demoted = pool.active_indices()[0];
    pool.demote_and_replace(second_demoted);

    let active = pool.active_indices();
    assert_eq!(active.len(), 5);
    assert!(!active.contains(&second_demoted));
}

#[test]
fn demote_noop_when_no_reserve_and_only_5_endpoints() {
    let config = make_config(vec![
        ep("https://a.com", None),
        ep("https://b.com", None),
        ep("https://c.com", None),
        ep("https://d.com", None),
        ep("https://e.com", None),
    ]);
    let mut pool = ChainPool::new(&config);
    let active_before = pool.active_indices();

    pool.demote_and_replace(active_before[0]);

    let active_after = pool.active_indices();
    assert!(active_after.len() >= 4);
}

#[test]
fn endpoint_statuses_tags_roster_status_correctly() {
    let config = make_config(vec![
        ep("https://a.com", None),
        ep("https://b.com", None),
        ep("https://c.com", None),
        ep("https://d.com", None),
        ep("https://e.com", None),
        ep("https://f.com", None),
        ep("https://g.com", None),
    ]);
    let mut pool = ChainPool::new(&config);
    let statuses = pool.endpoint_statuses(NOW);
    let active_count = statuses
        .iter()
        .filter(|s| matches!(s.roster_status, RosterStatus::Active))
        .count();
    let reserve_count = statuses
        .iter()
        .filter(|s| matches!(s.roster_status, RosterStatus::Reserve))
        .count();
    assert_eq!(active_count, 5);
    assert_eq!(reserve_count, 2);
}
