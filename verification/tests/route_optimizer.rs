use set_desto::sde::{
    cache_is_current, jsonl_records, stargate_edges, CachedRouteGraph, OptimizeError,
    RawStargate, RouteDestination, RouteEdge, RouteGraph, SolarSystem,
    MAX_OPTIMIZED_ROUTE_STOPS,
};

fn test_graph() -> RouteGraph {
    RouteGraph::from_cache(CachedRouteGraph {
        build_number: 1,
        release_date: "2026-05-19T00:00:00Z".to_string(),
        systems: vec![
            system(1, "Alpha"),
            system(2, "Bravo"),
            system(3, "Charlie"),
            system(4, "Delta"),
            system(5, "Echo"),
        ],
        edges: vec![edge(1, 2), edge(2, 3), edge(1, 4), edge(4, 3), edge(3, 5)],
    })
}

fn star_graph() -> RouteGraph {
    RouteGraph::from_cache(CachedRouteGraph {
        build_number: 1,
        release_date: "2026-05-19T00:00:00Z".to_string(),
        systems: vec![
            system(1, "Origin"),
            system(2, "Bravo"),
            system(3, "Charlie"),
            system(4, "Delta"),
        ],
        edges: vec![edge(1, 2), edge(1, 3), edge(1, 4)],
    })
}

fn system(id: i64, name: &str) -> SolarSystem {
    SolarSystem {
        id,
        name: name.to_string(),
    }
}

fn edge(from: i64, to: i64) -> RouteEdge {
    RouteEdge { from, to }
}

fn destination(system_id: i64, system_name: &str, import_index: usize) -> RouteDestination {
    RouteDestination {
        system_id,
        system_name: system_name.to_string(),
        import_index,
    }
}

fn stop_ids(destinations: &[RouteDestination]) -> Vec<i64> {
    destinations.iter().map(|d| d.system_id).collect()
}

#[test]
fn resolves_system_names_case_insensitively() {
    let graph = test_graph();

    let system = graph.resolve_system(" alpha ").expect("system should resolve");

    assert_eq!(system.id, 1);
    assert_eq!(system.name, "Alpha");
}

#[test]
fn unknown_system_names_do_not_resolve() {
    assert!(test_graph().resolve_system("Zulu").is_none());
}

#[test]
fn dijkstra_finds_shortest_path_distance() {
    let graph = test_graph();

    assert_eq!(graph.distance(1, 5), Some(3));
    assert_eq!(graph.distance(1, 1), Some(0));
    assert_eq!(graph.distance(1, 999), None);
}

#[test]
fn stargates_work_in_both_directions() {
    let graph = test_graph();
    assert_eq!(graph.distance(5, 1), Some(3));
    assert_eq!(graph.distance(999, 1), None);
    let all = graph.distances_from(1);
    assert_eq!(all.len(), 5);
    assert_eq!(all.get(&4), Some(&1));
}

#[test]
fn graph_reports_its_cache_facts() {
    let graph = test_graph();
    assert_eq!(graph.build_number(), 1);
    assert_eq!(graph.release_date(), "2026-05-19T00:00:00Z");
    assert_eq!(graph.system_count(), 5);
    assert_eq!(graph.system(3).map(|s| s.name), Some("Charlie".to_string()));
    assert!(graph.system(42).is_none());
}

#[test]
fn optimizer_uses_shortest_open_route() {
    let graph = test_graph();
    let destinations = vec![destination(5, "Echo", 0), destination(4, "Delta", 1)];

    let route = graph
        .optimize_open_route(1, &destinations)
        .expect("route should optimize");

    assert_eq!(stop_ids(&route.destinations), vec![4, 5]);
    assert_eq!(route.total_jumps, 3);
}

#[test]
fn optimizer_keeps_stable_order_for_equal_routes() {
    let graph = test_graph();
    let destinations = vec![destination(2, "Bravo", 0), destination(4, "Delta", 1)];

    let route = graph
        .optimize_open_route(1, &destinations)
        .expect("route should optimize");

    assert_eq!(stop_ids(&route.destinations), vec![2, 4]);
}

#[test]
fn optimizer_keeps_import_order_for_three_way_tie() {
    let graph = star_graph();
    let destinations = vec![
        destination(2, "Bravo", 0),
        destination(3, "Charlie", 1),
        destination(4, "Delta", 2),
    ];

    let route = graph
        .optimize_open_route(1, &destinations)
        .expect("route should optimize");

    assert_eq!(stop_ids(&route.destinations), vec![2, 3, 4]);
    assert_eq!(route.total_jumps, 5);
}

#[test]
fn optimizer_rejects_too_many_destinations() {
    let graph = test_graph();
    let destinations: Vec<RouteDestination> = (0..=MAX_OPTIMIZED_ROUTE_STOPS)
        .map(|index| destination(2, "Bravo", index))
        .collect();

    let err = graph.optimize_open_route(1, &destinations).unwrap_err();

    assert!(err.message().contains("or fewer systems"));
}

#[test]
fn optimizer_rejects_an_empty_selection() {
    let err = test_graph().optimize_open_route(1, &[]).unwrap_err();
    assert_eq!(err, OptimizeError::NoDestinations);
    assert_eq!(err.message(), "Select at least one imported system");
}

#[test]
fn optimizer_needs_a_known_origin() {
    let err = test_graph()
        .optimize_open_route(77, &[destination(2, "Bravo", 0)])
        .unwrap_err();
    assert_eq!(err, OptimizeError::UnknownOrigin(77));
    assert_eq!(err.message(), "Current solar system 77 was not found in SDE cache");
}

#[test]
fn optimizer_reports_unreachable_stops() {
    let graph = RouteGraph::from_cache(CachedRouteGraph {
        build_number: 2,
        release_date: "2026-05-20T00:00:00Z".to_string(),
        systems: vec![system(1, "Alpha"), system(2, "Bravo"), system(3, "Island")],
        edges: vec![edge(1, 2)],
    });
    let err = graph
        .optimize_open_route(1, &[destination(3, "Island", 0)])
        .unwrap_err();
    assert_eq!(err, OptimizeError::NoRouteFromOrigin("Island".to_string()));
    assert_eq!(err.message(), "No stargate route from current system to Island");
}

#[test]
fn optimizer_allows_the_largest_selection() {
    let graph = star_graph();
    let destinations: Vec<RouteDestination> = (0..MAX_OPTIMIZED_ROUTE_STOPS)
        .map(|index| destination(2 + (index as i64 % 3), "Stop", index))
        .collect();
    let route = graph
        .optimize_open_route(1, &destinations)
        .expect("route should optimize");
    assert_eq!(route.destinations.len(), MAX_OPTIMIZED_ROUTE_STOPS);
    assert_eq!(route.origin.id, 1);
}

#[test]
fn route_cache_is_current_only_for_the_latest_build() {
    assert!(cache_is_current(Some(3), 3));
    assert!(!cache_is_current(Some(2), 3));
    assert!(!cache_is_current(None, 3));
}

fn json_i64(value: &serde_json::Value, key: &str) -> i64 {
    value[key].as_i64().expect("integer field")
}

#[test]
fn parses_solar_system_jsonl_fixture() {
    let data = r#"{"_key":30000142,"name":{"en":"Jita"},"securityStatus":0.945913}
{"_key":30000144,"name":{"en":"Perimeter"},"securityStatus":0.931604}
"#;

    let systems: Vec<SolarSystem> = jsonl_records(data)
        .into_iter()
        .map(|(_, line)| {
            let value: serde_json::Value = serde_json::from_str(&line).expect("valid fixture");
            SolarSystem {
                id: json_i64(&value, "_key"),
                name: value["name"]["en"].as_str().expect("valid fixture").to_string(),
            }
        })
        .collect();

    assert_eq!(systems.len(), 2);
    assert_eq!(systems[0].id, 30000142);
    assert_eq!(systems[0].name, "Jita");
}

#[test]
fn parses_stargate_jsonl_fixture() {
    let data = r#"{"_key":50001248,"solarSystemID":30000142,"destination":{"solarSystemID":30000140,"stargateID":50000802}}
{"_key":50001249,"solarSystemID":30000142}
"#;

    let raw: Vec<RawStargate> = jsonl_records(data)
        .into_iter()
        .map(|(_, line)| {
            let value: serde_json::Value = serde_json::from_str(&line).expect("valid fixture");
            RawStargate {
                stargate_id: json_i64(&value, "_key"),
                solar_system_id: json_i64(&value, "solarSystemID"),
                destination_system_id: value
                    .get("destination")
                    .map(|d| json_i64(d, "solarSystemID")),
            }
        })
        .collect();
    let edges = stargate_edges(&raw);

    assert_eq!(edges.len(), 1);
    assert_eq!(edges[0].from, 30000142);
    assert_eq!(edges[0].to, 30000140);
}

#[test]
fn jsonl_records_skip_blank_lines_and_count_from_one() {
    let records = jsonl_records("{}\n   \n{\"a\":1}\n");
    assert_eq!(records, vec![(1, "{}".to_string()), (3, "{\"a\":1}".to_string())]);
    assert!(jsonl_records("").is_empty());
}

#[test]
fn edge_count_counts_each_link_from_both_ends_once() {
    assert_eq!(test_graph().edge_count(), 10);
    let graph = RouteGraph::from_cache(CachedRouteGraph {
        build_number: 1,
        release_date: String::new(),
        systems: vec![system(1, "Alpha"), system(2, "Bravo")],
        edges: vec![edge(1, 2), edge(2, 1), edge(1, 2)],
    });
    assert_eq!(graph.edge_count(), 2);
}
