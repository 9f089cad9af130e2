use set_desto::text::tokens_appear_in_order;
use set_desto::universe::{
    is_roman_numeral, pick_destination_match, pick_shorthand_station, pick_station_candidate,
    pick_structure_candidate, station_shorthand_score, station_shorthand_system_name,
    structure_candidate_score, NamedId, ScoredStation, StructureCandidate,
    UniverseDestinationCategory, UniverseIdsResponse,
};
use set_desto::waypoints::{options_for_route_stop, WaypointRouteMode};

#[test]
fn prefers_system_matches_over_station_matches() {
    let response = UniverseIdsResponse {
        systems: vec![NamedId {
            id: 30045339,
            name: "Rakapas".to_string(),
        }],
        stations: vec![NamedId {
            id: 60000001,
            name: "Rakapas".to_string(),
        }],
    };

    let destination = pick_destination_match(&response).expect("destination should resolve");

    assert_eq!(destination.id, 30045339);
    assert_eq!(destination.category, UniverseDestinationCategory::SolarSystem);
}

#[test]
fn falls_back_to_station_matches() {
    let response = UniverseIdsResponse {
        systems: Vec::new(),
        stations: vec![NamedId {
            id: 60003760,
            name: "Jita IV - Moon 4 - Caldari Navy Assembly Plant".to_string(),
        }],
    };

    let destination = pick_destination_match(&response).expect("destination should resolve");

    assert_eq!(destination.id, 60003760);
    assert_eq!(destination.category, UniverseDestinationCategory::Station);
}

#[test]
fn empty_lookup_matches_nothing() {
    assert!(pick_destination_match(&UniverseIdsResponse::default()).is_none());
}

#[test]
fn extracts_station_shorthand_system_name() {
    assert_eq!(
        station_shorthand_system_name("Rakapas V - Home Guard"),
        Some("Rakapas".to_string())
    );
    assert_eq!(
        station_shorthand_system_name("New Caldari IV - Moon 1 - Caldari Navy"),
        Some("New Caldari".to_string())
    );
    assert_eq!(station_shorthand_system_name("Rakapas"), None);
}

#[test]
fn shorthand_needs_a_roman_planet_numeral() {
    assert_eq!(station_shorthand_system_name("Rakapas 5 - Home Guard"), None);
    assert!(is_roman_numeral(&"XIV".chars().collect()));
    assert!(!is_roman_numeral(&"".chars().collect()));
    assert!(!is_roman_numeral(&"IVa".chars().collect()));
}

#[test]
fn scores_station_shorthand_with_missing_service_suffix() {
    assert!(station_shorthand_score(
        "Rakapas V - Home Guard",
        "Rakapas V - Home Guard Assembly Plant"
    )
    .is_some());
}

#[test]
fn scores_station_shorthand_with_missing_moon_segment() {
    assert!(station_shorthand_score(
        "Jita IV - Caldari Navy",
        "Jita IV - Moon 4 - Caldari Navy Assembly Plant"
    )
    .is_some());
}

#[test]
fn rejects_station_shorthand_when_tokens_are_missing() {
    assert_eq!(
        station_shorthand_score(
            "Rakapas V - Home Guard",
            "Rakapas II - State Protectorate Logistic Support"
        ),
        None
    );
}

#[test]
fn station_shorthand_score_counts_tokens_runs_and_order() {
    // Four tokens, a contiguous run and in order, two extra tokens.
    assert_eq!(
        station_shorthand_score(
            "Rakapas V - Home Guard",
            "Rakapas V - Home Guard Assembly Plant"
        ),
        Some(4 * 10 + 50 + 25 - 2)
    );
    // The exact name: no penalty.
    assert_eq!(
        station_shorthand_score("Rakapas V - Home Guard", "Rakapas V - Home Guard"),
        Some(4 * 10 + 50 + 25)
    );
}

#[test]
fn shorthand_station_prefers_the_best_score() {
    let stations = vec![
        NamedId {
            id: 1,
            name: "Jita IV - Moon 4 - Caldari Navy Assembly Plant".to_string(),
        },
        NamedId {
            id: 2,
            name: "Jita IV - Caldari Navy".to_string(),
        },
        NamedId {
            id: 3,
            name: "Jita V - Some Other Station".to_string(),
        },
    ];
    let best = pick_shorthand_station("Jita IV - Caldari Navy", &stations).expect("a station");
    assert_eq!(best.id, 2);
    assert!(pick_shorthand_station("Amarr VIII - Emperor", &stations).is_none());
}

#[test]
fn station_ties_prefer_the_shorter_then_lower_name() {
    let candidates = vec![
        ScoredStation {
            id: 1,
            name: "Bbbb".to_string(),
            score: 10,
        },
        ScoredStation {
            id: 2,
            name: "Aaaa".to_string(),
            score: 10,
        },
        ScoredStation {
            id: 3,
            name: "Ccccc".to_string(),
            score: 10,
        },
    ];
    assert_eq!(pick_station_candidate(candidates).map(|s| s.id), Some(2));
    assert!(pick_station_candidate(Vec::new()).is_none());
}

#[test]
fn picks_exact_structure_name_before_partial_matches() {
    let structure = pick_structure_candidate(
        "Home - Staging",
        vec![
            StructureCandidate {
                id: 1046802738802,
                name: "Home - Staging Backup".to_string(),
            },
            StructureCandidate {
                id: 1046802738801,
                name: "Home - Staging".to_string(),
            },
        ],
    )
    .expect("structure should resolve");

    assert_eq!(structure.id, 1046802738801);
}

#[test]
fn structure_score_adds_each_kind_of_match() {
    assert_eq!(structure_candidate_score("Home - Staging", "Home - Staging"), 1000 + 500 + 100 + 50);
    assert_eq!(structure_candidate_score("home - staging", "Home - Staging"), 1000 + 500 + 100 + 50);
    assert_eq!(structure_candidate_score("Home - Staging", "Home - Staging Backup"), 100 + 50);
    assert_eq!(structure_candidate_score("Staging Home", "Home - Staging"), 0);
    assert_eq!(structure_candidate_score("", "Home"), 0);
}

#[test]
fn first_route_stop_replaces_existing_route() {
    let options = options_for_route_stop(true);

    assert!(!options.add_to_beginning);
    assert!(options.clear_other_waypoints);
}

#[test]
fn later_route_stops_append_to_route() {
    let options = options_for_route_stop(false);

    assert!(!options.add_to_beginning);
    assert!(!options.clear_other_waypoints);
}

#[test]
fn route_modes_map_to_waypoint_options() {
    let all = WaypointRouteMode::all();
    assert_eq!(all[0], WaypointRouteMode::ReplaceRoute);
    let replace = WaypointRouteMode::ReplaceRoute.options();
    assert!(replace.clear_other_waypoints && !replace.add_to_beginning);
    let next = WaypointRouteMode::AddNextStop.options();
    assert!(!next.clear_other_waypoints && next.add_to_beginning);
    let last = WaypointRouteMode::AddFinalStop.options();
    assert!(!last.clear_other_waypoints && !last.add_to_beginning);
    assert_eq!(WaypointRouteMode::AddFinalStop.label(), "Add final stop");
}

#[test]
fn shorthand_station_matching_ignores_ascii_case() {
    let stations = vec![
        NamedId {
            id: 1,
            name: "Jita IV - Moon 4 - Caldari Navy Assembly Plant".to_string(),
        },
        NamedId {
            id: 2,
            name: "Jita IV - Caldari Navy".to_string(),
        },
    ];
    let best = pick_shorthand_station("JITA iv - caldari NAVY", &stations).expect("a station");
    assert_eq!(best.id, 2);
}

#[test]
fn no_needles_in_no_tokens_is_no_match() {
    let none: Vec<Vec<char>> = Vec::new();
    assert!(!tokens_appear_in_order(&none, &none));
    let needles = vec!["jita".chars().collect::<Vec<char>>()];
    let hay = vec!["jita".chars().collect::<Vec<char>>(), "iv".chars().collect()];
    assert!(tokens_appear_in_order(&needles, &hay));
}
