use set_desto::lookup::{
    resolve_destination_name, resolve_structure_id, resolve_structure_name, sorted_unique_ids,
    structure_destination, LookupError, NameLookup, NameLookupEvent, NameLookupStep,
    StructureLookup, StructureLookupEvent, StructureLookupStep,
};
use set_desto::universe::{
    NamedId, StructureCandidate, UniverseDestination, UniverseDestinationCategory,
    UniverseIdsResponse,
};

fn named(id: i64, name: &str) -> NamedId {
    NamedId {
        id,
        name: name.to_string(),
    }
}

fn done(step: NameLookupStep) -> Result<UniverseDestination, LookupError> {
    match step {
        NameLookupStep::Done(r) => r,
        _ => panic!("lookup should be done"),
    }
}

#[test]
fn name_lookup_asks_for_the_trimmed_name() {
    let (state, step) = resolve_destination_name("  Jita ");
    assert!(matches!(state, NameLookup::AwaitingIds { ref name } if name == "Jita"));
    assert!(matches!(step, NameLookupStep::LookupIds(ref q) if q == "Jita"));
}

#[test]
fn empty_names_are_refused() {
    let (state, step) = resolve_destination_name("   ");
    assert!(matches!(state, NameLookup::Finished));
    assert!(matches!(done(step), Err(LookupError::DestinationRequired)));
}

#[test]
fn name_lookup_takes_a_system_first() {
    let (state, _) = resolve_destination_name("Rakapas");
    let (state, step) = state.advance(NameLookupEvent::Ids(UniverseIdsResponse {
        systems: vec![named(30045339, "Rakapas")],
        stations: vec![named(60000001, "Rakapas")],
    }));
    assert!(matches!(state, NameLookup::Finished));
    let d = done(step).ok().expect("destination");
    assert_eq!(d.id, 30045339);
    assert_eq!(d.category, UniverseDestinationCategory::SolarSystem);
}

#[test]
fn unknown_plain_names_are_not_found() {
    let (state, _) = resolve_destination_name("Nowhere");
    let (_, step) = state.advance(NameLookupEvent::Ids(UniverseIdsResponse::default()));
    match done(step) {
        Err(e) => assert_eq!(e.message(), "No solar system or station named `Nowhere` was found"),
        Ok(_) => panic!("should not resolve"),
    }
}

#[test]
fn station_shorthand_is_resolved_through_its_system() {
    let (state, _) = resolve_destination_name("Jita IV - Caldari Navy");
    let (state, step) = state.advance(NameLookupEvent::Ids(UniverseIdsResponse::default()));
    assert!(matches!(step, NameLookupStep::LookupIds(ref q) if q == "Jita"));
    let (state, step) = state.advance(NameLookupEvent::Ids(UniverseIdsResponse {
        systems: vec![named(30000142, "Jita")],
        stations: Vec::new(),
    }));
    assert!(matches!(step, NameLookupStep::FetchSystem(30000142)));
    let (state, step) = state.advance(NameLookupEvent::System {
        stations: vec![60003760, 60003761],
    });
    assert!(matches!(step, NameLookupStep::FetchStation(60003760)));
    let (state, step) = state.advance(NameLookupEvent::Station(named(
        60003760,
        "Jita IV - Moon 4 - Caldari Navy Assembly Plant",
    )));
    assert!(matches!(step, NameLookupStep::FetchStation(60003761)));
    let (state, step) = state.advance(NameLookupEvent::StationFailed);
    assert!(matches!(state, NameLookup::Finished));
    let d = done(step).ok().expect("station");
    assert_eq!(d.id, 60003760);
    assert_eq!(d.category, UniverseDestinationCategory::Station);
}

#[test]
fn a_failed_first_request_reports_its_message() {
    let (state, _) = resolve_destination_name("Jita");
    let (_, step) = state.advance(NameLookupEvent::Failed("ESI was down".to_string()));
    match done(step) {
        Err(LookupError::Request(m)) => assert_eq!(m, "ESI was down"),
        _ => panic!("expected the request error"),
    }
}

#[test]
fn shorthand_system_without_stations_is_not_found() {
    let (state, _) = resolve_destination_name("Jita IV - Caldari Navy");
    let (state, _) = state.advance(NameLookupEvent::Ids(UniverseIdsResponse::default()));
    let (state, _) = state.advance(NameLookupEvent::Ids(UniverseIdsResponse {
        systems: vec![named(30000142, "Jita")],
        stations: Vec::new(),
    }));
    let (_, step) = state.advance(NameLookupEvent::System { stations: Vec::new() });
    assert!(matches!(done(step), Err(LookupError::NotFound(ref n)) if n == "Jita IV - Caldari Navy"));
}

#[test]
fn structure_lookup_searches_strictly_then_partially() {
    let (state, step) = resolve_structure_name(" Home - Staging ");
    assert!(matches!(step, StructureLookupStep::Search { ref name, strict: true } if name == "Home - Staging"));
    let (state, step) = state.advance(StructureLookupEvent::Found(Vec::new()));
    assert!(matches!(step, StructureLookupStep::Search { ref name, strict: false } if name == "Home - Staging"));
    let (state, step) = state.advance(StructureLookupEvent::Found(vec![7, 5, 7]));
    assert!(matches!(step, StructureLookupStep::FetchStructure(5)));
    let (state, step) = state.advance(StructureLookupEvent::Structure(StructureCandidate {
        id: 5,
        name: "Home - Staging Backup".to_string(),
    }));
    assert!(matches!(step, StructureLookupStep::FetchStructure(7)));
    let (state, step) = state.advance(StructureLookupEvent::Structure(StructureCandidate {
        id: 7,
        name: "Home - Staging".to_string(),
    }));
    assert!(matches!(state, StructureLookup::Finished));
    match step {
        StructureLookupStep::Done(Ok(d)) => {
            assert_eq!(d.id, 7);
            assert_eq!(d.category, UniverseDestinationCategory::Structure);
        }
        _ => panic!("structure should resolve"),
    }
}

#[test]
fn structure_lookup_finds_nothing_after_two_empty_searches() {
    let (state, _) = resolve_structure_name("Home");
    let (state, _) = state.advance(StructureLookupEvent::Found(Vec::new()));
    let (state, step) = state.advance(StructureLookupEvent::Found(Vec::new()));
    assert!(matches!(state, StructureLookup::Finished));
    match step {
        StructureLookupStep::Done(Err(e)) => {
            assert_eq!(e.message(), "No accessible player structure named `Home` was found")
        }
        _ => panic!("expected no structure"),
    }
}

#[test]
fn structures_that_cannot_be_fetched_are_skipped() {
    let (state, _) = resolve_structure_name("Home");
    let (state, _) = state.advance(StructureLookupEvent::Found(vec![9]));
    let (_, step) = state.advance(StructureLookupEvent::StructureFailed);
    assert!(matches!(step, StructureLookupStep::Done(Err(LookupError::NoStructure(_)))));
}

#[test]
fn structure_ids_must_be_positive() {
    assert!(matches!(resolve_structure_id(0), Err(LookupError::StructureIdNotPositive)));
    assert!(matches!(resolve_structure_id(1046802738801), Ok(1046802738801)));
    let d = structure_destination(1046802738801, "Home".to_string());
    assert_eq!(d.category, UniverseDestinationCategory::Structure);
    assert_eq!(d.name, "Home");
}

#[test]
fn found_ids_are_sorted_without_repeats() {
    assert_eq!(sorted_unique_ids(&vec![3, 1, 3, 2, -5]), vec![-5, 1, 2, 3]);
    assert!(sorted_unique_ids(&Vec::new()).is_empty());
}
