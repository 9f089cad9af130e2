use set_desto::destination::{
    looks_like_player_structure_id, player_structure_id, resolve, resolve_structure,
    resolved_from_universe, DestinationError, DestinationKind, StructureQuery,
    StructureResolutionContext,
};
use set_desto::universe::{UniverseDestination, UniverseDestinationCategory};

#[test]
fn resolves_numeric_destination_id() {
    let destination = resolve("30000142").expect("destination should resolve");

    assert_eq!(destination.id, 30000142);
    assert_eq!(destination.kind, DestinationKind::NumericId);
}

#[test]
fn rejects_non_positive_destination_id() {
    let err = resolve("0").unwrap_err().message();
    assert!(err.contains("positive ESI ID"));
}

#[test]
fn rejects_negative_destination_id() {
    let err = resolve("-1").unwrap_err().message();
    assert!(err.contains("positive ESI ID"));
}

#[test]
fn rejects_empty_destination() {
    let err = resolve("  ").unwrap_err().message();
    assert!(err.contains("Destination required"));
}

#[test]
fn detects_player_structure_ids() {
    assert!(looks_like_player_structure_id("1046802738801"));
    assert!(!looks_like_player_structure_id("30000142"));
    assert!(!looks_like_player_structure_id("-1046802738801"));
    assert!(!looks_like_player_structure_id("Jita"));
}

#[test]
fn numeric_input_is_trimmed_before_parsing() {
    let destination = resolve("  60003760 ").expect("destination should resolve");
    assert_eq!(destination.id, 60003760);
    assert_eq!(destination.name, "60003760");
}

#[test]
fn names_need_a_lookup() {
    assert_eq!(
        resolve(" Jita "),
        Err(DestinationError::NeedsNameLookup("Jita".to_string()))
    );
}

#[test]
fn overlong_numbers_are_invalid_ids() {
    let err = resolve("99999999999999999999").unwrap_err();
    assert_eq!(err, DestinationError::InvalidId("99999999999999999999".to_string()));
    assert!(err.message().contains("was not a valid ESI ID"));
}

#[test]
fn minus_sign_alone_is_an_invalid_id() {
    assert_eq!(resolve("-"), Err(DestinationError::InvalidId("-".to_string())));
}

#[test]
fn universe_match_keeps_its_category() {
    let resolved = resolved_from_universe(UniverseDestination {
        id: 60003760,
        name: "Jita IV - Moon 4 - Caldari Navy Assembly Plant".to_string(),
        category: UniverseDestinationCategory::Station,
    });
    assert_eq!(resolved.id, 60003760);
    assert_eq!(resolved.kind, DestinationKind::Station);
    assert_eq!(resolved.kind.label(), "station");
}

#[test]
fn structure_ids_parse_from_the_threshold_up() {
    assert_eq!(player_structure_id("1000000000000"), Ok(Some(1_000_000_000_000)));
    assert_eq!(player_structure_id("999999999999"), Ok(None));
    assert_eq!(player_structure_id("Home"), Ok(None));
}

#[test]
fn structure_input_is_an_id_or_a_search() {
    let context = StructureResolutionContext {
        character_id: 42,
        access_token: "token".to_string(),
    };
    assert_eq!(
        resolve_structure("1046802738801", &context),
        Ok(StructureQuery::ById {
            structure_id: 1046802738801,
            access_token: "token".to_string(),
        })
    );
    assert_eq!(
        resolve_structure(" Home - Staging ", &context),
        Ok(StructureQuery::ByName {
            character_id: 42,
            access_token: "token".to_string(),
            name: "Home - Staging".to_string(),
        })
    );
    assert!(resolve_structure(" ", &context).is_err());
}

#[test]
fn unicode_spaces_around_an_id_are_trimmed() {
    let destination = resolve("\u{3000}30000142\u{a0}\t").expect("destination should resolve");
    assert_eq!(destination.id, 30000142);
    assert_eq!(destination.kind, DestinationKind::NumericId);
    let err = resolve("\u{2028}\u{205f}").unwrap_err().message();
    assert!(err.contains("Destination required"));
}
