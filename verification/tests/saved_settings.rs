use set_desto::config::{
    default_character_selected, AppConfig, CharacterConfig, FavoriteDestinationConfig,
};
use set_desto::dates::{civil_date_from_unix_days, format_added_at};

fn character(id: u64, name: &str, added: u64, scopes: Vec<String>, selected: bool) -> CharacterConfig {
    CharacterConfig {
        character_id: id,
        character_name: name.to_string(),
        added_at_unix_seconds: added,
        scopes,
        selected,
    }
}

fn favorite(id: i64, name: &str) -> FavoriteDestinationConfig {
    FavoriteDestinationConfig {
        destination_id: id,
        destination_name: name.to_string(),
        destination_kind: "solar system".to_string(),
        nickname: String::new(),
    }
}

#[test]
fn upsert_character_replaces_existing_character() {
    let mut config = AppConfig::default();
    config.upsert_character(character(42, "Old Name", 1_778_000_000, vec!["old.scope".to_string()], true));

    config.upsert_character(character(42, "New Name", 1_778_000_001, vec!["new.scope".to_string()], false));

    assert_eq!(config.characters.len(), 1);
    assert_eq!(config.characters[0].character_name, "New Name");
    assert_eq!(config.characters[0].added_at_unix_seconds, 1_778_000_001);
    assert_eq!(config.characters[0].scopes, vec!["new.scope"]);
    assert!(!config.characters[0].selected);
}

#[test]
fn upsert_character_appends_new_characters_in_order() {
    let mut config = AppConfig::default();
    config.upsert_character(character(1, "One", 1, Vec::new(), true));
    config.upsert_character(character(2, "Two", 2, Vec::new(), true));
    config.upsert_character(character(1, "Uno", 3, Vec::new(), false));
    let names: Vec<&str> = config.characters.iter().map(|c| c.character_name.as_str()).collect();
    assert_eq!(names, vec!["Uno", "Two"]);
    assert!(config.favorites.is_empty());
}

#[test]
fn upsert_favorite_replaces_existing_destination() {
    let mut config = AppConfig::default();
    config.upsert_favorite(favorite(30000142, "Old Jita"));

    config.upsert_favorite(favorite(30000142, "Jita"));

    assert_eq!(config.favorites.len(), 1);
    assert_eq!(config.favorites[0].destination_name, "Jita");
}

#[test]
fn remove_favorite_returns_removed_destination() {
    let mut config = AppConfig::default();
    config.upsert_favorite(favorite(30000142, "Jita"));

    let removed = config
        .remove_favorite(30000142)
        .expect("favorite should be removed");

    assert_eq!(removed.destination_name, "Jita");
    assert!(config.favorites.is_empty());
    assert!(config.remove_favorite(30000142).is_none());
}

#[test]
fn remove_character_returns_removed_character() {
    let mut config = AppConfig::default();
    config.upsert_character(character(42, "Test Pilot", 1_778_000_000, Vec::new(), true));

    let removed = config
        .remove_character(42)
        .expect("character should be removed");

    assert_eq!(removed.character_name, "Test Pilot");
    assert!(config.characters.is_empty());
    assert!(config.remove_character(42).is_none());
}

#[test]
fn removing_one_entry_keeps_the_others_in_order() {
    let mut config = AppConfig::default();
    config.upsert_favorite(favorite(1, "A"));
    config.upsert_favorite(favorite(2, "B"));
    config.upsert_favorite(favorite(3, "C"));
    assert_eq!(config.remove_favorite(2).map(|f| f.destination_name), Some("B".to_string()));
    let ids: Vec<i64> = config.favorites.iter().map(|f| f.destination_id).collect();
    assert_eq!(ids, vec![1, 3]);
}

#[test]
fn characters_from_older_settings_are_selected() {
    assert!(default_character_selected());
}

#[test]
fn formats_added_at_dates() {
    assert_eq!(format_added_at(0), "1970-01-01");
    assert_eq!(format_added_at(1_778_371_200), "2026-05-10");
}

#[test]
fn formats_leap_days_and_year_ends() {
    assert_eq!(format_added_at(951_782_400), "2000-02-29");
    assert_eq!(format_added_at(946_684_799), "1999-12-31");
    assert_eq!(format_added_at(86_399), "1970-01-01");
}

#[test]
fn civil_dates_before_the_epoch() {
    assert_eq!(civil_date_from_unix_days(-1), (1969, 12, 31));
    assert_eq!(civil_date_from_unix_days(0), (1970, 1, 1));
    assert_eq!(civil_date_from_unix_days(19_782), (2024, 2, 29));
}

#[test]
fn century_years_are_leap_only_every_fourth() {
    assert_eq!(civil_date_from_unix_days(47_540), (2100, 2, 28));
    assert_eq!(civil_date_from_unix_days(47_541), (2100, 3, 1));
    assert_eq!(civil_date_from_unix_days(11_016), (2000, 2, 29));
    assert_eq!(civil_date_from_unix_days(11_017), (2000, 3, 1));
}

#[test]
fn civil_dates_far_before_the_epoch() {
    assert_eq!(civil_date_from_unix_days(-719_162), (1, 1, 1));
    assert_eq!(civil_date_from_unix_days(-719_528), (0, 1, 1));
    assert_eq!(civil_date_from_unix_days(-719_529), (-1, 12, 31));
}
