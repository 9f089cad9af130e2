use set_desto::config::{AppConfig, CharacterConfig, EsiConfig, FavoriteDestinationConfig};
use set_desto::models::{
    AppTab, CharacterSendResult, CharacterSortColumn, CharacterState, CachedAccessToken,
    FavoriteDestination, FobImportSortColumn,
};
use set_desto::sde::{CachedRouteGraph, RouteEdge, RouteGraph, SolarSystem};
use set_desto::session::{
    config_with_favorite, config_with_favorite_nickname, config_without_character, config_without_favorite,
    FavoriteInputOutcome, Session, SetDestinationOutcome, WaypointSendEvent, WaypointSendRequestKind,
    ADD_CHARACTER_FIRST, SELECT_CHARACTER,
};

fn saved_character(id: u64, name: &str, selected: bool) -> CharacterConfig {
    CharacterConfig {
        character_id: id,
        character_name: name.to_string(),
        added_at_unix_seconds: 1_778_000_000 + id,
        scopes: vec!["esi-ui.write_waypoint.v1".to_string()],
        selected,
    }
}

fn config(characters: Vec<CharacterConfig>, favorites: Vec<FavoriteDestinationConfig>) -> AppConfig {
    AppConfig {
        esi: EsiConfig {
            client_id: "client".to_string(),
        },
        characters,
        favorites,
    }
}

fn session_with(characters: &[(u64, &str, bool)]) -> Session {
    let saved: Vec<CharacterConfig> = characters
        .iter()
        .map(|(id, name, selected)| saved_character(*id, name, *selected))
        .collect();
    let states: Vec<CharacterState> = saved
        .iter()
        .cloned()
        .map(|c| {
            CharacterState::from_config(
                c,
                Some(CachedAccessToken {
                    access_token: "token".to_string(),
                    expires_at: u64::MAX / 2,
                }),
            )
        })
        .collect();
    Session::new(
        config(saved, Vec::new()),
        states,
        "Ready".to_string(),
        "Loading".to_string(),
        false,
    )
}

#[test]
fn a_new_session_starts_on_the_destination_tab() {
    let session = session_with(&[(1, "One", true)]);
    assert_eq!(session.active_tab, AppTab::Destination);
    assert_eq!(session.esi_client_id, "client");
    assert!(session.sde_cache_in_progress());
    assert!(!session.waypoint_send_in_progress());
}

#[test]
fn sending_needs_a_destination_and_selected_characters() {
    let mut session = session_with(&[]);
    assert!(matches!(session.set_destination(), SetDestinationOutcome::Nothing));
    assert_eq!(session.status_message, "Destination required");

    session.destination = "30000142".to_string();
    assert!(matches!(session.set_destination(), SetDestinationOutcome::Nothing));
    assert_eq!(session.status_message, ADD_CHARACTER_FIRST);

    let mut session = session_with(&[(1, "One", false)]);
    session.destination = "30000142".to_string();
    assert!(matches!(session.set_destination(), SetDestinationOutcome::Nothing));
    assert_eq!(session.status_message, SELECT_CHARACTER);
}

#[test]
fn names_are_handed_to_a_lookup() {
    let mut session = session_with(&[(1, "One", true)]);
    session.destination = "  Jita ".to_string();
    match session.set_destination() {
        SetDestinationOutcome::LookupName(name) => assert_eq!(name, "Jita"),
        _ => panic!("expected a lookup"),
    }
}

#[test]
fn numeric_destination_starts_a_batch_for_the_selected_characters() {
    let mut session = session_with(&[(1, "One", true), (2, "Two", false), (3, "Three", true)]);
    session.destination = "30000142".to_string();
    let (sso, jobs) = match session.set_destination() {
        SetDestinationOutcome::Send(sso, jobs) => (sso, jobs),
        _ => panic!("expected a batch"),
    };
    assert_eq!(sso.client_id, "client");
    let ids: Vec<u64> = jobs.iter().map(|j| j.character_id).collect();
    assert_eq!(ids, vec![1, 3]);
    assert!(jobs.iter().all(|j| j.destination_id == 30000142));
    assert!(matches!(
        jobs[0].kind,
        WaypointSendRequestKind::Single { options } if options.clear_other_waypoints
    ));
    assert!(session.waypoint_send_in_progress());
    assert!(matches!(
        session.characters[1].last_send_result,
        Some(CharacterSendResult::Skipped { .. })
    ));
    let progress = session.waypoint_send_progress.as_ref().expect("progress");
    assert_eq!(progress.total, 2);
    assert_eq!(progress.completed, 0);
    assert_eq!(progress.skipped, 1);

    // A second send waits for the first.
    assert!(matches!(session.set_destination(), SetDestinationOutcome::Nothing));

    session.record_waypoint_send_result(1, "One", "30000142".to_string(), 30000142, Ok(None));
    session.record_waypoint_send_result(3, "Three", "30000142".to_string(), 30000142, Err("boom".to_string()));
    assert_eq!(session.failed_send_count(), 1);
    session.finish_waypoint_send();
    assert!(!session.waypoint_send_in_progress());
    let batch = session.waypoint_batch_summary().expect("summary");
    assert_eq!(batch.successes, 1);
    assert_eq!(batch.failures, 1);
    assert_eq!(batch.skipped, 1);
    assert!(session.status_message.contains("1 sent, 1 failed, 1 skipped"));
    assert!(session.status_message.ends_with("; latest error: Three: boom"));
    assert!(session.can_retry_failed_waypoints());

    let (_, retry_jobs) = session.retry_failed_waypoints().expect("retry");
    let retry_ids: Vec<u64> = retry_jobs.iter().map(|j| j.character_id).collect();
    assert_eq!(retry_ids, vec![3]);
}

#[test]
fn a_missing_client_id_sends_the_user_to_the_esi_tab() {
    let mut session = session_with(&[(1, "One", true)]);
    session.esi_client_id = "  ".to_string();
    session.destination = "30000142".to_string();
    assert!(matches!(session.set_destination(), SetDestinationOutcome::Nothing));
    assert_eq!(session.active_tab, AppTab::Esi);
    assert_eq!(session.status_message, "EVE application Client ID required");
}

#[test]
fn selection_changes_ask_for_a_save() {
    let mut session = session_with(&[(1, "One", true), (2, "Two", false)]);
    assert!(session.set_character_selected(2, true));
    assert!(!session.set_character_selected(2, true));
    assert_eq!(session.selected_character_ids(), vec![1, 2]);
    assert!(session.invert_character_selection());
    assert_eq!(session.selected_character_count(), 0);
    assert!(session.set_all_characters_selected(true));
    assert_eq!(session.selected_character_count(), 2);
}

#[test]
fn characters_sort_by_the_clicked_column() {
    let mut session = session_with(&[(1, "bravo", true), (2, "Alpha", false), (3, "charlie", true)]);
    assert_eq!(session.sorted_character_ids(), vec![2, 1, 3]);
    session.set_character_sort_column(CharacterSortColumn::Name);
    assert_eq!(session.sorted_character_ids(), vec![3, 1, 2]);
    assert_eq!(session.character_sort_marker(CharacterSortColumn::Name), "v");
    session.set_character_sort_column(CharacterSortColumn::AddedAt);
    assert_eq!(session.sorted_character_ids(), vec![3, 2, 1]);
    assert_eq!(session.character_sort_marker(CharacterSortColumn::Name), "");
}

#[test]
fn removing_a_character_needs_a_saved_entry() {
    let cfg = config(vec![saved_character(1, "One", true)], Vec::new());
    let without = config_without_character(cfg.clone(), 1).ok().expect("removed");
    assert!(without.characters.is_empty());
    assert!(config_without_character(cfg, 9).is_err());
}

#[test]
fn favorites_are_added_from_typed_ids_and_removed() {
    let mut session = session_with(&[(1, "One", true)]);
    session.favorite_destination_input = "30000142".to_string();
    let saved = match session.add_favorite_from_input() {
        FavoriteInputOutcome::Save(f) => f,
        _ => panic!("expected a favourite to save"),
    };
    assert_eq!(saved.destination_id, 30000142);
    let cfg = config_with_favorite(session.config.clone(), saved);
    assert_eq!(cfg.favorites.len(), 1);
    session.favorite_saved(cfg.clone(), "30000142", 30000142);
    assert_eq!(session.favorites.len(), 1);
    assert_eq!(session.favorites[0].display_name(), "30000142");

    session.request_remove_favorite_destination(30000142);
    assert_eq!(session.favorite_to_remove(30000142), Some("30000142".to_string()));
    let after = config_without_favorite(cfg, 30000142).expect("removed");
    assert!(after.favorites.is_empty());
    assert!(config_without_favorite(after, 30000142).is_none());
}

#[test]
fn favorite_names_are_handed_to_a_lookup() {
    let mut session = session_with(&[]);
    session.favorite_destination_input = " Amarr ".to_string();
    assert!(matches!(
        session.add_favorite_from_input(),
        FavoriteInputOutcome::LookupName(ref n) if n == "Amarr"
    ));
}

#[test]
fn favourites_show_their_nickname_when_set() {
    let mut favorite = FavoriteDestination::from_config(FavoriteDestinationConfig {
        destination_id: 30000142,
        destination_name: "Jita".to_string(),
        destination_kind: "solar system".to_string(),
        nickname: String::new(),
    });
    assert_eq!(favorite.display_name(), "Jita");
    favorite.nickname = "  Trade hub ".to_string();
    assert_eq!(favorite.display_name(), "Trade hub");
    let back = favorite.into_config();
    assert_eq!(back.destination_name, "Jita");
    assert_eq!(back.nickname, "  Trade hub ");
}

fn route_graph() -> RouteGraph {
    RouteGraph::from_cache(CachedRouteGraph {
        build_number: 1,
        release_date: "2026-05-19T00:00:00Z".to_string(),
        systems: vec![
            SolarSystem {
                id: 1,
                name: "Alpha".to_string(),
            },
            SolarSystem {
                id: 2,
                name: "Bravo".to_string(),
            },
        ],
        edges: vec![RouteEdge { from: 1, to: 2 }],
    })
}

#[test]
fn fob_import_preview_resolves_systems_on_the_route_map() {
    let mut session = session_with(&[(1, "One", true)]);
    let graph = route_graph();
    session.open_fob_import(Some(&graph));
    session.set_fob_import_text(
        "System | Region | Last Seen UTC | Claimed By\nbravo | R | now | U\nZulu | R | now | U\n".to_string(),
        Some(&graph),
    );
    assert_eq!(session.fob_import_rows.len(), 2);
    assert_eq!(session.fob_import_rows[0].resolved_system_id, Some(2));
    assert_eq!(session.fob_import_rows[0].display_system(), "Bravo");
    assert!(session.fob_import_rows[1].error.is_some());
    assert_eq!(session.valid_fob_import_count(), 1);
    // Rows start unselected; only a row found on the route map can be
    // selected.
    assert_eq!(session.selected_fob_import_count(), 0);
    session.set_fob_import_selected(1, true);
    assert_eq!(session.selected_fob_import_count(), 0);
    session.set_fob_import_selected(0, true);
    assert_eq!(session.selected_fob_import_count(), 1);
    session.toggle_fob_import_sort(FobImportSortColumn::System);
    let names: Vec<String> = session
        .sorted_fob_import_rows()
        .iter()
        .map(|r| r.input_system.clone())
        .collect();
    assert_eq!(names, vec!["Zulu".to_string(), "bravo".to_string()]);
    session.set_fob_import_selected(0, false);
    assert_eq!(session.selected_fob_import_count(), 0);
}

#[test]
fn sde_updates_the_route_map_state() {
    let mut session = session_with(&[]);
    let graph = route_graph();
    session.sde_ready("SDE cache ready", &graph);
    assert!(session.sde_route_graph_ready());
    assert!(!session.sde_cache_in_progress());
    assert_eq!(session.sde_cache_status, "SDE cache ready: build 1, 2 systems");
}

#[test]
fn login_waits_for_a_client_id() {
    let mut session = session_with(&[]);
    session.esi_client_id = String::new();
    assert!(session.start_character_login().is_none());
    session.esi_client_id = "abc".to_string();
    let sso = session.start_character_login().expect("login settings");
    assert_eq!(sso.client_id, "abc");
    assert!(session.login_in_progress());
}

#[test]
fn worker_events_drive_the_batch() {
    let mut session = session_with(&[(1, "One", true)]);
    session.destination = "30000142".to_string();
    assert!(matches!(session.set_destination(), SetDestinationOutcome::Send(_, _)));
    session.handle_waypoint_send_event(WaypointSendEvent::Started {
        character_id: 1,
        character_name: "One".to_string(),
    });
    assert_eq!(session.status_message, "Sending waypoint for One...");
    session.handle_waypoint_send_event(WaypointSendEvent::Finished {
        character_id: 1,
        character_name: "One".to_string(),
        destination_name: "30000142".to_string(),
        destination_id: 30000142,
        result: Ok(None),
    });
    assert!(matches!(
        session.characters[0].last_send_result,
        Some(CharacterSendResult::Sent { destination_id: 30000142, .. })
    ));
    session.handle_waypoint_send_event(WaypointSendEvent::BatchFinished);
    assert!(!session.waypoint_send_in_progress());
    assert_eq!(session.status_message, "30000142 (30000142) -> 1 sent, 0 failed, 0 skipped");
}

#[test]
fn esi_settings_status_tracks_the_typed_client_id() {
    let mut session = session_with(&[]);
    assert_eq!(session.esi_settings_status(), "Saved");
    session.esi_client_id = "other".to_string();
    assert_eq!(session.esi_settings_status(), "Unsaved");
    session.esi_client_id = "  ".to_string();
    assert_eq!(session.esi_settings_status(), "Missing");
}

#[test]
fn favourites_are_listed_by_lowercased_name_then_id() {
    let mut session = session_with(&[]);
    let mut cfg = session.config.clone();
    for (id, name) in [(3, "B"), (2, "a"), (1, "a"), (4, "Émile")] {
        cfg = config_with_favorite(
            cfg,
            FavoriteDestinationConfig {
                destination_id: id,
                destination_name: name.to_string(),
                destination_kind: "solar system".to_string(),
                nickname: String::new(),
            },
        );
    }
    session.favorite_saved(cfg, "B", 3);
    let ids: Vec<i64> = session.favorites.iter().map(|f| f.destination_id).collect();
    assert_eq!(ids, vec![1, 2, 3, 4]);
    assert_eq!(session.status_message, "Saved favorite B (3)");
}

#[test]
fn starting_from_saved_settings_reads_each_character_with_its_token() {
    let saved = config(
        vec![saved_character(7, "Seven", true), saved_character(9, "Nine", false)],
        vec![FavoriteDestinationConfig {
            destination_id: 30000142,
            destination_name: "Jita".to_string(),
            destination_kind: "Solar system".to_string(),
            nickname: String::new(),
        }],
    );
    let tokens = vec![
        Some(CachedAccessToken {
            access_token: "cached".to_string(),
            expires_at: 1_800_000_000,
        }),
        None,
    ];
    let session = Session::from_saved(Ok(saved), tokens, "Loading".to_string(), true);
    assert_eq!(session.status_message, "Ready");
    let ids: Vec<u64> = session.characters.iter().map(|c| c.character_id).collect();
    assert_eq!(ids, vec![7, 9]);
    assert_eq!(session.characters[0].character_name, "Seven");
    assert!(session.characters[0].selected);
    assert!(!session.characters[1].selected);
    assert_eq!(session.characters[0].access_token.as_deref(), Some("cached"));
    assert_eq!(session.characters[0].expires_at, Some(1_800_000_000));
    assert_eq!(session.characters[1].access_token, None);
    assert!(session.characters.iter().all(|c| c.last_send_result.is_none()));
    assert_eq!(session.esi_client_id, "client");
    assert_eq!(
        session.favorite_nickname_edits,
        std::collections::BTreeMap::from([(30000142, String::new())])
    );
    assert_eq!(session.character_sort.column, CharacterSortColumn::Name);
    assert!(session.character_sort.ascending);
    assert!(session.route_graph_ready);
    assert!(!session.waypoint_send_in_progress());
}

#[test]
fn starting_without_readable_settings_says_why() {
    let session = Session::from_saved(
        Err("expected value at line 1 column 1".to_string()),
        Vec::new(),
        "Loading".to_string(),
        false,
    );
    assert_eq!(
        session.status_message,
        "Failed to load config: expected value at line 1 column 1"
    );
    assert!(session.characters.is_empty());
    assert!(session.favorites.is_empty());
    assert_eq!(session.esi_client_id, "");
}

#[test]
fn a_refused_send_changes_only_the_status() {
    let mut session = session_with(&[(1, "One", false), (2, "Two", false)]);
    session.characters[0].last_send_result = Some(CharacterSendResult::Sent {
        destination_name: "Jita".to_string(),
        destination_id: 30000142,
    });
    session.destination = "30000142".to_string();
    assert!(matches!(session.set_destination(), SetDestinationOutcome::Nothing));
    assert_eq!(session.status_message, SELECT_CHARACTER);
    assert!(matches!(
        session.characters[0].last_send_result,
        Some(CharacterSendResult::Sent { destination_id: 30000142, .. })
    ));
    assert!(session.characters[1].last_send_result.is_none());
    assert_eq!(session.destination, "30000142");
    assert!(session.last_waypoint_request.is_none());
}

#[test]
fn every_recorded_result_is_counted_once() {
    let mut session = session_with(&[(1, "One", true), (2, "Two", true)]);
    session.destination = "30000142".to_string();
    assert!(matches!(session.set_destination(), SetDestinationOutcome::Send(..)));
    session.record_waypoint_send_result(1, "One", "30000142".to_string(), 30000142, Ok(None));
    let progress = session.waypoint_send_progress.as_ref().expect("progress");
    assert_eq!(progress.successes + progress.failures, progress.completed);
    session.record_waypoint_send_result(2, "Two", "30000142".to_string(), 30000142, Err("boom".to_string()));
    let progress = session.waypoint_send_progress.as_ref().expect("progress");
    assert_eq!((progress.completed, progress.successes, progress.failures), (2, 1, 1));
    assert_eq!(progress.latest_error.as_deref(), Some("Two: boom"));
}

#[test]
fn a_saved_nickname_is_kept_in_the_settings() {
    let jita = FavoriteDestinationConfig {
        destination_id: 30000142,
        destination_name: "Jita".to_string(),
        destination_kind: "Solar system".to_string(),
        nickname: String::new(),
    };
    let amarr = FavoriteDestinationConfig {
        destination_id: 30002187,
        destination_name: "Amarr".to_string(),
        destination_kind: "Solar system".to_string(),
        nickname: "Home".to_string(),
    };
    let mut session = Session::from_saved(
        Ok(config(Vec::new(), vec![jita, amarr])),
        Vec::new(),
        "Loading".to_string(),
        false,
    );
    assert_eq!(session.favorite_nickname_edits.get(&30002187).map(String::as_str), Some("Home"));
    assert_eq!(session.favorites.iter().find(|f| f.destination_id == 30002187).unwrap().display_name(), "Home");

    assert!(config_with_favorite_nickname(session.config.clone(), 1, "x").is_none());
    let saved = config_with_favorite_nickname(session.config.clone(), 30000142, "  Trade hub  ").expect("jita");
    assert_eq!(saved.favorites[0].nickname, "Trade hub");
    assert_eq!(saved.favorites[1].nickname, "Home");

    session.favorite_nickname_edits.insert(30000142, "  Trade hub  ".to_string());
    session.favorite_nickname_saved(saved, 30000142);
    assert_eq!(session.status_message, "Saved nickname for Jita");
    assert_eq!(session.favorite_nickname_edits.get(&30000142).map(String::as_str), Some("Trade hub"));
    let jita = session.favorites.iter().find(|f| f.destination_id == 30000142).unwrap();
    assert_eq!(jita.nickname, "Trade hub");

    session.favorite_nickname_edits.insert(30002187, "Typo".to_string());
    session.reset_favorite_nickname_edit(30002187);
    assert_eq!(session.favorite_nickname_edits.get(&30002187).map(String::as_str), Some("Home"));
}
