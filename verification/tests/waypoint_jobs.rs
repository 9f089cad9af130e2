use set_desto::sde::{CachedRouteGraph, RouteDestination, RouteEdge, RouteGraph, SolarSystem};
use set_desto::session::{WaypointSendJob, WaypointSendRequestKind};
use set_desto::waypoint_job::{
    route_waypoints, start_waypoint_job, WaypointJobAction, WaypointJobEvent, WaypointJobState,
};
use set_desto::waypoints::WaypointOptions;

fn single_job(access_token: Option<&str>, expires_at: Option<u64>) -> WaypointSendJob {
    WaypointSendJob {
        character_id: 42,
        character_name: "Test Pilot".to_string(),
        access_token: access_token.map(|t| t.to_string()),
        expires_at,
        destination_name: "Jita".to_string(),
        destination_id: 30000142,
        kind: WaypointSendRequestKind::Single {
            options: WaypointOptions {
                add_to_beginning: false,
                clear_other_waypoints: true,
            },
        },
    }
}

fn stop(id: i64, index: usize) -> RouteDestination {
    RouteDestination {
        system_id: id,
        system_name: format!("S{id}"),
        import_index: index,
    }
}

fn route_job() -> WaypointSendJob {
    WaypointSendJob {
        character_id: 42,
        character_name: "Test Pilot".to_string(),
        access_token: Some("cached".to_string()),
        expires_at: Some(10_000),
        destination_name: "Optimized FOB route (2 stops)".to_string(),
        destination_id: 0,
        kind: WaypointSendRequestKind::OptimizedRoute {
            destinations: vec![stop(3, 0), stop(2, 1)],
        },
    }
}

fn line_graph() -> RouteGraph {
    RouteGraph::from_cache(CachedRouteGraph {
        build_number: 1,
        release_date: String::new(),
        systems: (1..=3)
            .map(|id| SolarSystem {
                id,
                name: format!("S{id}"),
            })
            .collect(),
        edges: vec![RouteEdge { from: 1, to: 2 }, RouteEdge { from: 2, to: 3 }],
    })
}

#[test]
fn fresh_cached_token_sets_the_waypoint_directly() {
    let job = single_job(Some("cached"), Some(1_000));
    let (state, action) = start_waypoint_job(&job, 900);
    match action {
        WaypointJobAction::SetWaypoint {
            access_token,
            destination_id,
            options,
        } => {
            assert_eq!(access_token, "cached");
            assert_eq!(destination_id, 30000142);
            assert!(options.clear_other_waypoints);
        }
        _ => panic!("expected a waypoint"),
    }
    let (state, action) = state.advance(&job, None, 901, WaypointJobEvent::WaypointSet);
    assert!(matches!(state, WaypointJobState::Finished));
    assert!(matches!(action, WaypointJobAction::Done(Ok(None))));
}

#[test]
fn tokens_close_to_expiry_are_refreshed_first() {
    let job = single_job(Some("cached"), Some(960));
    let (state, action) = start_waypoint_job(&job, 900);
    assert!(matches!(action, WaypointJobAction::RefreshToken));
    let (state, action) = state.advance(
        &job,
        None,
        900,
        WaypointJobEvent::Refreshed {
            character_id: 42,
            access_token: "new".to_string(),
            refresh_token: Some("refresh".to_string()),
            expires_in: 1_200,
            scopes: vec!["esi-ui.write_waypoint.v1".to_string()],
        },
    );
    match &action {
        WaypointJobAction::SaveTokens {
            refresh_token,
            access_token,
            expires_at,
        } => {
            assert_eq!(refresh_token.as_deref(), Some("refresh"));
            assert_eq!(access_token, "new");
            assert_eq!(*expires_at, 2_100);
        }
        _ => panic!("expected the tokens to be saved"),
    }
    let (state, action) = state.advance(&job, None, 901, WaypointJobEvent::TokensSaved);
    assert!(matches!(action, WaypointJobAction::SetWaypoint { ref access_token, .. } if access_token == "new"));
    let (_, action) = state.advance(&job, None, 902, WaypointJobEvent::WaypointSet);
    match action {
        WaypointJobAction::Done(Ok(Some(update))) => {
            assert_eq!(update.access_token, "new");
            assert_eq!(update.expires_at, 2_100);
        }
        _ => panic!("expected the fresh token back"),
    }
}

#[test]
fn a_token_without_expiry_or_without_token_is_refreshed() {
    assert!(matches!(
        start_waypoint_job(&single_job(None, Some(u64::MAX)), 0).1,
        WaypointJobAction::RefreshToken
    ));
    assert!(matches!(
        start_waypoint_job(&single_job(Some("t"), None), 0).1,
        WaypointJobAction::RefreshToken
    ));
}

#[test]
fn a_token_for_another_character_is_refused() {
    let job = single_job(None, None);
    let (state, _) = start_waypoint_job(&job, 0);
    let (state, action) = state.advance(
        &job,
        None,
        0,
        WaypointJobEvent::Refreshed {
            character_id: 7,
            access_token: "x".to_string(),
            refresh_token: None,
            expires_in: 60,
            scopes: Vec::new(),
        },
    );
    assert!(matches!(state, WaypointJobState::Finished));
    match action {
        WaypointJobAction::Done(Err(m)) => {
            assert_eq!(m, "Refreshed token character mismatch: expected 42, got 7")
        }
        _ => panic!("expected a mismatch"),
    }
}

#[test]
fn failures_end_the_job_with_their_message() {
    let job = single_job(None, None);
    let (state, _) = start_waypoint_job(&job, 0);
    let (_, action) = state.advance(&job, None, 0, WaypointJobEvent::Failed("no refresh token".to_string()));
    assert!(matches!(action, WaypointJobAction::Done(Err(ref m)) if m == "no refresh token"));
}

#[test]
fn a_route_is_optimised_from_the_characters_location() {
    let job = route_job();
    let graph = line_graph();
    let (state, action) = start_waypoint_job(&job, 0);
    assert!(matches!(action, WaypointJobAction::FetchLocation { ref access_token } if access_token == "cached"));
    let (state, action) = state.advance(&job, Some(&graph), 0, WaypointJobEvent::Location(1));
    assert!(matches!(
        action,
        WaypointJobAction::SetWaypoint { destination_id: 2, options: WaypointOptions { clear_other_waypoints: true, add_to_beginning: false }, .. }
    ));
    let (state, action) = state.advance(&job, Some(&graph), 0, WaypointJobEvent::WaypointSet);
    assert!(matches!(
        action,
        WaypointJobAction::SetWaypoint { destination_id: 3, options: WaypointOptions { clear_other_waypoints: false, add_to_beginning: false }, .. }
    ));
    let (_, action) = state.advance(&job, Some(&graph), 0, WaypointJobEvent::WaypointSet);
    assert!(matches!(action, WaypointJobAction::Done(Ok(None))));
}

#[test]
fn a_route_from_an_unknown_system_fails() {
    let job = route_job();
    let graph = line_graph();
    let (state, _) = start_waypoint_job(&job, 0);
    let (_, action) = state.advance(&job, Some(&graph), 0, WaypointJobEvent::Location(99));
    assert!(matches!(
        action,
        WaypointJobAction::Done(Err(ref m)) if m == "Current solar system 99 was not found in SDE cache"
    ));
}

#[test]
fn route_waypoints_replace_then_append() {
    let plan = route_waypoints(&vec![stop(5, 0), stop(6, 1), stop(7, 2)]);
    let ids: Vec<i64> = plan.iter().map(|(id, _)| *id).collect();
    assert_eq!(ids, vec![5, 6, 7]);
    assert!(plan[0].1.clear_other_waypoints);
    assert!(!plan[1].1.clear_other_waypoints && !plan[2].1.clear_other_waypoints);
    assert!(plan.iter().all(|(_, o)| !o.add_to_beginning));
}
