//! What a worker does for one character's part of a waypoint batch: use
//! the cached access token while it is fresh, else refresh it and store
//! the new tokens; then set the waypoint, or, for an imported route, find
//! where the character is, optimise the route from there and set each stop
//! in turn.
//!
//! The requests are made by the application; this module decides which
//! one comes next and what the job ends with.

use vstd::prelude::*;
use crate::models::{
    access_token_is_fresh_at, expires_at_from, ACCESS_TOKEN_REFRESH_BUFFER_SECONDS,
};
use crate::sde::{optimize_error_text, optimize_result_ok, RouteDestination, RouteGraph};
use crate::session::{AccessTokenUpdate, WaypointSendJob, WaypointSendRequestKind};
use crate::text::{push_decimal, push_str, string_of};
use crate::waypoints::{options_for_route_stop, WaypointOptions};

verus! {

broadcast use vstd::string::group_string_axioms;

/// Where a job stands.
pub enum WaypointJobState {
    /// Waiting for a refreshed access token.
    AwaitingRefresh,
    /// Waiting for the refreshed tokens to be stored.
    AwaitingSave { access_token: String, update: AccessTokenUpdate },
    /// Waiting for the character's current solar system.
    AwaitingLocation { access_token: String, update: Option<AccessTokenUpdate> },
    /// Setting waypoints; these are still to come.
    Sending {
        access_token: String,
        update: Option<AccessTokenUpdate>,
        remaining: Vec<(i64, WaypointOptions)>,
    },
    /// Nothing more to do.
    Finished,
}

/// The next request of a job.
pub enum WaypointJobAction {
    /// Load the character's refresh token and exchange it for a new
    /// access token.
    RefreshToken,
    /// Store the refreshed tokens: the refresh token when a new one came,
    /// and the access token with its expiry.
    SaveTokens { refresh_token: Option<String>, access_token: String, expires_at: u64 },
    /// Ask ESI where the character is.
    FetchLocation { access_token: String },
    /// Set one autopilot waypoint.
    SetWaypoint { access_token: String, destination_id: i64, options: WaypointOptions },
    /// The job is over: the fresh token it obtained, if any, or why it
    /// failed.
    Done(Result<Option<AccessTokenUpdate>, String>),
}

/// What the application reports back to a job.
pub enum WaypointJobEvent {
    /// The token endpoint's answer to a refresh.
    Refreshed {
        character_id: u64,
        access_token: String,
        refresh_token: Option<String>,
        expires_in: u64,
        scopes: Vec<String>,
    },
    /// The refreshed tokens were stored.
    TokensSaved,
    /// The character's current solar system.
    Location(i64),
    /// The waypoint was set.
    WaypointSet,
    /// A request failed with this message.
    Failed(String),
}

/// The waypoints of an optimised route: each stop in order, the first
/// replacing the character's route and the others appended.
pub open spec fn route_plan(stops: Seq<RouteDestination>) -> Seq<(i64, WaypointOptions)> {
    Seq::new(
        stops.len(),
        |i: int| (stops[i].system_id, WaypointOptions { add_to_beginning: false, clear_other_waypoints: i == 0 }),
    )
}

pub open spec fn mismatch_text(expected: u64, got: u64) -> Seq<char> {
    "Refreshed token character mismatch: expected "@ + crate::text::decimal(expected as nat) + ", got "@
        + crate::text::decimal(got as nat)
}

pub open spec fn unexpected_event_text() -> Seq<char> {
    "Unexpected answer for the waypoint send step"@
}

pub open spec fn no_route_map_text() -> Seq<char> {
    "Route map is still loading"@
}

/// `state` and `action` are the job ending with `result`.
pub open spec fn finished_with(
    state: WaypointJobState,
    action: WaypointJobAction,
    result: Result<Option<AccessTokenUpdate>, Seq<char>>,
) -> bool {
    &&& state is Finished
    &&& match result {
        Ok(u) => action == WaypointJobAction::Done(Ok(u)),
        Err(m) => action matches WaypointJobAction::Done(Err(x)) && x@ == m,
    }
}

/// `state` and `action` set the first of `plan` with `token` and keep the
/// rest, or end the job when the plan is empty.
pub open spec fn sending_ok(
    token: Seq<char>,
    update: Option<AccessTokenUpdate>,
    plan: Seq<(i64, WaypointOptions)>,
    state: WaypointJobState,
    action: WaypointJobAction,
) -> bool {
    if plan.len() == 0 {
        finished_with(state, action, Ok(update))
    } else {
        &&& state matches WaypointJobState::Sending { access_token, update: u, remaining }
        &&& access_token@ == token && u == update && remaining@ == plan.drop_first()
        &&& action matches WaypointJobAction::SetWaypoint { access_token: t, destination_id, options }
        &&& t@ == token && destination_id == plan[0].0 && options == plan[0].1
    }
}

/// What comes once the job holds a usable token: the one waypoint of a
/// single destination, or the character's location for a route.
pub open spec fn with_token_ok(
    job: WaypointSendJob,
    token: Seq<char>,
    update: Option<AccessTokenUpdate>,
    state: WaypointJobState,
    action: WaypointJobAction,
) -> bool {
    match job.kind {
        WaypointSendRequestKind::Single { options } => sending_ok(
            token,
            update,
            seq![(job.destination_id, options)],
            state,
            action,
        ),
        WaypointSendRequestKind::OptimizedRoute { .. } => {
            &&& state matches WaypointJobState::AwaitingLocation { access_token, update: u }
            &&& access_token@ == token && u == update
            &&& action matches WaypointJobAction::FetchLocation { access_token: t } && t@ == token
        },
    }
}

fn ok_update(update: Option<AccessTokenUpdate>) -> (r: (WaypointJobState, WaypointJobAction))
    ensures
        finished_with(r.0, r.1, Ok(update)),
{
    (WaypointJobState::Finished, WaypointJobAction::Done(Ok(update)))
}

fn fail(message: String) -> (r: (WaypointJobState, WaypointJobAction))
    ensures
        finished_with(r.0, r.1, Err(message@)),
{
    (WaypointJobState::Finished, WaypointJobAction::Done(Err(message)))
}

fn send_next(access_token: String, update: Option<AccessTokenUpdate>, plan: Vec<(i64, WaypointOptions)>) -> (r: (
    WaypointJobState,
    WaypointJobAction,
))
    ensures
        sending_ok(access_token@, update, plan@, r.0, r.1),
{
    if plan.len() == 0 {
        return ok_update(update);
    }
    let (destination_id, options) = plan[0];
    let mut rest: Vec<(i64, WaypointOptions)> = Vec::new();
    let mut i: usize = 1;
    while i < plan.len()
        invariant
            1 <= i <= plan.len(),
            rest@ == plan@.subrange(1, i as int),
        decreases plan.len() - i,
    {
        rest.push(plan[i]);
        assert(plan@.subrange(1, i + 1) =~= plan@.subrange(1, i as int).push(plan@[i as int]));
        i = i + 1;
    }
    assert(plan@.subrange(1, plan.len() as int) =~= plan@.drop_first());
    let t = access_token.clone();
    (
        WaypointJobState::Sending { access_token, update, remaining: rest },
        WaypointJobAction::SetWaypoint { access_token: t, destination_id, options },
    )
}

fn with_token(job: &WaypointSendJob, access_token: String, update: Option<AccessTokenUpdate>) -> (r: (
    WaypointJobState,
    WaypointJobAction,
))
    ensures
        with_token_ok(*job, access_token@, update, r.0, r.1),
{
    match &job.kind {
        WaypointSendRequestKind::Single { options } => {
            let mut plan: Vec<(i64, WaypointOptions)> = Vec::new();
            plan.push((job.destination_id, *options));
            assert(plan@ =~= seq![(job.destination_id, *options)]);
            send_next(access_token, update, plan)
        },
        WaypointSendRequestKind::OptimizedRoute { .. } => {
            let t = access_token.clone();
            (
                WaypointJobState::AwaitingLocation { access_token, update },
                WaypointJobAction::FetchLocation { access_token: t },
            )
        },
    }
}

/// Starts a job at `now`: a cached token that is still fresh is used as
/// it is, otherwise a refresh comes first.
pub fn start_waypoint_job(job: &WaypointSendJob, now: u64) -> (r: (WaypointJobState, WaypointJobAction))
    ensures
        match job.access_token {
            Some(t) => if job.expires_at matches Some(e) && e > now + ACCESS_TOKEN_REFRESH_BUFFER_SECONDS {
                with_token_ok(*job, t@, None, r.0, r.1)
            } else {
                r.0 is AwaitingRefresh && r.1 is RefreshToken
            },
            None => r.0 is AwaitingRefresh && r.1 is RefreshToken,
        },
{
    if access_token_is_fresh_at(&job.access_token, job.expires_at, now) {
        match &job.access_token {
            Some(t) => with_token(job, t.clone(), None),
            None => (WaypointJobState::AwaitingRefresh, WaypointJobAction::RefreshToken),
        }
    } else {
        (WaypointJobState::AwaitingRefresh, WaypointJobAction::RefreshToken)
    }
}

/// The waypoints of an optimised route, in order.
pub fn route_waypoints(stops: &Vec<RouteDestination>) -> (r: Vec<(i64, WaypointOptions)>)
    ensures
        r@ == route_plan(stops@),
{
    let mut r: Vec<(i64, WaypointOptions)> = Vec::new();
    let mut i: usize = 0;
    while i < stops.len()
        invariant
            i <= stops.len(),
            r@ == route_plan(stops@).take(i as int),
        decreases stops.len() - i,
    {
        r.push((stops[i].system_id, options_for_route_stop(i == 0)));
        assert(r@ =~= route_plan(stops@).take(i + 1));
        i = i + 1;
    }
    assert(route_plan(stops@).take(stops.len() as int) =~= route_plan(stops@));
    r
}

fn mismatch_message(expected: u64, got: u64) -> (r: String)
    ensures
        r@ == mismatch_text(expected, got),
{
    let mut out: Vec<char> = Vec::new();
    push_str(&mut out, "Refreshed token character mismatch: expected ");
    push_decimal(&mut out, expected);
    push_str(&mut out, ", got ");
    push_decimal(&mut out, got);
    string_of(&out)
}

impl WaypointJobState {
    /// Moves the job on with the answer to its last request, at `now`.
    /// A refreshed token must belong to the job's character; its expiry is
    /// counted from `now`.  A route is optimised on `graph` from where the
    /// character is.  Any failure ends the job with its message.
    pub fn advance(self, job: &WaypointSendJob, graph: Option<&RouteGraph>, now: u64, event: WaypointJobEvent) -> (r: (
        WaypointJobState,
        WaypointJobAction,
    ))
        ensures
            match (self, event) {
                (_, WaypointJobEvent::Failed(m)) => finished_with(r.0, r.1, Err(m@)),
                (
                    WaypointJobState::AwaitingRefresh,
                    WaypointJobEvent::Refreshed { character_id, access_token, refresh_token, expires_in, scopes },
                ) => if character_id != job.character_id {
                    finished_with(r.0, r.1, Err(mismatch_text(job.character_id, character_id)))
                } else {
                    let expires_at = if now + expires_in <= u64::MAX { (now + expires_in) as u64 } else { u64::MAX };
                    &&& r.0 matches WaypointJobState::AwaitingSave { access_token: t, update }
                    &&& t@ == access_token@ && update.access_token@ == access_token@ && update.expires_at
                        == expires_at && update.scopes == scopes
                    &&& r.1 matches WaypointJobAction::SaveTokens { refresh_token: rt, access_token: at, expires_at: e }
                    &&& rt == refresh_token && at@ == access_token@ && e == expires_at
                },
                (WaypointJobState::AwaitingSave { access_token, update }, WaypointJobEvent::TokensSaved) => with_token_ok(
                    *job,
                    access_token@,
                    Some(update),
                    r.0,
                    r.1,
                ),
                (WaypointJobState::AwaitingLocation { access_token, update }, WaypointJobEvent::Location(origin)) => {
                    match (job.kind, graph) {
                        (WaypointSendRequestKind::OptimizedRoute { destinations }, Some(g)) => exists|
                            res: Result<crate::sde::OptimizedRoute, crate::sde::OptimizeError>,
                        |
                            optimize_result_ok(*g, origin, destinations@, res) && match res {
                                Err(e) => finished_with(r.0, r.1, Err(optimize_error_text(e))),
                                Ok(route) => sending_ok(
                                    access_token@,
                                    update,
                                    route_plan(route.destinations@),
                                    r.0,
                                    r.1,
                                ),
                            },
                        (WaypointSendRequestKind::OptimizedRoute { .. }, None) => finished_with(
                            r.0,
                            r.1,
                            Err(no_route_map_text()),
                        ),
                        (WaypointSendRequestKind::Single { .. }, _) => finished_with(
                            r.0,
                            r.1,
                            Err(unexpected_event_text()),
                        ),
                    }
                },
                (WaypointJobState::Sending { access_token, update, remaining }, WaypointJobEvent::WaypointSet) => sending_ok(
                    access_token@,
                    update,
                    remaining@,
                    r.0,
                    r.1,
                ),
                (_, _) => finished_with(r.0, r.1, Err(unexpected_event_text())),
            },
    {
        match event {
            WaypointJobEvent::Failed(m) => fail(m),
            WaypointJobEvent::Refreshed { character_id, access_token, refresh_token, expires_in, scopes } => {
                match self {
                    WaypointJobState::AwaitingRefresh => {
                        if character_id != job.character_id {
                            return fail(mismatch_message(job.character_id, character_id));
                        }
                        let expires_at = expires_at_from(now, expires_in);
                        let t = access_token.clone();
                        let at = access_token.clone();
                        (
                            WaypointJobState::AwaitingSave {
                                access_token: t,
                                update: AccessTokenUpdate { access_token, expires_at, scopes },
                            },
                            WaypointJobAction::SaveTokens { refresh_token, access_token: at, expires_at },
                        )
                    },
                    _ => fail("Unexpected answer for the waypoint send step".to_string()),
                }
            },
            WaypointJobEvent::TokensSaved => match self {
                WaypointJobState::AwaitingSave { access_token, update } => with_token(job, access_token, Some(update)),
                _ => fail("Unexpected answer for the waypoint send step".to_string()),
            },
            WaypointJobEvent::Location(origin) => match self {
                WaypointJobState::AwaitingLocation { access_token, update } => match &job.kind {
                    WaypointSendRequestKind::OptimizedRoute { destinations } => match graph {
                        Some(g) => {
                            let res = g.optimize_open_route(origin, destinations.as_slice());
                            match res {
                                Err(e) => fail(e.message()),
                                Ok(route) => {
                                    let plan = route_waypoints(&route.destinations);
                                    send_next(access_token, update, plan)
                                },
                            }
                        },
                        None => fail("Route map is still loading".to_string()),
                    },
                    WaypointSendRequestKind::Single { .. } => fail(
                        "Unexpected answer for the waypoint send step".to_string(),
                    ),
                },
                _ => fail("Unexpected answer for the waypoint send step".to_string()),
            },
            WaypointJobEvent::WaypointSet => match self {
                WaypointJobState::Sending { access_token, update, remaining } => send_next(
                    access_token,
                    update,
                    remaining,
                ),
                _ => fail("Unexpected answer for the waypoint send step".to_string()),
            },
        }
    }
}

} // verus!
