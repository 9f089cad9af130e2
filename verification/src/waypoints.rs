//! How an autopilot waypoint is added to a character's route.

use vstd::prelude::*;

verus! {

#[derive(Clone, Copy, Debug, PartialEq, Eq, Structural)]
pub struct WaypointOptions {
    pub add_to_beginning: bool,
    pub clear_other_waypoints: bool,
}

#[derive(Clone, Copy, Debug, PartialEq, Eq, Structural)]
pub enum WaypointRouteMode {
    ReplaceRoute,
    AddNextStop,
    AddFinalStop,
}

impl Default for WaypointRouteMode {
    fn default() -> (r: Self)
        ensures
            r == WaypointRouteMode::ReplaceRoute,
    {
        WaypointRouteMode::ReplaceRoute
    }
}

impl WaypointRouteMode {
    pub open spec fn label_spec(self) -> Seq<char> {
        match self {
            WaypointRouteMode::ReplaceRoute => "Replace route"@,
            WaypointRouteMode::AddNextStop => "Add next stop"@,
            WaypointRouteMode::AddFinalStop => "Add final stop"@,
        }
    }

    /// Every mode, in the order the mode selector lists them.
    pub fn all() -> (r: [WaypointRouteMode; 3])
        ensures
            r@ == seq![
                WaypointRouteMode::ReplaceRoute,
                WaypointRouteMode::AddNextStop,
                WaypointRouteMode::AddFinalStop,
            ],
    {
        let r = [WaypointRouteMode::ReplaceRoute, WaypointRouteMode::AddNextStop, WaypointRouteMode::AddFinalStop];
        assert(r@ =~= seq![
            WaypointRouteMode::ReplaceRoute,
            WaypointRouteMode::AddNextStop,
            WaypointRouteMode::AddFinalStop,
        ]);
        r
    }

    pub fn label(self) -> (r: &'static str)
        ensures
            r@ == self.label_spec(),
    {
        match self {
            WaypointRouteMode::ReplaceRoute => "Replace route",
            WaypointRouteMode::AddNextStop => "Add next stop",
            WaypointRouteMode::AddFinalStop => "Add final stop",
        }
    }

    /// Replacing the route clears the other waypoints; adding the next stop
    /// puts the waypoint first; adding the final stop appends it.
    pub fn options(self) -> (r: WaypointOptions)
        ensures
            r.clear_other_waypoints == (self == WaypointRouteMode::ReplaceRoute),
            r.add_to_beginning == (self == WaypointRouteMode::AddNextStop),
    {
        match self {
            WaypointRouteMode::ReplaceRoute => WaypointOptions {
                add_to_beginning: false,
                clear_other_waypoints: true,
            },
            WaypointRouteMode::AddNextStop => WaypointOptions {
                add_to_beginning: true,
                clear_other_waypoints: false,
            },
            WaypointRouteMode::AddFinalStop => WaypointOptions {
                add_to_beginning: false,
                clear_other_waypoints: false,
            },
        }
    }
}

/// The first stop of a route replaces the character's route; every later
/// stop is appended after it.
pub fn options_for_route_stop(first_stop: bool) -> (r: WaypointOptions)
    ensures
        !r.add_to_beginning,
        r.clear_other_waypoints == first_stop,
{
    WaypointOptions { add_to_beginning: false, clear_other_waypoints: first_stop }
}

} // verus!
