//! The steps of resolving a destination through ESI: a name to a system or
//! station (with the station shorthand fallback), a name to a player
//! structure, and a player structure ID.
//!
//! Each lookup is a state machine: it says which request to make next, the
//! application makes it and hands the answer back, until the lookup is
//! done.

use vstd::prelude::*;
use crate::text::{chars_of, push_all, push_str, string_of, trim, trim_chars};
use crate::universe::{
    NamedId, ScoredStation, StructureCandidate, UniverseDestination, UniverseDestinationCategory,
    UniverseIdsResponse, is_first_best, pick_destination_match, pick_shorthand_station,
    pick_structure_candidate, scored_keys, scored_stations, shorthand_system,
    station_shorthand_system_name, structure_keys,
};

verus! {

/// Why a lookup failed.
#[derive(Clone, Debug)]
pub enum LookupError {
    DestinationRequired,
    /// No system or station has this name.
    NotFound(String),
    /// No accessible structure has this name.
    NoStructure(String),
    StructureIdNotPositive,
    /// A request failed with this message.
    Request(String),
}

pub open spec fn lookup_error_text(e: LookupError) -> Seq<char> {
    match e {
        LookupError::DestinationRequired => "Destination required"@,
        LookupError::NotFound(n) => "No solar system or station named `"@ + n@ + "` was found"@,
        LookupError::NoStructure(n) => "No accessible player structure named `"@ + n@ + "` was found"@,
        LookupError::StructureIdNotPositive => "Player structure ID must be positive"@,
        LookupError::Request(m) => m@,
    }
}

impl LookupError {
    pub fn message(&self) -> (r: String)
        ensures
            r@ == lookup_error_text(*self),
    {
        match self {
            LookupError::DestinationRequired => "Destination required".to_string(),
            LookupError::NotFound(n) => {
                let mut out: Vec<char> = Vec::new();
                push_str(&mut out, "No solar system or station named `");
                push_all(&mut out, &chars_of(n.as_str()));
                push_str(&mut out, "` was found");
                string_of(&out)
            },
            LookupError::NoStructure(n) => {
                let mut out: Vec<char> = Vec::new();
                push_str(&mut out, "No accessible player structure named `");
                push_all(&mut out, &chars_of(n.as_str()));
                push_str(&mut out, "` was found");
                string_of(&out)
            },
            LookupError::StructureIdNotPositive => "Player structure ID must be positive".to_string(),
            LookupError::Request(m) => m.clone(),
        }
    }
}

// ---------------------------------------------------------------------
// Names of systems and stations
// ---------------------------------------------------------------------

/// Where a name lookup stands.
pub enum NameLookup {
    /// Waiting for the IDs of the name.
    AwaitingIds { name: String },
    /// Waiting for the IDs of the system a station shorthand names.
    AwaitingSystemIds { name: String },
    /// Waiting for that system.
    AwaitingSystem { name: String },
    /// Fetching the system's stations one by one.
    AwaitingStations { name: String, remaining: Vec<i64>, fetched: Vec<NamedId> },
    /// Nothing more to do.
    Finished,
}

/// The next thing a name lookup needs.
pub enum NameLookupStep {
    /// Ask ESI `/universe/ids/` for this name.
    LookupIds(String),
    /// Fetch the solar system with this ID.
    FetchSystem(i64),
    /// Fetch the station with this ID.
    FetchStation(i64),
    /// The lookup is over.
    Done(Result<UniverseDestination, LookupError>),
}

/// What the application reports back to a name lookup.
pub enum NameLookupEvent {
    /// The answer of `/universe/ids/`.
    Ids(UniverseIdsResponse),
    /// A solar system and the IDs of its stations.
    System { stations: Vec<i64> },
    /// A station that was fetched.
    Station(NamedId),
    /// A station that could not be fetched.
    StationFailed,
    /// A request failed with this message.
    Failed(String),
}

/// The longest name a lookup scores.
pub open spec fn name_fits(name: Seq<char>) -> bool {
    name.len() <= (usize::MAX - 75) / 10
}

/// Whether a name of `len` characters is short enough to be scored.
pub fn name_fits_len(len: usize) -> (r: bool)
    ensures
        r == (len <= (usize::MAX - 75) / 10),
{
    len <= (usize::MAX - 75) / 10
}

pub open spec fn names_view(v: Seq<NamedId>) -> Seq<(i64, Seq<char>)> {
    v.map_values(|n: NamedId| (n.id, n.name@))
}

/// Starts resolving a destination name: the trimmed name is looked up,
/// an empty one is refused.
pub fn resolve_destination_name(name: &str) -> (r: (NameLookup, NameLookupStep))
    requires
        name_fits(name@),
    ensures
        r.0.name_spec() matches Some(n) ==> name_fits(n),
        trim(name@).len() == 0 ==> r.0 is Finished && r.1 matches NameLookupStep::Done(
            Err(LookupError::DestinationRequired),
        ),
        trim(name@).len() > 0 ==> (r.0 matches NameLookup::AwaitingIds { name: n } && n@ == trim(name@)),
        trim(name@).len() > 0 ==> (r.1 matches NameLookupStep::LookupIds(q) && q@ == trim(name@)),
{
    let trimmed = trim_chars(&chars_of(name));
    proof {
        crate::text::lemma_trim_len(name@);
    }
    if trimmed.len() == 0 {
        return (NameLookup::Finished, NameLookupStep::Done(Err(LookupError::DestinationRequired)));
    }
    let n = string_of(&trimmed);
    (NameLookup::AwaitingIds { name: n.clone() }, NameLookupStep::LookupIds(n))
}

/// What follows once the stations of a shorthand's system are in: the
/// next station to fetch, or the best-scoring station: the highest
/// score, then the shorter name, then the name that sorts first, then the
/// station fetched first.
pub open spec fn stations_step_ok(
    name: Seq<char>,
    remaining: Seq<i64>,
    fetched: Seq<NamedId>,
    state: NameLookup,
    step: NameLookupStep,
) -> bool {
    if remaining.len() > 0 {
        &&& state matches NameLookup::AwaitingStations { name: n, remaining: rest, fetched: f }
        &&& n@ == name && rest@ == remaining.drop_first() && names_view(f@) == names_view(fetched)
        &&& step matches NameLookupStep::FetchStation(id) && id == remaining[0]
    } else {
        &&& state is Finished
        &&& if scored_stations(name, fetched).len() == 0 {
            step matches NameLookupStep::Done(Err(LookupError::NotFound(n))) && n@ == name
        } else {
            step matches NameLookupStep::Done(Ok(d)) && d.category == UniverseDestinationCategory::Station
                && exists|i: int|
                is_first_best(scored_keys(name, fetched), i) && #[trigger] scored_stations(name, fetched)[i].0 == d.id
                    && scored_stations(name, fetched)[i].1 == d.name@
        }
    }
}

fn copy_named(n: &NamedId) -> (r: NamedId)
    ensures
        r.id == n.id && r.name@ == n.name@,
{
    NamedId { id: n.id, name: n.name.clone() }
}

fn stations_step(name: String, remaining: Vec<i64>, fetched: Vec<NamedId>) -> (r: (NameLookup, NameLookupStep))
    requires
        name_fits(name@),
    ensures
        stations_step_ok(name@, remaining@, fetched@, r.0, r.1),
{
    if remaining.len() > 0 {
        let next = remaining[0];
        let mut rest: Vec<i64> = Vec::new();
        let mut i: usize = 1;
        while i < remaining.len()
            invariant
                1 <= i <= remaining.len(),
                rest@ == remaining@.subrange(1, i as int),
            decreases remaining.len() - i,
        {
            rest.push(remaining[i]);
            assert(remaining@.subrange(1, i + 1) =~= remaining@.subrange(1, i as int).push(remaining@[i as int]));
            i = i + 1;
        }
        assert(remaining@.subrange(1, remaining.len() as int) =~= remaining@.drop_first());
        return (NameLookup::AwaitingStations { name, remaining: rest, fetched }, NameLookupStep::FetchStation(next));
    }
    match pick_shorthand_station(name.as_str(), &fetched) {
        Some(s) => {
            proof {
                let i = choose|i: int|
                    is_first_best(scored_keys(name@, fetched@), i) && #[trigger] scored_stations(name@, fetched@)[i] == (
                        s.id,
                        s.name@,
                        s.score as int,
                    );
                assert(scored_stations(name@, fetched@)[i].0 == s.id);
            }
            (
            NameLookup::Finished,
            NameLookupStep::Done(
                Ok(UniverseDestination { id: s.id, name: s.name, category: UniverseDestinationCategory::Station }),
            ),
            )
        },
        None => (NameLookup::Finished, NameLookupStep::Done(Err(LookupError::NotFound(name)))),
    }
}

impl NameLookup {
    /// The name being resolved, in every waiting state.
    pub open spec fn name_spec(self) -> Option<Seq<char>> {
        match self {
            NameLookup::AwaitingIds { name } => Some(name@),
            NameLookup::AwaitingSystemIds { name } => Some(name@),
            NameLookup::AwaitingSystem { name } => Some(name@),
            NameLookup::AwaitingStations { name, .. } => Some(name@),
            NameLookup::Finished => None,
        }
    }

    /// Moves the lookup on with the answer to its last step: an exact
    /// system is preferred to a station; failing both, the name is read as
    /// a station shorthand (`Jita IV - Caldari Navy`): its system is looked
    /// up, fetched, and the station that matches best is chosen.  Every
    /// failure after the first lookup is reported as the name not being
    /// found.
    pub fn advance(self, event: NameLookupEvent) -> (r: (NameLookup, NameLookupStep))
        requires
            self.name_spec() matches Some(n) ==> name_fits(n),
        ensures
            r.0.name_spec() matches Some(n) ==> name_fits(n),
            match (self, event) {
                (NameLookup::AwaitingIds { name }, NameLookupEvent::Ids(resp)) => match pick_destination_match_spec(resp) {
                    Some((id, dname, cat)) => r.0 is Finished && (r.1 matches NameLookupStep::Done(Ok(d)) && d.id == id
                        && d.name@ == dname && d.category == cat),
                    None => match shorthand_system(name@) {
                        None => r.0 is Finished && (r.1 matches NameLookupStep::Done(Err(LookupError::NotFound(n)))
                            && n@ == name@),
                        Some(system) => (r.0 matches NameLookup::AwaitingSystemIds { name: n } && n@ == name@)
                            && (r.1 matches NameLookupStep::LookupIds(q) && q@ == system),
                    },
                },
                (NameLookup::AwaitingIds { name }, NameLookupEvent::Failed(m)) => r.0 is Finished
                    && (r.1 matches NameLookupStep::Done(Err(LookupError::Request(x))) && x@ == m@),
                (NameLookup::AwaitingSystemIds { name }, NameLookupEvent::Ids(resp)) => if resp.systems.len() > 0 {
                    (r.0 matches NameLookup::AwaitingSystem { name: n } && n@ == name@)
                        && (r.1 matches NameLookupStep::FetchSystem(id) && id == resp.systems[0].id)
                } else {
                    r.0 is Finished && (r.1 matches NameLookupStep::Done(Err(LookupError::NotFound(n))) && n@ == name@)
                },
                (NameLookup::AwaitingSystem { name }, NameLookupEvent::System { stations }) => if stations.len() == 0 {
                    r.0 is Finished && (r.1 matches NameLookupStep::Done(Err(LookupError::NotFound(n))) && n@ == name@)
                } else {
                    stations_step_ok(name@, stations@, Seq::empty(), r.0, r.1)
                },
                (NameLookup::AwaitingStations { name, remaining, fetched }, NameLookupEvent::Station(s)) => stations_step_ok(
                    name@,
                    remaining@,
                    fetched@.push(s),
                    r.0,
                    r.1,
                ),
                (NameLookup::AwaitingStations { name, remaining, fetched }, NameLookupEvent::StationFailed) => stations_step_ok(
                    name@,
                    remaining@,
                    fetched@,
                    r.0,
                    r.1,
                ),
                (NameLookup::Finished, _) => r.0 is Finished && (r.1 matches NameLookupStep::Done(
                    Err(LookupError::Request(m)),
                ) && m@ == "Destination lookup already finished"@),
                (s, _) => r.0 is Finished && (r.1 matches NameLookupStep::Done(Err(LookupError::NotFound(n))) && Some(
                    n@,
                ) == s.name_spec()),
            },
    {
        match self {
            NameLookup::AwaitingIds { name } => match event {
                NameLookupEvent::Ids(resp) => {
                    match pick_destination_match(&resp) {
                        Some(d) => (NameLookup::Finished, NameLookupStep::Done(Ok(d))),
                        None => match station_shorthand_system_name(name.as_str()) {
                            None => (NameLookup::Finished, NameLookupStep::Done(Err(LookupError::NotFound(name)))),
                            Some(system) => (NameLookup::AwaitingSystemIds { name }, NameLookupStep::LookupIds(system)),
                        },
                    }
                },
                NameLookupEvent::Failed(m) => (NameLookup::Finished, NameLookupStep::Done(Err(LookupError::Request(m)))),
                _ => (NameLookup::Finished, NameLookupStep::Done(Err(LookupError::NotFound(name)))),
            },
            NameLookup::AwaitingSystemIds { name } => match event {
                NameLookupEvent::Ids(resp) => {
                    if resp.systems.len() > 0 {
                        (NameLookup::AwaitingSystem { name }, NameLookupStep::FetchSystem(resp.systems[0].id))
                    } else {
                        (NameLookup::Finished, NameLookupStep::Done(Err(LookupError::NotFound(name))))
                    }
                },
                _ => (NameLookup::Finished, NameLookupStep::Done(Err(LookupError::NotFound(name)))),
            },
            NameLookup::AwaitingSystem { name } => match event {
                NameLookupEvent::System { stations } => {
                    if stations.len() == 0 {
                        (NameLookup::Finished, NameLookupStep::Done(Err(LookupError::NotFound(name))))
                    } else {
                        stations_step(name, stations, Vec::new())
                    }
                },
                _ => (NameLookup::Finished, NameLookupStep::Done(Err(LookupError::NotFound(name)))),
            },
            NameLookup::AwaitingStations { name, remaining, fetched } => match event {
                NameLookupEvent::Station(s) => {
                    let mut fetched = fetched;
                    fetched.push(s);
                    stations_step(name, remaining, fetched)
                },
                NameLookupEvent::StationFailed => stations_step(name, remaining, fetched),
                _ => (NameLookup::Finished, NameLookupStep::Done(Err(LookupError::NotFound(name)))),
            },
            NameLookup::Finished => (
                NameLookup::Finished,
                NameLookupStep::Done(Err(LookupError::Request("Destination lookup already finished".to_string()))),
            ),
        }
    }
}

/// `pick_destination_match` as a value: the first system, else the first
/// station.
pub open spec fn pick_destination_match_spec(resp: UniverseIdsResponse) -> Option<(i64, Seq<char>, UniverseDestinationCategory)> {
    if resp.systems.len() > 0 {
        Some((resp.systems[0].id, resp.systems[0].name@, UniverseDestinationCategory::SolarSystem))
    } else if resp.stations.len() > 0 {
        Some((resp.stations[0].id, resp.stations[0].name@, UniverseDestinationCategory::Station))
    } else {
        None
    }
}

// ---------------------------------------------------------------------
// Player structures
// ---------------------------------------------------------------------

/// The distinct IDs of `ids`, in increasing order.
pub fn sorted_unique_ids(ids: &Vec<i64>) -> (r: Vec<i64>)
    ensures
        forall|i: int, j: int| 0 <= i < j < r.len() ==> r[i] < r[j],
        r@.to_set() == ids@.to_set(),
{
    let mut r: Vec<i64> = Vec::new();
    let mut k: usize = 0;
    while k < ids.len()
        invariant
            k <= ids.len(),
            forall|i: int, j: int| 0 <= i < j < r.len() ==> r[i] < r[j],
            r@.to_set() == ids@.take(k as int).to_set(),
        decreases ids.len() - k,
    {
        let x = ids[k];
        let mut p: usize = 0;
        while p < r.len() && r[p] < x
            invariant
                p <= r.len(),
                forall|i: int| 0 <= i < p ==> r[i] < x,
            decreases r.len() - p,
        {
            p = p + 1;
        }
        let ghost before = r@;
        assert(ids@.take(k + 1) =~= ids@.take(k as int).push(x));
        proof {
            ids@.take(k as int).lemma_push_to_set_commute(x);
        }
        if p < r.len() && r[p] == x {
            assert(before.to_set().contains(x)) by {
                assert(before[p as int] == x);
            }
            assert(ids@.take(k + 1).to_set() =~= before.to_set());
        } else {
            r.insert(p, x);
            assert(r@ =~= before.subrange(0, p as int).push(x) + before.subrange(p as int, before.len() as int));
            assert forall|i: int, j: int| 0 <= i < j < r.len() implies r[i] < r[j] by {
                if j < p {
                    assert(r[i] == before[i] && r[j] == before[j]);
                } else if j == p {
                    assert(r[i] == before[i]);
                } else if i == p {
                    assert(r[j] == before[j - 1]);
                    if p < before.len() {
                        assert(before[p as int] > x);
                        if j - 1 > p {
                            assert(before[p as int] < before[j - 1]);
                        }
                    }
                } else if i < p {
                    assert(r[i] == before[i] && r[j] == before[j - 1]);
                } else {
                    assert(r[i] == before[i - 1] && r[j] == before[j - 1]);
                }
            }
            assert forall|y: i64| r@.to_set().contains(y) <==> before.to_set().insert(x).contains(y) by {
                if r@.to_set().contains(y) {
                    let i = choose|i: int| 0 <= i < r@.len() && r@[i] == y;
                    if i < p {
                        assert(before[i] == y);
                    } else if i > p {
                        assert(before[i - 1] == y);
                    }
                }
                if before.to_set().contains(y) && y != x {
                    let i = choose|i: int| 0 <= i < before.len() && before[i] == y;
                    if i < p {
                        assert(r@[i] == y);
                    } else {
                        assert(r@[i + 1] == y);
                    }
                }
                if y == x {
                    assert(r@[p as int] == x);
                }
            }
            assert(r@.to_set() =~= ids@.take(k + 1).to_set());
        }
        k = k + 1;
    }
    assert(ids@.take(ids.len() as int) =~= ids@);
    r
}

/// Where a structure name lookup stands.
pub enum StructureLookup {
    /// Waiting for the strict search.
    AwaitingStrictSearch { name: String },
    /// Waiting for the partial search.
    AwaitingPartialSearch { name: String },
    /// Fetching the structures found, one by one.
    AwaitingStructures { name: String, remaining: Vec<i64>, fetched: Vec<StructureCandidate> },
    /// Nothing more to do.
    Finished,
}

/// The next thing a structure lookup needs.
pub enum StructureLookupStep {
    /// Search the character's accessible structures for the name; `strict`
    /// asks for exact names only.
    Search { name: String, strict: bool },
    /// Fetch the structure with this ID.
    FetchStructure(i64),
    /// The lookup is over.
    Done(Result<UniverseDestination, LookupError>),
}

/// What the application reports back to a structure lookup.
pub enum StructureLookupEvent {
    /// The structure IDs a search returned.
    Found(Vec<i64>),
    /// A structure that was fetched.
    Structure(StructureCandidate),
    /// A structure that could not be fetched.
    StructureFailed,
    /// A request failed with this message.
    Failed(String),
}

/// Starts resolving a player structure by name for a character: the
/// trimmed name is searched strictly first; an empty one is refused.
pub fn resolve_structure_name(name: &str) -> (r: (StructureLookup, StructureLookupStep))
    ensures
        trim(name@).len() == 0 ==> r.0 is Finished && r.1 matches StructureLookupStep::Done(
            Err(LookupError::DestinationRequired),
        ),
        trim(name@).len() > 0 ==> (r.0 matches StructureLookup::AwaitingStrictSearch { name: n } && n@ == trim(
            name@,
        )),
        trim(name@).len() > 0 ==> (r.1 matches StructureLookupStep::Search { name: q, strict } && q@ == trim(name@)
            && strict),
{
    let trimmed = trim_chars(&chars_of(name));
    if trimmed.len() == 0 {
        return (StructureLookup::Finished, StructureLookupStep::Done(Err(LookupError::DestinationRequired)));
    }
    let n = string_of(&trimmed);
    (StructureLookup::AwaitingStrictSearch { name: n.clone() }, StructureLookupStep::Search { name: n, strict: true })
}

pub open spec fn candidates_view(v: Seq<StructureCandidate>) -> Seq<(i64, Seq<char>)> {
    v.map_values(|c: StructureCandidate| (c.id, c.name@))
}

/// What follows once the structures to fetch are known: the next one, or
/// the best match among those fetched.
pub open spec fn structures_step_ok(
    name: Seq<char>,
    remaining: Seq<i64>,
    fetched: Seq<StructureCandidate>,
    state: StructureLookup,
    step: StructureLookupStep,
) -> bool {
    if remaining.len() > 0 {
        &&& state matches StructureLookup::AwaitingStructures { name: n, remaining: rest, fetched: f }
        &&& n@ == name && rest@ == remaining.drop_first() && f@ == fetched
        &&& step matches StructureLookupStep::FetchStructure(id) && id == remaining[0]
    } else {
        &&& state is Finished
        &&& if fetched.len() == 0 {
            step matches StructureLookupStep::Done(Err(LookupError::NoStructure(n))) && n@ == name
        } else {
            step matches StructureLookupStep::Done(Ok(d)) && d.category == UniverseDestinationCategory::Structure
                && exists|i: int|
                is_first_best(structure_keys(name, fetched), i) && d.id == #[trigger] fetched[i].id && d.name
                    == fetched[i].name
        }
    }
}

fn structures_step(name: String, remaining: Vec<i64>, fetched: Vec<StructureCandidate>) -> (r: (
    StructureLookup,
    StructureLookupStep,
))
    ensures
        structures_step_ok(name@, remaining@, fetched@, r.0, r.1),
{
    if remaining.len() > 0 {
        let next = remaining[0];
        let mut rest: Vec<i64> = Vec::new();
        let mut i: usize = 1;
        while i < remaining.len()
            invariant
                1 <= i <= remaining.len(),
                rest@ == remaining@.subrange(1, i as int),
            decreases remaining.len() - i,
        {
            rest.push(remaining[i]);
            assert(remaining@.subrange(1, i + 1) =~= remaining@.subrange(1, i as int).push(remaining@[i as int]));
            i = i + 1;
        }
        assert(remaining@.subrange(1, remaining.len() as int) =~= remaining@.drop_first());
        return (
            StructureLookup::AwaitingStructures { name, remaining: rest, fetched },
            StructureLookupStep::FetchStructure(next),
        );
    }
    let ghost f = fetched@;
    match pick_structure_candidate(name.as_str(), fetched) {
        Some(c) => {
            let ghost i = choose|i: int| is_first_best(structure_keys(name@, f), i) && #[trigger] f[i] == c;
            (
                StructureLookup::Finished,
                StructureLookupStep::Done(
                    Ok(UniverseDestination { id: c.id, name: c.name, category: UniverseDestinationCategory::Structure }),
                ),
            )
        },
        None => (StructureLookup::Finished, StructureLookupStep::Done(Err(LookupError::NoStructure(name)))),
    }
}

impl StructureLookup {
    pub open spec fn name_spec(self) -> Option<Seq<char>> {
        match self {
            StructureLookup::AwaitingStrictSearch { name } => Some(name@),
            StructureLookup::AwaitingPartialSearch { name } => Some(name@),
            StructureLookup::AwaitingStructures { name, .. } => Some(name@),
            StructureLookup::Finished => None,
        }
    }

    /// Moves the lookup on with the answer to its last step: a strict
    /// search that finds nothing is followed by a partial one; the
    /// structures found (each ID once, in increasing order) are fetched,
    /// and the one whose name matches best is chosen.  A failed search
    /// ends the lookup with its message; a structure that cannot be
    /// fetched is skipped.
    pub fn advance(self, event: StructureLookupEvent) -> (r: (StructureLookup, StructureLookupStep))
        ensures
            match (self, event) {
                (StructureLookup::AwaitingStrictSearch { name }, StructureLookupEvent::Found(ids)) => if ids.len() == 0 {
                    (r.0 matches StructureLookup::AwaitingPartialSearch { name: n } && n@ == name@)
                        && (r.1 matches StructureLookupStep::Search { name: q, strict } && q@ == name@ && !strict)
                } else {
                    exists|sorted: Seq<i64>|
                        (forall|i: int, j: int| 0 <= i < j < sorted.len() ==> sorted[i] < sorted[j]) && sorted.to_set()
                            == ids@.to_set() && structures_step_ok(name@, sorted, Seq::empty(), r.0, r.1)
                },
                (StructureLookup::AwaitingPartialSearch { name }, StructureLookupEvent::Found(ids)) => if ids.len() == 0 {
                    r.0 is Finished && (r.1 matches StructureLookupStep::Done(Err(LookupError::NoStructure(n))) && n@
                        == name@)
                } else {
                    exists|sorted: Seq<i64>|
                        (forall|i: int, j: int| 0 <= i < j < sorted.len() ==> sorted[i] < sorted[j]) && sorted.to_set()
                            == ids@.to_set() && structures_step_ok(name@, sorted, Seq::empty(), r.0, r.1)
                },
                (StructureLookup::AwaitingStructures { name, remaining, fetched }, StructureLookupEvent::Structure(
                    c,
                )) => structures_step_ok(name@, remaining@, fetched@.push(c), r.0, r.1),
                (StructureLookup::AwaitingStructures { name, remaining, fetched }, StructureLookupEvent::StructureFailed) => structures_step_ok(
                    name@,
                    remaining@,
                    fetched@,
                    r.0,
                    r.1,
                ),
                (StructureLookup::AwaitingStrictSearch { .. }, StructureLookupEvent::Failed(m)) => r.0 is Finished
                    && (r.1 matches StructureLookupStep::Done(Err(LookupError::Request(x))) && x@ == m@),
                (StructureLookup::AwaitingPartialSearch { .. }, StructureLookupEvent::Failed(m)) => r.0 is Finished
                    && (r.1 matches StructureLookupStep::Done(Err(LookupError::Request(x))) && x@ == m@),
                (StructureLookup::Finished, _) => r.0 is Finished && (r.1 matches StructureLookupStep::Done(
                    Err(LookupError::Request(m)),
                ) && m@ == "Structure lookup already finished"@),
                (s, _) => r.0 is Finished && (r.1 matches StructureLookupStep::Done(Err(LookupError::NoStructure(n)))
                    && Some(n@) == s.name_spec()),
            },
    {
        match self {
            StructureLookup::AwaitingStrictSearch { name } => match event {
                StructureLookupEvent::Found(ids) => {
                    if ids.len() == 0 {
                        let q = name.clone();
                        (StructureLookup::AwaitingPartialSearch { name }, StructureLookupStep::Search { name: q, strict: false })
                    } else {
                        let sorted = sorted_unique_ids(&ids);
                        structures_step(name, sorted, Vec::new())
                    }
                },
                StructureLookupEvent::Failed(m) => (
                    StructureLookup::Finished,
                    StructureLookupStep::Done(Err(LookupError::Request(m))),
                ),
                _ => (StructureLookup::Finished, StructureLookupStep::Done(Err(LookupError::NoStructure(name)))),
            },
            StructureLookup::AwaitingPartialSearch { name } => match event {
                StructureLookupEvent::Found(ids) => {
                    if ids.len() == 0 {
                        (StructureLookup::Finished, StructureLookupStep::Done(Err(LookupError::NoStructure(name))))
                    } else {
                        let sorted = sorted_unique_ids(&ids);
                        structures_step(name, sorted, Vec::new())
                    }
                },
                StructureLookupEvent::Failed(m) => (
                    StructureLookup::Finished,
                    StructureLookupStep::Done(Err(LookupError::Request(m))),
                ),
                _ => (StructureLookup::Finished, StructureLookupStep::Done(Err(LookupError::NoStructure(name)))),
            },
            StructureLookup::AwaitingStructures { name, remaining, fetched } => match event {
                StructureLookupEvent::Structure(c) => {
                    let mut fetched = fetched;
                    fetched.push(c);
                    structures_step(name, remaining, fetched)
                },
                StructureLookupEvent::StructureFailed => structures_step(name, remaining, fetched),
                _ => (StructureLookup::Finished, StructureLookupStep::Done(Err(LookupError::NoStructure(name)))),
            },
            StructureLookup::Finished => (
                StructureLookup::Finished,
                StructureLookupStep::Done(Err(LookupError::Request("Structure lookup already finished".to_string()))),
            ),
        }
    }
}

/// Starts resolving a player structure by ID: only positive IDs are
/// looked up.
pub fn resolve_structure_id(structure_id: i64) -> (r: Result<i64, LookupError>)
    ensures
        structure_id <= 0 ==> r matches Err(LookupError::StructureIdNotPositive),
        structure_id > 0 ==> r == Ok::<i64, LookupError>(structure_id),
{
    if structure_id <= 0 {
        return Err(LookupError::StructureIdNotPositive);
    }
    Ok(structure_id)
}

/// The destination of a structure that was fetched by ID.
pub fn structure_destination(structure_id: i64, name: String) -> (r: UniverseDestination)
    ensures
        r.id == structure_id && r.name == name && r.category == UniverseDestinationCategory::Structure,
{
    UniverseDestination { id: structure_id, name, category: UniverseDestinationCategory::Structure }
}

} // verus!
