//! Turning what a user typed into an ESI destination.
//!
//! A number (or anything that starts with `-`) is taken as an ESI ID and
//! must be positive; anything else is a name that ESI has to look up.  For
//! player structures, a number of at least `PLAYER_STRUCTURE_ID_MIN` is a
//! structure ID and anything else a structure name to search for.

use vstd::prelude::*;
use crate::text::{
    all_digits, chars_of, is_digit, parse_i64, parse_i64_spec, push_all, push_str, string_of,
    trim, trim_chars,
};
use crate::universe::{UniverseDestination, UniverseDestinationCategory};

verus! {

broadcast use vstd::string::group_string_axioms;

#[derive(Clone, Copy, Debug, PartialEq, Eq, Structural)]
pub enum DestinationKind {
    NumericId,
    SolarSystem,
    Station,
    Structure,
}

impl DestinationKind {
    pub open spec fn label_spec(self) -> Seq<char> {
        match self {
            DestinationKind::NumericId => "numeric ID"@,
            DestinationKind::SolarSystem => "solar system"@,
            DestinationKind::Station => "station"@,
            DestinationKind::Structure => "player structure"@,
        }
    }

    pub fn label(self) -> (r: &'static str)
        ensures
            r@ == self.label_spec(),
    {
        match self {
            DestinationKind::NumericId => "numeric ID",
            DestinationKind::SolarSystem => "solar system",
            DestinationKind::Station => "station",
            DestinationKind::Structure => "player structure",
        }
    }
}

/// Player-owned structures have IDs from here up.
pub const PLAYER_STRUCTURE_ID_MIN: i64 = 1_000_000_000_000;

#[derive(Clone, Debug, PartialEq, Eq)]
pub struct ResolvedDestination {
    pub id: i64,
    pub name: String,
    pub kind: DestinationKind,
}

#[derive(Clone, Debug)]
pub struct StructureResolutionContext {
    pub character_id: u64,
    pub access_token: String,
}

/// Why a destination could not be taken as it stands.
#[derive(Clone, Debug, PartialEq, Eq)]
pub enum DestinationError {
    /// Nothing but white space was given.
    Required,
    /// The text looks like an ID but is not a number that fits an `i64`.
    InvalidId(String),
    /// The ID is zero or negative.
    NotPositive,
    /// The text is a name; ESI has to look it up (see
    /// `resolved_from_universe` for what its answer becomes).
    NeedsNameLookup(String),
}

pub enum ErrorView {
    Required,
    InvalidId(Seq<char>),
    NotPositive,
    NeedsNameLookup(Seq<char>),
}

impl View for DestinationError {
    type V = ErrorView;

    open spec fn view(&self) -> ErrorView {
        match self {
            DestinationError::Required => ErrorView::Required,
            DestinationError::InvalidId(s) => ErrorView::InvalidId(s@),
            DestinationError::NotPositive => ErrorView::NotPositive,
            DestinationError::NeedsNameLookup(s) => ErrorView::NeedsNameLookup(s@),
        }
    }
}

pub open spec fn error_message(e: ErrorView) -> Seq<char> {
    match e {
        ErrorView::Required => "Destination required"@,
        ErrorView::InvalidId(s) => "Destination ID `"@ + s + "` was not a valid ESI ID"@,
        ErrorView::NotPositive => "Destination ID must be a positive ESI ID"@,
        ErrorView::NeedsNameLookup(s) => "Destination `"@ + s + "` must be looked up by name"@,
    }
}

impl DestinationError {
    /// The message shown for this error.
    pub fn message(&self) -> (r: String)
        ensures
            r@ == error_message(self@),
    {
        match self {
            DestinationError::Required => String::from_str("Destination required"),
            DestinationError::InvalidId(s) => {
                let mut m: Vec<char> = Vec::new();
                push_str(&mut m, "Destination ID `");
                push_str(&mut m, s.as_str());
                push_str(&mut m, "` was not a valid ESI ID");
                string_of(&m)
            },
            DestinationError::NotPositive => String::from_str(
                "Destination ID must be a positive ESI ID",
            ),
            DestinationError::NeedsNameLookup(s) => {
                let mut m: Vec<char> = Vec::new();
                push_str(&mut m, "Destination `");
                push_str(&mut m, s.as_str());
                push_str(&mut m, "` must be looked up by name");
                string_of(&m)
            },
        }
    }
}

/// Whether trimmed input is handled as an ID rather than a name.
pub open spec fn looks_numeric(t: Seq<char>) -> bool {
    (t.len() > 0 && t[0] == '-') || all_digits(t)
}

/// What `resolve_numeric_id` decides for the text `t`.
pub open spec fn numeric_result_ok(t: Seq<char>, r: Result<ResolvedDestination, DestinationError>) -> bool {
    match parse_i64_spec(t) {
        None => r matches Err(e) && e@ == ErrorView::InvalidId(t),
        Some(id) => if id <= 0 {
            r matches Err(e) && e@ == ErrorView::NotPositive
        } else {
            r matches Ok(d) && d.id == id && d.name@ == t && d.kind == DestinationKind::NumericId
        },
    }
}

fn starts_with_minus(t: &Vec<char>) -> (r: bool)
    ensures
        r == (t@.len() > 0 && t@[0] == '-'),
{
    t.len() > 0 && t[0] == '-'
}

fn all_digit_chars(t: &Vec<char>) -> (r: bool)
    ensures
        r == all_digits(t@),
{
    let mut i: usize = 0;
    while i < t.len()
        invariant
            i <= t.len(),
            all_digits(t@.take(i as int)),
        decreases t.len() - i,
    {
        if !is_digit(t[i]) {
            assert(!all_digits(t@)) by {
                assert(!crate::text::is_ascii_digit(t@[i as int]));
            }
            return false;
        }
        assert(all_digits(t@.take(i + 1))) by {
            assert forall|k: int| 0 <= k < i + 1 implies crate::text::is_ascii_digit(
                #[trigger] t@.take(i + 1)[k],
            ) by {
                if k < i {
                    assert(t@.take(i + 1)[k] == t@.take(i as int)[k]);
                }
            }
        }
        i = i + 1;
    }
    assert(t@.take(t.len() as int) =~= t@);
    true
}

fn resolve_numeric_id(t: &Vec<char>) -> (r: Result<ResolvedDestination, DestinationError>)
    ensures
        numeric_result_ok(t@, r),
{
    match parse_i64(t) {
        None => Err(DestinationError::InvalidId(string_of(t))),
        Some(id) => {
            if id <= 0 {
                Err(DestinationError::NotPositive)
            } else {
                Ok(ResolvedDestination { id, name: string_of(t), kind: DestinationKind::NumericId })
            }
        },
    }
}

/// Resolves typed input without asking ESI: IDs are checked here, names
/// come back as `NeedsNameLookup` with the trimmed name.
pub fn resolve(input: &str) -> (r: Result<ResolvedDestination, DestinationError>)
    ensures
        trim(input@).len() == 0 ==> (r matches Err(e) && e@ == ErrorView::Required),
        trim(input@).len() > 0 && looks_numeric(trim(input@)) ==> numeric_result_ok(
            trim(input@),
            r,
        ),
        trim(input@).len() > 0 && !looks_numeric(trim(input@)) ==> (r matches Err(e) && e@
            == ErrorView::NeedsNameLookup(trim(input@))),
{
    let t = trim_chars(&chars_of(input));
    if t.len() == 0 {
        return Err(DestinationError::Required);
    }
    if starts_with_minus(&t) || all_digit_chars(&t) {
        return resolve_numeric_id(&t);
    }
    Err(DestinationError::NeedsNameLookup(string_of(&t)))
}

pub open spec fn kind_of(c: UniverseDestinationCategory) -> DestinationKind {
    match c {
        UniverseDestinationCategory::SolarSystem => DestinationKind::SolarSystem,
        UniverseDestinationCategory::Station => DestinationKind::Station,
        UniverseDestinationCategory::Structure => DestinationKind::Structure,
    }
}

/// A destination that ESI found by name or structure ID.
pub fn resolved_from_universe(destination: UniverseDestination) -> (r: ResolvedDestination)
    ensures
        r.id == destination.id,
        r.name@ == destination.name@,
        r.kind == kind_of(destination.category),
{
    ResolvedDestination {
        id: destination.id,
        name: destination.name,
        kind: match destination.category {
            UniverseDestinationCategory::SolarSystem => DestinationKind::SolarSystem,
            UniverseDestinationCategory::Station => DestinationKind::Station,
            UniverseDestinationCategory::Structure => DestinationKind::Structure,
        },
    }
}

/// What `player_structure_id` decides for a trimmed text `t`.
pub open spec fn structure_id_result(t: Seq<char>) -> Result<Option<i64>, ErrorView> {
    if (t.len() > 0 && t[0] == '-') || !all_digits(t) {
        Ok(None)
    } else {
        match parse_i64_spec(t) {
            None => Err(ErrorView::InvalidId(t)),
            Some(id) => Ok(if id >= PLAYER_STRUCTURE_ID_MIN { Some(id) } else { None }),
        }
    }
}

/// The structure ID that `input` spells, if it spells one: only digits,
/// and at least `PLAYER_STRUCTURE_ID_MIN`.
pub fn player_structure_id(input: &str) -> (r: Result<Option<i64>, DestinationError>)
    ensures
        match structure_id_result(trim(input@)) {
            Ok(v) => r == Ok::<Option<i64>, DestinationError>(v),
            Err(e) => r matches Err(x) && x@ == e,
        },
{
    let t = trim_chars(&chars_of(input));
    if starts_with_minus(&t) || !all_digit_chars(&t) {
        return Ok(None);
    }
    match parse_i64(&t) {
        None => Err(DestinationError::InvalidId(string_of(&t))),
        Some(id) => Ok(if id >= PLAYER_STRUCTURE_ID_MIN { Some(id) } else { None }),
    }
}

pub fn looks_like_player_structure_id(input: &str) -> (r: bool)
    ensures
        r == (structure_id_result(trim(input@)) matches Ok(Some(_))),
{
    match player_structure_id(input) {
        Ok(Some(_)) => true,
        _ => false,
    }
}

/// How a player structure is to be looked up.
#[derive(Clone, Debug, PartialEq, Eq)]
pub enum StructureQuery {
    /// Fetch this structure ID with the character's token.
    ById { structure_id: i64, access_token: String },
    /// Search the character's accessible structures for this name.
    ByName { character_id: u64, access_token: String, name: String },
}

/// Decides how `input` names a player structure: a structure ID is
/// fetched directly, anything else is searched for by its trimmed name.
pub fn resolve_structure(input: &str, context: &StructureResolutionContext) -> (r: Result<
    StructureQuery,
    DestinationError,
>)
    ensures
        trim(input@).len() == 0 ==> (r matches Err(e) && e@ == ErrorView::Required),
        trim(input@).len() > 0 ==> match structure_id_result(trim(input@)) {
            Err(e) => r matches Err(x) && x@ == e,
            Ok(Some(id)) => r matches Ok(StructureQuery::ById { structure_id, access_token })
                && structure_id == id && access_token@ == context.access_token@,
            Ok(None) => r matches Ok(StructureQuery::ByName { character_id, access_token, name })
                && character_id == context.character_id && access_token@ == context.access_token@
                && name@ == trim(input@),
        },
{
    let t = trim_chars(&chars_of(input));
    if t.len() == 0 {
        return Err(DestinationError::Required);
    }
    let trimmed = string_of(&t);
    proof {
        crate::text::lemma_trim_idempotent(input@);
    }
    match player_structure_id(trimmed.as_str()) {
        Err(e) => Err(e),
        Ok(Some(structure_id)) => Ok(
            StructureQuery::ById { structure_id, access_token: context.access_token.clone() },
        ),
        Ok(None) => Ok(
            StructureQuery::ByName {
                character_id: context.character_id,
                access_token: context.access_token.clone(),
                name: trimmed,
            },
        ),
    }
}

} // verus!
