//! What the application shows and remembers about characters, favourite
//! destinations, imported systems and waypoint batches.

use vstd::prelude::*;
use core::cmp::Ordering;
use crate::config::{CharacterConfig, FavoriteDestinationConfig};
use crate::destination::{DestinationKind, ResolvedDestination};
use crate::text::{
    chars_of, codes, codes_lt, decimal, lower_chars, lower_seq, push_all, push_decimal,
    push_signed_decimal, push_str, signed_decimal, string_of, trim, trim_chars,
    lemma_codes_lt_total,
};

verus! {

broadcast use vstd::string::group_string_axioms;

// ---------------------------------------------------------------------
// Tabs and modes
// ---------------------------------------------------------------------

#[derive(Clone, Copy, Debug, PartialEq, Eq, Structural)]
pub enum AppTab {
    Destination,
    Characters,
    Favorites,
    Esi,
}

impl AppTab {
    pub open spec fn label_spec(self) -> Seq<char> {
        match self {
            AppTab::Destination => "Set Destination"@,
            AppTab::Characters => "Characters"@,
            AppTab::Favorites => "Favorites"@,
            AppTab::Esi => "ESI"@,
        }
    }

    pub fn label(self) -> (r: &'static str)
        ensures
            r@ == self.label_spec(),
    {
        match self {
            AppTab::Destination => "Set Destination",
            AppTab::Characters => "Characters",
            AppTab::Favorites => "Favorites",
            AppTab::Esi => "ESI",
        }
    }
}

#[derive(Clone, Copy, Debug, PartialEq, Eq, Structural)]
pub enum DestoMode {
    Manual,
    Clipboard,
}

impl DestoMode {
    pub open spec fn label_spec(self) -> Seq<char> {
        match self {
            DestoMode::Manual => "Manual"@,
            DestoMode::Clipboard => "Clipboard"@,
        }
    }

    pub fn label(self) -> (r: &'static str)
        ensures
            r@ == self.label_spec(),
    {
        match self {
            DestoMode::Manual => "Manual",
            DestoMode::Clipboard => "Clipboard",
        }
    }
}

// ---------------------------------------------------------------------
// Character sorting
// ---------------------------------------------------------------------

#[derive(Clone, Copy, Debug, PartialEq, Eq, Structural)]
pub enum CharacterSortColumn {
    Selected,
    Name,
    AddedAt,
}

impl CharacterSortColumn {
    /// Names sort A to Z first; the selection and the date put selected
    /// and newest characters first.
    pub fn default_ascending(self) -> (r: bool)
        ensures
            r == (self == CharacterSortColumn::Name),
    {
        match self {
            CharacterSortColumn::Selected => false,
            CharacterSortColumn::Name => true,
            CharacterSortColumn::AddedAt => false,
        }
    }
}

#[derive(Clone, Copy, Debug, PartialEq, Eq, Structural)]
pub struct CharacterSort {
    pub column: CharacterSortColumn,
    pub ascending: bool,
}

impl CharacterSort {
    pub fn for_column(column: CharacterSortColumn) -> (r: Self)
        ensures
            r.column == column,
            r.ascending == (column == CharacterSortColumn::Name),
    {
        CharacterSort { column, ascending: column.default_ascending() }
    }

    /// The sort after clicking `column`.
    pub open spec fn toggled(self, column: CharacterSortColumn) -> CharacterSort {
        if self.column == column {
            CharacterSort { column, ascending: !self.ascending }
        } else {
            CharacterSort { column, ascending: column == CharacterSortColumn::Name }
        }
    }

    /// Clicking the sorted column flips the direction; clicking another
    /// column sorts by it in its default direction.
    pub fn toggle_column(&mut self, column: CharacterSortColumn)
        ensures
            *final(self) == old(self).toggled(column),
    {
        if self.column == column {
            self.ascending = !self.ascending;
            return;
        }
        *self = CharacterSort::for_column(column);
    }

    pub open spec fn marker_spec(self, column: CharacterSortColumn) -> Seq<char> {
        if self.column != column {
            ""@
        } else if self.ascending {
            "^"@
        } else {
            "v"@
        }
    }

    pub fn marker(self, column: CharacterSortColumn) -> (r: &'static str)
        ensures
            r@ == self.marker_spec(column),
    {
        if self.column != column {
            return "";
        }
        if self.ascending {
            "^"
        } else {
            "v"
        }
    }
}

impl Default for CharacterSort {
    fn default() -> (r: Self)
        ensures
            r.column == CharacterSortColumn::Name,
            r.ascending,
    {
        CharacterSort::for_column(CharacterSortColumn::Name)
    }
}

/// Clicking a column always sorts by it; clicking the sorted column twice
/// restores the sort; clicking another column twice sorts by it against
/// its default direction.
pub proof fn law_toggle_column(s: CharacterSort, c: CharacterSortColumn)
    ensures
        s.toggled(c).column == c,
        s.column == c ==> s.toggled(c).toggled(c) == s,
        s.column != c ==> s.toggled(c).toggled(c) == (CharacterSort {
            column: c,
            ascending: c != CharacterSortColumn::Name,
        }),
{
}

// ---------------------------------------------------------------------
// Send results
// ---------------------------------------------------------------------

#[derive(Clone, Debug)]
pub enum CharacterSendResult {
    Pending { destination_name: String, destination_id: i64 },
    Sent { destination_name: String, destination_id: i64 },
    Failed { destination_name: String, destination_id: i64, error: String },
    Skipped { reason: String },
}

/// `"{prefix}: {name} ({id})"`, or without the ID when it is not positive.
pub open spec fn prefixed_destination(prefix: Seq<char>, name: Seq<char>, id: i64) -> Seq<char> {
    if id > 0 {
        prefix + ": "@ + name + " ("@ + signed_decimal(id as int) + ")"@
    } else {
        prefix + ": "@ + name
    }
}

impl CharacterSendResult {
    pub open spec fn summary_spec(&self) -> Seq<char> {
        match self {
            CharacterSendResult::Pending { destination_name, destination_id } => prefixed_destination(
                "Pending"@,
                destination_name@,
                *destination_id,
            ),
            CharacterSendResult::Sent { destination_name, destination_id } => prefixed_destination(
                "Sent"@,
                destination_name@,
                *destination_id,
            ),
            CharacterSendResult::Failed { destination_name, destination_id, error } =>
                prefixed_destination("Failed"@, destination_name@, *destination_id) + " - "@
                    + error@,
            CharacterSendResult::Skipped { reason } => "Skipped: "@ + reason@,
        }
    }

    pub fn summary(&self) -> (r: String)
        ensures
            r@ == self.summary_spec(),
    {
        match self {
            CharacterSendResult::Pending { destination_name, destination_id } => pending_summary(
                "Pending",
                destination_name.as_str(),
                *destination_id,
            ),
            CharacterSendResult::Sent { destination_name, destination_id } => pending_summary(
                "Sent",
                destination_name.as_str(),
                *destination_id,
            ),
            CharacterSendResult::Failed { destination_name, destination_id, error } => {
                let head = pending_summary("Failed", destination_name.as_str(), *destination_id);
                let mut out = chars_of(head.as_str());
                push_str(&mut out, " - ");
                push_str(&mut out, error.as_str());
                string_of(&out)
            },
            CharacterSendResult::Skipped { reason } => {
                let mut out = chars_of("Skipped: ");
                push_str(&mut out, reason.as_str());
                string_of(&out)
            },
        }
    }
}

fn pending_summary(prefix: &str, destination_name: &str, destination_id: i64) -> (r: String)
    ensures
        r@ == prefixed_destination(prefix@, destination_name@, destination_id),
{
    let mut out = chars_of(prefix);
    push_str(&mut out, ": ");
    push_str(&mut out, destination_name);
    if destination_id > 0 {
        push_str(&mut out, " (");
        push_signed_decimal(&mut out, destination_id);
        push_str(&mut out, ")");
    }
    string_of(&out)
}

pub fn has_failed_send_result(character: &CharacterState) -> (r: bool)
    ensures
        r == (character.last_send_result matches Some(CharacterSendResult::Failed { .. })),
{
    match &character.last_send_result {
        Some(CharacterSendResult::Failed { .. }) => true,
        _ => false,
    }
}

// ---------------------------------------------------------------------
// Destinations on display
// ---------------------------------------------------------------------

#[derive(Clone, Debug)]
pub struct ResolvedDestinationDisplay {
    pub name: String,
    pub id: i64,
    pub kind_label: String,
}

impl ResolvedDestinationDisplay {
    pub fn from_resolved(destination: &ResolvedDestination) -> (r: Self)
        ensures
            r.name@ == destination.name@,
            r.id == destination.id,
            r.kind_label@ == destination.kind.label_spec(),
    {
        ResolvedDestinationDisplay {
            name: destination.name.clone(),
            id: destination.id,
            kind_label: String::from_str(destination.kind.label()),
        }
    }

    pub fn from_favorite(favorite: &FavoriteDestination) -> (r: Self)
        ensures
            r.name@ == favorite.destination_name@,
            r.id == favorite.destination_id,
            r.kind_label@ == favorite.destination_kind@,
    {
        ResolvedDestinationDisplay {
            name: favorite.destination_name.clone(),
            id: favorite.destination_id,
            kind_label: favorite.destination_kind.clone(),
        }
    }

    /// `"{id}, {kind}"` when the name is just the ID, otherwise
    /// `"{name} ({id}), {kind}"`.
    pub open spec fn summary_spec(&self) -> Seq<char> {
        if self.name@ == signed_decimal(self.id as int) {
            signed_decimal(self.id as int) + ", "@ + self.kind_label@
        } else {
            self.name@ + " ("@ + signed_decimal(self.id as int) + "), "@ + self.kind_label@
        }
    }

    pub fn summary(&self) -> (r: String)
        ensures
            r@ == self.summary_spec(),
    {
        let mut id_text: Vec<char> = Vec::new();
        push_signed_decimal(&mut id_text, self.id);
        let name = chars_of(self.name.as_str());
        let mut out: Vec<char> = Vec::new();
        if crate::text::chars_eq(&name, &id_text) {
            push_all(&mut out, &id_text);
            push_str(&mut out, ", ");
            push_str(&mut out, self.kind_label.as_str());
        } else {
            push_all(&mut out, &name);
            push_str(&mut out, " (");
            push_all(&mut out, &id_text);
            push_str(&mut out, "), ");
            push_str(&mut out, self.kind_label.as_str());
        }
        string_of(&out)
    }
}

#[derive(Clone, Debug)]
pub struct FavoriteDestination {
    pub destination_id: i64,
    pub destination_name: String,
    pub destination_kind: String,
    pub nickname: String,
}

impl FavoriteDestination {
    /// `f` is the favourite read from the saved entry `c`.
    pub open spec fn read_from(f: FavoriteDestination, c: FavoriteDestinationConfig) -> bool {
        &&& f.destination_id == c.destination_id
        &&& f.destination_name == c.destination_name
        &&& f.destination_kind == c.destination_kind
        &&& f.nickname == c.nickname
    }

    /// `c` is the entry saved for the favourite `f`.
    pub open spec fn saved_as(f: FavoriteDestination, c: FavoriteDestinationConfig) -> bool {
        &&& c.destination_id == f.destination_id
        &&& c.destination_name == f.destination_name
        &&& c.destination_kind == f.destination_kind
        &&& c.nickname == f.nickname
    }

    /// A saved favourite, with its saved nickname.
    pub fn from_config(config: FavoriteDestinationConfig) -> (r: Self)
        ensures
            FavoriteDestination::read_from(r, config),
    {
        FavoriteDestination {
            destination_id: config.destination_id,
            destination_name: config.destination_name,
            destination_kind: config.destination_kind,
            nickname: config.nickname,
        }
    }

    /// The entry saved for a favourite, with its nickname.
    pub fn into_config(self) -> (r: FavoriteDestinationConfig)
        ensures
            FavoriteDestination::saved_as(self, r),
    {
        FavoriteDestinationConfig {
            destination_id: self.destination_id,
            destination_name: self.destination_name,
            destination_kind: self.destination_kind,
            nickname: self.nickname,
        }
    }

    pub fn from_resolved(destination: &ResolvedDestinationDisplay) -> (r: Self)
        ensures
            r.destination_id == destination.id,
            r.destination_name@ == destination.name@,
            r.destination_kind@ == destination.kind_label@,
            r.nickname@ == Seq::<char>::empty(),
    {
        FavoriteDestination {
            destination_id: destination.id,
            destination_name: destination.name.clone(),
            destination_kind: destination.kind_label.clone(),
            nickname: String::new(),
        }
    }

    /// The trimmed nickname when there is one, otherwise the name.
    pub open spec fn display_name_spec(&self) -> Seq<char> {
        if trim(self.nickname@).len() == 0 {
            self.destination_name@
        } else {
            trim(self.nickname@)
        }
    }

    pub fn display_name(&self) -> (r: String)
        ensures
            r@ == self.display_name_spec(),
    {
        let nickname = trim_chars(&chars_of(self.nickname.as_str()));
        if nickname.len() == 0 {
            self.destination_name.clone()
        } else {
            string_of(&nickname)
        }
    }
}

/// Reading a saved favourite and saving it again gives back the same
/// entry.
pub proof fn law_favorite_config_round_trip(
    c: FavoriteDestinationConfig,
    f: FavoriteDestination,
    saved: FavoriteDestinationConfig,
)
    requires
        FavoriteDestination::read_from(f, c),
        FavoriteDestination::saved_as(f, saved),
    ensures
        saved == c,
{
}

// ---------------------------------------------------------------------
// Imported systems
// ---------------------------------------------------------------------

#[derive(Clone, Debug)]
pub struct FobImportSystem {
    pub import_index: usize,
    pub input_system: String,
    pub resolved_system_id: Option<i64>,
    pub resolved_system_name: Option<String>,
    pub region: String,
    pub last_seen_utc: String,
    pub claimed_by: String,
    pub selected: bool,
    pub error: Option<String>,
}

impl FobImportSystem {
    pub open spec fn display_system_spec(&self) -> Seq<char> {
        match self.resolved_system_name {
            Some(n) => n@,
            None => self.input_system@,
        }
    }

    /// The route map's name for the system when it was found, otherwise
    /// the imported text.
    pub fn display_system(&self) -> (r: &str)
        ensures
            r@ == self.display_system_spec(),
    {
        match &self.resolved_system_name {
            Some(name) => name.as_str(),
            None => self.input_system.as_str(),
        }
    }

    pub open spec fn valid_spec(&self) -> bool {
        self.resolved_system_id is Some && self.error is None
    }

    pub fn valid(&self) -> (r: bool)
        ensures
            r == self.valid_spec(),
    {
        self.resolved_system_id.is_some() && self.error.is_none()
    }
}

#[derive(Clone, Copy, Debug, PartialEq, Eq, Structural)]
pub enum FobImportSortColumn {
    Use,
    System,
    Region,
    LastSeenUtc,
    ClaimedBy,
}

impl FobImportSortColumn {
    /// Text columns sort A to Z first; the selection and the time put
    /// selected and recent rows first.
    pub fn default_ascending(self) -> (r: bool)
        ensures
            r == (self == FobImportSortColumn::System || self == FobImportSortColumn::Region
                || self == FobImportSortColumn::ClaimedBy),
    {
        match self {
            FobImportSortColumn::Use => false,
            FobImportSortColumn::System | FobImportSortColumn::Region
            | FobImportSortColumn::ClaimedBy => true,
            FobImportSortColumn::LastSeenUtc => false,
        }
    }
}

/// Three-way comparison of two texts after lowering ASCII letters.
pub open spec fn compare_text_spec(left: Seq<char>, right: Seq<char>) -> Ordering {
    let l = codes(lower_seq(left));
    let r = codes(lower_seq(right));
    if codes_lt(l, r) {
        Ordering::Less
    } else if l == r {
        Ordering::Equal
    } else {
        Ordering::Greater
    }
}

pub fn compare_text(left: &str, right: &str) -> (r: Ordering)
    ensures
        r == compare_text_spec(left@, right@),
{
    let l = lower_chars(&chars_of(left));
    let r = lower_chars(&chars_of(right));
    proof {
        lemma_codes_lt_total(codes(l@), codes(r@));
    }
    if crate::text::chars_lt(&l, &r) {
        Ordering::Less
    } else if crate::text::chars_lt(&r, &l) {
        Ordering::Greater
    } else {
        Ordering::Equal
    }
}

pub open spec fn bool_cmp(a: bool, b: bool) -> Ordering {
    if a == b {
        Ordering::Equal
    } else if !a {
        Ordering::Less
    } else {
        Ordering::Greater
    }
}

pub open spec fn compare_rows_spec(
    left: FobImportSystem,
    right: FobImportSystem,
    column: FobImportSortColumn,
) -> Ordering {
    match column {
        FobImportSortColumn::Use => {
            let o = bool_cmp(left.selected, right.selected);
            if o == Ordering::Equal {
                bool_cmp(left.valid_spec(), right.valid_spec())
            } else {
                o
            }
        },
        FobImportSortColumn::System => compare_text_spec(
            left.display_system_spec(),
            right.display_system_spec(),
        ),
        FobImportSortColumn::Region => compare_text_spec(left.region@, right.region@),
        FobImportSortColumn::LastSeenUtc => compare_text_spec(
            left.last_seen_utc@,
            right.last_seen_utc@,
        ),
        FobImportSortColumn::ClaimedBy => compare_text_spec(left.claimed_by@, right.claimed_by@),
    }
}

fn compare_bools(a: bool, b: bool) -> (r: Ordering)
    ensures
        r == bool_cmp(a, b),
{
    if a == b {
        Ordering::Equal
    } else if !a {
        Ordering::Less
    } else {
        Ordering::Greater
    }
}

/// How two imported rows compare in a column: unselected before selected
/// (then invalid before valid), texts ignoring ASCII case.
pub fn compare_fob_import_rows(
    left: &FobImportSystem,
    right: &FobImportSystem,
    column: FobImportSortColumn,
) -> (r: Ordering)
    ensures
        r == compare_rows_spec(*left, *right, column),
{
    match column {
        FobImportSortColumn::Use => {
            let o = compare_bools(left.selected, right.selected);
            match o {
                Ordering::Equal => compare_bools(left.valid(), right.valid()),
                _ => o,
            }
        },
        FobImportSortColumn::System => compare_text(left.display_system(), right.display_system()),
        FobImportSortColumn::Region => compare_text(left.region.as_str(), right.region.as_str()),
        FobImportSortColumn::LastSeenUtc => compare_text(
            left.last_seen_utc.as_str(),
            right.last_seen_utc.as_str(),
        ),
        FobImportSortColumn::ClaimedBy => compare_text(
            left.claimed_by.as_str(),
            right.claimed_by.as_str(),
        ),
    }
}

// ---------------------------------------------------------------------
// Waypoint batches
// ---------------------------------------------------------------------

#[derive(Clone, Debug)]
pub struct WaypointBatchSummary {
    pub destination_name: String,
    pub destination_id: i64,
    pub total: usize,
    pub completed: usize,
    pub active: usize,
    pub successes: usize,
    pub failures: usize,
    pub skipped: usize,
    pub in_progress: bool,
    pub latest_error: Option<String>,
}

pub open spec fn dec(n: usize) -> Seq<char> {
    decimal(n as nat)
}

/// `"{name} ({id})"`, or just the name when the ID is not positive.
pub open spec fn destination_text(name: Seq<char>, id: i64) -> Seq<char> {
    if id > 0 {
        name + " ("@ + signed_decimal(id as int) + ")"@
    } else {
        name
    }
}

pub open spec fn error_suffix(e: Option<String>) -> Seq<char> {
    match e {
        Some(e) => "; latest error: "@ + e@,
        None => Seq::empty(),
    }
}

fn push_usize(out: &mut Vec<char>, n: usize)
    ensures
        final(out)@ == old(out)@ + dec(n),
{
    push_decimal(out, n as u64);
}

fn push_destination(out: &mut Vec<char>, name: &str, id: i64)
    ensures
        final(out)@ == old(out)@ + destination_text(name@, id),
{
    push_str(out, name);
    if id > 0 {
        push_str(out, " (");
        push_signed_decimal(out, id);
        push_str(out, ")");
    }
}

fn push_error_suffix(out: &mut Vec<char>, e: &Option<String>)
    ensures
        final(out)@ == old(out)@ + error_suffix(*e),
{
    match e {
        Some(e) => {
            push_str(out, "; latest error: ");
            push_str(out, e.as_str());
        },
        None => {
            assert(old(out)@ + Seq::<char>::empty() =~= old(out)@);
        },
    }
}

impl WaypointBatchSummary {
    pub open spec fn summary_line_spec(&self) -> Seq<char> {
        let destination = destination_text(self.destination_name@, self.destination_id);
        if self.in_progress {
            let active = if self.active > 0 {
                ", "@ + dec(self.active) + " sending"@
            } else {
                Seq::empty()
            };
            destination + " -> "@ + dec(self.completed) + "/"@ + dec(self.total) + " complete"@
                + active + ", "@ + dec(self.successes) + " sent, "@ + dec(self.failures)
                + " failed, "@ + dec(self.skipped) + " skipped"@
        } else {
            destination + " -> "@ + dec(self.successes) + " sent, "@ + dec(self.failures)
                + " failed, "@ + dec(self.skipped) + " skipped"@
        }
    }

    pub fn summary_line(&self) -> (r: String)
        ensures
            r@ == self.summary_line_spec(),
    {
        let mut out: Vec<char> = Vec::new();
        push_destination(&mut out, self.destination_name.as_str(), self.destination_id);
        push_str(&mut out, " -> ");
        if self.in_progress {
            push_usize(&mut out, self.completed);
            push_str(&mut out, "/");
            push_usize(&mut out, self.total);
            push_str(&mut out, " complete");
            if self.active > 0 {
                push_str(&mut out, ", ");
                push_usize(&mut out, self.active);
                push_str(&mut out, " sending");
            }
            push_str(&mut out, ", ");
        }
        push_usize(&mut out, self.successes);
        push_str(&mut out, " sent, ");
        push_usize(&mut out, self.failures);
        push_str(&mut out, " failed, ");
        push_usize(&mut out, self.skipped);
        push_str(&mut out, " skipped");
        assert(out@ =~= self.summary_line_spec());
        string_of(&out)
    }

    pub open spec fn progress_text_spec(&self) -> Seq<char> {
        if self.destination_id == 0 {
            dec(self.completed) + "/"@ + dec(self.total) + " characters"@
        } else if self.in_progress && self.active > 0 {
            dec(self.completed) + "/"@ + dec(self.total) + " done, "@ + dec(self.active)
                + " sending"@
        } else {
            dec(self.completed) + "/"@ + dec(self.total)
        }
    }

    pub fn progress_text(&self) -> (r: String)
        ensures
            r@ == self.progress_text_spec(),
    {
        let mut out: Vec<char> = Vec::new();
        push_usize(&mut out, self.completed);
        push_str(&mut out, "/");
        push_usize(&mut out, self.total);
        if self.destination_id == 0 {
            push_str(&mut out, " characters");
        } else if self.in_progress && self.active > 0 {
            push_str(&mut out, " done, ");
            push_usize(&mut out, self.active);
            push_str(&mut out, " sending");
        }
        assert(out@ =~= self.progress_text_spec());
        string_of(&out)
    }

    pub open spec fn status_message_spec(&self) -> Seq<char> {
        self.summary_line_spec() + error_suffix(self.latest_error)
    }

    pub fn status_message(&self) -> (r: String)
        ensures
            r@ == self.status_message_spec(),
    {
        let line = self.summary_line();
        let mut out = chars_of(line.as_str());
        push_error_suffix(&mut out, &self.latest_error);
        string_of(&out)
    }
}

#[derive(Clone, Debug)]
pub struct WaypointSendProgress {
    pub destination_name: String,
    pub destination_id: i64,
    pub total: usize,
    pub completed: usize,
    pub active: usize,
    pub successes: usize,
    pub failures: usize,
    pub skipped: usize,
    pub latest_error: Option<String>,
}

impl WaypointSendProgress {
    pub open spec fn summary_view(&self, in_progress: bool) -> WaypointBatchSummary {
        WaypointBatchSummary {
            destination_name: self.destination_name,
            destination_id: self.destination_id,
            total: self.total,
            completed: self.completed,
            active: self.active,
            successes: self.successes,
            failures: self.failures,
            skipped: self.skipped,
            in_progress,
            latest_error: self.latest_error,
        }
    }

    /// The batch summary of this progress, marked as running or not.
    pub fn summary(&self, in_progress: bool) -> (r: WaypointBatchSummary)
        ensures
            r == self.summary_view(in_progress),
            r.destination_name@ == self.destination_name@,
            r.destination_id == self.destination_id,
            r.total == self.total,
            r.completed == self.completed,
            r.active == self.active,
            r.successes == self.successes,
            r.failures == self.failures,
            r.skipped == self.skipped,
            r.in_progress == in_progress,
            r.latest_error == self.latest_error,
    {
        WaypointBatchSummary {
            destination_name: self.destination_name.clone(),
            destination_id: self.destination_id,
            total: self.total,
            completed: self.completed,
            active: self.active,
            successes: self.successes,
            failures: self.failures,
            skipped: self.skipped,
            in_progress,
            latest_error: match &self.latest_error {
                Some(e) => Some(e.clone()),
                None => None,
            },
        }
    }

    pub open spec fn status_message_spec(&self) -> Seq<char> {
        "Sending "@ + self.destination_name@ + ": "@ + dec(self.completed) + "/"@ + dec(self.total)
            + " complete, "@ + dec(self.active) + " sending, "@ + dec(self.successes)
            + " sent, "@ + dec(self.failures) + " failed"@ + error_suffix(self.latest_error)
    }

    pub fn status_message(&self) -> (r: String)
        ensures
            r@ == self.status_message_spec(),
    {
        let mut out: Vec<char> = Vec::new();
        push_str(&mut out, "Sending ");
        push_str(&mut out, self.destination_name.as_str());
        push_str(&mut out, ": ");
        push_usize(&mut out, self.completed);
        push_str(&mut out, "/");
        push_usize(&mut out, self.total);
        push_str(&mut out, " complete, ");
        push_usize(&mut out, self.active);
        push_str(&mut out, " sending, ");
        push_usize(&mut out, self.successes);
        push_str(&mut out, " sent, ");
        push_usize(&mut out, self.failures);
        push_str(&mut out, " failed");
        push_error_suffix(&mut out, &self.latest_error);
        assert(out@ =~= self.status_message_spec());
        string_of(&out)
    }
}

// ---------------------------------------------------------------------
// Characters
// ---------------------------------------------------------------------

#[derive(Debug)]
pub struct CharacterState {
    pub character_id: u64,
    pub character_name: String,
    pub added_at_unix_seconds: u64,
    pub scopes: Vec<String>,
    pub selected: bool,
    pub last_send_result: Option<CharacterSendResult>,
    pub access_token: Option<String>,
    /// When the access token expires, in Unix seconds.
    pub expires_at: Option<u64>,
    pub refresh_token_saved: bool,
}

/// An access token kept from an earlier run, with its expiry in Unix
/// seconds.
#[derive(Clone, Debug)]
pub struct CachedAccessToken {
    pub access_token: String,
    pub expires_at: u64,
}

impl CharacterState {
    /// A saved character, with the access token cached for it if the
    /// token store had one.
    pub fn from_config(character: CharacterConfig, cached: Option<CachedAccessToken>) -> (r: Self)
        ensures
            r.character_id == character.character_id,
            r.character_name == character.character_name,
            r.added_at_unix_seconds == character.added_at_unix_seconds,
            r.scopes == character.scopes,
            r.selected == character.selected,
            r.last_send_result is None,
            r.refresh_token_saved,
            match cached {
                Some(t) => r.access_token == Some(t.access_token) && r.expires_at == Some(t.expires_at),
                None => r.access_token is None && r.expires_at is None,
            },
    {
        let (access_token, expires_at) = match cached {
            Some(token) => (Some(token.access_token), Some(token.expires_at)),
            None => (None, None),
        };
        CharacterState {
            character_id: character.character_id,
            character_name: character.character_name,
            added_at_unix_seconds: character.added_at_unix_seconds,
            scopes: character.scopes,
            selected: character.selected,
            last_send_result: None,
            access_token,
            expires_at,
            refresh_token_saved: true,
        }
    }

    /// A character that has just logged in.
    pub fn from_login(character: CharacterConfig, access_token: String, expires_at: u64) -> (r: Self)
        ensures
            r.character_id == character.character_id,
            r.character_name == character.character_name,
            r.added_at_unix_seconds == character.added_at_unix_seconds,
            r.scopes == character.scopes,
            r.selected == character.selected,
            r.last_send_result is None,
            r.access_token == Some(access_token),
            r.expires_at == Some(expires_at),
            r.refresh_token_saved,
    {
        CharacterState {
            character_id: character.character_id,
            character_name: character.character_name,
            added_at_unix_seconds: character.added_at_unix_seconds,
            scopes: character.scopes,
            selected: character.selected,
            last_send_result: None,
            access_token: Some(access_token),
            expires_at: Some(expires_at),
            refresh_token_saved: true,
        }
    }

    pub fn has_access_token(&self) -> (r: bool)
        ensures
            r == self.access_token is Some,
    {
        self.access_token.is_some()
    }

    pub fn update_access_token(&mut self, access_token: String, expires_at: u64, scopes: Vec<String>)
        ensures
            final(self).access_token == Some(access_token),
            final(self).expires_at == Some(expires_at),
            final(self).scopes == scopes,
            final(self).character_id == old(self).character_id,
            final(self).character_name == old(self).character_name,
            final(self).added_at_unix_seconds == old(self).added_at_unix_seconds,
            final(self).selected == old(self).selected,
            final(self).last_send_result == old(self).last_send_result,
            final(self).refresh_token_saved == old(self).refresh_token_saved,
    {
        self.access_token = Some(access_token);
        self.expires_at = Some(expires_at);
        self.scopes = scopes;
    }

    /// The token line at the Unix time `now`.
    pub open spec fn token_summary_spec(&self, now: u64) -> Seq<char> {
        let access: Seq<char> = match (self.access_token, self.expires_at) {
            (Some(_), Some(e)) => if e >= now {
                "access token loaded, expires in "@ + decimal((e - now) as nat) + "s"@
            } else {
                "access token expired"@
            },
            (Some(_), None) => "access token loaded"@,
            (None, _) => "access token needs refresh"@,
        };
        let refresh: Seq<char> = if self.refresh_token_saved {
            "refresh token saved"@
        } else {
            "no refresh token"@
        };
        dec(self.scopes.len()) + " scopes, "@ + access + ", "@ + refresh
    }

    pub fn token_summary_at(&self, now: u64) -> (r: String)
        ensures
            r@ == self.token_summary_spec(now),
    {
        let mut out: Vec<char> = Vec::new();
        push_usize(&mut out, self.scopes.len());
        push_str(&mut out, " scopes, ");
        match (&self.access_token, self.expires_at) {
            (Some(_), Some(e)) => {
                if e >= now {
                    push_str(&mut out, "access token loaded, expires in ");
                    push_decimal(&mut out, e - now);
                    push_str(&mut out, "s");
                } else {
                    push_str(&mut out, "access token expired");
                }
            },
            (Some(_), None) => push_str(&mut out, "access token loaded"),
            (None, _) => push_str(&mut out, "access token needs refresh"),
        }
        push_str(&mut out, ", ");
        if self.refresh_token_saved {
            push_str(&mut out, "refresh token saved");
        } else {
            push_str(&mut out, "no refresh token");
        }
        assert(out@ =~= self.token_summary_spec(now));
        string_of(&out)
    }

    /// The token line now.
    pub fn token_summary(&self) -> (r: String)
        ensures
            exists|now: u64| r@ == self.token_summary_spec(now),
    {
        let now = unix_seconds_now();
        self.token_summary_at(now)
    }
}

/// Reads the system clock (`SystemTime::now`) as whole seconds since the
/// Unix epoch, 0 for a clock set before it.  Nothing is claimed of the
/// value: it is whatever the clock says.
#[verifier::external_body]
pub(crate) fn unix_seconds_now() -> u64 {
    std::time::SystemTime::now().duration_since(std::time::UNIX_EPOCH).unwrap_or_default().as_secs()
}

/// `now + expires_in`, or the largest time when that does not fit.
pub open spec fn expires_at_spec(now: u64, expires_in: u64) -> u64 {
    if now + expires_in <= u64::MAX { (now + expires_in) as u64 } else { u64::MAX }
}

/// The Unix time `expires_in` seconds after `now`.
pub fn expires_at_from(now: u64, expires_in: u64) -> (r: u64)
    ensures
        r == expires_at_spec(now, expires_in),
{
    now.saturating_add(expires_in)
}

/// When a token that lasts `expires_in` seconds from now expires: that
/// many seconds after the clock reading, as `expires_at_from` counts them.
/// The reading itself is whatever the system clock says.
pub fn expires_at_from_now(expires_in: u64) -> (r: u64)
    ensures
        exists|now: u64| r == expires_at_spec(now, expires_in),
        r >= expires_in,
{
    expires_at_from(unix_seconds_now(), expires_in)
}

/// An access token is used as it is only while it has more than this many
/// seconds left.
pub const ACCESS_TOKEN_REFRESH_BUFFER_SECONDS: u64 = 60;

/// A cached access token is still good at `now` when it outlives `now` by
/// more than the refresh buffer.
pub open spec fn token_fresh_at(access_token: Option<String>, expires_at: Option<u64>, now: u64) -> bool {
    access_token is Some && (expires_at matches Some(e) && e > now + ACCESS_TOKEN_REFRESH_BUFFER_SECONDS)
}

pub fn access_token_is_fresh_at(access_token: &Option<String>, expires_at: Option<u64>, now: u64) -> (r: bool)
    ensures
        r == token_fresh_at(*access_token, expires_at, now),
{
    match expires_at {
        Some(e) => access_token.is_some() && now <= u64::MAX - ACCESS_TOKEN_REFRESH_BUFFER_SECONDS
            && e > now + ACCESS_TOKEN_REFRESH_BUFFER_SECONDS,
        None => false,
    }
}

/// Whether a cached access token can be used now without a refresh: it
/// is fresh at the clock reading, which is whatever the system clock says.
pub fn access_token_is_fresh(access_token: &Option<String>, expires_at: Option<u64>) -> (r: bool)
    ensures
        exists|now: u64| r == token_fresh_at(*access_token, expires_at, now),
        r ==> access_token is Some && expires_at is Some,
{
    access_token_is_fresh_at(access_token, expires_at, unix_seconds_now())
}

} // verus!
