//! What the desktop application remembers while it runs, and what each of
//! the user's actions does to it.
//!
//! The application performs the outside work that an action calls for
//! (saving the settings file, the keyring, the workers that send
//! waypoints) and reports back how it went.

use vstd::prelude::*;
use crate::config::{AppConfig, CharacterConfig};
use crate::models::{
    AppTab, CharacterSendResult, CharacterSort, CharacterSortColumn, CharacterState, FavoriteDestination,
    FobImportSortColumn, FobImportSystem, ResolvedDestinationDisplay, WaypointBatchSummary, WaypointSendProgress,
};
use crate::sorting::{KeyPart, before, codes_of, is_order_of, key_rel, sign, sort_order, sorted_by_key, text_rel};
use crate::text::{chars_of, codes, push_all, push_decimal, push_signed_decimal, push_str, string_of};
use crate::waypoints::{WaypointOptions, WaypointRouteMode};

verus! {

broadcast use vstd::string::group_string_axioms;

/// The message shown while a batch of waypoints is being sent.
pub const WAIT_FOR_SEND: &'static str = "Wait for the current waypoint send to finish";

/// What the application remembers while it runs.
pub struct Session {
    pub active_tab: AppTab,
    pub characters: Vec<CharacterState>,
    pub character_sort: CharacterSort,
    pub destination: String,
    pub favorite_destination_input: String,
    pub favorites: Vec<FavoriteDestination>,
    /// The nickname being edited for each favourite, by destination ID.
    pub favorite_nickname_edits: std::collections::BTreeMap<i64, String>,
    pub waypoint_route_mode: WaypointRouteMode,
    pub status_message: String,
    pub sde_cache_status: String,
    pub esi_client_id: String,
    pub fob_import_open: bool,
    pub fob_import_text: String,
    pub fob_import_rows: Vec<FobImportSystem>,
    pub fob_import_messages: Vec<String>,
    pub fob_import_sort_column: FobImportSortColumn,
    pub fob_import_sort_ascending: bool,
    pub route_graph_ready: bool,
    pub sde_cache_in_progress: bool,
    pub last_resolved_destination: Option<ResolvedDestinationDisplay>,
    pub pending_remove_character_id: Option<u64>,
    pub pending_remove_favorite_destination_id: Option<i64>,
    pub config: AppConfig,
    pub login_in_progress: bool,
    pub waypoint_send_in_progress: bool,
    pub waypoint_send_progress: Option<WaypointSendProgress>,
    pub last_waypoint_batch: Option<WaypointBatchSummary>,
    pub last_waypoint_request: Option<WaypointSendRequest>,
}

/// A batch of waypoints to send: its name, the destination ID (0 for an
/// optimised route) and what to send.
#[derive(Clone, Debug)]
pub struct WaypointSendRequest {
    pub destination_name: String,
    pub destination_id: i64,
    pub kind: WaypointSendRequestKind,
}

#[derive(Clone, Debug)]
pub enum WaypointSendRequestKind {
    /// One waypoint with these options.
    Single { options: WaypointOptions },
    /// The stops of an imported route, in the order the optimiser finds
    /// from each character's location.
    OptimizedRoute { destinations: Vec<crate::sde::RouteDestination> },
}

/// The selection flag of each character.
pub open spec fn selections(cs: Seq<CharacterState>) -> Seq<bool> {
    cs.map_values(|c: CharacterState| c.selected)
}

/// The IDs of the selected characters, in order.
pub open spec fn selected_ids(cs: Seq<CharacterState>) -> Seq<u64>
    decreases cs.len(),
{
    if cs.len() == 0 {
        Seq::empty()
    } else if cs.last().selected {
        selected_ids(cs.drop_last()).push(cs.last().character_id)
    } else {
        selected_ids(cs.drop_last())
    }
}

/// The position of the first character with this ID.
pub open spec fn state_index(cs: Seq<CharacterState>, id: u64) -> Option<int>
    decreases cs.len(),
{
    if cs.len() == 0 {
        None
    } else if cs[0].character_id == id {
        Some(0)
    } else {
        match state_index(cs.drop_first(), id) {
            Some(i) => Some(i + 1),
            None => None,
        }
    }
}

pub proof fn lemma_state_index(cs: Seq<CharacterState>, id: u64)
    ensures
        match state_index(cs, id) {
            Some(i) => 0 <= i < cs.len() && cs[i].character_id == id && forall|j: int|
                0 <= j < i ==> #[trigger] cs[j].character_id != id,
            None => forall|j: int| 0 <= j < cs.len() ==> #[trigger] cs[j].character_id != id,
        },
    decreases cs.len(),
{
    if cs.len() > 0 {
        lemma_state_index(cs.drop_first(), id);
        if cs[0].character_id != id {
            assert forall|j: int| 0 < j < cs.len() implies cs[j] == cs.drop_first()[j - 1] by {}
        }
    }
}

fn find_state(cs: &Vec<CharacterState>, id: u64) -> (r: Option<usize>)
    ensures
        match r {
            Some(i) => state_index(cs@, id) == Some(i as int),
            None => state_index(cs@, id) is None,
        },
{
    proof {
        lemma_state_index(cs@, id);
    }
    let mut i: usize = 0;
    while i < cs.len()
        invariant
            i <= cs.len(),
            forall|j: int| 0 <= j < i ==> #[trigger] cs@[j].character_id != id,
            match state_index(cs@, id) {
                Some(k) => 0 <= k < cs.len() && cs@[k].character_id == id && forall|j: int|
                    0 <= j < k ==> #[trigger] cs@[j].character_id != id,
                None => forall|j: int| 0 <= j < cs.len() ==> #[trigger] cs@[j].character_id != id,
            },
        decreases cs.len() - i,
    {
        if cs[i].character_id == id {
            return Some(i);
        }
        i = i + 1;
    }
    None
}

/// `c` with another selection flag.
pub open spec fn with_selected(c: CharacterState, selected: bool) -> CharacterState {
    CharacterState { selected, ..c }
}

/// `c` without a send result.
pub open spec fn without_result(c: CharacterState) -> CharacterState {
    CharacterState { last_send_result: None, ..c }
}

/// Every character without a send result.
pub open spec fn cleared(cs: Seq<CharacterState>) -> Seq<CharacterState> {
    cs.map_values(|c: CharacterState| without_result(c))
}

/// The saved characters with the selection of the running ones: each saved
/// character takes the flag of the first running character with its ID.
pub open spec fn synced_selection(saved: Seq<CharacterConfig>, running: Seq<CharacterState>) -> Seq<CharacterConfig> {
    saved.map_values(
        |c: CharacterConfig|
            match state_index(running, c.character_id) {
                Some(i) => CharacterConfig { selected: running[i].selected, ..c },
                None => c,
            },
    )
}

/// The nickname of each favourite by destination ID; of two favourites
/// with one ID, the later one's.
pub open spec fn nickname_map(favorites: Seq<FavoriteDestination>) -> Map<i64, String>
    decreases favorites.len(),
{
    if favorites.len() == 0 {
        Map::empty()
    } else {
        nickname_map(favorites.drop_last()).insert(favorites.last().destination_id, favorites.last().nickname)
    }
}

proof fn lemma_integer_keys_ordered()
    ensures
        vstd::laws_cmp::obeys_cmp::<i64>(),
{
    broadcast use vstd::laws_cmp::group_laws_cmp;
}

/// The nickname edits the favourites start from.
fn nickname_edits(favorites: &Vec<FavoriteDestination>) -> (r: std::collections::BTreeMap<i64, String>)
    ensures
        r@ == nickname_map(favorites@),
{
    let mut edits: std::collections::BTreeMap<i64, String> = std::collections::BTreeMap::new();
    let mut k: usize = 0;
    while k < favorites.len()
        invariant
            k <= favorites.len(),
            edits@ == nickname_map(favorites@.take(k as int)),
        decreases favorites.len() - k,
    {
        proof {
            lemma_integer_keys_ordered();
        }
        assert(favorites@.take(k + 1).drop_last() =~= favorites@.take(k as int));
        edits.insert(favorites[k].destination_id, favorites[k].nickname.clone());
        k = k + 1;
    }
    assert(favorites@.take(favorites.len() as int) =~= favorites@);
    edits
}

/// What holds right after start-up, whatever the saved settings: the
/// favourites and the client ID read from the settings, the default tab,
/// sort and route mode, and nothing under way.
pub open spec fn fresh(r: Session) -> bool {
    &&& r.sde_cache_in_progress
    &&& r.esi_client_id@ == r.config.esi.client_id@
    &&& r.favorites@.len() == r.config.favorites@.len()
    &&& forall|i: int|
        0 <= i < r.favorites@.len() ==> FavoriteDestination::read_from(#[trigger] r.favorites@[i], r.config.favorites@[i])
    &&& r.favorite_nickname_edits@ == nickname_map(r.favorites@)
    &&& r.active_tab == AppTab::Destination
    &&& r.character_sort == (CharacterSort { column: CharacterSortColumn::Name, ascending: true })
    &&& r.waypoint_route_mode == WaypointRouteMode::ReplaceRoute
    &&& !r.login_in_progress && !r.waypoint_send_in_progress && !r.fob_import_open
    &&& r.waypoint_send_progress is None && r.last_waypoint_batch is None && r.last_waypoint_request is None
    &&& r.pending_remove_character_id is None && r.pending_remove_favorite_destination_id is None
    &&& r.last_resolved_destination is None
    &&& r.fob_import_rows@.len() == 0 && r.fob_import_messages@.len() == 0
    &&& r.destination@.len() == 0 && r.favorite_destination_input@.len() == 0 && r.fob_import_text@.len() == 0
}

/// A character read from its saved entry, with the access token cached
/// for it if there was one.
pub open spec fn loaded_character(c: CharacterState, saved: CharacterConfig, cached: Option<crate::models::CachedAccessToken>) -> bool {
    &&& c.character_id == saved.character_id
    &&& c.character_name == saved.character_name
    &&& c.added_at_unix_seconds == saved.added_at_unix_seconds
    &&& c.scopes@ == saved.scopes@
    &&& c.selected == saved.selected
    &&& c.last_send_result is None
    &&& c.refresh_token_saved
    &&& match cached {
        Some(t) => c.access_token == Some(t.access_token) && c.expires_at == Some(t.expires_at),
        None => c.access_token is None && c.expires_at is None,
    }
}

/// The token cached for the `i`-th saved character, if one was handed in.
pub open spec fn cached_at(tokens: Seq<Option<crate::models::CachedAccessToken>>, i: int) -> Option<crate::models::CachedAccessToken> {
    if 0 <= i < tokens.len() {
        tokens[i]
    } else {
        None
    }
}

impl Session {
    /// The state right after start-up: the saved settings, the characters
    /// read from them, and the favourites in their saved order.
    pub fn new(
        config: AppConfig,
        characters: Vec<CharacterState>,
        status_message: String,
        sde_cache_status: String,
        route_graph_ready: bool,
    ) -> (r: Session)
        ensures
            r.config == config,
            r.characters == characters,
            r.status_message == status_message,
            r.sde_cache_status == sde_cache_status,
            r.route_graph_ready == route_graph_ready,
            fresh(r),
    {
        let mut favorites: Vec<FavoriteDestination> = Vec::new();
        let mut i: usize = 0;
        while i < config.favorites.len()
            invariant
                i <= config.favorites.len(),
                favorites.len() == i,
                forall|k: int|
                    0 <= k < i ==> FavoriteDestination::read_from(#[trigger] favorites@[k], config.favorites@[k]),
            decreases config.favorites.len() - i,
        {
            let f = &config.favorites[i];
            let copy = crate::config::FavoriteDestinationConfig {
                destination_id: f.destination_id,
                destination_name: f.destination_name.clone(),
                destination_kind: f.destination_kind.clone(),
                nickname: f.nickname.clone(),
            };
            favorites.push(FavoriteDestination::from_config(copy));
            i = i + 1;
        }
        let edits = nickname_edits(&favorites);
        let esi_client_id = config.esi.client_id.clone();
        Session {
            active_tab: AppTab::Destination,
            characters,
            character_sort: CharacterSort::for_column(CharacterSortColumn::Name),
            destination: String::new(),
            favorite_destination_input: String::new(),
            favorites,
            favorite_nickname_edits: edits,
            waypoint_route_mode: WaypointRouteMode::ReplaceRoute,
            status_message,
            sde_cache_status,
            esi_client_id,
            fob_import_open: false,
            fob_import_text: String::new(),
            fob_import_rows: Vec::new(),
            fob_import_messages: Vec::new(),
            fob_import_sort_column: FobImportSortColumn::System,
            fob_import_sort_ascending: true,
            route_graph_ready,
            sde_cache_in_progress: true,
            last_resolved_destination: None,
            pending_remove_character_id: None,
            pending_remove_favorite_destination_id: None,
            config,
            login_in_progress: false,
            waypoint_send_in_progress: false,
            waypoint_send_progress: None,
            last_waypoint_batch: None,
            last_waypoint_request: None,
        }
    }

    /// The state at start-up from what loading the settings gave: the
    /// saved settings and "Ready", or, when they could not be read, the
    /// default settings and the reason.  Each saved character comes with
    /// the access token cached for it, `cached_tokens[i]` for the `i`-th
    /// (none where the list is shorter).
    pub fn from_saved(
        loaded: Result<AppConfig, String>,
        cached_tokens: Vec<Option<crate::models::CachedAccessToken>>,
        sde_cache_status: String,
        route_graph_ready: bool,
    ) -> (r: Session)
        ensures
            match loaded {
                Ok(config) => r.config == config && r.status_message@ == "Ready"@,
                Err(e) => r.config.esi.client_id@.len() == 0 && r.config.characters@.len() == 0
                    && r.config.favorites@.len() == 0 && r.status_message@ == "Failed to load config: "@ + e@,
            },
            r.characters@.len() == r.config.characters@.len(),
            forall|i: int|
                0 <= i < r.characters@.len() ==> loaded_character(
                    #[trigger] r.characters@[i],
                    r.config.characters@[i],
                    cached_at(cached_tokens@, i),
                ),
            r.sde_cache_status == sde_cache_status,
            r.route_graph_ready == route_graph_ready,
            fresh(r),
    {
        let (config, status_message) = match loaded {
            Ok(config) => (config, "Ready".to_string()),
            Err(e) => {
                let mut out: Vec<char> = Vec::new();
                push_str(&mut out, "Failed to load config: ");
                push_str(&mut out, e.as_str());
                (AppConfig::default(), string_of(&out))
            },
        };
        let mut characters: Vec<CharacterState> = Vec::new();
        let mut i: usize = 0;
        while i < config.characters.len()
            invariant
                i <= config.characters.len(),
                characters.len() == i,
                forall|k: int|
                    0 <= k < i ==> loaded_character(
                        #[trigger] characters@[k],
                        config.characters@[k],
                        cached_at(cached_tokens@, k),
                    ),
            decreases config.characters.len() - i,
        {
            let cached = if i < cached_tokens.len() {
                match &cached_tokens[i] {
                    Some(t) => Some(crate::models::CachedAccessToken { access_token: t.access_token.clone(), expires_at: t.expires_at }),
                    None => None,
                }
            } else {
                None
            };
            let saved = &config.characters[i];
            let copy = CharacterConfig {
                character_id: saved.character_id,
                character_name: saved.character_name.clone(),
                added_at_unix_seconds: saved.added_at_unix_seconds,
                scopes: copy_strings(&saved.scopes),
                selected: saved.selected,
            };
            characters.push(CharacterState::from_config(copy, cached));
            i = i + 1;
        }
        Session::new(config, characters, status_message, sde_cache_status, route_graph_ready)
    }

    pub fn login_in_progress(&self) -> (r: bool)
        ensures
            r == self.login_in_progress,
    {
        self.login_in_progress
    }

    pub fn waypoint_send_in_progress(&self) -> (r: bool)
        ensures
            r == self.waypoint_send_in_progress,
    {
        self.waypoint_send_in_progress
    }

    /// How many characters are selected.
    pub fn selected_character_count(&self) -> (r: usize)
        ensures
            r == selected_ids(self.characters@).len(),
    {
        let mut count: usize = 0;
        let mut i: usize = 0;
        while i < self.characters.len()
            invariant
                i <= self.characters.len(),
                count == selected_ids(self.characters@.take(i as int)).len(),
                count <= i,
            decreases self.characters.len() - i,
        {
            assert(self.characters@.take(i + 1).drop_last() =~= self.characters@.take(i as int));
            if self.characters[i].selected {
                count = count + 1;
            }
            i = i + 1;
        }
        assert(self.characters@.take(self.characters.len() as int) =~= self.characters@);
        count
    }

    /// The IDs of the selected characters, in list order.
    pub fn selected_character_ids(&self) -> (r: Vec<u64>)
        ensures
            r@ == selected_ids(self.characters@),
    {
        let mut ids: Vec<u64> = Vec::new();
        let mut i: usize = 0;
        while i < self.characters.len()
            invariant
                i <= self.characters.len(),
                ids@ == selected_ids(self.characters@.take(i as int)),
            decreases self.characters.len() - i,
        {
            assert(self.characters@.take(i + 1).drop_last() =~= self.characters@.take(i as int));
            if self.characters[i].selected {
                ids.push(self.characters[i].character_id);
            }
            i = i + 1;
        }
        assert(self.characters@.take(self.characters.len() as int) =~= self.characters@);
        ids
    }

    /// Sending a favourite needs a selected character and no batch under way.
    pub fn favorite_send_enabled(&self) -> (r: bool)
        ensures
            r == (!self.waypoint_send_in_progress && self.characters.len() > 0 && selected_ids(
                self.characters@,
            ).len() > 0),
    {
        !self.waypoint_send_in_progress() && self.characters.len() > 0 && self.selected_character_count() > 0
    }

    pub fn set_character_sort_column(&mut self, column: CharacterSortColumn)
        ensures
            final(self).character_sort == old(self).character_sort.toggled(column),
            final(self).characters == old(self).characters,
            final(self).config == old(self).config,
    {
        self.character_sort.toggle_column(column);
    }

    pub fn character_sort_marker(&self, column: CharacterSortColumn) -> (r: &'static str)
        ensures
            r@ == self.character_sort.marker_spec(column),
    {
        self.character_sort.marker(column)
    }

    /// Forgets every send result and the last batch.
    pub fn clear_send_results(&mut self)
        ensures
            final(self).characters@ == cleared(old(self).characters@),
            final(self).last_waypoint_batch is None,
            final(self).last_waypoint_request is None,
            final(self).config == old(self).config,
            final(self).status_message == old(self).status_message,
            final(self).waypoint_send_in_progress == old(self).waypoint_send_in_progress,
            final(self).waypoint_send_progress == old(self).waypoint_send_progress,
            final(self).pending_remove_character_id == old(self).pending_remove_character_id,
            final(self).favorites == old(self).favorites,
    {
        let mut list: Vec<CharacterState> = Vec::new();
        std::mem::swap(&mut list, &mut self.characters);
        let ghost before = list@;
        let mut i: usize = 0;
        while i < list.len()
            invariant
                i <= list.len(),
                list.len() == before.len(),
                forall|k: int| 0 <= k < i ==> #[trigger] list@[k] == without_result(before[k]),
                forall|k: int| i <= k < before.len() ==> #[trigger] list@[k] == before[k],
            decreases list.len() - i,
        {
            list[i].last_send_result = None;
            i = i + 1;
        }
        assert(list@ =~= cleared(before));
        std::mem::swap(&mut list, &mut self.characters);
        self.last_waypoint_batch = None;
        self.last_waypoint_request = None;
    }

    /// Copies each character's selection into the saved settings.
    fn save_character_selection(&mut self)
        ensures
            final(self).config.characters@ == synced_selection(old(self).config.characters@, old(self).characters@),
            final(self).config.favorites == old(self).config.favorites,
            final(self).config.esi == old(self).config.esi,
            final(self).characters == old(self).characters,
            final(self).status_message == old(self).status_message,
            final(self).last_waypoint_batch == old(self).last_waypoint_batch,
            final(self).last_waypoint_request == old(self).last_waypoint_request,
            final(self).waypoint_send_in_progress == old(self).waypoint_send_in_progress,
    {
        let mut saved_list: Vec<CharacterConfig> = Vec::new();
        std::mem::swap(&mut saved_list, &mut self.config.characters);
        let ghost saved = saved_list@;
        let mut i: usize = 0;
        while i < saved_list.len()
            invariant
                i <= saved_list.len(),
                saved_list.len() == saved.len(),
                forall|k: int| 0 <= k < i ==> #[trigger] saved_list@[k] == synced_selection(saved, self.characters@)[k],
                forall|k: int| i <= k < saved.len() ==> #[trigger] saved_list@[k] == saved[k],
            decreases saved_list.len() - i,
        {
            let id = saved_list[i].character_id;
            proof {
                lemma_state_index(self.characters@, id);
            }
            match find_state(&self.characters, id) {
                Some(j) => {
                    let selected = self.characters[j].selected;
                    saved_list[i].selected = selected;
                },
                None => {},
            }
            i = i + 1;
        }
        assert(saved_list@ =~= synced_selection(saved, self.characters@));
        std::mem::swap(&mut saved_list, &mut self.config.characters);
    }
}


/// Every character with the same selection, and no send result.
pub open spec fn all_selected(cs: Seq<CharacterState>, selected: bool) -> Seq<CharacterState> {
    cs.map_values(|c: CharacterState| without_result(with_selected(c, selected)))
}

/// Every character's selection flipped, and no send result.
pub open spec fn inverted(cs: Seq<CharacterState>) -> Seq<CharacterState> {
    cs.map_values(|c: CharacterState| without_result(with_selected(c, !c.selected)))
}

/// Why a character or favourite could not be removed.
#[derive(Clone, Debug)]
pub enum RemovalError {
    CharacterNotFound(u64),
    CharacterMissingFromConfig(u64),
}

pub open spec fn removal_error_text(e: RemovalError) -> Seq<char> {
    match e {
        RemovalError::CharacterNotFound(id) => "Character "@ + crate::text::decimal(id as nat) + " was not found"@,
        RemovalError::CharacterMissingFromConfig(id) => "Character "@ + crate::text::decimal(id as nat)
            + " was missing from config"@,
    }
}

impl RemovalError {
    pub fn message(&self) -> (r: String)
        ensures
            r@ == removal_error_text(*self),
    {
        let mut out: Vec<char> = Vec::new();
        match self {
            RemovalError::CharacterNotFound(id) => {
                push_str(&mut out, "Character ");
                push_decimal(&mut out, *id);
                push_str(&mut out, " was not found");
            },
            RemovalError::CharacterMissingFromConfig(id) => {
                push_str(&mut out, "Character ");
                push_decimal(&mut out, *id);
                push_str(&mut out, " was missing from config");
            },
        }
        string_of(&out)
    }
}

/// `prefix` followed by `text`.
fn prefixed(prefix: &str, text: &str) -> (r: String)
    ensures
        r@ == prefix@ + text@,
{
    let mut out: Vec<char> = Vec::new();
    push_str(&mut out, prefix);
    push_str(&mut out, text);
    string_of(&out)
}

impl Session {
    /// Selects or clears one character.  Nothing changes while a batch is
    /// being sent, for an unknown character, or when the flag is already
    /// so; otherwise send results are forgotten and the selection is copied
    /// into the settings, which the caller then saves (the result says
    /// whether to).
    pub fn set_character_selected(&mut self, character_id: u64, selected: bool) -> (save: bool)
        ensures
            old(self).waypoint_send_in_progress ==> final(self).status_message@ == WAIT_FOR_SEND@
                && status_only_changed(*old(self), *final(self)) && !save,
            !old(self).waypoint_send_in_progress ==> match state_index(old(self).characters@, character_id) {
                Some(i) => if old(self).characters@[i].selected == selected {
                    final(self).characters == old(self).characters && final(self).config == old(self).config
                        && final(self).status_message == old(self).status_message && !save
                } else {
                    let cs = cleared(old(self).characters@.update(i, with_selected(old(self).characters@[i], selected)));
                    &&& final(self).characters@ == cs
                    &&& final(self).config.characters@ == synced_selection(old(self).config.characters@, cs)
                    &&& final(self).config.favorites == old(self).config.favorites
                    &&& final(self).config.esi == old(self).config.esi
                    &&& final(self).last_waypoint_batch is None && final(self).last_waypoint_request is None
                    &&& final(self).status_message == old(self).status_message
                    &&& save
                },
                None => final(self).characters == old(self).characters && final(self).config == old(self).config
                    && final(self).status_message == old(self).status_message && !save,
            },
            final(self).waypoint_send_in_progress == old(self).waypoint_send_in_progress,
    {
        if self.waypoint_send_in_progress {
            self.status_message = WAIT_FOR_SEND.to_string();
            return false;
        }
        proof {
            lemma_state_index(self.characters@, character_id);
        }
        let i = match find_state(&self.characters, character_id) {
            Some(i) => i,
            None => {
                return false;
            },
        };
        if self.characters[i].selected == selected {
            return false;
        }
        self.characters[i].selected = selected;
        self.clear_send_results();
        self.save_character_selection();
        true
    }

    /// Selects or clears every character, with the same effects.
    pub fn set_all_characters_selected(&mut self, selected: bool) -> (save: bool)
        ensures
            old(self).waypoint_send_in_progress ==> final(self).status_message@ == WAIT_FOR_SEND@
                && status_only_changed(*old(self), *final(self)) && !save,
            !old(self).waypoint_send_in_progress ==> if forall|i: int|
                0 <= i < old(self).characters@.len() ==> (#[trigger] old(self).characters@[i]).selected == selected {
                final(self).characters == old(self).characters && final(self).config == old(self).config
                    && final(self).status_message == old(self).status_message && !save
            } else {
                let cs = all_selected(old(self).characters@, selected);
                &&& final(self).characters@ == cs
                &&& final(self).config.characters@ == synced_selection(old(self).config.characters@, cs)
                &&& final(self).config.favorites == old(self).config.favorites
                &&& final(self).config.esi == old(self).config.esi
                &&& final(self).last_waypoint_batch is None && final(self).last_waypoint_request is None
                &&& final(self).status_message == old(self).status_message
                &&& save
            },
            final(self).waypoint_send_in_progress == old(self).waypoint_send_in_progress,
    {
        if self.waypoint_send_in_progress {
            self.status_message = WAIT_FOR_SEND.to_string();
            return false;
        }
        let mut changed = false;
        let mut i: usize = 0;
        while i < self.characters.len()
            invariant
                i <= self.characters.len(),
                changed == exists|k: int| 0 <= k < i && (#[trigger] self.characters@[k]).selected != selected,
            decreases self.characters.len() - i,
        {
            if self.characters[i].selected != selected {
                changed = true;
            }
            i = i + 1;
        }
        if !changed {
            return false;
        }
        let mut list: Vec<CharacterState> = Vec::new();
        std::mem::swap(&mut list, &mut self.characters);
        let ghost before = list@;
        let mut i: usize = 0;
        while i < list.len()
            invariant
                i <= list.len(),
                list.len() == before.len(),
                forall|k: int| 0 <= k < i ==> #[trigger] list@[k] == without_result(with_selected(before[k], selected)),
                forall|k: int| i <= k < before.len() ==> #[trigger] list@[k] == before[k],
            decreases list.len() - i,
        {
            list[i].selected = selected;
            list[i].last_send_result = None;
            i = i + 1;
        }
        assert(list@ =~= all_selected(before, selected));
        std::mem::swap(&mut list, &mut self.characters);
        self.last_waypoint_batch = None;
        self.last_waypoint_request = None;
        self.save_character_selection();
        true
    }

    /// Flips every character's selection, with the same effects; an empty
    /// list is left alone.
    pub fn invert_character_selection(&mut self) -> (save: bool)
        ensures
            old(self).waypoint_send_in_progress ==> final(self).status_message@ == WAIT_FOR_SEND@
                && status_only_changed(*old(self), *final(self)) && !save,
            !old(self).waypoint_send_in_progress && old(self).characters.len() == 0 ==> final(self).characters
                == old(self).characters && final(self).config == old(self).config && !save,
            !old(self).waypoint_send_in_progress && old(self).characters.len() > 0 ==> {
                let cs = inverted(old(self).characters@);
                &&& final(self).characters@ == cs
                &&& final(self).config.characters@ == synced_selection(old(self).config.characters@, cs)
                &&& final(self).config.favorites == old(self).config.favorites
                &&& final(self).config.esi == old(self).config.esi
                &&& final(self).last_waypoint_batch is None && final(self).last_waypoint_request is None
                &&& final(self).status_message == old(self).status_message
                &&& save
            },
            final(self).waypoint_send_in_progress == old(self).waypoint_send_in_progress,
    {
        if self.waypoint_send_in_progress {
            self.status_message = WAIT_FOR_SEND.to_string();
            return false;
        }
        if self.characters.len() == 0 {
            return false;
        }
        let mut list: Vec<CharacterState> = Vec::new();
        std::mem::swap(&mut list, &mut self.characters);
        let ghost before = list@;
        let mut i: usize = 0;
        while i < list.len()
            invariant
                i <= list.len(),
                list.len() == before.len(),
                forall|k: int| 0 <= k < i ==> #[trigger] list@[k] == without_result(
                    with_selected(before[k], !before[k].selected),
                ),
                forall|k: int| i <= k < before.len() ==> #[trigger] list@[k] == before[k],
            decreases list.len() - i,
        {
            let flipped = !list[i].selected;
            list[i].selected = flipped;
            list[i].last_send_result = None;
            i = i + 1;
        }
        assert(list@ =~= inverted(before));
        std::mem::swap(&mut list, &mut self.characters);
        self.last_waypoint_batch = None;
        self.last_waypoint_request = None;
        self.save_character_selection();
        true
    }

    /// Saving the selection failed with `error`.
    pub fn selection_save_failed(&mut self, error: &str)
        ensures
            final(self).status_message@ == "Failed to save character selection: "@ + error@,
            final(self).characters == old(self).characters,
            final(self).config == old(self).config,
    {
        self.status_message = prefixed("Failed to save character selection: ", error);
    }

    /// Asks to confirm removing a character; ignored while a batch is being
    /// sent or for an unknown character.
    pub fn request_remove_character(&mut self, character_id: u64)
        ensures
            old(self).waypoint_send_in_progress ==> final(self).status_message@ == WAIT_FOR_SEND@
                && status_only_changed(*old(self), *final(self)),
            !old(self).waypoint_send_in_progress ==> final(self).status_message == old(self).status_message
                && final(self).pending_remove_character_id == (if state_index(
                old(self).characters@,
                character_id,
            ) is Some {
                Some(character_id)
            } else {
                old(self).pending_remove_character_id
            }),
            final(self).characters == old(self).characters,
            final(self).config == old(self).config,
    {
        if self.waypoint_send_in_progress {
            self.status_message = WAIT_FOR_SEND.to_string();
            return;
        }
        if find_state(&self.characters, character_id).is_some() {
            self.pending_remove_character_id = Some(character_id);
        }
    }

    pub fn cancel_remove_character(&mut self)
        ensures
            final(self).pending_remove_character_id is None,
            final(self).characters == old(self).characters,
            final(self).config == old(self).config,
            final(self).status_message == old(self).status_message,
    {
        self.pending_remove_character_id = None;
    }

    /// The name of a character about to be removed.
    pub fn character_to_remove(&self, character_id: u64) -> (r: Result<String, RemovalError>)
        ensures
            match state_index(self.characters@, character_id) {
                Some(i) => r matches Ok(name) && name@ == self.characters@[i].character_name@,
                None => r matches Err(RemovalError::CharacterNotFound(id)) && id == character_id,
            },
    {
        proof {
            lemma_state_index(self.characters@, character_id);
        }
        match find_state(&self.characters, character_id) {
            Some(i) => Ok(self.characters[i].character_name.clone()),
            None => Err(RemovalError::CharacterNotFound(character_id)),
        }
    }

    /// Finishes removing a character once its tokens are gone and `config`
    /// (the settings without it) is saved: the settings are taken over, the
    /// character leaves the list, a pending confirmation for it ends and
    /// send results are forgotten.
    pub fn finish_remove_character(&mut self, character_id: u64, character_name: &str, config: AppConfig)
        ensures
            final(self).config == config,
            final(self).characters@ == cleared(old(self).characters@.filter(
                |c: CharacterState| c.character_id != character_id,
            )),
            final(self).pending_remove_character_id == (if old(self).pending_remove_character_id == Some(character_id) {
                None
            } else {
                old(self).pending_remove_character_id
            }),
            final(self).last_waypoint_batch is None && final(self).last_waypoint_request is None,
            final(self).status_message@ == "Removed "@ + character_name@,
    {
        self.config = config;
        let mut list: Vec<CharacterState> = Vec::new();
        std::mem::swap(&mut list, &mut self.characters);
        let ghost before = list@;
        let mut kept: Vec<CharacterState> = Vec::new();
        let ghost mut k: int = 0;
        assert(before.skip(0) =~= before);
        while list.len() > 0
            invariant
                0 <= k <= before.len(),
                list@ == before.skip(k),
                kept@ == before.take(k).filter(|c: CharacterState| c.character_id != character_id),
            decreases list.len(),
        {
            let c = list.remove(0);
            proof {
                assert(c == before[k]);
                assert(before.take(k + 1) =~= before.take(k).push(before[k]));
                before.take(k).lemma_filter_push(before[k], |c: CharacterState| c.character_id != character_id);
                assert(list@ =~= before.skip(k + 1));
                k = k + 1;
            }
            if c.character_id != character_id {
                kept.push(c);
            }
        }
        assert(before.take(before.len() as int) =~= before);
        self.characters = kept;
        if self.pending_remove_character_id == Some(character_id) {
            self.pending_remove_character_id = None;
        }
        self.clear_send_results();
        self.status_message = prefixed("Removed ", character_name);
    }

    /// Removing a character failed with `error`.
    pub fn remove_character_failed(&mut self, error: &str)
        ensures
            final(self).status_message@ == "Failed to remove character: "@ + error@,
            final(self).characters == old(self).characters,
            final(self).config == old(self).config,
    {
        self.status_message = prefixed("Failed to remove character: ", error);
    }
}

/// The settings without a character: an error when it is not there.
pub fn config_without_character(config: AppConfig, character_id: u64) -> (r: Result<AppConfig, RemovalError>)
    ensures
        match crate::config::character_index(config.characters@, character_id) {
            Some(i) => r matches Ok(c) && c.characters@ == config.characters@.remove(i) && c.favorites@
                == config.favorites@ && c.esi == config.esi,
            None => r matches Err(RemovalError::CharacterMissingFromConfig(id)) && id == character_id,
        },
{
    proof {
        crate::config::lemma_character_index(config.characters@, character_id);
    }
    let mut config = config;
    match config.remove_character(character_id) {
        Some(_) => Ok(config),
        None => Err(RemovalError::CharacterMissingFromConfig(character_id)),
    }
}


// ---------------------------------------------------------------------
// The order of the character list
// ---------------------------------------------------------------------

pub open spec fn bool_num(b: bool) -> int {
    if b {
        1
    } else {
        0
    }
}

/// How two characters compare on the sorted column, in the sort's
/// direction: -1, 0 or 1.
pub open spec fn first_order(sort: CharacterSort, a: CharacterState, b: CharacterState) -> int {
    let o = match sort.column {
        CharacterSortColumn::Selected => sign(bool_num(a.selected) - bool_num(b.selected)),
        CharacterSortColumn::Name => text_rel(codes(a.character_name@), codes(b.character_name@)),
        CharacterSortColumn::AddedAt => sign(a.added_at_unix_seconds - b.added_at_unix_seconds),
    };
    if sort.ascending {
        o
    } else {
        -o
    }
}

/// How two characters compare in the list: by the sorted column, then by
/// name, then by ID.
pub open spec fn character_order(sort: CharacterSort, a: CharacterState, b: CharacterState) -> int {
    let f = first_order(sort, a, b);
    if f != 0 {
        f
    } else {
        let n = text_rel(codes(a.character_name@), codes(b.character_name@));
        if n != 0 {
            n
        } else {
            sign(a.character_id - b.character_id)
        }
    }
}

/// `order` lists the characters sorted, equals in list order.
pub open spec fn characters_sorted(sort: CharacterSort, cs: Seq<CharacterState>, order: Seq<usize>) -> bool {
    forall|p: int, q: int|
        0 <= p < q < order.len() ==> {
            let o = character_order(sort, cs[#[trigger] order[p] as int], cs[#[trigger] order[q] as int]);
            o < 0 || (o == 0 && order[p] < order[q])
        }
}

pub open spec fn character_key_ok(sort: CharacterSort, c: CharacterState, k: Seq<KeyPart>) -> bool {
    &&& k.len() == 3
    &&& (k[1] matches KeyPart::Text(v) && v@ == codes(c.character_name@))
    &&& k[2] == KeyPart::Num(c.character_id as i128)
    &&& match sort.column {
        CharacterSortColumn::Selected => k[0] == KeyPart::Num(
            (if sort.ascending { bool_num(c.selected) } else { -bool_num(c.selected) }) as i128,
        ),
        CharacterSortColumn::Name => if sort.ascending {
            k[0] matches KeyPart::Text(v) && v@ == codes(c.character_name@)
        } else {
            k[0] matches KeyPart::TextDesc(v) && v@ == codes(c.character_name@)
        },
        CharacterSortColumn::AddedAt => k[0] == KeyPart::Num(
            (if sort.ascending { c.added_at_unix_seconds as int } else { -(c.added_at_unix_seconds as int) }) as i128,
        ),
    }
}

proof fn lemma_character_key(sort: CharacterSort, a: CharacterState, b: CharacterState, ka: Seq<KeyPart>, kb: Seq<KeyPart>)
    requires
        character_key_ok(sort, a, ka),
        character_key_ok(sort, b, kb),
    ensures
        key_rel(ka, kb) == character_order(sort, a, b),
{
    crate::sorting::lemma_key_rel_three(ka, kb);
    crate::sorting::lemma_text_rel(codes(a.character_name@), codes(b.character_name@), codes(a.character_name@));
}

fn character_key(sort: CharacterSort, c: &CharacterState) -> (r: Vec<KeyPart>)
    ensures
        character_key_ok(sort, *c, r@),
{
    let first = match sort.column {
        CharacterSortColumn::Selected => {
            let v: i128 = if c.selected { 1 } else { 0 };
            KeyPart::Num(if sort.ascending { v } else { -v })
        },
        CharacterSortColumn::Name => {
            let v = codes_of(c.character_name.as_str());
            if sort.ascending {
                KeyPart::Text(v)
            } else {
                KeyPart::TextDesc(v)
            }
        },
        CharacterSortColumn::AddedAt => {
            let v = c.added_at_unix_seconds as i128;
            KeyPart::Num(if sort.ascending { v } else { -v })
        },
    };
    let mut r: Vec<KeyPart> = Vec::new();
    r.push(first);
    r.push(KeyPart::Text(codes_of(c.character_name.as_str())));
    r.push(KeyPart::Num(c.character_id as i128));
    r
}

impl Session {
    /// The character IDs in the order the list shows them.
    pub fn sorted_character_ids(&self) -> (r: Vec<u64>)
        ensures
            exists|order: Seq<usize>|
                is_order_of(order, self.characters@.len() as int) && characters_sorted(
                    self.character_sort,
                    self.characters@,
                    order,
                ) && r@ == order.map_values(|i: usize| self.characters@[i as int].character_id),
    {
        let sort = self.character_sort;
        let mut keys: Vec<Vec<KeyPart>> = Vec::new();
        let mut i: usize = 0;
        while i < self.characters.len()
            invariant
                i <= self.characters.len(),
                keys.len() == i,
                sort == self.character_sort,
                forall|k: int| 0 <= k < i ==> character_key_ok(sort, self.characters@[k], #[trigger] keys@[k]@),
            decreases self.characters.len() - i,
        {
            keys.push(character_key(sort, &self.characters[i]));
            i = i + 1;
        }
        let order = sort_order(&keys);
        proof {
            assert forall|p: int, q: int| 0 <= p < q < order@.len() implies {
                let o = character_order(
                    sort,
                    self.characters@[#[trigger] order@[p] as int],
                    self.characters@[#[trigger] order@[q] as int],
                );
                o < 0 || (o == 0 && order@[p] < order@[q])
            } by {
                assert(before(keys@, order@[p] as int, order@[q] as int));
                lemma_character_key(
                    sort,
                    self.characters@[order@[p] as int],
                    self.characters@[order@[q] as int],
                    keys@[order@[p] as int]@,
                    keys@[order@[q] as int]@,
                );
            }
        }
        let mut ids: Vec<u64> = Vec::new();
        let mut j: usize = 0;
        while j < order.len()
            invariant
                j <= order.len(),
                is_order_of(order@, self.characters@.len() as int),
                ids@ == order@.take(j as int).map_values(|i: usize| self.characters@[i as int].character_id),
            decreases order.len() - j,
        {
            ids.push(self.characters[order[j]].character_id);
            assert(order@.take(j + 1) =~= order@.take(j as int).push(order@[j as int]));
            assert(order@.take(j + 1).map_values(|i: usize| self.characters@[i as int].character_id) =~= order@.take(
                j as int,
            ).map_values(|i: usize| self.characters@[i as int].character_id).push(
                self.characters@[order@[j as int] as int].character_id,
            ));
            j = j + 1;
        }
        assert(order@.take(order.len() as int) =~= order@);
        ids
    }
}


// ---------------------------------------------------------------------
// Sending waypoints
// ---------------------------------------------------------------------

/// What the waypoint worker reports while it works through a batch.
pub enum WaypointSendEvent {
    Started { character_id: u64, character_name: String },
    Finished {
        character_id: u64,
        character_name: String,
        destination_name: String,
        destination_id: i64,
        result: Result<Option<AccessTokenUpdate>, String>,
    },
    BatchFinished,
}

/// One character's part of a batch, handed to a worker.
pub struct WaypointSendJob {
    pub character_id: u64,
    pub character_name: String,
    pub access_token: Option<String>,
    /// When the access token expires, in Unix seconds.
    pub expires_at: Option<u64>,
    pub destination_name: String,
    pub destination_id: i64,
    pub kind: WaypointSendRequestKind,
}

/// A fresh access token a worker obtained.
pub struct AccessTokenUpdate {
    pub access_token: String,
    pub expires_at: u64,
    pub scopes: Vec<String>,
}

/// The same batch: name, destination and what to send.
pub open spec fn same_request(a: WaypointSendRequest, b: WaypointSendRequest) -> bool {
    &&& a.destination_name@ == b.destination_name@
    &&& a.destination_id == b.destination_id
    &&& same_kind(a.kind, b.kind)
}

pub open spec fn same_kind(a: WaypointSendRequestKind, b: WaypointSendRequestKind) -> bool {
    match (a, b) {
        (WaypointSendRequestKind::Single { options: x }, WaypointSendRequestKind::Single { options: y }) => x == y,
        (
            WaypointSendRequestKind::OptimizedRoute { destinations: x },
            WaypointSendRequestKind::OptimizedRoute { destinations: y },
        ) => x@.len() == y@.len() && forall|i: int|
            0 <= i < x@.len() ==> crate::sde::same_destination(#[trigger] x@[i], y@[i]),
        _ => false,
    }
}

fn copy_kind(k: &WaypointSendRequestKind) -> (r: WaypointSendRequestKind)
    ensures
        same_kind(r, *k),
{
    match k {
        WaypointSendRequestKind::Single { options } => WaypointSendRequestKind::Single { options: *options },
        WaypointSendRequestKind::OptimizedRoute { destinations } => {
            let mut v: Vec<crate::sde::RouteDestination> = Vec::new();
            let mut i: usize = 0;
            while i < destinations.len()
                invariant
                    i <= destinations.len(),
                    v.len() == i,
                    forall|j: int| 0 <= j < i ==> crate::sde::same_destination(#[trigger] v@[j], destinations@[j]),
                decreases destinations.len() - i,
            {
                v.push(crate::sde::copy_destination(&destinations[i]));
                i = i + 1;
            }
            WaypointSendRequestKind::OptimizedRoute { destinations: v }
        },
    }
}

pub fn copy_request(r: &WaypointSendRequest) -> (c: WaypointSendRequest)
    ensures
        same_request(c, *r),
{
    WaypointSendRequest {
        destination_name: r.destination_name.clone(),
        destination_id: r.destination_id,
        kind: copy_kind(&r.kind),
    }
}

/// `n` is `c` after a batch is prepared: waiting for the batch when a
/// target, skipped when non-targets are marked, unchanged otherwise.
pub open spec fn prepared(n: CharacterState, c: CharacterState, request: WaypointSendRequest, targets: Seq<u64>, mark: bool) -> bool {
    &&& n == (CharacterState { last_send_result: n.last_send_result, ..c })
    &&& if targets.contains(c.character_id) {
        n.last_send_result matches Some(CharacterSendResult::Pending { destination_name, destination_id })
            && destination_name@ == request.destination_name@ && destination_id == request.destination_id
    } else if mark {
        n.last_send_result matches Some(CharacterSendResult::Skipped { reason }) && reason@ == "not selected"@
    } else {
        n.last_send_result == c.last_send_result
    }
}

/// Every character prepared for a batch.
pub open spec fn all_prepared(
    after: Seq<CharacterState>,
    before: Seq<CharacterState>,
    request: WaypointSendRequest,
    targets: Seq<u64>,
    mark: bool,
) -> bool {
    after.len() == before.len() && forall|k: int|
        0 <= k < before.len() ==> prepared(#[trigger] after[k], before[k], request, targets, mark)
}

/// The job of character `c` in a batch.
pub open spec fn job_of(j: WaypointSendJob, c: CharacterState, request: WaypointSendRequest) -> bool {
    &&& j.character_id == c.character_id
    &&& j.character_name == c.character_name
    &&& j.access_token == c.access_token
    &&& j.expires_at == c.expires_at
    &&& j.destination_name@ == request.destination_name@
    &&& j.destination_id == request.destination_id
    &&& same_kind(j.kind, request.kind)
}

/// The characters that are targets, in list order.
pub open spec fn targeted(cs: Seq<CharacterState>, targets: Seq<u64>) -> Seq<CharacterState> {
    cs.filter(|c: CharacterState| targets.contains(c.character_id))
}

fn contains_id(ids: &Vec<u64>, id: u64) -> (r: bool)
    ensures
        r == ids@.contains(id),
{
    let mut i: usize = 0;
    while i < ids.len()
        invariant
            i <= ids.len(),
            forall|k: int| 0 <= k < i ==> ids@[k] != id,
        decreases ids.len() - i,
    {
        if ids[i] == id {
            assert(ids@[i as int] == id);
            return true;
        }
        i = i + 1;
    }
    false
}

fn string_literal(s: &str) -> (r: String)
    ensures
        r@ == s@,
{
    s.to_string()
}

/// What starting a batch does: refused without a client ID (the ESI tab is
/// shown with the reason); otherwise the targets wait, the others are
/// marked skipped when asked, progress starts at zero, the batch is
/// remembered for a retry, and the login settings and one job per target
/// come back for the workers.
pub open spec fn batch_start_ok(
    old: Session,
    new: Session,
    r: Option<(crate::auth::SsoConfig, Vec<WaypointSendJob>)>,
    request: WaypointSendRequest,
    targets: Seq<u64>,
    skipped: usize,
    mark: bool,
) -> bool {
    &&& new.config == old.config
    &&& new.last_resolved_destination == old.last_resolved_destination
    &&& new.favorites == old.favorites
    &&& new.destination == old.destination
    &&& new.fob_import_rows == old.fob_import_rows
    &&& new.login_in_progress == old.login_in_progress
    &&& new.esi_client_id == old.esi_client_id
    &&& crate::text::trim(old.esi_client_id@).len() == 0 ==> r is None && new.status_message@
        == crate::auth::auth_error_text(crate::auth::AuthError::ClientIdRequired) && new.active_tab == AppTab::Esi
        && new.characters == old.characters && new.waypoint_send_in_progress == old.waypoint_send_in_progress
    &&& crate::text::trim(old.esi_client_id@).len() > 0 ==> {
        &&& r matches Some((sso, jobs)) && sso.client_id@ == crate::text::trim(old.esi_client_id@) && jobs@.len()
            == targeted(old.characters@, targets).len() && (forall|i: int|
            0 <= i < jobs@.len() ==> job_of(#[trigger] jobs@[i], targeted(old.characters@, targets)[i], request))
            && (new.waypoint_send_progress matches Some(p) && p.destination_name@ == request.destination_name@
            && p.destination_id == request.destination_id && p.total == jobs@.len() && p.completed == 0 && p.active
            == 0 && p.successes == 0 && p.failures == 0 && p.skipped == skipped && p.latest_error is None)
        &&& all_prepared(new.characters@, old.characters@, request, targets, mark)
        &&& new.waypoint_send_in_progress
        &&& new.last_waypoint_batch is None
        &&& new.last_waypoint_request matches Some(q) && same_request(q, request)
        &&& new.status_message@ == "Sending "@ + request.destination_name@ + " ("@ + crate::text::signed_decimal(
            request.destination_id as int,
        ) + ") to "@ + crate::text::decimal(targeted(old.characters@, targets).len()) + " characters..."@
    }
}

impl Session {
    /// Marks the targets of a batch as waiting and, when asked, every
    /// other character as skipped.
    fn prepare_send_results(&mut self, request: &WaypointSendRequest, target_ids: &Vec<u64>, mark_non_targets_skipped: bool)
        ensures
            all_prepared(final(self).characters@, old(self).characters@, *request, target_ids@, mark_non_targets_skipped),
            final(self).config == old(self).config,
            final(self).status_message == old(self).status_message,
            final(self).waypoint_send_in_progress == old(self).waypoint_send_in_progress,
            final(self).esi_client_id == old(self).esi_client_id,
            final(self).last_resolved_destination == old(self).last_resolved_destination,
            final(self).favorites == old(self).favorites,
            final(self).destination == old(self).destination,
            final(self).fob_import_rows == old(self).fob_import_rows,
            final(self).login_in_progress == old(self).login_in_progress,
    {
        let mut list: Vec<CharacterState> = Vec::new();
        std::mem::swap(&mut list, &mut self.characters);
        let ghost before = list@;
        let mut i: usize = 0;
        while i < list.len()
            invariant
                i <= list.len(),
                list.len() == before.len(),
                forall|k: int| 0 <= k < i ==> prepared(#[trigger] list@[k], before[k], *request, target_ids@, mark_non_targets_skipped),
                forall|k: int| i <= k < before.len() ==> #[trigger] list@[k] == before[k],
            decreases list.len() - i,
        {
            if contains_id(target_ids, list[i].character_id) {
                list[i].last_send_result = Some(
                    CharacterSendResult::Pending {
                        destination_name: request.destination_name.clone(),
                        destination_id: request.destination_id,
                    },
                );
            } else if mark_non_targets_skipped {
                list[i].last_send_result = Some(CharacterSendResult::Skipped { reason: string_literal("not selected") });
            }
            i = i + 1;
        }
        std::mem::swap(&mut list, &mut self.characters);
    }

    /// One job for each target, in list order.
    fn waypoint_send_jobs(&self, request: &WaypointSendRequest, target_ids: &Vec<u64>) -> (r: Vec<WaypointSendJob>)
        ensures
            r@.len() == targeted(self.characters@, target_ids@).len(),
            forall|i: int| 0 <= i < r@.len() ==> job_of(#[trigger] r@[i], targeted(self.characters@, target_ids@)[i], *request),
    {
        let ghost cs = self.characters@;
        let mut jobs: Vec<WaypointSendJob> = Vec::new();
        let mut i: usize = 0;
        while i < self.characters.len()
            invariant
                i <= self.characters.len(),
                cs == self.characters@,
                jobs@.len() == cs.take(i as int).filter(|c: CharacterState| target_ids@.contains(c.character_id)).len(),
                forall|k: int| 0 <= k < jobs@.len() ==> job_of(
                    #[trigger] jobs@[k],
                    cs.take(i as int).filter(|c: CharacterState| target_ids@.contains(c.character_id))[k],
                    *request,
                ),
            decreases self.characters.len() - i,
        {
            let ghost prev = cs.take(i as int).filter(|c: CharacterState| target_ids@.contains(c.character_id));
            assert(cs.take(i + 1) =~= cs.take(i as int).push(cs[i as int]));
            proof {
                cs.take(i as int).lemma_filter_push(cs[i as int], |c: CharacterState| target_ids@.contains(c.character_id));
            }
            let c = &self.characters[i];
            if contains_id(target_ids, c.character_id) {
                let job = WaypointSendJob {
                    character_id: c.character_id,
                    character_name: c.character_name.clone(),
                    access_token: match &c.access_token {
                        Some(t) => Some(t.clone()),
                        None => None,
                    },
                    expires_at: c.expires_at,
                    destination_name: request.destination_name.clone(),
                    destination_id: request.destination_id,
                    kind: copy_kind(&request.kind),
                };
                let ghost before_jobs = jobs@;
                jobs.push(job);
                assert forall|k: int| 0 <= k < jobs@.len() implies job_of(
                    #[trigger] jobs@[k],
                    cs.take(i + 1).filter(|c: CharacterState| target_ids@.contains(c.character_id))[k],
                    *request,
                ) by {
                    if k < before_jobs.len() {
                        assert(jobs@[k] == before_jobs[k]);
                    }
                }
            }
            i = i + 1;
        }
        assert(cs.take(cs.len() as int) =~= cs);
        jobs
    }

    /// Starts a batch: the settings for a login must be complete (else the
    /// ESI tab is shown with the reason); the targets wait, the others are
    /// marked skipped when asked, progress starts at zero and the batch is
    /// remembered for a retry.  Gives back the login settings and one job
    /// per target for the workers.
    pub fn start_waypoint_send_batch(
        &mut self,
        request: WaypointSendRequest,
        target_ids: Vec<u64>,
        skipped: usize,
        mark_non_targets_skipped: bool,
    ) -> (r: Option<(crate::auth::SsoConfig, Vec<WaypointSendJob>)>)
        ensures
            batch_start_ok(*old(self), *final(self), r, request, target_ids@, skipped, mark_non_targets_skipped),
    {
        let sso = match crate::auth::SsoConfig::from_client_id(self.esi_client_id.as_str()) {
            Ok(c) => c,
            Err(e) => {
                self.status_message = e.message();
                self.active_tab = AppTab::Esi;
                return None;
            },
        };
        let ghost before = self.characters@;
        let jobs = self.waypoint_send_jobs(&request, &target_ids);
        self.prepare_send_results(&request, &target_ids, mark_non_targets_skipped);
        let total = jobs.len();
        self.waypoint_send_in_progress = true;
        self.waypoint_send_progress = Some(
            WaypointSendProgress {
                destination_name: request.destination_name.clone(),
                destination_id: request.destination_id,
                total,
                completed: 0,
                active: 0,
                successes: 0,
                failures: 0,
                skipped,
                latest_error: None,
            },
        );
        self.last_waypoint_batch = None;
        let mut out: Vec<char> = Vec::new();
        push_str(&mut out, "Sending ");
        push_str(&mut out, request.destination_name.as_str());
        push_str(&mut out, " (");
        push_signed_decimal(&mut out, request.destination_id);
        push_str(&mut out, ") to ");
        push_decimal(&mut out, total as u64);
        push_str(&mut out, " characters...");
        self.status_message = string_of(&out);
        self.last_waypoint_request = Some(copy_request(&request));
        Some((sso, jobs))
    }
}


/// The message while a batch is being sent.
pub const SEND_IN_PROGRESS: &'static str = "Waypoint send already in progress";

/// The message with no character added.
pub const ADD_CHARACTER_FIRST: &'static str = "Add at least one character first";

/// The message with no character selected.
pub const SELECT_CHARACTER: &'static str = "Select at least one character";

/// A single waypoint to `name` (`id`) in the chosen route mode.
pub open spec fn single_request(r: WaypointSendRequest, name: Seq<char>, id: i64, mode: WaypointRouteMode) -> bool {
    &&& r.destination_name@ == name
    &&& r.destination_id == id
    &&& r.kind matches WaypointSendRequestKind::Single { options } && options.clear_other_waypoints == (mode
        == WaypointRouteMode::ReplaceRoute) && options.add_to_beginning == (mode == WaypointRouteMode::AddNextStop)
}

/// `after` is `before` with at most another status message: what every
/// refused action leaves behind.
pub open spec fn status_only_changed(before: Session, after: Session) -> bool {
    after == Session { status_message: after.status_message, ..before }
}

/// What sending a resolved destination does: refused while a batch is
/// being sent, with no character, or with none selected; otherwise the
/// destination is remembered and a batch of one waypoint starts for the
/// selected characters, the others marked skipped.
pub open spec fn send_resolved_ok(
    old: Session,
    new: Session,
    r: Option<(crate::auth::SsoConfig, Vec<WaypointSendJob>)>,
    name: Seq<char>,
    id: i64,
    kind_label: Seq<char>,
) -> bool {
    if old.waypoint_send_in_progress {
        r is None && new.status_message@ == SEND_IN_PROGRESS@ && status_only_changed(old, new)
    } else if old.characters.len() == 0 {
        r is None && new.status_message@ == ADD_CHARACTER_FIRST@ && status_only_changed(old, new)
    } else if selected_ids(old.characters@).len() == 0 {
        r is None && new.status_message@ == SELECT_CHARACTER@ && status_only_changed(old, new)
    } else {
        &&& new.last_resolved_destination matches Some(d) && d.name@ == name && d.id == id && d.kind_label@ == kind_label
        &&& exists|request: WaypointSendRequest|
            single_request(request, name, id, old.waypoint_route_mode) && batch_start_ok(
                Session { last_resolved_destination: new.last_resolved_destination, ..old },
                new,
                r,
                request,
                selected_ids(old.characters@),
                (old.characters.len() - selected_ids(old.characters@).len()) as usize,
                true,
            )
    }
}

/// What a character's send result says about a batch to `id`.
pub open spec fn result_kind(c: CharacterState, id: i64) -> int {
    match c.last_send_result {
        Some(CharacterSendResult::Pending { destination_id, .. }) => if destination_id == id { 1 } else { 0 },
        Some(CharacterSendResult::Sent { destination_id, .. }) => if destination_id == id { 2 } else { 0 },
        Some(CharacterSendResult::Failed { destination_id, .. }) => if destination_id == id { 3 } else { 0 },
        Some(CharacterSendResult::Skipped { .. }) => 4,
        None => 0,
    }
}

/// How many characters have the result kind `k` for a batch to `id`.
pub open spec fn count_kind(cs: Seq<CharacterState>, id: i64, k: int) -> nat
    decreases cs.len(),
{
    if cs.len() == 0 {
        0
    } else {
        count_kind(cs.drop_last(), id, k) + if result_kind(cs.last(), id) == k { 1nat } else { 0nat }
    }
}

proof fn lemma_count_kind_bound(cs: Seq<CharacterState>, id: i64, k: int)
    ensures
        count_kind(cs, id, k) <= cs.len(),
        count_kind(cs, id, 1) + count_kind(cs, id, 2) + count_kind(cs, id, 3) <= cs.len(),
    decreases cs.len(),
{
    if cs.len() > 0 {
        lemma_count_kind_bound(cs.drop_last(), id, k);
    }
}

/// The failed characters of a batch to `id`, in list order.
pub open spec fn failed_for(cs: Seq<CharacterState>, id: i64) -> Seq<u64>
    decreases cs.len(),
{
    if cs.len() == 0 {
        Seq::empty()
    } else if result_kind(cs.last(), id) == 3 {
        failed_for(cs.drop_last(), id).push(cs.last().character_id)
    } else {
        failed_for(cs.drop_last(), id)
    }
}

/// How many characters have a failed send, whatever the batch.
pub open spec fn failed_count(cs: Seq<CharacterState>) -> nat
    decreases cs.len(),
{
    if cs.len() == 0 {
        0
    } else {
        failed_count(cs.drop_last()) + if cs.last().last_send_result matches Some(CharacterSendResult::Failed { .. }) {
            1nat
        } else {
            0nat
        }
    }
}

proof fn lemma_selected_ids_len(cs: Seq<CharacterState>)
    ensures
        selected_ids(cs).len() <= cs.len(),
    decreases cs.len(),
{
    if cs.len() > 0 {
        lemma_selected_ids_len(cs.drop_last());
    }
}

/// Why `set_destination` did not start a batch, or what it needs next.
pub enum SetDestinationOutcome {
    /// Nothing was sent; the status says why.
    Nothing,
    /// A batch started: the login settings and the jobs for the workers.
    Send(crate::auth::SsoConfig, Vec<WaypointSendJob>),
    /// The destination is a name that ESI must resolve first; once it is,
    /// `send_resolved_destination` goes on.
    LookupName(String),
}

impl Session {
    /// Sends a resolved destination to the selected characters.
    pub fn send_resolved_destination(&mut self, resolved: &ResolvedDestinationDisplay) -> (r: Option<
        (crate::auth::SsoConfig, Vec<WaypointSendJob>),
    >)
        ensures
            send_resolved_ok(*old(self), *final(self), r, resolved.name@, resolved.id, resolved.kind_label@),
    {
        if self.waypoint_send_in_progress {
            self.status_message = SEND_IN_PROGRESS.to_string();
            return None;
        }
        if self.characters.len() == 0 {
            self.status_message = ADD_CHARACTER_FIRST.to_string();
            return None;
        }
        let count = self.selected_character_count();
        if count == 0 {
            self.status_message = SELECT_CHARACTER.to_string();
            return None;
        }
        let ghost before = *self;
        self.last_resolved_destination = Some(
            ResolvedDestinationDisplay {
                name: resolved.name.clone(),
                id: resolved.id,
                kind_label: resolved.kind_label.clone(),
            },
        );
        let request = WaypointSendRequest {
            destination_name: resolved.name.clone(),
            destination_id: resolved.id,
            kind: WaypointSendRequestKind::Single { options: self.waypoint_route_mode.options() },
        };
        let targets = self.selected_character_ids();
        proof {
            lemma_selected_ids_len(self.characters@);
        }
        let skipped = self.characters.len() - targets.len();
        let ghost req = request;
        let ghost mid = *self;
        let r = self.start_waypoint_send_batch(request, targets, skipped, true);
        assert(single_request(req, resolved.name@, resolved.id, before.waypoint_route_mode));
        assert(batch_start_ok(mid, *self, r, req, selected_ids(before.characters@), skipped, true));
        assert(mid == Session { last_resolved_destination: self.last_resolved_destination, ..before });
        r
    }

    /// Sends the destination typed on the Destination tab: it must not be
    /// empty, and characters must be there and selected; a numeric ID is
    /// sent as it is, a name is first resolved through ESI.
    pub fn set_destination(&mut self) -> (r: SetDestinationOutcome)
        ensures
            old(self).waypoint_send_in_progress ==> r is Nothing && final(self).status_message@ == SEND_IN_PROGRESS@
                && status_only_changed(*old(self), *final(self)),
            !old(self).waypoint_send_in_progress && crate::text::trim(old(self).destination@).len() == 0 ==> r is Nothing
                && final(self).status_message@ == "Destination required"@ && status_only_changed(*old(self), *final(self)),
            !old(self).waypoint_send_in_progress && crate::text::trim(old(self).destination@).len() > 0
                && old(self).characters.len() == 0 ==> r is Nothing && final(self).status_message@ == ADD_CHARACTER_FIRST@
                && status_only_changed(*old(self), *final(self)),
            !old(self).waypoint_send_in_progress && crate::text::trim(old(self).destination@).len() > 0
                && old(self).characters.len() > 0 && selected_ids(old(self).characters@).len() == 0 ==> r is Nothing
                && final(self).status_message@ == SELECT_CHARACTER@ && status_only_changed(*old(self), *final(self)),
            !old(self).waypoint_send_in_progress && crate::text::trim(old(self).destination@).len() > 0
                && old(self).characters.len() > 0 && selected_ids(old(self).characters@).len() > 0 ==> {
                let t = crate::text::trim(old(self).destination@);
                if !crate::destination::looks_numeric(t) {
                    r matches SetDestinationOutcome::LookupName(x) && x@ == t && *final(self) == *old(self)
                } else {
                    match crate::text::parse_i64_spec(t) {
                        None => r is Nothing && final(self).status_message@ == crate::destination::error_message(
                            crate::destination::ErrorView::InvalidId(t),
                        ) && status_only_changed(*old(self), *final(self)),
                        Some(id) => if id <= 0 {
                            r is Nothing && final(self).status_message@ == crate::destination::error_message(
                                crate::destination::ErrorView::NotPositive,
                            ) && status_only_changed(*old(self), *final(self))
                        } else {
                            exists|sent: Option<(crate::auth::SsoConfig, Vec<WaypointSendJob>)>|
                                send_resolved_ok(
                                    *old(self),
                                    *final(self),
                                    sent,
                                    t,
                                    id,
                                    crate::destination::DestinationKind::NumericId.label_spec(),
                                ) && match sent {
                                    Some((c, j)) => r matches SetDestinationOutcome::Send(c2, j2) && c2 == c && j2 == j,
                                    None => r is Nothing,
                                }
                        },
                    }
                }
            },
            final(self).config == old(self).config,
    {
        if self.waypoint_send_in_progress {
            self.status_message = SEND_IN_PROGRESS.to_string();
            return SetDestinationOutcome::Nothing;
        }
        let destination = crate::text::trim_chars(&chars_of(self.destination.as_str()));
        if destination.len() == 0 {
            self.status_message = "Destination required".to_string();
            return SetDestinationOutcome::Nothing;
        }
        if self.characters.len() == 0 {
            self.status_message = ADD_CHARACTER_FIRST.to_string();
            return SetDestinationOutcome::Nothing;
        }
        if self.selected_character_count() == 0 {
            self.status_message = SELECT_CHARACTER.to_string();
            return SetDestinationOutcome::Nothing;
        }
        match crate::destination::resolve(self.destination.as_str()) {
            Ok(d) => {
                let display = ResolvedDestinationDisplay::from_resolved(&d);
                match self.send_resolved_destination(&display) {
                    Some((c, j)) => SetDestinationOutcome::Send(c, j),
                    None => SetDestinationOutcome::Nothing,
                }
            },
            Err(crate::destination::DestinationError::NeedsNameLookup(name)) => SetDestinationOutcome::LookupName(name),
            Err(e) => {
                self.status_message = e.message();
                SetDestinationOutcome::Nothing
            },
        }
    }

    /// A name lookup for the Destination tab failed with `message`.
    pub fn destination_lookup_failed(&mut self, message: &str)
        ensures
            final(self).status_message@ == message@,
            final(self).characters == old(self).characters,
            final(self).config == old(self).config,
    {
        self.status_message = message.to_string();
    }
}


/// The position of the first favourite with this destination ID.
pub open spec fn favorite_position(fs: Seq<FavoriteDestination>, id: i64) -> Option<int>
    decreases fs.len(),
{
    if fs.len() == 0 {
        None
    } else if fs[0].destination_id == id {
        Some(0)
    } else {
        match favorite_position(fs.drop_first(), id) {
            Some(i) => Some(i + 1),
            None => None,
        }
    }
}

pub proof fn lemma_favorite_position(fs: Seq<FavoriteDestination>, id: i64)
    ensures
        match favorite_position(fs, id) {
            Some(i) => 0 <= i < fs.len() && fs[i].destination_id == id && forall|j: int|
                0 <= j < i ==> #[trigger] fs[j].destination_id != id,
            None => forall|j: int| 0 <= j < fs.len() ==> #[trigger] fs[j].destination_id != id,
        },
    decreases fs.len(),
{
    if fs.len() > 0 {
        lemma_favorite_position(fs.drop_first(), id);
        if fs[0].destination_id != id {
            assert forall|j: int| 0 < j < fs.len() implies fs[j] == fs.drop_first()[j - 1] by {}
        }
    }
}

fn find_favorite_position(fs: &Vec<FavoriteDestination>, id: i64) -> (r: Option<usize>)
    ensures
        match r {
            Some(i) => favorite_position(fs@, id) == Some(i as int),
            None => favorite_position(fs@, id) is None,
        },
{
    proof {
        lemma_favorite_position(fs@, id);
    }
    let mut i: usize = 0;
    while i < fs.len()
        invariant
            i <= fs.len(),
            forall|j: int| 0 <= j < i ==> #[trigger] fs@[j].destination_id != id,
            match favorite_position(fs@, id) {
                Some(k) => 0 <= k < fs.len() && fs@[k].destination_id == id && forall|j: int|
                    0 <= j < k ==> #[trigger] fs@[j].destination_id != id,
                None => forall|j: int| 0 <= j < fs.len() ==> #[trigger] fs@[j].destination_id != id,
            },
        decreases fs.len() - i,
    {
        if fs[i].destination_id == id {
            return Some(i);
        }
        i = i + 1;
    }
    None
}

/// The counts of a batch to `id` from the characters' send results.
pub open spec fn summary_ok(s: WaypointBatchSummary, cs: Seq<CharacterState>, request: WaypointSendRequest, in_progress: bool) -> bool {
    let id = request.destination_id;
    &&& s.destination_name@ == request.destination_name@
    &&& s.destination_id == id
    &&& s.total == count_kind(cs, id, 1) + count_kind(cs, id, 2) + count_kind(cs, id, 3)
    &&& s.completed == count_kind(cs, id, 2) + count_kind(cs, id, 3)
    &&& s.successes == count_kind(cs, id, 2)
    &&& s.failures == count_kind(cs, id, 3)
    &&& s.skipped == count_kind(cs, id, 4)
    &&& s.active == 0
    &&& s.in_progress == in_progress
    &&& s.latest_error is None
}

/// A worker's result for a character, taken in: outside a batch nothing
/// changes; otherwise the progress counts it (a failure as the latest
/// error, with the character's name), the character gets the result and
/// any fresh token, and the status shows the progress.
pub open spec fn send_result_recorded(
    before: Session,
    after: Session,
    character_id: u64,
    character_name: Seq<char>,
    destination_name: Seq<char>,
    destination_id: i64,
    result: Result<Option<AccessTokenUpdate>, String>,
) -> bool {
    &&& before.waypoint_send_progress is None ==> after.characters == before.characters && after.status_message
        == before.status_message && after.waypoint_send_progress is None
    &&& before.waypoint_send_progress matches Some(p) ==> {
        &&& after.waypoint_send_progress matches Some(n) && n.completed == p.completed + 1 && n.total == p.total
            && n.skipped == p.skipped && n.active == p.active && n.destination_id == p.destination_id
            && n.destination_name == p.destination_name && match result {
            Ok(_) => n.successes == p.successes + 1 && n.failures == p.failures && n.latest_error == p.latest_error,
            Err(e) => n.successes == p.successes && n.failures == p.failures + 1 && (n.latest_error matches Some(x)
                && x@ == character_name + ": "@ + e@),
        } && after.status_message@ == n.status_message_spec()
        &&& recorded(before.characters@, after.characters@, character_id, destination_name, destination_id, result)
    }
    &&& after.config == before.config
    &&& after.waypoint_send_in_progress == before.waypoint_send_in_progress
}

/// Recording a finished send keeps the tally of a batch: when every
/// completed send was counted once, as a success or as a failure, it still
/// is after one more result is recorded.
pub proof fn recording_keeps_tally(
    before: Session,
    after: Session,
    character_id: u64,
    character_name: Seq<char>,
    destination_name: Seq<char>,
    destination_id: i64,
    result: Result<Option<AccessTokenUpdate>, String>,
)
    requires
        send_result_recorded(before, after, character_id, character_name, destination_name, destination_id, result),
        before.waypoint_send_progress matches Some(p) && p.successes + p.failures == p.completed,
    ensures
        after.waypoint_send_progress matches Some(n) && n.successes + n.failures == n.completed,
{
}

/// The end of a batch: its summary (from the characters' results when the
/// batch is remembered, else from the progress) keeps the latest error, is
/// shown as the status and kept; nothing is under way any more.
pub open spec fn send_finished(before: Session, after: Session) -> bool {
    &&& !after.waypoint_send_in_progress
    &&& after.waypoint_send_progress is None
    &&& before.waypoint_send_progress is None ==> after.last_waypoint_batch == before.last_waypoint_batch
        && after.status_message == before.status_message
    &&& before.waypoint_send_progress matches Some(p) ==> (after.last_waypoint_batch matches Some(s)
        && after.status_message@ == s.status_message_spec() && s.latest_error == p.latest_error
        && match before.last_waypoint_request {
        Some(q) => summary_ok(WaypointBatchSummary { latest_error: None, ..s }, before.characters@, q, false),
        None => s == p.summary_view(false),
    })
    &&& after.characters == before.characters
    &&& after.config == before.config
}

/// What a finished send does to the character with this ID: the first one
/// with the ID gets `result`, and with a fresh token also that token.
pub open spec fn recorded(
    before: Seq<CharacterState>,
    after: Seq<CharacterState>,
    character_id: u64,
    destination_name: Seq<char>,
    destination_id: i64,
    result: Result<Option<AccessTokenUpdate>, String>,
) -> bool {
    match state_index(before, character_id) {
        None => after == before,
        Some(i) => {
            &&& after.len() == before.len()
            &&& forall|k: int| 0 <= k < before.len() && k != i ==> #[trigger] after[k] == before[k]
            &&& after[i].character_id == before[i].character_id
            &&& after[i].character_name == before[i].character_name
            &&& after[i].selected == before[i].selected
            &&& after[i].added_at_unix_seconds == before[i].added_at_unix_seconds
            &&& match result {
                Ok(update) => (after[i].last_send_result matches Some(
                    CharacterSendResult::Sent { destination_name: n, destination_id: d },
                ) && n@ == destination_name && d == destination_id) && match update {
                    Some(u) => after[i].access_token == Some(u.access_token) && after[i].expires_at == Some(
                        u.expires_at,
                    ) && after[i].scopes == u.scopes,
                    None => after[i].access_token == before[i].access_token && after[i].expires_at
                        == before[i].expires_at && after[i].scopes == before[i].scopes,
                },
                Err(e) => (after[i].last_send_result matches Some(
                    CharacterSendResult::Failed { destination_name: n, destination_id: d, error: x },
                ) && n@ == destination_name && d == destination_id && x == e) && after[i].access_token
                    == before[i].access_token && after[i].expires_at == before[i].expires_at && after[i].scopes
                    == before[i].scopes,
            }
        },
    }
}

impl Session {
    /// Sends a favourite to the selected characters, after putting its name
    /// in the destination field.
    pub fn set_favorite_destination(&mut self, destination_id: i64) -> (r: Option<
        (crate::auth::SsoConfig, Vec<WaypointSendJob>),
    >)
        ensures
            old(self).waypoint_send_in_progress ==> r is None && final(self).status_message@ == SEND_IN_PROGRESS@
                && status_only_changed(*old(self), *final(self)),
            !old(self).waypoint_send_in_progress ==> match favorite_position(old(self).favorites@, destination_id) {
                None => r is None && final(self).status_message@ == "Favorite destination not found"@
                    && status_only_changed(*old(self), *final(self)),
                Some(i) => {
                    let f = old(self).favorites@[i];
                    &&& send_resolved_ok(
                        Session { destination: f.destination_name, ..*old(self) },
                        *final(self),
                        r,
                        f.destination_name@,
                        f.destination_id,
                        f.destination_kind@,
                    )
                },
            },
    {
        if self.waypoint_send_in_progress {
            self.status_message = SEND_IN_PROGRESS.to_string();
            return None;
        }
        let i = match find_favorite_position(&self.favorites, destination_id) {
            Some(i) => i,
            None => {
                self.status_message = "Favorite destination not found".to_string();
                return None;
            },
        };
        proof {
            lemma_favorite_position(self.favorites@, destination_id);
        }
        let display = ResolvedDestinationDisplay::from_favorite(&self.favorites[i]);
        self.destination = self.favorites[i].destination_name.clone();
        self.send_resolved_destination(&display)
    }

    /// How many characters have a failed send.
    pub fn failed_send_count(&self) -> (r: usize)
        ensures
            r == failed_count(self.characters@),
    {
        let mut count: usize = 0;
        let mut i: usize = 0;
        while i < self.characters.len()
            invariant
                i <= self.characters.len(),
                count == failed_count(self.characters@.take(i as int)),
                count <= i,
            decreases self.characters.len() - i,
        {
            assert(self.characters@.take(i + 1).drop_last() =~= self.characters@.take(i as int));
            if crate::models::has_failed_send_result(&self.characters[i]) {
                count = count + 1;
            }
            i = i + 1;
        }
        assert(self.characters@.take(self.characters.len() as int) =~= self.characters@);
        count
    }

    /// A retry needs no batch under way, a remembered batch and a failure.
    pub fn can_retry_failed_waypoints(&self) -> (r: bool)
        ensures
            r == (!self.waypoint_send_in_progress && self.last_waypoint_request is Some && failed_count(
                self.characters@,
            ) > 0),
    {
        !self.waypoint_send_in_progress && self.last_waypoint_request.is_some() && self.failed_send_count() > 0
    }

    fn failed_ids(&self, destination_id: i64) -> (r: Vec<u64>)
        ensures
            r@ == failed_for(self.characters@, destination_id),
    {
        let mut ids: Vec<u64> = Vec::new();
        let mut i: usize = 0;
        while i < self.characters.len()
            invariant
                i <= self.characters.len(),
                ids@ == failed_for(self.characters@.take(i as int), destination_id),
            decreases self.characters.len() - i,
        {
            assert(self.characters@.take(i + 1).drop_last() =~= self.characters@.take(i as int));
            let failed = match &self.characters[i].last_send_result {
                Some(CharacterSendResult::Failed { destination_id: d, .. }) => *d == destination_id,
                _ => false,
            };
            if failed {
                ids.push(self.characters[i].character_id);
            }
            i = i + 1;
        }
        assert(self.characters@.take(self.characters.len() as int) =~= self.characters@);
        ids
    }

    /// Sends the last batch again to the characters whose send to its
    /// destination failed; nothing else is marked.
    pub fn retry_failed_waypoints(&mut self) -> (r: Option<(crate::auth::SsoConfig, Vec<WaypointSendJob>)>)
        ensures
            old(self).waypoint_send_in_progress ==> r is None && final(self).status_message@ == SEND_IN_PROGRESS@
                && status_only_changed(*old(self), *final(self)),
            !old(self).waypoint_send_in_progress && old(self).last_waypoint_request is None ==> r is None
                && final(self).status_message@ == "No failed waypoint batch to retry"@
                && status_only_changed(*old(self), *final(self)),
            !old(self).waypoint_send_in_progress ==> (old(self).last_waypoint_request matches Some(q) ==> if failed_for(
                old(self).characters@,
                q.destination_id,
            ).len() == 0 {
                r is None && final(self).status_message@ == "No failed waypoint sends to retry"@
                    && status_only_changed(*old(self), *final(self))
            } else {
                exists|request: WaypointSendRequest|
                    same_request(request, q) && batch_start_ok(
                        *old(self),
                        *final(self),
                        r,
                        request,
                        failed_for(old(self).characters@, q.destination_id),
                        0,
                        false,
                    )
            }),
    {
        if self.waypoint_send_in_progress {
            self.status_message = SEND_IN_PROGRESS.to_string();
            return None;
        }
        let request = match &self.last_waypoint_request {
            Some(q) => copy_request(q),
            None => {
                self.status_message = "No failed waypoint batch to retry".to_string();
                return None;
            },
        };
        let targets = self.failed_ids(request.destination_id);
        if targets.len() == 0 {
            self.status_message = "No failed waypoint sends to retry".to_string();
            return None;
        }
        let ghost req = request;
        let r = self.start_waypoint_send_batch(request, targets, 0, false);
        assert(same_request(req, old(self).last_waypoint_request->Some_0));
        r
    }

    /// A worker began sending for a character.
    pub fn waypoint_send_started(&mut self, character_name: &str)
        ensures
            final(self).status_message@ == "Sending waypoint for "@ + character_name@ + "..."@,
            final(self).characters == old(self).characters,
            final(self).waypoint_send_progress == old(self).waypoint_send_progress,
    {
        let mut out: Vec<char> = Vec::new();
        push_str(&mut out, "Sending waypoint for ");
        push_str(&mut out, character_name);
        push_str(&mut out, "...");
        self.status_message = string_of(&out);
    }

    /// Whether the progress counters can take one more result.
    pub fn progress_has_room(&self) -> (r: bool)
        ensures
            r == (self.waypoint_send_progress matches Some(p) ==> p.completed < usize::MAX && p.successes
                < usize::MAX && p.failures < usize::MAX),
    {
        match &self.waypoint_send_progress {
            Some(p) => p.completed < usize::MAX && p.successes < usize::MAX && p.failures < usize::MAX,
            None => true,
        }
    }

    /// A worker finished sending for a character: outside a batch nothing
    /// happens; otherwise the progress counts it, the character gets the
    /// result (and a fresh token, if one came), and the status shows the
    /// progress.
    pub fn record_waypoint_send_result(
        &mut self,
        character_id: u64,
        character_name: &str,
        destination_name: String,
        destination_id: i64,
        result: Result<Option<AccessTokenUpdate>, String>,
    )
        requires
            old(self).waypoint_send_progress matches Some(p) ==> p.completed < usize::MAX && p.successes < usize::MAX
                && p.failures < usize::MAX,
        ensures
            send_result_recorded(*old(self), *final(self), character_id, character_name@, destination_name@, destination_id, result),
    {
        let mut progress = match self.waypoint_send_progress.take() {
            Some(p) => p,
            None => {
                return;
            },
        };
        progress.completed = progress.completed + 1;
        match &result {
            Ok(_) => {
                progress.successes = progress.successes + 1;
            },
            Err(error) => {
                progress.failures = progress.failures + 1;
                let mut out: Vec<char> = Vec::new();
                push_str(&mut out, character_name);
                push_str(&mut out, ": ");
                push_str(&mut out, error.as_str());
                progress.latest_error = Some(string_of(&out));
            },
        }
        let status = progress.status_message();
        self.waypoint_send_progress = Some(progress);
        proof {
            lemma_state_index(self.characters@, character_id);
        }
        match find_state(&self.characters, character_id) {
            Some(i) => {
                match result {
                    Ok(update) => {
                        match update {
                            Some(u) => {
                                self.characters[i].update_access_token(u.access_token, u.expires_at, u.scopes);
                            },
                            None => {},
                        }
                        self.characters[i].last_send_result = Some(
                            CharacterSendResult::Sent { destination_name, destination_id },
                        );
                    },
                    Err(error) => {
                        self.characters[i].last_send_result = Some(
                            CharacterSendResult::Failed { destination_name, destination_id, error },
                        );
                    },
                }
            },
            None => {},
        }
        self.status_message = status;
    }

    /// The counts of a batch from the characters' send results.
    pub fn summarize_send_results(&self, request: &WaypointSendRequest, in_progress: bool) -> (r: WaypointBatchSummary)
        ensures
            summary_ok(r, self.characters@, *request, in_progress),
    {
        let id = request.destination_id;
        let mut pending: usize = 0;
        let mut sent: usize = 0;
        let mut failed: usize = 0;
        let mut skipped: usize = 0;
        let mut i: usize = 0;
        while i < self.characters.len()
            invariant
                i <= self.characters.len(),
                pending == count_kind(self.characters@.take(i as int), id, 1),
                sent == count_kind(self.characters@.take(i as int), id, 2),
                failed == count_kind(self.characters@.take(i as int), id, 3),
                skipped == count_kind(self.characters@.take(i as int), id, 4),
            decreases self.characters.len() - i,
        {
            let ghost t = self.characters@.take(i as int);
            let ghost t1 = self.characters@.take(i + 1);
            assert(t1.drop_last() =~= t);
            proof {
                lemma_count_kind_bound(t, id, 4);
                lemma_count_kind_bound(t, id, 1);
            }
            let kind: u8 = match &self.characters[i].last_send_result {
                Some(CharacterSendResult::Pending { destination_id, .. }) => if *destination_id == id { 1 } else { 0 },
                Some(CharacterSendResult::Sent { destination_id, .. }) => if *destination_id == id { 2 } else { 0 },
                Some(CharacterSendResult::Failed { destination_id, .. }) => if *destination_id == id { 3 } else { 0 },
                Some(CharacterSendResult::Skipped { .. }) => 4,
                None => 0,
            };
            if kind == 1 {
                pending = pending + 1;
            } else if kind == 2 {
                sent = sent + 1;
            } else if kind == 3 {
                failed = failed + 1;
            } else if kind == 4 {
                skipped = skipped + 1;
            }
            i = i + 1;
        }
        assert(self.characters@.take(self.characters.len() as int) =~= self.characters@);
        proof {
            lemma_count_kind_bound(self.characters@, id, 1);
        }
        WaypointBatchSummary {
            destination_name: request.destination_name.clone(),
            destination_id: id,
            total: pending + sent + failed,
            completed: sent + failed,
            active: 0,
            successes: sent,
            failures: failed,
            skipped,
            in_progress,
            latest_error: None,
        }
    }

    /// The batch finished: its summary (from the characters' results when
    /// the batch is remembered, else from the progress) keeps the latest
    /// error, is shown as the status and kept; nothing is under way any
    /// more.
    pub fn finish_waypoint_send(&mut self)
        ensures
            send_finished(*old(self), *final(self)),
    {
        match self.waypoint_send_progress.take() {
            Some(progress) => {
                let mut summary = match &self.last_waypoint_request {
                    Some(request) => self.summarize_send_results(request, false),
                    None => progress.summary(false),
                };
                summary.latest_error = progress.latest_error;
                self.status_message = summary.status_message();
                self.last_waypoint_batch = Some(summary);
            },
            None => {},
        }
        self.waypoint_send_in_progress = false;
        self.waypoint_send_progress = None;
    }

    /// Takes in what the waypoint worker reports: a character's send began
    /// or ended, or the whole batch is done.
    pub fn handle_waypoint_send_event(&mut self, event: WaypointSendEvent)
        requires
            event is Finished ==> (old(self).waypoint_send_progress matches Some(p) ==> p.completed < usize::MAX
                && p.successes < usize::MAX && p.failures < usize::MAX),
        ensures
            match event {
                WaypointSendEvent::Started { character_id, character_name } => final(self).status_message@
                    == "Sending waypoint for "@ + character_name@ + "..."@ && final(self).characters
                    == old(self).characters && final(self).waypoint_send_progress == old(self).waypoint_send_progress,
                WaypointSendEvent::Finished {
                    character_id,
                    character_name,
                    destination_name,
                    destination_id,
                    result,
                } => send_result_recorded(
                    *old(self),
                    *final(self),
                    character_id,
                    character_name@,
                    destination_name@,
                    destination_id,
                    result,
                ),
                WaypointSendEvent::BatchFinished => send_finished(*old(self), *final(self)),
            },
    {
        match event {
            WaypointSendEvent::Started { character_id, character_name } => {
                self.waypoint_send_started(character_name.as_str());
            },
            WaypointSendEvent::Finished { character_id, character_name, destination_name, destination_id, result } => {
                self.record_waypoint_send_result(
                    character_id,
                    character_name.as_str(),
                    destination_name,
                    destination_id,
                    result,
                );
            },
            WaypointSendEvent::BatchFinished => {
                self.finish_waypoint_send();
            },
        }
    }

    /// The worker stopped before finishing its batch.
    pub fn waypoint_worker_stopped(&mut self)
        ensures
            !final(self).waypoint_send_in_progress,
            final(self).waypoint_send_progress is None,
            final(self).status_message@ == "Waypoint send failed: worker stopped"@,
            final(self).characters == old(self).characters,
    {
        self.status_message = "Waypoint send failed: worker stopped".to_string();
        self.waypoint_send_in_progress = false;
        self.waypoint_send_progress = None;
    }

    /// The batch to show: the one under way, else the last one.
    pub fn waypoint_batch_summary(&self) -> (r: Option<WaypointBatchSummary>)
        ensures
            self.waypoint_send_progress matches Some(p) ==> r == Some(p.summary_view(true)),
            self.waypoint_send_progress is None ==> r == self.last_waypoint_batch,
    {
        match &self.waypoint_send_progress {
            Some(p) => Some(p.summary(true)),
            None => match &self.last_waypoint_batch {
                Some(b) => Some(copy_summary(b)),
                None => None,
            },
        }
    }

    /// The summary of the destination last resolved or sent.
    pub fn resolved_destination_summary(&self) -> (r: Option<String>)
        ensures
            match self.last_resolved_destination {
                Some(d) => r matches Some(s) && s@ == d.summary_spec(),
                None => r is None,
            },
    {
        match &self.last_resolved_destination {
            Some(d) => Some(d.summary()),
            None => None,
        }
    }

    pub fn clear_resolved_destination(&mut self)
        ensures
            final(self).last_resolved_destination is None,
            final(self).characters == old(self).characters,
            final(self).status_message == old(self).status_message,
    {
        self.last_resolved_destination = None;
    }
}

fn copy_summary(b: &WaypointBatchSummary) -> (r: WaypointBatchSummary)
    ensures
        r == *b,
{
    WaypointBatchSummary {
        destination_name: b.destination_name.clone(),
        destination_id: b.destination_id,
        total: b.total,
        completed: b.completed,
        active: b.active,
        successes: b.successes,
        failures: b.failures,
        skipped: b.skipped,
        in_progress: b.in_progress,
        latest_error: match &b.latest_error {
            Some(e) => Some(e.clone()),
            None => None,
        },
    }
}


// ---------------------------------------------------------------------
// Imported FOBScout systems
// ---------------------------------------------------------------------

/// The scope an optimised route needs, to read where a character is.
pub const SCOPE_READ_LOCATION: &'static str = "esi-location.read_location.v1";

/// The selection an imported name had before, ignoring ASCII case: the
/// last row with that name counts.
pub open spec fn previous_selection(rows: Seq<FobImportSystem>, name: Seq<char>) -> Option<bool>
    decreases rows.len(),
{
    if rows.len() == 0 {
        None
    } else if crate::text::lower_seq(rows.last().input_system@) == crate::text::lower_seq(name) {
        Some(rows.last().selected)
    } else {
        previous_selection(rows.drop_last(), name)
    }
}

/// Some system of the route map has this name after normalising.
pub open spec fn map_has_name(g: crate::sde::RouteGraph, name: Seq<char>) -> bool {
    exists|i: int|
        0 <= i < g.system_list().len() && crate::sde::normalize_name(#[trigger] g.system_list()[i].name@)
            == crate::sde::normalize_name(name)
}

/// `r` is the preview row of the imported row `p`.
pub open spec fn preview_row_ok(
    r: FobImportSystem,
    p: crate::fobscout::RowView,
    previous: Seq<FobImportSystem>,
    graph: Option<crate::sde::RouteGraph>,
) -> bool {
    &&& r.import_index == p.import_index
    &&& r.input_system@ == p.system
    &&& r.region@ == p.region
    &&& r.last_seen_utc@ == p.last_seen_utc
    &&& r.claimed_by@ == p.claimed_by
    &&& match graph {
        None => r.resolved_system_id is None && r.resolved_system_name is None && (r.error matches Some(e) && e@
            == "Route map is still loading"@),
        Some(g) => if map_has_name(g, p.system) {
            &&& r.error is None
            &&& r.resolved_system_id matches Some(id) && r.resolved_system_name matches Some(n) && exists|i: int|
                0 <= i < g.system_list().len() && crate::sde::normalize_name(#[trigger] g.system_list()[i].name@)
                    == crate::sde::normalize_name(p.system) && (crate::sde::last_system_with_id(
                    g.system_list(),
                    g.system_list()[i].id,
                ) matches Some(s) && s.id == id && s.name@ == n@)
        } else {
            r.resolved_system_id is None && r.resolved_system_name is None && (r.error matches Some(e) && e@
                == p.system + " was not found in the route map"@)
        },
    }
    &&& r.selected == (r.resolved_system_id is Some && r.error is None && previous_selection(previous, p.system)
        == Some(true))
}

/// How two import rows compare on the sorted column in the sort's
/// direction, then by import position: -1, 0 or 1.
pub open spec fn fob_row_order(column: FobImportSortColumn, ascending: bool, a: FobImportSystem, b: FobImportSystem) -> int {
    let lower = |t: Seq<char>| codes(crate::text::lower_seq(t));
    let o = match column {
        FobImportSortColumn::Use => {
            let s = sign(bool_num(a.selected) - bool_num(b.selected));
            if s != 0 {
                s
            } else {
                sign(bool_num(a.valid_spec()) - bool_num(b.valid_spec()))
            }
        },
        FobImportSortColumn::System => text_rel(lower(a.display_system_spec()), lower(b.display_system_spec())),
        FobImportSortColumn::Region => text_rel(lower(a.region@), lower(b.region@)),
        FobImportSortColumn::LastSeenUtc => text_rel(lower(a.last_seen_utc@), lower(b.last_seen_utc@)),
        FobImportSortColumn::ClaimedBy => text_rel(lower(a.claimed_by@), lower(b.claimed_by@)),
    };
    let o = if ascending {
        o
    } else {
        -o
    };
    if o != 0 {
        o
    } else {
        sign(a.import_index - b.import_index)
    }
}

/// The text a column sorts by.
pub open spec fn column_text(column: FobImportSortColumn, r: FobImportSystem) -> Seq<char> {
    match column {
        FobImportSortColumn::System => r.display_system_spec(),
        FobImportSortColumn::Region => r.region@,
        FobImportSortColumn::LastSeenUtc => r.last_seen_utc@,
        _ => r.claimed_by@,
    }
}

pub open spec fn fob_key_ok(column: FobImportSortColumn, ascending: bool, r: FobImportSystem, k: Seq<KeyPart>) -> bool {
    if column == FobImportSortColumn::Use {
        &&& k.len() == 3
        &&& k[0] == KeyPart::Num((if ascending { bool_num(r.selected) } else { -bool_num(r.selected) }) as i128)
        &&& k[1] == KeyPart::Num((if ascending { bool_num(r.valid_spec()) } else { -bool_num(r.valid_spec()) }) as i128)
        &&& k[2] == KeyPart::Num(r.import_index as i128)
    } else {
        &&& k.len() == 2
        &&& if ascending {
            k[0] matches KeyPart::Text(v) && v@ == codes(crate::text::lower_seq(column_text(column, r)))
        } else {
            k[0] matches KeyPart::TextDesc(v) && v@ == codes(crate::text::lower_seq(column_text(column, r)))
        }
        &&& k[1] == KeyPart::Num(r.import_index as i128)
    }
}

proof fn lemma_fob_key(column: FobImportSortColumn, ascending: bool, a: FobImportSystem, b: FobImportSystem, ka: Seq<KeyPart>, kb: Seq<KeyPart>)
    requires
        fob_key_ok(column, ascending, a, ka),
        fob_key_ok(column, ascending, b, kb),
    ensures
        key_rel(ka, kb) == fob_row_order(column, ascending, a, b),
{
    let ta = codes(crate::text::lower_seq(column_text(column, a)));
    let tb = codes(crate::text::lower_seq(column_text(column, b)));
    crate::sorting::lemma_text_rel(ta, tb, ta);
    if column == FobImportSortColumn::Use {
        crate::sorting::lemma_key_rel_three(ka, kb);
    } else {
        crate::sorting::lemma_key_rel_two(ka, kb);
    }
}

fn lower_codes(s: &str) -> (r: Vec<u32>)
    ensures
        r@ == codes(crate::text::lower_seq(s@)),
{
    let lowered = crate::text::lower_chars(&chars_of(s));
    let text = string_of(&lowered);
    codes_of(text.as_str())
}

fn fob_key(column: FobImportSortColumn, ascending: bool, r: &FobImportSystem) -> (k: Vec<KeyPart>)
    ensures
        fob_key_ok(column, ascending, *r, k@),
{
    let mut k: Vec<KeyPart> = Vec::new();
    if column == FobImportSortColumn::Use {
        let s: i128 = if r.selected { 1 } else { 0 };
        let v: i128 = if r.valid() { 1 } else { 0 };
        k.push(KeyPart::Num(if ascending { s } else { -s }));
        k.push(KeyPart::Num(if ascending { v } else { -v }));
    } else {
        let text = match column {
            FobImportSortColumn::System => r.display_system(),
            FobImportSortColumn::Region => r.region.as_str(),
            FobImportSortColumn::LastSeenUtc => r.last_seen_utc.as_str(),
            _ => r.claimed_by.as_str(),
        };
        let codes = lower_codes(text);
        k.push(if ascending { KeyPart::Text(codes) } else { KeyPart::TextDesc(codes) });
    }
    k.push(KeyPart::Num(r.import_index as i128));
    k
}

fn copy_row(r: &FobImportSystem) -> (c: FobImportSystem)
    ensures
        c == *r,
{
    FobImportSystem {
        import_index: r.import_index,
        input_system: r.input_system.clone(),
        resolved_system_id: r.resolved_system_id,
        resolved_system_name: match &r.resolved_system_name {
            Some(n) => Some(n.clone()),
            None => None,
        },
        region: r.region.clone(),
        last_seen_utc: r.last_seen_utc.clone(),
        claimed_by: r.claimed_by.clone(),
        selected: r.selected,
        error: match &r.error {
            Some(e) => Some(e.clone()),
            None => None,
        },
    }
}

/// How many rows are valid, and how many valid rows are selected.
pub open spec fn valid_count(rows: Seq<FobImportSystem>) -> nat
    decreases rows.len(),
{
    if rows.len() == 0 {
        0
    } else {
        valid_count(rows.drop_last()) + if rows.last().valid_spec() { 1nat } else { 0nat }
    }
}

pub open spec fn chosen_count(rows: Seq<FobImportSystem>) -> nat
    decreases rows.len(),
{
    if rows.len() == 0 {
        0
    } else {
        chosen_count(rows.drop_last()) + if rows.last().valid_spec() && rows.last().selected { 1nat } else { 0nat }
    }
}

/// The stops of an optimised route: each valid selected row, in import
/// order.
pub open spec fn chosen_rows(rows: Seq<FobImportSystem>) -> Seq<FobImportSystem> {
    rows.filter(|r: FobImportSystem| r.valid_spec() && r.selected)
}

proof fn lemma_chosen_count(rows: Seq<FobImportSystem>)
    ensures
        chosen_count(rows) == chosen_rows(rows).len(),
        chosen_count(rows) <= rows.len(),
    decreases rows.len(),
{
    if rows.len() > 0 {
        lemma_chosen_count(rows.drop_last());
        assert(rows =~= rows.drop_last().push(rows.last()));
        rows.drop_last().lemma_filter_push(rows.last(), |r: FobImportSystem| r.valid_spec() && r.selected);
    }
}

/// The characters among `cs` that are selected and lack a scope, by name.
pub open spec fn missing_scope_names(cs: Seq<CharacterState>) -> Seq<Seq<char>>
    decreases cs.len(),
{
    if cs.len() == 0 {
        Seq::empty()
    } else if cs.last().selected && !cs.last().scopes@.map_values(|s: String| s@).contains(SCOPE_READ_LOCATION@) {
        missing_scope_names(cs.drop_last()).push(cs.last().character_name@)
    } else {
        missing_scope_names(cs.drop_last())
    }
}

/// The scope check of an optimised import looks at the selected
/// characters only: giving an unselected character other scopes never
/// changes which characters it names, so never whether the route starts.
pub proof fn law_unselected_scopes_never_block_imports(cs: Seq<CharacterState>, i: int, scopes: Vec<String>)
    requires
        0 <= i < cs.len(),
        !cs[i].selected,
    ensures
        missing_scope_names(cs.update(i, CharacterState { scopes, ..cs[i] })) == missing_scope_names(cs),
    decreases cs.len(),
{
    let c2 = cs.update(i, CharacterState { scopes, ..cs[i] });
    if i < cs.len() - 1 {
        assert(c2.drop_last() =~= cs.drop_last().update(i, CharacterState { scopes, ..cs[i] }));
        assert(cs.drop_last()[i] == cs[i]);
        law_unselected_scopes_never_block_imports(cs.drop_last(), i, scopes);
        assert(c2.last() == cs.last());
    } else {
        assert(c2.drop_last() =~= cs.drop_last());
    }
}

/// An optimised import is blocked for a missing scope exactly when some
/// selected character lacks the location scope.
pub proof fn law_imports_need_the_scope_of_selected_characters(cs: Seq<CharacterState>)
    ensures
        missing_scope_names(cs).len() == 0 <==> forall|i: int|
            0 <= i < cs.len() && #[trigger] cs[i].selected ==> cs[i].scopes@.map_values(|s: String| s@).contains(
                SCOPE_READ_LOCATION@,
            ),
    decreases cs.len(),
{
    if cs.len() > 0 {
        law_imports_need_the_scope_of_selected_characters(cs.drop_last());
        assert forall|i: int| 0 <= i < cs.len() - 1 implies #[trigger] cs.drop_last()[i] == cs[i] by {}
        if missing_scope_names(cs).len() == 0 {
            assert forall|i: int|
                0 <= i < cs.len() && #[trigger] cs[i].selected implies cs[i].scopes@.map_values(|s: String| s@).contains(
                    SCOPE_READ_LOCATION@,
                ) by {
                if i < cs.len() - 1 {
                    assert(cs.drop_last()[i] == cs[i]);
                }
            }
        } else {
            if !(cs.last().selected && !cs.last().scopes@.map_values(|s: String| s@).contains(SCOPE_READ_LOCATION@)) {
                let i = choose|i: int|
                    0 <= i < cs.len() - 1 && #[trigger] cs.drop_last()[i].selected && !cs.drop_last()[i].scopes@.map_values(
                        |s: String| s@,
                    ).contains(SCOPE_READ_LOCATION@);
                assert(cs[i] == cs.drop_last()[i]);
            } else {
                assert(cs[cs.len() - 1] == cs.last());
            }
        }
    }
}

/// The characters an optimised import names as missing the location
/// scope are exactly the selected ones without it.
pub proof fn law_missing_scope_names_the_selected_without_it(cs: Seq<CharacterState>)
    ensures
        forall|i: int|
            0 <= i < cs.len() && #[trigger] cs[i].selected && !cs[i].scopes@.map_values(|s: String| s@).contains(
                SCOPE_READ_LOCATION@,
            ) ==> missing_scope_names(cs).contains(cs[i].character_name@),
        forall|x: Seq<char>|
            #[trigger] missing_scope_names(cs).contains(x) ==> exists|i: int|
                0 <= i < cs.len() && #[trigger] cs[i].selected && !cs[i].scopes@.map_values(|s: String| s@).contains(
                    SCOPE_READ_LOCATION@,
                ) && cs[i].character_name@ == x,
    decreases cs.len(),
{
    if cs.len() > 0 {
        let d = cs.drop_last();
        law_missing_scope_names_the_selected_without_it(d);
        let m = missing_scope_names(cs);
        let md = missing_scope_names(d);
        let last_missing = cs.last().selected && !cs.last().scopes@.map_values(|s: String| s@).contains(SCOPE_READ_LOCATION@);
        assert forall|i: int|
            0 <= i < cs.len() && #[trigger] cs[i].selected && !cs[i].scopes@.map_values(|s: String| s@).contains(
                SCOPE_READ_LOCATION@,
            ) implies m.contains(cs[i].character_name@) by {
            if i == cs.len() - 1 {
                assert(m[m.len() - 1] == cs[i].character_name@);
            } else {
                assert(d[i] == cs[i]);
                assert(md.contains(cs[i].character_name@));
                let k = choose|k: int| 0 <= k < md.len() && md[k] == cs[i].character_name@;
                assert(m[k] == md[k]);
            }
        }
        assert forall|x: Seq<char>| #[trigger] m.contains(x) implies exists|i: int|
            0 <= i < cs.len() && #[trigger] cs[i].selected && !cs[i].scopes@.map_values(|s: String| s@).contains(
                SCOPE_READ_LOCATION@,
            ) && cs[i].character_name@ == x by {
            let k = choose|k: int| 0 <= k < m.len() && m[k] == x;
            if last_missing && k == m.len() - 1 {
                assert(cs[cs.len() - 1] == cs.last());
            } else {
                assert(md[k] == x);
                assert(md.contains(x));
                let i = choose|i: int|
                    0 <= i < d.len() && #[trigger] d[i].selected && !d[i].scopes@.map_values(|s: String| s@).contains(
                        SCOPE_READ_LOCATION@,
                    ) && d[i].character_name@ == x;
                assert(cs[i] == d[i]);
            }
        }
    }
}

fn has_scope(scopes: &Vec<String>, scope: &str) -> (r: bool)
    ensures
        r == scopes@.map_values(|s: String| s@).contains(scope@),
{
    let ghost views = scopes@.map_values(|s: String| s@);
    let want = chars_of(scope);
    let mut i: usize = 0;
    while i < scopes.len()
        invariant
            i <= scopes.len(),
            views == scopes@.map_values(|s: String| s@),
            want@ == scope@,
            forall|k: int| 0 <= k < i ==> views[k] != scope@,
        decreases scopes.len() - i,
    {
        if crate::text::chars_eq(&chars_of(scopes[i].as_str()), &want) {
            assert(views[i as int] == scope@);
            return true;
        }
        i = i + 1;
    }
    false
}

/// The name of an optimised route of `n` stops.
pub open spec fn route_request_name(n: nat) -> Seq<char> {
    "Optimized FOB route ("@ + crate::text::decimal(n) + " stops)"@
}

/// What an optimised import route sends: its name, destination 0, and
/// one stop per chosen row (the resolved system, its shown name and its
/// import position).
pub open spec fn route_request_ok(r: WaypointSendRequest, rows: Seq<FobImportSystem>) -> bool {
    let chosen = chosen_rows(rows);
    &&& r.destination_name@ == route_request_name(chosen.len())
    &&& r.destination_id == 0
    &&& r.kind matches WaypointSendRequestKind::OptimizedRoute { destinations } && destinations@.len() == chosen.len()
        && forall|i: int|
        0 <= i < chosen.len() ==> {
            let d = #[trigger] destinations@[i];
            &&& chosen[i].resolved_system_id == Some(d.system_id)
            &&& d.system_name@ == chosen[i].display_system_spec()
            &&& d.import_index == chosen[i].import_index
        }
}

/// The import preview rebuilt from the import text: the parse messages,
/// and each parsed row looked up on the route map `graph` (or marked as
/// waiting for it), a valid row keeping the selection its name had before;
/// nothing else changes.
pub open spec fn preview_refreshed(before: Session, after: Session, graph: Option<crate::sde::RouteGraph>) -> bool {
    let parsed = crate::fobscout::parse_export_spec(before.fob_import_text@);
    &&& after.fob_import_messages@.map_values(|m: String| m@) == parsed.messages
    &&& after.fob_import_rows@.len() == parsed.rows.len()
    &&& forall|i: int|
        0 <= i < after.fob_import_rows@.len() ==> preview_row_ok(
            #[trigger] after.fob_import_rows@[i],
            parsed.rows[i],
            before.fob_import_rows@,
            graph,
        )
    &&& after.fob_import_text == before.fob_import_text
    &&& after.characters == before.characters
    &&& after.config == before.config
    &&& after.fob_import_open == before.fob_import_open
    &&& after.status_message == before.status_message
    &&& after.sde_cache_status == before.sde_cache_status
    &&& after.route_graph_ready == before.route_graph_ready
    &&& after.sde_cache_in_progress == before.sde_cache_in_progress
    &&& after.login_in_progress == before.login_in_progress
    &&& after.waypoint_send_in_progress == before.waypoint_send_in_progress
}

impl Session {
    /// Rebuilds the import preview from the import text: every parsed row
    /// is looked up on the route map (or marked as waiting for it), and a
    /// valid row keeps the selection its name had before.
    pub fn refresh_fob_import_preview(&mut self, graph: Option<&crate::sde::RouteGraph>)
        ensures
            preview_refreshed(
                *old(self),
                *final(self),
                match graph {
                    Some(g) => Some(*g),
                    None => None,
                },
            ),
    {
        let parsed = crate::fobscout::parse_export(self.fob_import_text.as_str());
        let ghost previous = self.fob_import_rows@;
        let ghost rows_view = parsed@.rows;
        let ghost g = match graph {
            Some(g) => Some(*g),
            None => None,
        };
        let mut rows: Vec<FobImportSystem> = Vec::new();
        let mut i: usize = 0;
        while i < parsed.rows.len()
            invariant
                i <= parsed.rows.len(),
                rows.len() == i,
                previous == self.fob_import_rows@,
                rows_view == parsed@.rows,
                g == (match graph {
                    Some(g) => Some(*g),
                    None => None,
                }),
                forall|k: int| 0 <= k < i ==> preview_row_ok(#[trigger] rows@[k], rows_view[k], previous, g),
            decreases parsed.rows.len() - i,
        {
            let row = &parsed.rows[i];
            assert(rows_view[i as int] == row@);
            let previous_selected = self.previous_selection_of(row.system.as_str());
            let (resolved_system_id, resolved_system_name, error) = match graph {
                Some(graph) => match graph.resolve_system(row.system.as_str()) {
                    Some(system) => (Some(system.id), Some(system.name), None),
                    None => {
                        let mut out: Vec<char> = Vec::new();
                        push_str(&mut out, row.system.as_str());
                        push_str(&mut out, " was not found in the route map");
                        (None, None, Some(string_of(&out)))
                    },
                },
                None => (None, None, Some("Route map is still loading".to_string())),
            };
            let valid = resolved_system_id.is_some() && error.is_none();
            let selected = valid && match previous_selected {
                Some(b) => b,
                None => false,
            };
            rows.push(
                FobImportSystem {
                    import_index: row.import_index,
                    input_system: row.system.clone(),
                    resolved_system_id,
                    resolved_system_name,
                    region: row.region.clone(),
                    last_seen_utc: row.last_seen_utc.clone(),
                    claimed_by: row.claimed_by.clone(),
                    selected,
                    error,
                },
            );
            i = i + 1;
        }
        self.fob_import_messages = parsed.messages;
        self.fob_import_rows = rows;
    }

    fn previous_selection_of(&self, name: &str) -> (r: Option<bool>)
        ensures
            r == previous_selection(self.fob_import_rows@, name@),
    {
        let key = crate::text::lower_chars(&chars_of(name));
        let ghost rows = self.fob_import_rows@;
        let mut k = self.fob_import_rows.len();
        assert(rows.take(k as int) =~= rows);
        while k > 0
            invariant
                k <= rows.len(),
                rows == self.fob_import_rows@,
                key@ == crate::text::lower_seq(name@),
                previous_selection(rows, name@) == previous_selection(rows.take(k as int), name@),
            decreases k,
        {
            assert(rows.take(k as int).drop_last() =~= rows.take(k - 1));
            let row_key = crate::text::lower_chars(&chars_of(self.fob_import_rows[k - 1].input_system.as_str()));
            if crate::text::chars_eq(&row_key, &key) {
                return Some(self.fob_import_rows[k - 1].selected);
            }
            k = k - 1;
        }
        None
    }

    /// Opens the import window with a fresh preview.
    pub fn open_fob_import(&mut self, graph: Option<&crate::sde::RouteGraph>)
        ensures
            preview_refreshed(
                Session { fob_import_open: true, ..*old(self) },
                *final(self),
                match graph {
                    Some(g) => Some(*g),
                    None => None,
                },
            ),
    {
        self.fob_import_open = true;
        self.refresh_fob_import_preview(graph);
    }

    pub fn close_fob_import(&mut self)
        ensures
            !final(self).fob_import_open,
            final(self).fob_import_rows == old(self).fob_import_rows,
    {
        self.fob_import_open = false;
    }

    /// Takes new import text; the preview is rebuilt only when it changed.
    pub fn set_fob_import_text(&mut self, text: String, graph: Option<&crate::sde::RouteGraph>)
        ensures
            old(self).fob_import_text@ == text@ ==> *final(self) == *old(self),
            old(self).fob_import_text@ != text@ ==> preview_refreshed(
                Session { fob_import_text: text, ..*old(self) },
                *final(self),
                match graph {
                    Some(g) => Some(*g),
                    None => None,
                },
            ),
    {
        if crate::text::chars_eq(&chars_of(self.fob_import_text.as_str()), &chars_of(text.as_str())) {
            return;
        }
        self.fob_import_text = text;
        self.refresh_fob_import_preview(graph);
    }

    /// Selects or clears the first row with this import position, when it
    /// is valid.
    pub fn set_fob_import_selected(&mut self, import_index: usize, selected: bool)
        ensures
            final(self).fob_import_rows@.len() == old(self).fob_import_rows@.len(),
            forall|k: int|
                0 <= k < old(self).fob_import_rows@.len() ==> #[trigger] final(self).fob_import_rows@[k] == if (forall|j: int|
                    0 <= j < k ==> old(self).fob_import_rows@[j].import_index != import_index)
                    && old(self).fob_import_rows@[k].import_index == import_index
                    && old(self).fob_import_rows@[k].valid_spec() {
                    FobImportSystem { selected, ..old(self).fob_import_rows@[k] }
                } else {
                    old(self).fob_import_rows@[k]
                },
            final(self).characters == old(self).characters,
    {
        let mut i: usize = 0;
        while i < self.fob_import_rows.len()
            invariant
                i <= self.fob_import_rows.len(),
                self.fob_import_rows == old(self).fob_import_rows,
                self.characters == old(self).characters,
                forall|j: int| 0 <= j < i ==> old(self).fob_import_rows@[j].import_index != import_index,
            decreases self.fob_import_rows.len() - i,
        {
            if self.fob_import_rows[i].import_index == import_index {
                if self.fob_import_rows[i].valid() {
                    self.fob_import_rows[i].selected = selected;
                }
                return;
            }
            i = i + 1;
        }
    }

    /// Clicking the sorted column flips the direction; another column
    /// sorts in its default direction.
    pub fn toggle_fob_import_sort(&mut self, column: FobImportSortColumn)
        ensures
            final(self).fob_import_sort_column == column,
            old(self).fob_import_sort_column == column ==> final(self).fob_import_sort_ascending
                == !old(self).fob_import_sort_ascending,
            old(self).fob_import_sort_column != column ==> final(self).fob_import_sort_ascending == (column
                == FobImportSortColumn::System || column == FobImportSortColumn::Region || column
                == FobImportSortColumn::ClaimedBy),
            final(self).fob_import_rows == old(self).fob_import_rows,
    {
        if self.fob_import_sort_column == column {
            self.fob_import_sort_ascending = !self.fob_import_sort_ascending;
        } else {
            self.fob_import_sort_column = column;
            self.fob_import_sort_ascending = column.default_ascending();
        }
    }

    /// The rows in the order the import table shows them.
    pub fn sorted_fob_import_rows(&self) -> (r: Vec<FobImportSystem>)
        ensures
            exists|order: Seq<usize>|
                is_order_of(order, self.fob_import_rows@.len() as int) && (forall|p: int, q: int|
                    0 <= p < q < order.len() ==> {
                        let o = fob_row_order(
                            self.fob_import_sort_column,
                            self.fob_import_sort_ascending,
                            self.fob_import_rows@[#[trigger] order[p] as int],
                            self.fob_import_rows@[#[trigger] order[q] as int],
                        );
                        o < 0 || (o == 0 && order[p] < order[q])
                    }) && r@ == order.map_values(|i: usize| self.fob_import_rows@[i as int]),
    {
        let column = self.fob_import_sort_column;
        let ascending = self.fob_import_sort_ascending;
        let mut keys: Vec<Vec<KeyPart>> = Vec::new();
        let mut i: usize = 0;
        while i < self.fob_import_rows.len()
            invariant
                i <= self.fob_import_rows.len(),
                keys.len() == i,
                column == self.fob_import_sort_column,
                ascending == self.fob_import_sort_ascending,
                forall|k: int| 0 <= k < i ==> fob_key_ok(column, ascending, self.fob_import_rows@[k], #[trigger] keys@[k]@),
            decreases self.fob_import_rows.len() - i,
        {
            keys.push(fob_key(column, ascending, &self.fob_import_rows[i]));
            i = i + 1;
        }
        let order = sort_order(&keys);
        proof {
            assert forall|p: int, q: int| 0 <= p < q < order@.len() implies {
                let o = fob_row_order(
                    column,
                    ascending,
                    self.fob_import_rows@[#[trigger] order@[p] as int],
                    self.fob_import_rows@[#[trigger] order@[q] as int],
                );
                o < 0 || (o == 0 && order@[p] < order@[q])
            } by {
                assert(before(keys@, order@[p] as int, order@[q] as int));
                lemma_fob_key(
                    column,
                    ascending,
                    self.fob_import_rows@[order@[p] as int],
                    self.fob_import_rows@[order@[q] as int],
                    keys@[order@[p] as int]@,
                    keys@[order@[q] as int]@,
                );
            }
        }
        let mut rows: Vec<FobImportSystem> = Vec::new();
        let mut j: usize = 0;
        while j < order.len()
            invariant
                j <= order.len(),
                is_order_of(order@, self.fob_import_rows@.len() as int),
                rows@ == order@.take(j as int).map_values(|i: usize| self.fob_import_rows@[i as int]),
            decreases order.len() - j,
        {
            rows.push(copy_row(&self.fob_import_rows[order[j]]));
            assert(order@.take(j + 1) =~= order@.take(j as int).push(order@[j as int]));
            assert(order@.take(j + 1).map_values(|i: usize| self.fob_import_rows@[i as int]) =~= order@.take(
                j as int,
            ).map_values(|i: usize| self.fob_import_rows@[i as int]).push(self.fob_import_rows@[order@[j as int] as int]));
            j = j + 1;
        }
        assert(order@.take(order.len() as int) =~= order@);
        rows
    }

    pub fn valid_fob_import_count(&self) -> (r: usize)
        ensures
            r == valid_count(self.fob_import_rows@),
    {
        let mut count: usize = 0;
        let mut i: usize = 0;
        while i < self.fob_import_rows.len()
            invariant
                i <= self.fob_import_rows.len(),
                count == valid_count(self.fob_import_rows@.take(i as int)),
                count <= i,
            decreases self.fob_import_rows.len() - i,
        {
            assert(self.fob_import_rows@.take(i + 1).drop_last() =~= self.fob_import_rows@.take(i as int));
            if self.fob_import_rows[i].valid() {
                count = count + 1;
            }
            i = i + 1;
        }
        assert(self.fob_import_rows@.take(self.fob_import_rows.len() as int) =~= self.fob_import_rows@);
        count
    }

    pub fn selected_fob_import_count(&self) -> (r: usize)
        ensures
            r == chosen_count(self.fob_import_rows@),
    {
        let mut count: usize = 0;
        let mut i: usize = 0;
        while i < self.fob_import_rows.len()
            invariant
                i <= self.fob_import_rows.len(),
                count == chosen_count(self.fob_import_rows@.take(i as int)),
                count <= i,
            decreases self.fob_import_rows.len() - i,
        {
            assert(self.fob_import_rows@.take(i + 1).drop_last() =~= self.fob_import_rows@.take(i as int));
            if self.fob_import_rows[i].valid() && self.fob_import_rows[i].selected {
                count = count + 1;
            }
            i = i + 1;
        }
        assert(self.fob_import_rows@.take(self.fob_import_rows.len() as int) =~= self.fob_import_rows@);
        count
    }

    /// An optimised route needs the route map, no login or batch under
    /// way, a selected character, and between one and the stop limit of
    /// chosen rows.
    pub fn can_set_imported_fob_route(&self) -> (r: bool)
        ensures
            r == (self.route_graph_ready && !self.login_in_progress && !self.waypoint_send_in_progress
                && self.characters.len() > 0 && selected_ids(self.characters@).len() > 0 && chosen_count(
                self.fob_import_rows@,
            ) > 0 && chosen_count(self.fob_import_rows@) <= crate::sde::MAX_OPTIMIZED_ROUTE_STOPS),
    {
        self.route_graph_ready && !self.login_in_progress && !self.waypoint_send_in_progress
            && self.characters.len() > 0 && self.selected_character_count() > 0
            && self.selected_fob_import_count() > 0
            && self.selected_fob_import_count() <= crate::sde::MAX_OPTIMIZED_ROUTE_STOPS
    }

    fn missing_scope(&self) -> (r: Vec<Vec<char>>)
        ensures
            crate::text::views(r@) == missing_scope_names(self.characters@),
    {
        let mut names: Vec<Vec<char>> = Vec::new();
        let mut i: usize = 0;
        while i < self.characters.len()
            invariant
                i <= self.characters.len(),
                crate::text::views(names@) == missing_scope_names(self.characters@.take(i as int)),
            decreases self.characters.len() - i,
        {
            assert(self.characters@.take(i + 1).drop_last() =~= self.characters@.take(i as int));
            let c = &self.characters[i];
            if c.selected && !has_scope(&c.scopes, SCOPE_READ_LOCATION) {
                let ghost before = names@;
                names.push(chars_of(c.character_name.as_str()));
                assert(crate::text::views(names@) =~= crate::text::views(before).push(c.character_name@));
            }
            i = i + 1;
        }
        assert(self.characters@.take(self.characters.len() as int) =~= self.characters@);
        names
    }

    fn route_request(&self) -> (r: WaypointSendRequest)
        ensures
            route_request_ok(r, self.fob_import_rows@),
    {
        let ghost rows = self.fob_import_rows@;
        let mut destinations: Vec<crate::sde::RouteDestination> = Vec::new();
        let mut i: usize = 0;
        while i < self.fob_import_rows.len()
            invariant
                i <= self.fob_import_rows.len(),
                rows == self.fob_import_rows@,
                destinations@.len() == chosen_rows(rows.take(i as int)).len(),
                forall|k: int|
                    0 <= k < destinations@.len() ==> {
                        let d = #[trigger] destinations@[k];
                        let c = chosen_rows(rows.take(i as int))[k];
                        &&& c.resolved_system_id == Some(d.system_id)
                        &&& d.system_name@ == c.display_system_spec()
                        &&& d.import_index == c.import_index
                    },
            decreases self.fob_import_rows.len() - i,
        {
            assert(rows.take(i + 1) =~= rows.take(i as int).push(rows[i as int]));
            proof {
                rows.take(i as int).lemma_filter_push(rows[i as int], |r: FobImportSystem| r.valid_spec() && r.selected);
            }
            let row = &self.fob_import_rows[i];
            if row.valid() && row.selected {
                match row.resolved_system_id {
                    Some(system_id) => {
                        let ghost before = destinations@;
                        destinations.push(
                            crate::sde::RouteDestination {
                                system_id,
                                system_name: row.display_system().to_string(),
                                import_index: row.import_index,
                            },
                        );
                        assert forall|k: int| 0 <= k < destinations@.len() implies {
                            let d = #[trigger] destinations@[k];
                            let c = chosen_rows(rows.take(i + 1))[k];
                            &&& c.resolved_system_id == Some(d.system_id)
                            &&& d.system_name@ == c.display_system_spec()
                            &&& d.import_index == c.import_index
                        } by {
                            if k < before.len() {
                                assert(destinations@[k] == before[k]);
                            }
                        }
                    },
                    None => {},
                }
            }
            i = i + 1;
        }
        assert(rows.take(rows.len() as int) =~= rows);
        let mut name: Vec<char> = Vec::new();
        push_str(&mut name, "Optimized FOB route (");
        push_decimal(&mut name, destinations.len() as u64);
        push_str(&mut name, " stops)");
        WaypointSendRequest {
            destination_name: string_of(&name),
            destination_id: 0,
            kind: WaypointSendRequestKind::OptimizedRoute { destinations },
        }
    }

    /// Starts sending the chosen import rows as an optimised route to the
    /// selected characters, who must all be able to read their location.
    pub fn set_imported_fob_route(&mut self) -> (r: Option<(crate::auth::SsoConfig, Vec<WaypointSendJob>)>)
        ensures
            old(self).waypoint_send_in_progress ==> r is None && final(self).status_message@ == SEND_IN_PROGRESS@
                && status_only_changed(*old(self), *final(self)),
            !old(self).waypoint_send_in_progress && !old(self).route_graph_ready ==> r is None
                && final(self).status_message@ == "Route map is still loading"@
                && status_only_changed(*old(self), *final(self)),
            !old(self).waypoint_send_in_progress && old(self).route_graph_ready && old(self).characters.len() == 0 ==> r is None
                && final(self).status_message@ == ADD_CHARACTER_FIRST@
                && status_only_changed(*old(self), *final(self)),
            !old(self).waypoint_send_in_progress && old(self).route_graph_ready && old(self).characters.len() > 0
                && selected_ids(old(self).characters@).len() == 0 ==> r is None && final(self).status_message@
                == SELECT_CHARACTER@ && status_only_changed(*old(self), *final(self)),
            !old(self).waypoint_send_in_progress && old(self).route_graph_ready && old(self).characters.len() > 0
                && selected_ids(old(self).characters@).len() > 0 ==> {
                let missing = missing_scope_names(old(self).characters@);
                let chosen = chosen_rows(old(self).fob_import_rows@);
                if missing.len() > 0 {
                    r is None && final(self).status_message@ == "Re-authenticate "@ + crate::text::join_with(missing, ", "@)
                        + " with "@ + SCOPE_READ_LOCATION@ + " to use optimized imports"@
                        && status_only_changed(*old(self), *final(self))
                } else if chosen.len() == 0 {
                    r is None && final(self).status_message@ == "Select at least one imported system"@
                        && status_only_changed(*old(self), *final(self))
                } else if chosen.len() > crate::sde::MAX_OPTIMIZED_ROUTE_STOPS {
                    r is None && final(self).status_message@ == "Select "@ + crate::text::decimal(
                        crate::sde::MAX_OPTIMIZED_ROUTE_STOPS as nat,
                    ) + " or fewer systems for exact optimized routing"@
                        && status_only_changed(*old(self), *final(self))
                } else {
                    !final(self).fob_import_open && exists|request: WaypointSendRequest|
                        route_request_ok(request, old(self).fob_import_rows@) && batch_start_ok(
                            *old(self),
                            Session { fob_import_open: old(self).fob_import_open, ..*final(self) },
                            r,
                            request,
                            selected_ids(old(self).characters@),
                            (old(self).characters.len() - selected_ids(old(self).characters@).len()) as usize,
                            true,
                        )
                }
            },
    {
        if self.waypoint_send_in_progress {
            self.status_message = SEND_IN_PROGRESS.to_string();
            return None;
        }
        if !self.route_graph_ready {
            self.status_message = "Route map is still loading".to_string();
            return None;
        }
        if self.characters.len() == 0 {
            self.status_message = ADD_CHARACTER_FIRST.to_string();
            return None;
        }
        if self.selected_character_count() == 0 {
            self.status_message = SELECT_CHARACTER.to_string();
            return None;
        }
        let missing = self.missing_scope();
        if missing.len() > 0 {
            let mut out: Vec<char> = Vec::new();
            push_str(&mut out, "Re-authenticate ");
            let joined = crate::text::join_chars(&missing, &chars_of(", "));
            push_all(&mut out, &joined);
            push_str(&mut out, " with ");
            push_str(&mut out, SCOPE_READ_LOCATION);
            push_str(&mut out, " to use optimized imports");
            self.status_message = string_of(&out);
            return None;
        }
        let request = self.route_request();
        let stops = match &request.kind {
            WaypointSendRequestKind::OptimizedRoute { destinations } => destinations.len(),
            WaypointSendRequestKind::Single { .. } => 0,
        };
        proof {
            lemma_chosen_count(self.fob_import_rows@);
        }
        if stops == 0 {
            self.status_message = "Select at least one imported system".to_string();
            return None;
        }
        if stops > crate::sde::MAX_OPTIMIZED_ROUTE_STOPS {
            let mut out: Vec<char> = Vec::new();
            push_str(&mut out, "Select ");
            push_decimal(&mut out, crate::sde::MAX_OPTIMIZED_ROUTE_STOPS as u64);
            push_str(&mut out, " or fewer systems for exact optimized routing");
            self.status_message = string_of(&out);
            return None;
        }
        let targets = self.selected_character_ids();
        proof {
            lemma_selected_ids_len(self.characters@);
        }
        let skipped = self.characters.len() - targets.len();
        let ghost req = request;
        let r = self.start_waypoint_send_batch(request, targets, skipped, true);
        let ghost after_start = *self;
        self.fob_import_open = false;
        assert(after_start == Session { fob_import_open: after_start.fob_import_open, ..*self });
        r
    }
}


// ---------------------------------------------------------------------
// Favourites
// ---------------------------------------------------------------------

/// The message for an unknown favourite.
pub const FAVORITE_NOT_FOUND: &'static str = "Favorite destination not found";

/// How two saved favourites compare in the list: by name in Unicode lower case,
/// then by destination ID.
pub open spec fn favorite_order(a: crate::config::FavoriteDestinationConfig, b: crate::config::FavoriteDestinationConfig) -> int {
    let n = text_rel(
        codes(crate::text::unicode_lower(a.destination_name@)),
        codes(crate::text::unicode_lower(b.destination_name@)),
    );
    if n != 0 {
        n
    } else {
        sign(a.destination_id - b.destination_id)
    }
}

/// `fs` are the saved favourites `saved`, listed in favourite order (equal
/// ones in saved order).
pub open spec fn favorites_from_config(fs: Seq<FavoriteDestination>, saved: Seq<crate::config::FavoriteDestinationConfig>) -> bool {
    exists|order: Seq<usize>|
        is_order_of(order, saved.len() as int) && fs.len() == saved.len() && (forall|i: int|
            0 <= i < fs.len() ==> {
                let c = saved[#[trigger] order[i] as int];
                &&& fs[i].destination_id == c.destination_id
                &&& fs[i].destination_name == c.destination_name
                &&& fs[i].destination_kind == c.destination_kind
                &&& fs[i].nickname == c.nickname
            }) && (forall|p: int, q: int|
            0 <= p < q < order.len() ==> {
                let o = favorite_order(saved[#[trigger] order[p] as int], saved[#[trigger] order[q] as int]);
                o < 0 || (o == 0 && order[p] < order[q])
            })
}

pub open spec fn favorite_key_ok(f: crate::config::FavoriteDestinationConfig, k: Seq<KeyPart>) -> bool {
    &&& k.len() == 2
    &&& k[0] matches KeyPart::Text(v) && v@ == codes(crate::text::unicode_lower(f.destination_name@))
    &&& k[1] == KeyPart::Num(f.destination_id as i128)
}

/// The settings with a favourite saved (replacing one with its ID).
pub fn config_with_favorite(config: AppConfig, favorite: crate::config::FavoriteDestinationConfig) -> (r: AppConfig)
    ensures
        r.favorites@ == crate::config::upsert_favorite_spec(config.favorites@, favorite),
        r.characters@ == config.characters@,
        r.esi == config.esi,
{
    let mut config = config;
    config.upsert_favorite(favorite);
    config
}

/// The settings without a favourite, if it was there.
pub fn config_without_favorite(config: AppConfig, destination_id: i64) -> (r: Option<AppConfig>)
    ensures
        match crate::config::favorite_index(config.favorites@, destination_id) {
            Some(i) => r matches Some(c) && c.favorites@ == config.favorites@.remove(i) && c.characters@
                == config.characters@ && c.esi == config.esi,
            None => r is None,
        },
{
    proof {
        crate::config::lemma_favorite_index(config.favorites@, destination_id);
    }
    let mut config = config;
    match config.remove_favorite(destination_id) {
        Some(_) => Some(config),
        None => None,
    }
}

/// The settings with the first favourite of this destination ID renamed
/// to the trimmed `nickname` (an empty one clears it), if it is there.
pub fn config_with_favorite_nickname(config: AppConfig, destination_id: i64, nickname: &str) -> (r: Option<AppConfig>)
    ensures
        match crate::config::favorite_index(config.favorites@, destination_id) {
            Some(i) => r matches Some(c) && c.characters@ == config.characters@ && c.esi == config.esi
                && c.favorites@.len() == config.favorites@.len() && (forall|j: int|
                0 <= j < config.favorites@.len() && j != i ==> #[trigger] c.favorites@[j] == config.favorites@[j]) && ({
                let f = c.favorites@[i];
                let o = config.favorites@[i];
                &&& f.destination_id == o.destination_id
                &&& f.destination_name == o.destination_name
                &&& f.destination_kind == o.destination_kind
                &&& f.nickname@ == crate::text::trim(nickname@)
            }),
            None => r is None,
        },
{
    proof {
        crate::config::lemma_favorite_index(config.favorites@, destination_id);
    }
    let trimmed = string_of(&crate::text::trim_chars(&chars_of(nickname)));
    let mut config = config;
    if config.set_favorite_nickname(destination_id, trimmed) {
        Some(config)
    } else {
        None
    }
}

/// What adding a favourite from the input field needs next.
pub enum FavoriteInputOutcome {
    /// Nothing more; the status says why.
    Nothing,
    /// Save these settings, then call `favorite_saved`.
    Save(crate::config::FavoriteDestinationConfig),
    /// Resolve this name through ESI, then hand the result to
    /// `resolved_favorite`.
    LookupName(String),
}

impl Session {
    /// The favourites from the settings, in favourite order.
    pub fn sync_favorites_from_config(&mut self)
        ensures
            favorites_from_config(final(self).favorites@, old(self).config.favorites@),
            *final(self) == (Session { favorites: final(self).favorites, ..*old(self) }),
    {
        let mut keys: Vec<Vec<KeyPart>> = Vec::new();
        let mut i: usize = 0;
        while i < self.config.favorites.len()
            invariant
                i <= self.config.favorites.len(),
                keys.len() == i,
                forall|k: int| 0 <= k < i ==> favorite_key_ok(self.config.favorites@[k], #[trigger] keys@[k]@),
            decreases self.config.favorites.len() - i,
        {
            let f = &self.config.favorites[i];
            let lowered = crate::text::to_lowercase_text(f.destination_name.as_str());
            let mut key: Vec<KeyPart> = Vec::new();
            key.push(KeyPart::Text(codes_of(lowered.as_str())));
            key.push(KeyPart::Num(f.destination_id as i128));
            keys.push(key);
            i = i + 1;
        }
        let order = sort_order(&keys);
        let ghost saved = self.config.favorites@;
        let mut favorites: Vec<FavoriteDestination> = Vec::new();
        let mut j: usize = 0;
        while j < order.len()
            invariant
                j <= order.len(),
                saved == self.config.favorites@,
                is_order_of(order@, saved.len() as int),
                favorites@.len() == j,
                forall|i: int|
                    0 <= i < j ==> {
                        let c = saved[#[trigger] order@[i] as int];
                        &&& favorites@[i].destination_id == c.destination_id
                        &&& favorites@[i].destination_name == c.destination_name
                        &&& favorites@[i].destination_kind == c.destination_kind
                        &&& favorites@[i].nickname == c.nickname
                    },
            decreases order.len() - j,
        {
            let c = &self.config.favorites[order[j]];
            favorites.push(
                FavoriteDestination::from_config(
                    crate::config::FavoriteDestinationConfig {
                        destination_id: c.destination_id,
                        destination_name: c.destination_name.clone(),
                        destination_kind: c.destination_kind.clone(),
                        nickname: c.nickname.clone(),
                    },
                ),
            );
            j = j + 1;
        }
        proof {
            assert forall|p: int, q: int| 0 <= p < q < order@.len() implies {
                let o = favorite_order(saved[#[trigger] order@[p] as int], saved[#[trigger] order@[q] as int]);
                o < 0 || (o == 0 && order@[p] < order@[q])
            } by {
                assert(before(keys@, order@[p] as int, order@[q] as int));
                crate::sorting::lemma_key_rel_two(keys@[order@[p] as int]@, keys@[order@[q] as int]@);
            }
        }
        self.favorites = favorites;
    }

    /// Whether a favourite may be saved: one with the same ID is already
    /// there, which the status says.
    pub fn favorite_is_new(&mut self, favorite: &FavoriteDestination) -> (r: bool)
        ensures
            r == (favorite_position(old(self).favorites@, favorite.destination_id) is None),
            !r ==> final(self).status_message@ == favorite.destination_name@ + " is already a favorite"@
                && status_only_changed(*old(self), *final(self)),
            r ==> *final(self) == *old(self),
            final(self).favorites == old(self).favorites,
            final(self).config == old(self).config,
    {
        if find_favorite_position(&self.favorites, favorite.destination_id).is_some() {
            self.status_message = prefixed_after(favorite.destination_name.as_str(), " is already a favorite");
            return false;
        }
        true
    }

    /// The favourite was saved with `config`: the settings are taken over,
    /// the list is rebuilt and the status says so.
    pub fn favorite_saved(&mut self, config: AppConfig, name: &str, destination_id: i64)
        ensures
            final(self).config == config,
            favorites_from_config(final(self).favorites@, config.favorites@),
            final(self).status_message@ == "Saved favorite "@ + name@ + " ("@ + crate::text::signed_decimal(
                destination_id as int,
            ) + ")"@,
    {
        self.config = config;
        self.sync_favorites_from_config();
        let mut out: Vec<char> = Vec::new();
        push_str(&mut out, "Saved favorite ");
        push_str(&mut out, name);
        push_str(&mut out, " (");
        push_signed_decimal(&mut out, destination_id);
        push_str(&mut out, ")");
        self.status_message = string_of(&out);
    }

    /// A favourite's nickname was saved with `config`: the settings are
    /// taken over, the list is rebuilt, the favourite's edit field shows the
    /// saved nickname and the status says so.
    pub fn favorite_nickname_saved(&mut self, config: AppConfig, destination_id: i64)
        ensures
            final(self).config == config,
            favorites_from_config(final(self).favorites@, config.favorites@),
            match favorite_position(final(self).favorites@, destination_id) {
                Some(i) => final(self).favorite_nickname_edits@ == old(self).favorite_nickname_edits@.insert(
                    destination_id,
                    final(self).favorites@[i].nickname,
                ) && final(self).status_message@ == "Saved nickname for "@ + final(self).favorites@[i].destination_name@,
                None => final(self).favorite_nickname_edits@ == old(self).favorite_nickname_edits@
                    && final(self).status_message@ == FAVORITE_NOT_FOUND@,
            },
            final(self).characters == old(self).characters,
    {
        self.config = config;
        self.sync_favorites_from_config();
        proof {
            lemma_favorite_position(self.favorites@, destination_id);
        }
        match find_favorite_position(&self.favorites, destination_id) {
            Some(i) => {
                proof {
                    lemma_integer_keys_ordered();
                }
                let nickname = self.favorites[i].nickname.clone();
                self.favorite_nickname_edits.insert(destination_id, nickname);
                let mut out: Vec<char> = Vec::new();
                push_str(&mut out, "Saved nickname for ");
                push_str(&mut out, self.favorites[i].destination_name.as_str());
                self.status_message = string_of(&out);
            },
            None => {
                self.status_message = FAVORITE_NOT_FOUND.to_string();
            },
        }
    }

    /// Saving a favourite's nickname failed with `error`.
    pub fn favorite_nickname_save_failed(&mut self, error: &str)
        ensures
            final(self).status_message@ == "Failed to save favorite nickname: "@ + error@,
            status_only_changed(*old(self), *final(self)),
    {
        self.status_message = prefixed("Failed to save favorite nickname: ", error);
    }

    /// Puts a favourite's edit field back to its saved nickname.
    pub fn reset_favorite_nickname_edit(&mut self, destination_id: i64)
        ensures
            match favorite_position(old(self).favorites@, destination_id) {
                Some(i) => final(self).favorite_nickname_edits@ == old(self).favorite_nickname_edits@.insert(
                    destination_id,
                    old(self).favorites@[i].nickname,
                ),
                None => final(self).favorite_nickname_edits@ == old(self).favorite_nickname_edits@,
            },
            *final(self) == (Session { favorite_nickname_edits: final(self).favorite_nickname_edits, ..*old(self) }),
    {
        proof {
            lemma_favorite_position(self.favorites@, destination_id);
        }
        match find_favorite_position(&self.favorites, destination_id) {
            Some(i) => {
                proof {
                    lemma_integer_keys_ordered();
                }
                let nickname = self.favorites[i].nickname.clone();
                self.favorite_nickname_edits.insert(destination_id, nickname);
            },
            None => {},
        }
    }

    /// Adds the destination typed in the favourite field: it must not be
    /// empty; an ID is saved at once, a name is resolved first.
    pub fn add_favorite_from_input(&mut self) -> (r: FavoriteInputOutcome)
        ensures
            crate::text::trim(old(self).favorite_destination_input@).len() == 0 ==> r is Nothing
                && final(self).status_message@ == "Favorite destination required"@ && status_only_changed(*old(self), *final(self)),
            crate::text::trim(old(self).favorite_destination_input@).len() > 0 ==> {
                let t = crate::text::trim(old(self).favorite_destination_input@);
                if !crate::destination::looks_numeric(t) {
                    r matches FavoriteInputOutcome::LookupName(x) && x@ == t && *final(self) == *old(self)
                } else {
                    match crate::text::parse_i64_spec(t) {
                        None => r is Nothing && final(self).status_message@ == crate::destination::error_message(
                            crate::destination::ErrorView::InvalidId(t),
                        ) && status_only_changed(*old(self), *final(self)),
                        Some(id) => if id <= 0 {
                            r is Nothing && final(self).status_message@ == crate::destination::error_message(
                                crate::destination::ErrorView::NotPositive,
                            ) && status_only_changed(*old(self), *final(self))
                        } else if favorite_position(old(self).favorites@, id) is Some {
                            r is Nothing && final(self).status_message@ == t + " is already a favorite"@ && status_only_changed(*old(self), *final(self))
                        } else {
                            r matches FavoriteInputOutcome::Save(f) && f.destination_id == id && f.destination_name@ == t
                                && f.destination_kind@ == crate::destination::DestinationKind::NumericId.label_spec()
                                && *final(self) == *old(self)
                        },
                    }
                }
            },
            final(self).favorites == old(self).favorites,
            final(self).config == old(self).config,
    {
        let input = crate::text::trim_chars(&chars_of(self.favorite_destination_input.as_str()));
        if input.len() == 0 {
            self.status_message = "Favorite destination required".to_string();
            return FavoriteInputOutcome::Nothing;
        }
        match crate::destination::resolve(self.favorite_destination_input.as_str()) {
            Ok(d) => {
                let display = ResolvedDestinationDisplay::from_resolved(&d);
                let favorite = FavoriteDestination::from_resolved(&display);
                if self.favorite_is_new(&favorite) {
                    FavoriteInputOutcome::Save(favorite.into_config())
                } else {
                    FavoriteInputOutcome::Nothing
                }
            },
            Err(crate::destination::DestinationError::NeedsNameLookup(name)) => FavoriteInputOutcome::LookupName(name),
            Err(e) => {
                self.status_message = e.message();
                FavoriteInputOutcome::Nothing
            },
        }
    }

    /// A favourite for a destination that ESI resolved, when it is not a
    /// favourite yet; gives back what to save.
    pub fn resolved_favorite(&mut self, resolved: &ResolvedDestinationDisplay) -> (r: Option<
        crate::config::FavoriteDestinationConfig,
    >)
        ensures
            if favorite_position(old(self).favorites@, resolved.id) is Some {
                r is None && final(self).status_message@ == resolved.name@ + " is already a favorite"@ && status_only_changed(*old(self), *final(self))
            } else {
                r matches Some(f) && f.destination_id == resolved.id && f.destination_name@ == resolved.name@
                    && f.destination_kind@ == resolved.kind_label@ && *final(self) == *old(self)
            },
            final(self).favorites == old(self).favorites,
            final(self).config == old(self).config,
    {
        let favorite = FavoriteDestination::from_resolved(resolved);
        if self.favorite_is_new(&favorite) {
            Some(favorite.into_config())
        } else {
            None
        }
    }

    /// Adds the destination last resolved or sent to the favourites,
    /// when there is one and it is not a favourite yet; gives back what to
    /// save.
    pub fn add_resolved_destination_to_favorites(&mut self) -> (r: Option<crate::config::FavoriteDestinationConfig>)
        ensures
            old(self).last_resolved_destination is None ==> r is None && final(self).status_message@
                == "Resolve or send a destination before adding it"@ && status_only_changed(*old(self), *final(self)),
            old(self).last_resolved_destination matches Some(d) ==> if favorite_position(old(self).favorites@, d.id) is Some {
                r is None && final(self).status_message@ == d.name@ + " is already a favorite"@ && status_only_changed(*old(self), *final(self))
            } else {
                r matches Some(f) && f.destination_id == d.id && f.destination_name@ == d.name@ && f.destination_kind@
                    == d.kind_label@
            },
            final(self).favorites == old(self).favorites,
            final(self).config == old(self).config,
    {
        let favorite = match &self.last_resolved_destination {
            Some(d) => FavoriteDestination::from_resolved(d),
            None => {
                self.status_message = "Resolve or send a destination before adding it".to_string();
                return None;
            },
        };
        if self.favorite_is_new(&favorite) {
            Some(favorite.into_config())
        } else {
            None
        }
    }

    /// Asks to confirm removing a favourite.
    pub fn request_remove_favorite_destination(&mut self, destination_id: i64)
        ensures
            match favorite_position(old(self).favorites@, destination_id) {
                None => final(self).status_message@ == FAVORITE_NOT_FOUND@ && status_only_changed(*old(self), *final(self)),
                Some(i) => final(self).pending_remove_favorite_destination_id == Some(destination_id)
                    && final(self).status_message@ == "Confirm removal of favorite "@
                    + old(self).favorites@[i].destination_name@,
            },
            final(self).favorites == old(self).favorites,
            final(self).config == old(self).config,
    {
        proof {
            lemma_favorite_position(self.favorites@, destination_id);
        }
        match find_favorite_position(&self.favorites, destination_id) {
            None => {
                self.status_message = FAVORITE_NOT_FOUND.to_string();
            },
            Some(i) => {
                let name = self.favorites[i].destination_name.clone();
                self.pending_remove_favorite_destination_id = Some(destination_id);
                self.status_message = prefixed("Confirm removal of favorite ", name.as_str());
            },
        }
    }

    pub fn cancel_remove_favorite_destination(&mut self)
        ensures
            final(self).pending_remove_favorite_destination_id is None,
            final(self).favorites == old(self).favorites,
            final(self).config == old(self).config,
            final(self).status_message == old(self).status_message,
    {
        self.pending_remove_favorite_destination_id = None;
    }

    /// The name of a favourite about to be removed; an unknown one is
    /// reported in the status.
    pub fn favorite_to_remove(&mut self, destination_id: i64) -> (r: Option<String>)
        ensures
            match favorite_position(old(self).favorites@, destination_id) {
                None => r is None && final(self).status_message@ == FAVORITE_NOT_FOUND@ && status_only_changed(*old(self), *final(self)),
                Some(i) => r matches Some(n) && n == old(self).favorites@[i].destination_name
                    && *final(self) == *old(self),
            },
            final(self).favorites == old(self).favorites,
            final(self).config == old(self).config,
    {
        proof {
            lemma_favorite_position(self.favorites@, destination_id);
        }
        match find_favorite_position(&self.favorites, destination_id) {
            None => {
                self.status_message = FAVORITE_NOT_FOUND.to_string();
                None
            },
            Some(i) => Some(self.favorites[i].destination_name.clone()),
        }
    }

    /// The favourite is gone from the settings, which were saved as
    /// `config`.
    pub fn favorite_removed(&mut self, config: AppConfig, name: &str)
        ensures
            final(self).config == config,
            favorites_from_config(final(self).favorites@, config.favorites@),
            final(self).pending_remove_favorite_destination_id is None,
            final(self).status_message@ == "Removed favorite "@ + name@,
    {
        self.config = config;
        self.sync_favorites_from_config();
        self.pending_remove_favorite_destination_id = None;
        self.status_message = prefixed("Removed favorite ", name);
    }

    /// A favourite could not be found in the settings.
    pub fn favorite_missing(&mut self)
        ensures
            final(self).status_message@ == FAVORITE_NOT_FOUND@,
            final(self).favorites == old(self).favorites,
            final(self).config == old(self).config,
    {
        self.status_message = FAVORITE_NOT_FOUND.to_string();
    }

    /// Saving the settings without a favourite failed with `error`.
    pub fn favorite_removal_failed(&mut self, error: &str)
        ensures
            final(self).status_message@ == "Failed to remove favorite: "@ + error@,
            final(self).favorites == old(self).favorites,
            final(self).config == old(self).config,
    {
        self.status_message = prefixed("Failed to remove favorite: ", error);
    }
}

/// `text` followed by `suffix`.
fn prefixed_after(text: &str, suffix: &str) -> (r: String)
    ensures
        r@ == text@ + suffix@,
{
    prefixed(text, suffix)
}


// ---------------------------------------------------------------------
// ESI settings, the route map, logins and the destination form
// ---------------------------------------------------------------------

impl Session {
    /// The client ID typed is set and is the one saved.
    pub fn esi_client_id_is_saved(&self) -> (r: bool)
        ensures
            r == (crate::text::trim(self.esi_client_id@).len() > 0 && crate::text::trim(self.esi_client_id@)
                == crate::text::trim(self.config.esi.client_id@)),
    {
        let typed = crate::text::trim_chars(&chars_of(self.esi_client_id.as_str()));
        let saved = crate::text::trim_chars(&chars_of(self.config.esi.client_id.as_str()));
        typed.len() > 0 && crate::text::chars_eq(&typed, &saved)
    }

    /// Some client ID is typed.
    pub fn esi_client_id_is_configured(&self) -> (r: bool)
        ensures
            r == (crate::text::trim(self.esi_client_id@).len() > 0),
    {
        crate::text::trim_chars(&chars_of(self.esi_client_id.as_str())).len() > 0
    }

    /// How the ESI tab labels the client ID: saved, typed but not saved,
    /// or missing.
    pub fn esi_settings_status(&self) -> (r: &'static str)
        ensures
            r@ == (if crate::text::trim(self.esi_client_id@).len() > 0 && crate::text::trim(self.esi_client_id@)
                == crate::text::trim(self.config.esi.client_id@) {
                "Saved"@
            } else if crate::text::trim(self.esi_client_id@).len() > 0 {
                "Unsaved"@
            } else {
                "Missing"@
            }),
    {
        if self.esi_client_id_is_saved() {
            "Saved"
        } else if self.esi_client_id_is_configured() {
            "Unsaved"
        } else {
            "Missing"
        }
    }

    /// The redirect address to register with the EVE application.
    pub fn effective_redirect_uri(&self) -> (r: String)
        ensures
            r@ == crate::auth::DEFAULT_REDIRECT_URI@,
    {
        crate::auth::redirect_uri()
    }

    /// Puts the typed client ID (trimmed) into the settings, which the
    /// caller then saves; an empty one is refused.
    pub fn save_esi_settings(&mut self) -> (save: bool)
        ensures
            crate::text::trim(old(self).esi_client_id@).len() == 0 ==> !save && final(self).status_message@
                == "EVE application Client ID required"@ && final(self).config == old(self).config,
            crate::text::trim(old(self).esi_client_id@).len() > 0 ==> save && final(self).config.esi.client_id@
                == crate::text::trim(old(self).esi_client_id@) && final(self).config.characters
                == old(self).config.characters && final(self).config.favorites == old(self).config.favorites,
            final(self).esi_client_id == old(self).esi_client_id,
    {
        let client_id = crate::text::trim_chars(&chars_of(self.esi_client_id.as_str()));
        if client_id.len() == 0 {
            self.status_message = "EVE application Client ID required".to_string();
            return false;
        }
        self.config.esi.client_id = string_of(&client_id);
        true
    }

    /// Saving the ESI settings succeeded or failed with an error.
    pub fn esi_settings_saved(&mut self, result: Result<(), String>)
        ensures
            result is Ok ==> final(self).esi_client_id == old(self).config.esi.client_id && final(self).status_message@
                == "Saved ESI settings"@,
            result matches Err(e) ==> final(self).esi_client_id == old(self).esi_client_id
                && final(self).status_message@ == "Failed to save ESI settings: "@ + e@,
            final(self).config == old(self).config,
    {
        match result {
            Ok(()) => {
                self.esi_client_id = self.config.esi.client_id.clone();
                self.status_message = "Saved ESI settings".to_string();
            },
            Err(e) => {
                self.status_message = prefixed("Failed to save ESI settings: ", e.as_str());
            },
        }
    }

    pub fn mark_redirect_uri_copied(&mut self)
        ensures
            final(self).status_message@ == "Copied redirect URI"@,
            final(self).config == old(self).config,
    {
        self.status_message = "Copied redirect URI".to_string();
    }

    pub fn sde_route_graph_ready(&self) -> (r: bool)
        ensures
            r == self.route_graph_ready,
    {
        self.route_graph_ready
    }

    pub fn sde_cache_in_progress(&self) -> (r: bool)
        ensures
            r == self.sde_cache_in_progress,
    {
        self.sde_cache_in_progress
    }

    /// The route map worker reports progress.
    pub fn sde_status(&mut self, message: String)
        ensures
            final(self).sde_cache_status == message,
            final(self).route_graph_ready == old(self).route_graph_ready,
            final(self).sde_cache_in_progress == old(self).sde_cache_in_progress,
    {
        self.sde_cache_status = message;
    }

    /// The route map is ready: the status names its build and size, and the
    /// import preview is looked up on it.
    pub fn sde_ready(&mut self, message: &str, graph: &crate::sde::RouteGraph)
        ensures
            final(self).sde_cache_status@ == message@ + ": build "@ + crate::text::decimal(
                graph.build_number_spec() as nat,
            ) + ", "@ + crate::text::decimal(
                graph.system_list().map_values(|s: crate::sde::SolarSystem| s.id).to_set().len(),
            ) + " systems"@,
            final(self).route_graph_ready,
            !final(self).sde_cache_in_progress,
            final(self).fob_import_rows@.len() == crate::fobscout::parse_export_spec(old(self).fob_import_text@).rows.len(),
            forall|i: int|
                0 <= i < final(self).fob_import_rows@.len() ==> preview_row_ok(
                    #[trigger] final(self).fob_import_rows@[i],
                    crate::fobscout::parse_export_spec(old(self).fob_import_text@).rows[i],
                    old(self).fob_import_rows@,
                    Some(*graph),
                ),
            final(self).characters == old(self).characters,
    {
        let mut out: Vec<char> = Vec::new();
        push_str(&mut out, message);
        push_str(&mut out, ": build ");
        push_decimal(&mut out, graph.build_number());
        push_str(&mut out, ", ");
        push_decimal(&mut out, graph.system_count() as u64);
        push_str(&mut out, " systems");
        self.sde_cache_status = string_of(&out);
        self.route_graph_ready = true;
        self.sde_cache_in_progress = false;
        self.refresh_fob_import_preview(Some(graph));
    }

    /// Refreshing the route map failed: a cached map is kept in use.
    pub fn sde_failed(&mut self, error: &str, graph: Option<&crate::sde::RouteGraph>)
        ensures
            old(self).route_graph_ready ==> final(self).sde_cache_status@
                == "SDE refresh failed; using cached route graph: "@ + error@,
            !old(self).route_graph_ready ==> final(self).sde_cache_status@ == "SDE route graph unavailable: "@ + error@,
            !final(self).sde_cache_in_progress,
            final(self).route_graph_ready == old(self).route_graph_ready,
            final(self).fob_import_rows@.len() == crate::fobscout::parse_export_spec(old(self).fob_import_text@).rows.len(),
            forall|i: int|
                0 <= i < final(self).fob_import_rows@.len() ==> preview_row_ok(
                    #[trigger] final(self).fob_import_rows@[i],
                    crate::fobscout::parse_export_spec(old(self).fob_import_text@).rows[i],
                    old(self).fob_import_rows@,
                    match graph {
                        Some(g) => Some(*g),
                        None => None,
                    },
                ),
            final(self).characters == old(self).characters,
    {
        if self.route_graph_ready {
            self.sde_cache_status = prefixed("SDE refresh failed; using cached route graph: ", error);
        } else {
            self.sde_cache_status = prefixed("SDE route graph unavailable: ", error);
        }
        self.sde_cache_in_progress = false;
        self.refresh_fob_import_preview(graph);
    }

    /// The route map worker stopped without a word.
    pub fn sde_worker_stopped(&mut self)
        ensures
            old(self).route_graph_ready ==> final(self).sde_cache_status@
                == "SDE refresh worker stopped; using cached route graph"@,
            !old(self).route_graph_ready ==> final(self).sde_cache_status@ == "SDE refresh worker stopped"@,
            !final(self).sde_cache_in_progress,
            final(self).route_graph_ready == old(self).route_graph_ready,
    {
        if self.route_graph_ready {
            self.sde_cache_status = "SDE refresh worker stopped; using cached route graph".to_string();
        } else {
            self.sde_cache_status = "SDE refresh worker stopped".to_string();
        }
        self.sde_cache_in_progress = false;
    }

    /// Starts adding a character: ignored while a login is under way,
    /// refused while a batch is being sent or without a client ID;
    /// otherwise the login settings come back for the login worker.
    pub fn start_character_login(&mut self) -> (r: Option<crate::auth::SsoConfig>)
        ensures
            old(self).login_in_progress ==> r is None && *final(self) == *old(self),
            !old(self).login_in_progress && old(self).waypoint_send_in_progress ==> r is None
                && final(self).status_message@ == WAIT_FOR_SEND@ && status_only_changed(*old(self), *final(self)),
            !old(self).login_in_progress && !old(self).waypoint_send_in_progress && crate::text::trim(
                old(self).esi_client_id@,
            ).len() == 0 ==> r is None && final(self).status_message@ == crate::auth::auth_error_text(
                crate::auth::AuthError::ClientIdRequired,
            ) && !final(self).login_in_progress,
            !old(self).login_in_progress && !old(self).waypoint_send_in_progress && crate::text::trim(
                old(self).esi_client_id@,
            ).len() > 0 ==> (r matches Some(c) && c.client_id@ == crate::text::trim(old(self).esi_client_id@)
                && c.redirect_uri@ == crate::auth::DEFAULT_REDIRECT_URI@) && final(self).status_message@
                == "Opening EVE SSO login..."@ && final(self).login_in_progress,
            final(self).characters == old(self).characters,
            final(self).config == old(self).config,
    {
        if self.login_in_progress {
            return None;
        }
        if self.waypoint_send_in_progress {
            self.status_message = WAIT_FOR_SEND.to_string();
            return None;
        }
        match crate::auth::SsoConfig::from_client_id(self.esi_client_id.as_str()) {
            Ok(c) => {
                self.status_message = "Opening EVE SSO login...".to_string();
                self.login_in_progress = true;
                Some(c)
            },
            Err(e) => {
                self.status_message = e.message();
                None
            },
        }
    }

    /// The login failed with `error` (or its worker stopped).
    pub fn login_failed(&mut self, error: &str)
        ensures
            final(self).status_message@ == "Login failed: "@ + error@,
            !final(self).login_in_progress,
            final(self).characters == old(self).characters,
            final(self).config == old(self).config,
    {
        self.status_message = prefixed("Login failed: ", error);
        self.login_in_progress = false;
    }

    /// The settings entry of a character that just logged in: a character
    /// already known keeps its selection and the time it was first added;
    /// a new one is selected and added at `now`.
    pub fn logged_in_character_config(&self, character: &crate::auth::AuthenticatedCharacter, now: u64) -> (r: CharacterConfig)
        ensures
            r.character_id == character.character_id,
            r.character_name == character.character_name,
            r.scopes@ == character.scopes@,
            match state_index(self.characters@, character.character_id) {
                Some(i) => r.selected == self.characters@[i].selected && r.added_at_unix_seconds
                    == self.characters@[i].added_at_unix_seconds,
                None => r.selected && r.added_at_unix_seconds == now,
            },
    {
        proof {
            lemma_state_index(self.characters@, character.character_id);
        }
        let (selected, added) = match find_state(&self.characters, character.character_id) {
            Some(i) => (self.characters[i].selected, self.characters[i].added_at_unix_seconds),
            None => (true, now),
        };
        CharacterConfig {
            character_id: character.character_id,
            character_name: character.character_name.clone(),
            added_at_unix_seconds: added,
            scopes: copy_strings(&character.scopes),
            selected,
        }
    }

    /// A character that logged in is saved (its tokens in the keyring and
    /// `character` in the settings, which were saved): it joins the list in
    /// place of one with its ID, send results are forgotten unless a batch
    /// is under way, and the status says so.
    pub fn login_saved(&mut self, character: CharacterConfig, access_token: String, expires_at: u64)
        ensures
            final(self).config.characters@ == crate::config::upsert_character_spec(
                old(self).config.characters@,
                character,
            ),
            final(self).config.favorites@ == old(self).config.favorites@,
            !final(self).login_in_progress,
            final(self).status_message@ == "Added "@ + character.character_name@,
            final(self).characters@.len() == (if state_index(old(self).characters@, character.character_id) is Some {
                old(self).characters@.len()
            } else {
                old(self).characters@.len() + 1
            }),
    {
        let name = character.character_name.clone();
        let copy = CharacterConfig {
            character_id: character.character_id,
            character_name: character.character_name.clone(),
            added_at_unix_seconds: character.added_at_unix_seconds,
            scopes: copy_strings(&character.scopes),
            selected: character.selected,
        };
        self.config.upsert_character(character);
        let state = CharacterState::from_login(copy, access_token, expires_at);
        proof {
            lemma_state_index(self.characters@, state.character_id);
        }
        match find_state(&self.characters, state.character_id) {
            Some(i) => {
                self.characters.set(i, state);
            },
            None => {
                self.characters.push(state);
            },
        }
        if !self.waypoint_send_in_progress {
            self.clear_send_results();
        }
        self.status_message = prefixed("Added ", name.as_str());
        self.login_in_progress = false;
    }

    /// Saving a character that logged in failed with `error`.
    pub fn login_save_failed(&mut self, character_name: &str, error: &str)
        ensures
            final(self).status_message@ == "Failed to save "@ + character_name@ + ": "@ + error@,
            !final(self).login_in_progress,
            final(self).characters == old(self).characters,
    {
        let mut out: Vec<char> = Vec::new();
        push_str(&mut out, "Failed to save ");
        push_str(&mut out, character_name);
        push_str(&mut out, ": ");
        push_str(&mut out, error);
        self.status_message = string_of(&out);
        self.login_in_progress = false;
    }

    /// Clears the destination form.
    pub fn clear_destination_form(&mut self)
        ensures
            final(self).destination@.len() == 0,
            final(self).last_resolved_destination is None,
            final(self).status_message@ == "Cleared"@,
            final(self).characters == old(self).characters,
            final(self).config == old(self).config,
    {
        self.destination = String::new();
        self.last_resolved_destination = None;
        self.status_message = "Cleared".to_string();
    }
}


fn copy_strings(v: &Vec<String>) -> (r: Vec<String>)
    ensures
        r@ == v@,
{
    let mut r: Vec<String> = Vec::new();
    let mut i: usize = 0;
    while i < v.len()
        invariant
            i <= v.len(),
            r@ == v@.take(i as int),
        decreases v.len() - i,
    {
        r.push(v[i].clone());
        assert(v@.take(i + 1) =~= v@.take(i as int).push(v@[i as int]));
        i = i + 1;
    }
    assert(v@.take(v.len() as int) =~= v@);
    r
}

} // verus!
