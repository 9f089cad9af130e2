//! The non-secret settings the application keeps: the ESI client ID, the
//! characters that were added and the favourite destinations.
//!
//! Characters are keyed by character ID and favourites by destination ID:
//! saving an entry replaces the one with the same key in place or appends
//! it, and removing an entry takes out the first one with the key.

use vstd::prelude::*;

verus! {

#[derive(Clone, Debug)]
pub struct AppConfig {
    pub esi: EsiConfig,
    pub characters: Vec<CharacterConfig>,
    pub favorites: Vec<FavoriteDestinationConfig>,
}

#[derive(Clone, Debug)]
pub struct EsiConfig {
    pub client_id: String,
}

#[derive(Clone, Debug)]
pub struct CharacterConfig {
    pub character_id: u64,
    pub character_name: String,
    pub added_at_unix_seconds: u64,
    pub scopes: Vec<String>,
    pub selected: bool,
}

/// A saved favourite: its destination ID, name and kind, and the nickname
/// the user gave it (empty when none).
#[derive(Clone, Debug)]
pub struct FavoriteDestinationConfig {
    pub destination_id: i64,
    pub destination_name: String,
    pub destination_kind: String,
    pub nickname: String,
}

impl Default for EsiConfig {
    fn default() -> (r: Self)
        ensures
            r.client_id@ == Seq::<char>::empty(),
    {
        EsiConfig { client_id: String::new() }
    }
}

impl Default for AppConfig {
    fn default() -> (r: Self)
        ensures
            r.esi.client_id@ == Seq::<char>::empty(),
            r.characters@ == Seq::<CharacterConfig>::empty(),
            r.favorites@ == Seq::<FavoriteDestinationConfig>::empty(),
    {
        AppConfig { esi: EsiConfig { client_id: String::new() }, characters: Vec::new(), favorites: Vec::new() }
    }
}

/// The position of the first character with this ID.
pub open spec fn character_index(cs: Seq<CharacterConfig>, id: u64) -> Option<int>
    decreases cs.len(),
{
    if cs.len() == 0 {
        None
    } else {
        match character_index(cs.drop_last(), id) {
            Some(i) => Some(i),
            None => if cs.last().character_id == id { Some(cs.len() - 1) } else { None },
        }
    }
}

/// The position of the first favourite with this destination ID.
pub open spec fn favorite_index(fs: Seq<FavoriteDestinationConfig>, id: i64) -> Option<int>
    decreases fs.len(),
{
    if fs.len() == 0 {
        None
    } else {
        match favorite_index(fs.drop_last(), id) {
            Some(i) => Some(i),
            None => if fs.last().destination_id == id { Some(fs.len() - 1) } else { None },
        }
    }
}

pub proof fn lemma_character_index(cs: Seq<CharacterConfig>, id: u64)
    ensures
        match character_index(cs, id) {
            Some(i) => 0 <= i < cs.len() && cs[i].character_id == id && forall|j: int|
                0 <= j < i ==> #[trigger] cs[j].character_id != id,
            None => forall|j: int| 0 <= j < cs.len() ==> #[trigger] cs[j].character_id != id,
        },
    decreases cs.len(),
{
    if cs.len() > 0 {
        let d = cs.drop_last();
        lemma_character_index(d, id);
        assert forall|j: int| 0 <= j < cs.len() - 1 implies cs[j] == #[trigger] d[j] by {}
        match character_index(d, id) {
            Some(i) => {
                assert forall|j: int| 0 <= j < i implies #[trigger] cs[j].character_id != id by {
                    assert(cs[j] == d[j]);
                }
            },
            None => {
                assert forall|j: int| 0 <= j < cs.len() - 1 implies #[trigger] cs[j].character_id != id by {
                    assert(cs[j] == d[j]);
                }
            },
        }
    }
}

pub proof fn lemma_favorite_index(fs: Seq<FavoriteDestinationConfig>, id: i64)
    ensures
        match favorite_index(fs, id) {
            Some(i) => 0 <= i < fs.len() && fs[i].destination_id == id && forall|j: int|
                0 <= j < i ==> #[trigger] fs[j].destination_id != id,
            None => forall|j: int| 0 <= j < fs.len() ==> #[trigger] fs[j].destination_id != id,
        },
    decreases fs.len(),
{
    if fs.len() > 0 {
        let d = fs.drop_last();
        lemma_favorite_index(d, id);
        assert forall|j: int| 0 <= j < fs.len() - 1 implies fs[j] == #[trigger] d[j] by {}
        match favorite_index(d, id) {
            Some(i) => {
                assert forall|j: int| 0 <= j < i implies #[trigger] fs[j].destination_id != id by {
                    assert(fs[j] == d[j]);
                }
            },
            None => {
                assert forall|j: int| 0 <= j < fs.len() - 1 implies #[trigger] fs[j].destination_id != id by {
                    assert(fs[j] == d[j]);
                }
            },
        }
    }
}

pub open spec fn upsert_character_spec(cs: Seq<CharacterConfig>, c: CharacterConfig) -> Seq<CharacterConfig> {
    match character_index(cs, c.character_id) {
        Some(i) => cs.update(i, c),
        None => cs.push(c),
    }
}

pub open spec fn remove_character_spec(cs: Seq<CharacterConfig>, id: u64) -> (Seq<CharacterConfig>, Option<CharacterConfig>) {
    match character_index(cs, id) {
        Some(i) => (cs.remove(i), Some(cs[i])),
        None => (cs, None),
    }
}

pub open spec fn upsert_favorite_spec(fs: Seq<FavoriteDestinationConfig>, f: FavoriteDestinationConfig) -> Seq<FavoriteDestinationConfig> {
    match favorite_index(fs, f.destination_id) {
        Some(i) => fs.update(i, f),
        None => fs.push(f),
    }
}

pub open spec fn remove_favorite_spec(fs: Seq<FavoriteDestinationConfig>, id: i64) -> (Seq<FavoriteDestinationConfig>, Option<FavoriteDestinationConfig>) {
    match favorite_index(fs, id) {
        Some(i) => (fs.remove(i), Some(fs[i])),
        None => (fs, None),
    }
}

fn find_character(cs: &Vec<CharacterConfig>, id: u64) -> (r: Option<usize>)
    ensures
        match r {
            Some(i) => character_index(cs@, id) == Some(i as int) && i < cs.len(),
            None => character_index(cs@, id) is None,
        },
{
    proof {
        lemma_character_index(cs@, id);
    }
    let mut i: usize = 0;
    while i < cs.len()
        invariant
            i <= cs.len(),
            forall|j: int| 0 <= j < i ==> #[trigger] cs@[j].character_id != id,
            match character_index(cs@, id) {
                Some(k) => 0 <= k < cs.len() && cs@[k].character_id == id && forall|j: int|
                    0 <= j < k ==> #[trigger] cs@[j].character_id != id,
                None => forall|j: int| 0 <= j < cs.len() ==> #[trigger] cs@[j].character_id != id,
            },
        decreases cs.len() - i,
    {
        if cs[i].character_id == id {
            return Some(i);
        }
        i = i + 1;
    }
    None
}

fn find_favorite(fs: &Vec<FavoriteDestinationConfig>, id: i64) -> (r: Option<usize>)
    ensures
        match r {
            Some(i) => favorite_index(fs@, id) == Some(i as int) && i < fs.len(),
            None => favorite_index(fs@, id) is None,
        },
{
    proof {
        lemma_favorite_index(fs@, id);
    }
    let mut i: usize = 0;
    while i < fs.len()
        invariant
            i <= fs.len(),
            forall|j: int| 0 <= j < i ==> #[trigger] fs@[j].destination_id != id,
            match favorite_index(fs@, id) {
                Some(k) => 0 <= k < fs.len() && fs@[k].destination_id == id && forall|j: int|
                    0 <= j < k ==> #[trigger] fs@[j].destination_id != id,
                None => forall|j: int| 0 <= j < fs.len() ==> #[trigger] fs@[j].destination_id != id,
            },
        decreases fs.len() - i,
    {
        if fs[i].destination_id == id {
            return Some(i);
        }
        i = i + 1;
    }
    None
}

impl AppConfig {
    /// Replaces the character with the same ID where it stands, or appends.
    pub fn upsert_character(&mut self, character: CharacterConfig)
        ensures
            final(self).characters@ == upsert_character_spec(old(self).characters@, character),
            final(self).favorites@ == old(self).favorites@,
            final(self).esi == old(self).esi,
    {
        match find_character(&self.characters, character.character_id) {
            Some(i) => {
                self.characters[i] = character;
            },
            None => {
                self.characters.push(character);
            },
        }
    }

    /// Takes out the first character with this ID and gives it back.
    pub fn remove_character(&mut self, character_id: u64) -> (r: Option<CharacterConfig>)
        ensures
            (final(self).characters@, r) == remove_character_spec(old(self).characters@, character_id),
            final(self).favorites@ == old(self).favorites@,
            final(self).esi == old(self).esi,
    {
        match find_character(&self.characters, character_id) {
            Some(i) => Some(self.characters.remove(i)),
            None => None,
        }
    }

    /// Replaces the favourite with the same destination ID where it
    /// stands, or appends.
    pub fn upsert_favorite(&mut self, favorite: FavoriteDestinationConfig)
        ensures
            final(self).favorites@ == upsert_favorite_spec(old(self).favorites@, favorite),
            final(self).characters@ == old(self).characters@,
            final(self).esi == old(self).esi,
    {
        match find_favorite(&self.favorites, favorite.destination_id) {
            Some(i) => {
                self.favorites[i] = favorite;
            },
            None => {
                self.favorites.push(favorite);
            },
        }
    }

    /// Gives the first favourite with this destination ID a new nickname;
    /// `false`, and nothing changed, when there is none.
    pub fn set_favorite_nickname(&mut self, destination_id: i64, nickname: String) -> (r: bool)
        ensures
            match favorite_index(old(self).favorites@, destination_id) {
                Some(i) => r && final(self).favorites@ == old(self).favorites@.update(
                    i,
                    FavoriteDestinationConfig { nickname, ..old(self).favorites@[i] },
                ),
                None => !r && final(self).favorites@ == old(self).favorites@,
            },
            final(self).characters@ == old(self).characters@,
            final(self).esi == old(self).esi,
    {
        match find_favorite(&self.favorites, destination_id) {
            Some(i) => {
                let updated = FavoriteDestinationConfig {
                    destination_id: self.favorites[i].destination_id,
                    destination_name: self.favorites[i].destination_name.clone(),
                    destination_kind: self.favorites[i].destination_kind.clone(),
                    nickname,
                };
                self.favorites[i] = updated;
                true
            },
            None => false,
        }
    }

    /// Takes out the first favourite with this destination ID and gives it
    /// back.
    pub fn remove_favorite(&mut self, destination_id: i64) -> (r: Option<FavoriteDestinationConfig>)
        ensures
            (final(self).favorites@, r) == remove_favorite_spec(old(self).favorites@, destination_id),
            final(self).characters@ == old(self).characters@,
            final(self).esi == old(self).esi,
    {
        match find_favorite(&self.favorites, destination_id) {
            Some(i) => Some(self.favorites.remove(i)),
            None => None,
        }
    }
}

/// A character read from older settings counts as selected.
pub fn default_character_selected() -> (r: bool)
    ensures
        r,
{
    true
}

// ---------------------------------------------------------------------
// Laws
// ---------------------------------------------------------------------

pub open spec fn unique_character_ids(cs: Seq<CharacterConfig>) -> bool {
    forall|i: int, j: int|
        0 <= i < j < cs.len() ==> #[trigger] cs[i].character_id != #[trigger] cs[j].character_id
}

pub open spec fn unique_favorite_ids(fs: Seq<FavoriteDestinationConfig>) -> bool {
    forall|i: int, j: int|
        0 <= i < j < fs.len() ==> #[trigger] fs[i].destination_id != #[trigger] fs[j].destination_id
}

/// Saving a character never makes two entries share a character ID, the
/// saved value is then the one found under its ID, and every other entry
/// stays.
pub proof fn law_upsert_character(cs: Seq<CharacterConfig>, c: CharacterConfig)
    requires
        unique_character_ids(cs),
    ensures
        unique_character_ids(upsert_character_spec(cs, c)),
        ({
            let r = upsert_character_spec(cs, c);
            &&& character_index(r, c.character_id) matches Some(i) && r[i] == c
            &&& forall|j: int|
                0 <= j < cs.len() && cs[j].character_id != c.character_id ==> r.contains(
                    #[trigger] cs[j],
                )
            &&& r.len() == cs.len() + if character_index(cs, c.character_id) is Some { 0int } else { 1int }
        }),
{
    lemma_character_index(cs, c.character_id);
    let r = upsert_character_spec(cs, c);
    lemma_character_index(r, c.character_id);
    match character_index(cs, c.character_id) {
        Some(i) => {
            assert(r[i] == c);
            assert forall|j: int| 0 <= j < cs.len() && cs[j].character_id != c.character_id implies r.contains(
                #[trigger] cs[j],
            ) by {
                assert(r[j] == cs[j]);
            }
        },
        None => {
            assert(r[cs.len() as int] == c);
            assert forall|j: int| 0 <= j < cs.len() && cs[j].character_id != c.character_id implies r.contains(
                #[trigger] cs[j],
            ) by {
                assert(r[j] == cs[j]);
            }
        },
    }
}

/// Removing a character right after saving it gives back what was saved,
/// and no entry with that ID is left when IDs were unique.
pub proof fn law_remove_after_upsert_character(cs: Seq<CharacterConfig>, c: CharacterConfig)
    requires
        unique_character_ids(cs),
    ensures
        ({
            let (rest, removed) = remove_character_spec(upsert_character_spec(cs, c), c.character_id);
            &&& removed == Some(c)
            &&& forall|j: int| 0 <= j < rest.len() ==> #[trigger] rest[j].character_id != c.character_id
        }),
{
    law_upsert_character(cs, c);
    let r = upsert_character_spec(cs, c);
    lemma_character_index(r, c.character_id);
    let i = character_index(r, c.character_id)->0;
    let rest = r.remove(i);
    assert forall|j: int| 0 <= j < rest.len() implies #[trigger] rest[j].character_id != c.character_id by {
        if j < i {
            assert(rest[j] == r[j]);
        } else {
            assert(rest[j] == r[j + 1]);
        }
    }
}

/// Saving a favourite never makes two entries share a destination ID, and
/// removing it right after gives back what was saved and leaves no entry
/// with that ID.
pub proof fn law_upsert_then_remove_favorite(fs: Seq<FavoriteDestinationConfig>, f: FavoriteDestinationConfig)
    requires
        unique_favorite_ids(fs),
    ensures
        unique_favorite_ids(upsert_favorite_spec(fs, f)),
        ({
            let (rest, removed) = remove_favorite_spec(upsert_favorite_spec(fs, f), f.destination_id);
            &&& removed == Some(f)
            &&& forall|j: int| 0 <= j < rest.len() ==> #[trigger] rest[j].destination_id != f.destination_id
        }),
{
    lemma_favorite_index(fs, f.destination_id);
    let r = upsert_favorite_spec(fs, f);
    lemma_favorite_index(r, f.destination_id);
    match favorite_index(fs, f.destination_id) {
        Some(i) => { assert(r[i] == f); },
        None => { assert(r[fs.len() as int] == f); },
    }
    let k = favorite_index(r, f.destination_id)->0;
    let rest = r.remove(k);
    assert forall|j: int| 0 <= j < rest.len() implies #[trigger] rest[j].destination_id != f.destination_id by {
        if j < k {
            assert(rest[j] == r[j]);
        } else {
            assert(rest[j] == r[j + 1]);
        }
    }
}

} // verus!
