//! Choosing an ESI destination among lookup results: public solar systems
//! and NPC stations by name, station shorthands such as
//! `Jita IV - Caldari Navy`, and player structures found by search.
//!
//! The ESI requests themselves are made by the application; this module
//! decides what they return.

use vstd::prelude::*;
use vstd::utf8::encode_utf8;
use crate::text::{
    chars_eq, chars_lt, chars_of, codes, codes_lt, contains_chars, contains_run, in_order,
    join_spaces, join_with_spaces, lemma_codes_lt_irreflexive, lemma_codes_lt_total,
    lemma_codes_lt_transitive, lower_chars, lower_seq, normalized_tokens, slice_of, string_of,
    tokens, tokens_appear_in_order, trim, trim_chars, unicode_whitespace, char_is_whitespace,
    views, run_at_index,
};

verus! {

broadcast use vstd::string::group_string_axioms;

#[derive(Clone, Copy, Debug, PartialEq, Eq, Structural)]
pub enum UniverseDestinationCategory {
    SolarSystem,
    Station,
    Structure,
}

impl UniverseDestinationCategory {
    pub open spec fn label_spec(self) -> Seq<char> {
        match self {
            UniverseDestinationCategory::SolarSystem => "solar system"@,
            UniverseDestinationCategory::Station => "station"@,
            UniverseDestinationCategory::Structure => "player structure"@,
        }
    }

    pub fn label(self) -> (r: &'static str)
        ensures
            r@ == self.label_spec(),
    {
        match self {
            UniverseDestinationCategory::SolarSystem => "solar system",
            UniverseDestinationCategory::Station => "station",
            UniverseDestinationCategory::Structure => "player structure",
        }
    }
}

#[derive(Clone, Debug, PartialEq, Eq)]
pub struct UniverseDestination {
    pub id: i64,
    pub name: String,
    pub category: UniverseDestinationCategory,
}

/// One entry of an ESI `/universe/ids/` answer.
#[derive(Clone, Debug, PartialEq, Eq)]
pub struct NamedId {
    pub id: i64,
    pub name: String,
}

/// The parts of an ESI `/universe/ids/` answer that name systems and
/// stations.
#[derive(Clone, Debug, Default, PartialEq, Eq)]
pub struct UniverseIdsResponse {
    pub systems: Vec<NamedId>,
    pub stations: Vec<NamedId>,
}

/// A solar system is preferred to a station; otherwise the first station;
/// otherwise nothing.
pub fn pick_destination_match(response: &UniverseIdsResponse) -> (r: Option<UniverseDestination>)
    ensures
        response.systems.len() > 0 ==> (r matches Some(d) && d.id == response.systems[0].id
            && d.name@ == response.systems[0].name@ && d.category
            == UniverseDestinationCategory::SolarSystem),
        response.systems.len() == 0 && response.stations.len() > 0 ==> (r matches Some(d) && d.id
            == response.stations[0].id && d.name@ == response.stations[0].name@ && d.category
            == UniverseDestinationCategory::Station),
        response.systems.len() == 0 && response.stations.len() == 0 ==> r is None,
{
    if response.systems.len() > 0 {
        let system = &response.systems[0];
        Some(
            UniverseDestination {
                id: system.id,
                name: system.name.clone(),
                category: UniverseDestinationCategory::SolarSystem,
            },
        )
    } else if response.stations.len() > 0 {
        let station = &response.stations[0];
        Some(
            UniverseDestination {
                id: station.id,
                name: station.name.clone(),
                category: UniverseDestinationCategory::Station,
            },
        )
    } else {
        None
    }
}

// ---------------------------------------------------------------------
// Station shorthands
// ---------------------------------------------------------------------

/// The first position at or after `i` where `pat` occurs in `s`.
pub open spec fn find_run_from(s: Seq<char>, pat: Seq<char>, i: int) -> Option<int>
    decreases s.len() + 1 - i,
{
    if i < 0 || i + pat.len() > s.len() {
        None
    } else if s.subrange(i, i + pat.len()) == pat {
        Some(i)
    } else {
        find_run_from(s, pat, i + 1)
    }
}

/// The first piece of `s.split(pat)`: everything before the first `pat`.
pub open spec fn before_first(s: Seq<char>, pat: Seq<char>) -> Seq<char> {
    match find_run_from(s, pat, 0) {
        Some(i) => s.take(i),
        None => s,
    }
}

/// The position of the last white-space character.
pub open spec fn last_whitespace(s: Seq<char>) -> Option<int>
    decreases s.len(),
{
    if s.len() == 0 {
        None
    } else if unicode_whitespace(s.last()) {
        Some(s.len() - 1)
    } else {
        last_whitespace(s.drop_last())
    }
}

pub open spec fn is_roman_char(c: char) -> bool {
    c == 'I' || c == 'V' || c == 'X' || c == 'L' || c == 'C' || c == 'D' || c == 'M' || c == 'i'
        || c == 'v' || c == 'x' || c == 'l' || c == 'c' || c == 'd' || c == 'm'
}

pub open spec fn is_roman(token: Seq<char>) -> bool {
    token.len() > 0 && forall|i: int| 0 <= i < token.len() ==> is_roman_char(#[trigger] token[i])
}

/// The solar system a station shorthand names: the words before the
/// planet's roman numeral in the part before the first `" - "`.
pub open spec fn shorthand_system(name: Seq<char>) -> Option<Seq<char>> {
    let first = trim(before_first(name, " - "@));
    match last_whitespace(first) {
        None => None,
        Some(j) => {
            let system = trim(first.take(j));
            if is_roman(trim(first.skip(j + 1))) && system.len() > 0 {
                Some(system)
            } else {
                None
            }
        },
    }
}

fn find_run(hay: &Vec<char>, pat: &Vec<char>) -> (r: Option<usize>)
    ensures
        match r {
            Some(i) => find_run_from(hay@, pat@, 0) == Some(i as int) && i + pat.len() <= hay.len(),
            None => find_run_from(hay@, pat@, 0) is None,
        },
{
    if pat.len() > hay.len() {
        return None;
    }
    let mut i: usize = 0;
    while i <= hay.len() - pat.len()
        invariant
            pat.len() <= hay.len(),
            i <= hay.len() - pat.len() + 1,
            find_run_from(hay@, pat@, 0) == find_run_from(hay@, pat@, i as int),
        decreases hay.len() + 1 - i,
    {
        if run_at_index(hay, pat, i) {
            return Some(i);
        }
        if i == hay.len() - pat.len() {
            assert(find_run_from(hay@, pat@, i + 1) is None);
            return None;
        }
        i = i + 1;
    }
    None
}

fn last_whitespace_index(s: &Vec<char>) -> (r: Option<usize>)
    ensures
        match r {
            Some(j) => last_whitespace(s@) == Some(j as int) && j < s.len(),
            None => last_whitespace(s@) is None,
        },
{
    let mut k = s.len();
    assert(s@.take(k as int) =~= s@);
    while k > 0
        invariant
            k <= s.len(),
            last_whitespace(s@) == last_whitespace(s@.take(k as int)),
        decreases k,
    {
        assert(s@.take(k as int).drop_last() =~= s@.take(k - 1));
        if char_is_whitespace(s[k - 1]) {
            return Some(k - 1);
        }
        k = k - 1;
    }
    None
}

pub fn is_roman_numeral(token: &Vec<char>) -> (r: bool)
    ensures
        r == is_roman(token@),
{
    if token.len() == 0 {
        return false;
    }
    let mut i: usize = 0;
    while i < token.len()
        invariant
            i <= token.len(),
            forall|k: int| 0 <= k < i ==> is_roman_char(#[trigger] token@[k]),
        decreases token.len() - i,
    {
        let c = token[i];
        if !(c == 'I' || c == 'V' || c == 'X' || c == 'L' || c == 'C' || c == 'D' || c == 'M'
            || c == 'i' || c == 'v' || c == 'x' || c == 'l' || c == 'c' || c == 'd' || c == 'm') {
            return false;
        }
        i = i + 1;
    }
    true
}

/// The solar system named by a station shorthand such as
/// `Rakapas V - Home Guard`.
pub fn station_shorthand_system_name(name: &str) -> (r: Option<String>)
    ensures
        match r {
            Some(s) => shorthand_system(name@) == Some(s@),
            None => shorthand_system(name@) is None,
        },
{
    let n = chars_of(name);
    let sep = chars_of(" - ");
    let first_raw = match find_run(&n, &sep) {
        Some(i) => slice_of(&n, 0, i),
        None => slice_of(&n, 0, n.len()),
    };
    assert(n@.subrange(0, n@.len() as int) =~= n@);
    let first = trim_chars(&first_raw);
    match last_whitespace_index(&first) {
        None => None,
        Some(j) => {
            let system_raw = slice_of(&first, 0, j);
            let planet_raw = slice_of(&first, j + 1, first.len());
            assert(system_raw@ =~= first@.take(j as int));
            assert(planet_raw@ =~= first@.skip(j + 1));
            let planet = trim_chars(&planet_raw);
            if is_roman_numeral(&planet) {
                let system = trim_chars(&system_raw);
                if system.len() > 0 {
                    Some(string_of(&system))
                } else {
                    None
                }
            } else {
                None
            }
        },
    }
}

/// Whether every word of `needles` is one of the words of `hay`.
pub open spec fn all_tokens_found(needles: Seq<Seq<char>>, hay: Seq<Seq<char>>) -> bool {
    forall|i: int| 0 <= i < needles.len() ==> hay.contains(#[trigger] needles[i])
}

/// How well a station name matches a shorthand: present only when every
/// word of the shorthand is a word of the station name.
pub open spec fn station_score_spec(input: Seq<char>, station: Seq<char>) -> Option<int> {
    let it = tokens(input);
    let st = tokens(station);
    if it.len() == 0 || st.len() == 0 || !all_tokens_found(it, st) {
        None
    } else {
        let base: int = it.len() * 10 + (if contains_run(join_spaces(st), join_spaces(it)) {
            50int
        } else {
            0int
        }) + (if in_order(it, st) {
            25int
        } else {
            0int
        });
        let penalty: int = if st.len() > it.len() {
            st.len() - it.len()
        } else {
            0
        };
        Some(if base > penalty { base - penalty } else { 0 })
    }
}

fn token_found(hay: &Vec<Vec<char>>, needle: &Vec<char>) -> (r: bool)
    ensures
        r == views(hay@).contains(needle@),
{
    let mut i: usize = 0;
    while i < hay.len()
        invariant
            i <= hay.len(),
            forall|k: int| 0 <= k < i ==> views(hay@)[k] != needle@,
        decreases hay.len() - i,
    {
        if chars_eq(&hay[i], needle) {
            assert(views(hay@)[i as int] == needle@);
            return true;
        }
        i = i + 1;
    }
    false
}

fn all_found(needles: &Vec<Vec<char>>, hay: &Vec<Vec<char>>) -> (r: bool)
    ensures
        r == all_tokens_found(views(needles@), views(hay@)),
{
    let mut i: usize = 0;
    while i < needles.len()
        invariant
            i <= needles.len(),
            forall|k: int| 0 <= k < i ==> views(hay@).contains(#[trigger] views(needles@)[k]),
        decreases needles.len() - i,
    {
        if !token_found(hay, &needles[i]) {
            assert(views(needles@)[i as int] == needles@[i as int]@);
            return false;
        }
        i = i + 1;
    }
    true
}

/// Scores how well `station_name` matches the shorthand `input`.
pub fn station_shorthand_score(input: &str, station_name: &str) -> (r: Option<usize>)
    requires
        input@.len() <= (usize::MAX - 75) / 10,
    ensures
        match r {
            Some(v) => station_score_spec(input@, station_name@) == Some(v as int),
            None => station_score_spec(input@, station_name@) is None,
        },
{
    let input_tokens = normalized_tokens(&chars_of(input));
    let station_tokens = normalized_tokens(&chars_of(station_name));
    if input_tokens.len() == 0 || station_tokens.len() == 0 {
        return None;
    }
    if !all_found(&input_tokens, &station_tokens) {
        return None;
    }
    let mut score: usize = input_tokens.len() * 10;
    let normalized_input = join_with_spaces(&input_tokens);
    let normalized_station = join_with_spaces(&station_tokens);
    if contains_chars(&normalized_station, &normalized_input) {
        score = score + 50;
    }
    if tokens_appear_in_order(&input_tokens, &station_tokens) {
        score = score + 25;
    }
    let penalty = station_tokens.len().saturating_sub(input_tokens.len());
    Some(score.saturating_sub(penalty))
}

// ---------------------------------------------------------------------
// Choosing the best candidate
// ---------------------------------------------------------------------

/// What candidates are ranked by: a higher score first, then a shorter
/// name (in UTF-8 bytes), then the name in code point order.
pub struct RankKey {
    pub score: int,
    pub byte_len: int,
    pub name: Seq<u32>,
}

pub open spec fn precedes(a: RankKey, b: RankKey) -> bool {
    ||| a.score > b.score
    ||| a.score == b.score && a.byte_len < b.byte_len
    ||| a.score == b.score && a.byte_len == b.byte_len && codes_lt(a.name, b.name)
}

proof fn lemma_precedes_order(a: RankKey, b: RankKey, c: RankKey)
    ensures
        precedes(a, b) && precedes(b, c) ==> precedes(a, c),
        precedes(a, b) || precedes(b, a) || a == b,
        !(precedes(a, b) && precedes(b, a)),
        !precedes(a, a),
{
    lemma_codes_lt_total(a.name, b.name);
    lemma_codes_lt_irreflexive(a.name);
    if precedes(a, b) && precedes(b, c) && a.score == b.score && b.score == c.score
        && a.byte_len == b.byte_len && b.byte_len == c.byte_len {
        lemma_codes_lt_transitive(a.name, b.name, c.name);
    }
}

/// The candidate that a stable sort by `precedes` puts first: nothing
/// precedes it, and it precedes every candidate before it.
pub open spec fn is_first_best(keys: Seq<RankKey>, i: int) -> bool {
    &&& 0 <= i < keys.len()
    &&& forall|j: int| 0 <= j < keys.len() ==> !precedes(#[trigger] keys[j], keys[i])
    &&& forall|j: int| 0 <= j < i ==> precedes(keys[i], #[trigger] keys[j])
}

pub struct CandidateKey {
    pub score: usize,
    pub byte_len: usize,
    pub name: Vec<char>,
}

pub open spec fn key_view(k: CandidateKey) -> RankKey {
    RankKey { score: k.score as int, byte_len: k.byte_len as int, name: codes(k.name@) }
}

pub open spec fn key_views(v: Seq<CandidateKey>) -> Seq<RankKey> {
    v.map_values(|k: CandidateKey| key_view(k))
}

fn precedes_exec(a: &CandidateKey, b: &CandidateKey) -> (r: bool)
    ensures
        r == precedes(key_view(*a), key_view(*b)),
{
    if a.score != b.score {
        return a.score > b.score;
    }
    if a.byte_len != b.byte_len {
        return a.byte_len < b.byte_len;
    }
    chars_lt(&a.name, &b.name)
}

fn first_best_index(keys: &Vec<CandidateKey>) -> (r: usize)
    requires
        keys.len() > 0,
    ensures
        is_first_best(key_views(keys@), r as int),
{
    let ghost kv = key_views(keys@);
    let mut best: usize = 0;
    let mut i: usize = 1;
    proof {
        lemma_precedes_order(kv[0], kv[0], kv[0]);
    }
    while i < keys.len()
        invariant
            1 <= i <= keys.len(),
            best < i,
            kv == key_views(keys@),
            forall|j: int| 0 <= j < i ==> !precedes(#[trigger] kv[j], kv[best as int]),
            forall|j: int| 0 <= j < best ==> precedes(kv[best as int], #[trigger] kv[j]),
        decreases keys.len() - i,
    {
        if precedes_exec(&keys[i], &keys[best]) {
            proof {
                assert forall|j: int| 0 <= j < i + 1 implies !precedes(#[trigger] kv[j], kv[i as int]) by {
                    lemma_precedes_order(kv[j], kv[i as int], kv[best as int]);
                    lemma_precedes_order(kv[i as int], kv[j], kv[best as int]);
                    lemma_precedes_order(kv[j], kv[best as int], kv[i as int]);
                }
                assert forall|j: int| 0 <= j < i implies precedes(kv[i as int], #[trigger] kv[j]) by {
                    lemma_precedes_order(kv[i as int], kv[best as int], kv[j]);
                    lemma_precedes_order(kv[best as int], kv[j], kv[i as int]);
                    if j > best {
                        lemma_precedes_order(kv[j], kv[best as int], kv[i as int]);
                        if kv[j] != kv[best as int] {
                            lemma_precedes_order(kv[best as int], kv[j], kv[j]);
                        }
                    }
                }
            }
            best = i;
        } else {
            proof {
                lemma_precedes_order(kv[i as int], kv[best as int], kv[best as int]);
            }
        }
        i = i + 1;
    }
    best
}

// ---------------------------------------------------------------------
// Stations
// ---------------------------------------------------------------------

#[derive(Clone, Debug, PartialEq, Eq)]
pub struct ScoredStation {
    pub id: i64,
    pub name: String,
    pub score: usize,
}

/// The length of a text in UTF-8 bytes, as `str::len` reports it.
pub open spec fn byte_len(s: Seq<char>) -> int {
    (encode_utf8(s).len() as usize) as int
}

pub open spec fn station_key(s: ScoredStation) -> RankKey {
    RankKey { score: s.score as int, byte_len: byte_len(s.name@), name: codes(s.name@) }
}

pub open spec fn station_keys(v: Seq<ScoredStation>) -> Seq<RankKey> {
    v.map_values(|s: ScoredStation| station_key(s))
}

/// The best-scoring station; among equals the shorter name, then the name
/// that sorts first, then the earlier candidate.
pub fn pick_station_candidate(candidates: Vec<ScoredStation>) -> (r: Option<ScoredStation>)
    ensures
        candidates.len() == 0 <==> r is None,
        r matches Some(c) ==> exists|i: int|
            is_first_best(station_keys(candidates@), i) && #[trigger] candidates@[i] == c,
{
    let mut candidates = candidates;
    if candidates.len() == 0 {
        return None;
    }
    let ghost orig = candidates@;
    let mut keys: Vec<CandidateKey> = Vec::new();
    let mut i: usize = 0;
    while i < candidates.len()
        invariant
            i <= candidates.len(),
            candidates@ == orig,
            keys.len() == i,
            forall|k: int| 0 <= k < i ==> key_view(#[trigger] keys@[k]) == station_key(orig[k]),
        decreases candidates.len() - i,
    {
        let name = chars_of(candidates[i].name.as_str());
        let ghost old_keys = keys@;
        keys.push(CandidateKey { score: candidates[i].score, byte_len: candidates[i].name.as_str().len(), name });
        assert forall|k: int| 0 <= k < i + 1 implies key_view(#[trigger] keys@[k]) == station_key(orig[k]) by {
            if k < i {
                assert(keys@[k] == old_keys[k]);
            }
        }
        i = i + 1;
    }
    assert(key_views(keys@) =~= station_keys(orig));
    let best = first_best_index(&keys);
    let chosen = candidates.swap_remove(best);
    assert(orig[best as int] == chosen);
    Some(chosen)
}

/// The stations that match a shorthand, in the order they were fetched:
/// each with its ID, its name and its score.
pub open spec fn scored_stations(input: Seq<char>, stations: Seq<NamedId>) -> Seq<(i64, Seq<char>, int)>
    decreases stations.len(),
{
    if stations.len() == 0 {
        Seq::empty()
    } else {
        let rest = scored_stations(input, stations.drop_last());
        let s = stations.last();
        match station_score_spec(input, s.name@) {
            Some(score) => rest.push((s.id, s.name@, score)),
            None => rest,
        }
    }
}

/// The rank of a scored station.
pub open spec fn scored_key(t: (i64, Seq<char>, int)) -> RankKey {
    RankKey { score: t.2, byte_len: byte_len(t.1), name: codes(t.1) }
}

/// The ranks of the stations that match a shorthand, in fetch order.
pub open spec fn scored_keys(input: Seq<char>, stations: Seq<NamedId>) -> Seq<RankKey> {
    scored_stations(input, stations).map_values(|t: (i64, Seq<char>, int)| scored_key(t))
}

/// Scores the stations of a system against a shorthand and keeps the best
/// one, as the shorthand lookup does once the stations are fetched: the
/// highest score, then the shorter name, then the name that sorts first,
/// then the station fetched first.
pub fn pick_shorthand_station(input: &str, stations: &Vec<NamedId>) -> (r: Option<ScoredStation>)
    requires
        input@.len() <= (usize::MAX - 75) / 10,
    ensures
        r is None <==> forall|i: int|
            0 <= i < stations.len() ==> station_score_spec(input@, #[trigger] stations@[i].name@)
                is None,
        r is None <==> scored_stations(input@, stations@).len() == 0,
        r matches Some(c) ==> exists|i: int|
            is_first_best(scored_keys(input@, stations@), i) && #[trigger] scored_stations(input@, stations@)[i] == (
                c.id,
                c.name@,
                c.score as int,
            ),
{
    let mut candidates: Vec<ScoredStation> = Vec::new();
    let mut i: usize = 0;
    while i < stations.len()
        invariant
            i <= stations.len(),
            input@.len() <= (usize::MAX - 75) / 10,
            candidates.len() == 0 <==> forall|k: int|
                0 <= k < i ==> station_score_spec(input@, #[trigger] stations@[k].name@) is None,
            candidates.len() == scored_stations(input@, stations@.take(i as int)).len(),
            forall|k: int|
                0 <= k < candidates.len() ==> (#[trigger] candidates@[k].id, candidates@[k].name@, candidates@[k].score as int)
                    == scored_stations(input@, stations@.take(i as int))[k],
        decreases stations.len() - i,
    {
        assert(stations@.take(i + 1).drop_last() =~= stations@.take(i as int));
        let station = &stations[i];
        match station_shorthand_score(input, station.name.as_str()) {
            Some(score) => {
                let ghost old_c = candidates@;
                candidates.push(ScoredStation { id: station.id, name: station.name.clone(), score });
                assert forall|k: int| 0 <= k < candidates.len() implies (#[trigger] candidates@[k].id, candidates@[k].name@, candidates@[k].score as int)
                    == scored_stations(input@, stations@.take(i + 1))[k] by {
                    if k < old_c.len() {
                        assert(candidates@[k] == old_c[k]);
                    }
                }
            },
            None => {},
        }
        i = i + 1;
    }
    assert(stations@.take(stations.len() as int) =~= stations@);
    let ghost cands = candidates@;
    assert(station_keys(cands) =~= scored_keys(input@, stations@)) by {
        assert forall|k: int| 0 <= k < cands.len() implies station_keys(cands)[k] == scored_keys(input@, stations@)[k] by {
            assert((cands[k].id, cands[k].name@, cands[k].score as int) == scored_stations(input@, stations@)[k]);
        }
    }
    let r = pick_station_candidate(candidates);
    proof {
        if r is Some {
            let i = choose|i: int| is_first_best(station_keys(cands), i) && #[trigger] cands[i] == r->Some_0;
            assert((cands[i].id, cands[i].name@, cands[i].score as int) == scored_stations(input@, stations@)[i]);
        }
    }
    r
}

// ---------------------------------------------------------------------
// Player structures
// ---------------------------------------------------------------------

#[derive(Clone, Debug, PartialEq, Eq)]
pub struct StructureCandidate {
    pub id: i64,
    pub name: String,
}

/// How well a structure name matches what was typed.
pub open spec fn structure_score_spec(input: Seq<char>, name: Seq<char>) -> int {
    let it = tokens(input);
    let nt = tokens(name);
    let ni = join_spaces(it);
    let ns = join_spaces(nt);
    (if lower_seq(name) == lower_seq(trim(input)) { 1000int } else { 0int })
        + (if ni.len() > 0 && ni == ns { 500int } else { 0int })
        + (if ni.len() > 0 && contains_run(ns, ni) { 100int } else { 0int })
        + (if it.len() > 0 && in_order(it, nt) { 50int } else { 0int })
}

/// `structure_candidate_score`: an exact match ignoring ASCII case counts
/// most, then equal words, then the words as a run, then the words in
/// order.
pub fn structure_candidate_score(input: &str, structure_name: &str) -> (r: usize)
    ensures
        r as int == structure_score_spec(input@, structure_name@),
{
    let input_chars = chars_of(input);
    let name_chars = chars_of(structure_name);
    let input_tokens = normalized_tokens(&input_chars);
    let structure_tokens = normalized_tokens(&name_chars);
    let normalized_input = join_with_spaces(&input_tokens);
    let normalized_structure = join_with_spaces(&structure_tokens);
    let mut score: usize = 0;
    if chars_eq(&lower_chars(&name_chars), &lower_chars(&trim_chars(&input_chars))) {
        score = score + 1000;
    }
    if normalized_input.len() > 0 && chars_eq(&normalized_input, &normalized_structure) {
        score = score + 500;
    }
    if normalized_input.len() > 0 && contains_chars(&normalized_structure, &normalized_input) {
        score = score + 100;
    }
    if input_tokens.len() > 0 && tokens_appear_in_order(&input_tokens, &structure_tokens) {
        score = score + 50;
    }
    score
}

pub open spec fn structure_key(input: Seq<char>, c: StructureCandidate) -> RankKey {
    RankKey {
        score: structure_score_spec(input, c.name@),
        byte_len: byte_len(c.name@),
        name: codes(c.name@),
    }
}

pub open spec fn structure_keys(input: Seq<char>, v: Seq<StructureCandidate>) -> Seq<RankKey> {
    v.map_values(|c: StructureCandidate| structure_key(input, c))
}

/// The structure whose name matches `input` best; among equals the shorter
/// name, then the name that sorts first, then the earlier candidate.
pub fn pick_structure_candidate(input: &str, candidates: Vec<StructureCandidate>) -> (r: Option<
    StructureCandidate,
>)
    ensures
        candidates.len() == 0 <==> r is None,
        r matches Some(c) ==> exists|i: int|
            is_first_best(structure_keys(input@, candidates@), i) && #[trigger] candidates@[i]
                == c,
{
    let mut candidates = candidates;
    if candidates.len() == 0 {
        return None;
    }
    let ghost orig = candidates@;
    let mut keys: Vec<CandidateKey> = Vec::new();
    let mut i: usize = 0;
    while i < candidates.len()
        invariant
            i <= candidates.len(),
            candidates@ == orig,
            keys.len() == i,
            forall|k: int|
                0 <= k < i ==> key_view(#[trigger] keys@[k]) == structure_key(input@, orig[k]),
        decreases candidates.len() - i,
    {
        let name = chars_of(candidates[i].name.as_str());
        let score = structure_candidate_score(input, candidates[i].name.as_str());
        let ghost old_keys = keys@;
        keys.push(CandidateKey { score, byte_len: candidates[i].name.as_str().len(), name });
        assert forall|k: int| 0 <= k < i + 1 implies key_view(#[trigger] keys@[k]) == structure_key(input@, orig[k]) by {
            if k < i {
                assert(keys@[k] == old_keys[k]);
            }
        }
        i = i + 1;
    }
    assert(key_views(keys@) =~= structure_keys(input@, orig));
    let best = first_best_index(&keys);
    let chosen = candidates.swap_remove(best);
    assert(orig[best as int] == chosen);
    Some(chosen)
}

} // verus!
