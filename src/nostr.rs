use vstd::prelude::*;
use vstd::string::*;
use crate::text::{append_hex, hex_text};

verus! {

/// Relies on std's `SystemTime::now`: seconds since the Unix epoch (0 for a clock set
/// before it). The value depends on the clock, so nothing more is stated.
#[verifier::external_body]
fn unix_time_secs() -> (r: u64) {
    match std::time::SystemTime::now().duration_since(std::time::UNIX_EPOCH) {
        Ok(d) => d.as_secs(),
        Err(_) => 0,
    }
}

/// Relies on uuid's `Uuid::new_v4` and its `Display` form, the hyphenated text of
/// 36 characters. The value is random.
#[verifier::external_body]
fn new_uuid_text() -> (r: String)
    ensures
        r@.len() == 36,
{
    uuid::Uuid::new_v4().to_string()
}

/// A key pair for the relay network.
#[derive(Debug)]
pub struct NostrKeys {
    pub public_key: String,
    pub private_key: String,
}

pub open spec fn public_key_text(ts: u64) -> Seq<char> {
    seq!['n', 'p', 'u', 'b', '_'] + hex_text(ts as nat)
}

pub open spec fn private_key_text(ts: u64) -> Seq<char> {
    seq!['n', 's', 'e', 'c', '_'] + hex_text(ts as nat)
}

impl NostrKeys {
    /// The key pair derived from a timestamp: `npub_` and `nsec_` followed by its hex text.
    pub fn from_timestamp(ts: u64) -> (r: Self)
        ensures
            r.public_key@ == public_key_text(ts),
            r.private_key@ == private_key_text(ts),
    {
        proof { reveal_strlit("npub_"); reveal_strlit("nsec_"); }
        let mut public_key = String::from_str("npub_");
        append_hex(&mut public_key, ts);
        let mut private_key = String::from_str("nsec_");
        append_hex(&mut private_key, ts);
        NostrKeys { public_key, private_key }
    }

    /// A key pair derived from the current time.
    pub fn generate() -> (r: Self)
        ensures
            exists|ts: u64| r.public_key@ == public_key_text(ts) && r.private_key@ == private_key_text(ts),
    {
        let ts = unix_time_secs();
        let r = Self::from_timestamp(ts);
        assert(r.public_key@ == public_key_text(ts) && r.private_key@ == private_key_text(ts));
        r
    }
}

#[derive(Debug, Clone, Copy, PartialEq, Eq, Structural)]
pub enum GameEventType {
    SeekingMatch,
    JoinRequest,
    MatchEstablished,
    GameStart,
    DrawTile,
    DiscardTile,
    Chi,
    Pon,
    Kan,
    Riichi,
    Ron,
    Tsumo,
    GameEnd,
}

/// One event of a networked game. `data` holds key/value pairs, each key at most once,
/// in the order the keys were first set.
#[derive(Debug)]
pub struct GameEvent {
    pub event_type: GameEventType,
    pub game_id: String,
    pub player_id: String,
    pub data: Vec<(String, String)>,
    pub timestamp: u64,
}

pub open spec fn pair_views(d: Seq<(String, String)>) -> Seq<(Seq<char>, Seq<char>)> {
    d.map_values(|p: (String, String)| (p.0@, p.1@))
}

/// Keys are not repeated.
pub open spec fn keys_unique(d: Seq<(Seq<char>, Seq<char>)>) -> bool {
    forall|i: int, j: int| 0 <= i < j < d.len() ==> (#[trigger] d[i]).0 != (#[trigger] d[j]).0
}

/// Index of the first pair at or after `j` whose key is `key`, or -1.
pub open spec fn key_index_from(d: Seq<(Seq<char>, Seq<char>)>, key: Seq<char>, j: int) -> int
    decreases d.len() - j,
{
    if j < 0 || j >= d.len() { -1 } else if d[j].0 == key { j } else { key_index_from(d, key, j + 1) }
}

/// The data after setting `key` to `value`: replaced in place when the key is there,
/// appended otherwise.
pub open spec fn data_with(d: Seq<(Seq<char>, Seq<char>)>, key: Seq<char>, value: Seq<char>) -> Seq<(Seq<char>, Seq<char>)> {
    let i = key_index_from(d, key, 0);
    if i >= 0 { d.update(i, (key, value)) } else { d.push((key, value)) }
}

proof fn lemma_key_index_range(d: Seq<(Seq<char>, Seq<char>)>, key: Seq<char>, j: int)
    requires
        0 <= j,
    ensures
        key_index_from(d, key, j) == -1 || (j <= key_index_from(d, key, j) < d.len()
            && d[key_index_from(d, key, j)].0 == key),
        key_index_from(d, key, j) == -1 ==> forall|k: int| j <= k < d.len() ==> (#[trigger] d[k]).0 != key,
    decreases d.len() - j,
{
    if j < d.len() && d[j].0 != key {
        lemma_key_index_range(d, key, j + 1);
    }
}

impl GameEvent {
    /// An event stamped with the given time and no data.
    pub fn new_at(event_type: GameEventType, game_id: String, player_id: String, timestamp: u64) -> (r: Self)
        ensures
            r.event_type == event_type,
            r.game_id == game_id,
            r.player_id == player_id,
            r.data@.len() == 0,
            r.timestamp == timestamp,
    {
        GameEvent { event_type, game_id, player_id, data: Vec::new(), timestamp }
    }

    /// An event stamped with the current time and no data.
    pub fn new(event_type: GameEventType, game_id: String, player_id: String) -> (r: Self)
        ensures
            r.event_type == event_type,
            r.game_id == game_id,
            r.player_id == player_id,
            r.data@.len() == 0,
    {
        Self::new_at(event_type, game_id, player_id, unix_time_secs())
    }

    /// Sets `key` to `value` in the event's data.
    pub fn with_data(self, key: String, value: String) -> (r: Self)
        requires
            keys_unique(pair_views(self.data@)),
        ensures
            pair_views(r.data@) == data_with(pair_views(self.data@), key@, value@),
            keys_unique(pair_views(r.data@)),
            r.event_type == self.event_type,
            r.game_id == self.game_id,
            r.player_id == self.player_id,
            r.timestamp == self.timestamp,
    {
        let mut ev = self;
        let ghost d = pair_views(ev.data@);
        let mut i: usize = 0;
        while i < ev.data.len()
            invariant
                i <= ev.data@.len(),
                d == pair_views(ev.data@),
                d == pair_views(self.data@),
                keys_unique(d),
                key_index_from(d, key@, 0) == key_index_from(d, key@, i as int),
                ev.event_type == self.event_type,
                ev.game_id == self.game_id,
                ev.player_id == self.player_id,
                ev.timestamp == self.timestamp,
            decreases ev.data@.len() - i,
        {
            if ev.data[i].0 == key {
                assert(d[i as int].0 == key@);
                let k = ev.data[i].0.clone();
                ev.data.set(i, (k, value));
                proof {
                    assert(pair_views(ev.data@) =~= d.update(i as int, (key@, value@)));
                    let nd = pair_views(ev.data@);
                    assert forall|a: int, b: int| 0 <= a < b < nd.len() implies (#[trigger] nd[a]).0 != (#[trigger] nd[b]).0 by {
                        assert(d[a].0 != d[b].0);
                    }
                }
                return ev;
            }
            i += 1;
        }
        ev.data.push((key, value));
        proof {
            lemma_key_index_range(d, key@, 0);
            assert(key_index_from(d, key@, d.len() as int) == -1);
            assert(pair_views(ev.data@) =~= d.push((key@, value@)));
            let nd = pair_views(ev.data@);
            assert forall|a: int, b: int| 0 <= a < b < nd.len() implies (#[trigger] nd[a]).0 != (#[trigger] nd[b]).0 by {
                if b < d.len() { assert(d[a].0 != d[b].0); } else { assert(d[a].0 != key@); }
            }
        }
        ev
    }
}

/// A match being gathered: players join until `player_count` have.
#[derive(Debug)]
pub struct MatchState {
    pub match_id: String,
    pub game_mode: String,
    pub player_count: usize,
    pub joined_players: Vec<String>,
    pub is_ready: bool,
}

pub open spec fn string_views(v: Seq<String>) -> Seq<Seq<char>> {
    v.map_values(|s: String| s@)
}

impl MatchState {
    pub fn new(match_id: String, game_mode: String, player_count: usize) -> (r: Self)
        ensures
            r.match_id == match_id,
            r.game_mode == game_mode,
            r.player_count == player_count,
            r.joined_players@.len() == 0,
            !r.is_ready,
    {
        MatchState { match_id, game_mode, player_count, joined_players: Vec::new(), is_ready: false }
    }

    /// Adds a player; `false` (and no change) when that player has already joined. The
    /// match becomes ready once `player_count` players have joined.
    pub fn add_player(&mut self, player_id: String) -> (r: bool)
        ensures
            r == !string_views(old(self).joined_players@).contains(player_id@),
            r ==> string_views(final(self).joined_players@) == string_views(old(self).joined_players@).push(player_id@)
                && final(self).is_ready == (old(self).is_ready || final(self).joined_players@.len() >= old(self).player_count),
            !r ==> final(self).joined_players@ == old(self).joined_players@ && final(self).is_ready == old(self).is_ready,
            final(self).match_id == old(self).match_id,
            final(self).player_count == old(self).player_count,
    {
        let ghost names = string_views(self.joined_players@);
        let mut i: usize = 0;
        while i < self.joined_players.len()
            invariant
                i <= self.joined_players@.len(),
                names == string_views(self.joined_players@),
                forall|j: int| 0 <= j < i ==> names[j] != player_id@,
            decreases self.joined_players@.len() - i,
        {
            if self.joined_players[i] == player_id {
                assert(names[i as int] == player_id@);
                return false;
            }
            i += 1;
        }
        assert(!names.contains(player_id@));
        self.joined_players.push(player_id);
        assert(string_views(self.joined_players@) =~= names.push(player_id@));
        if self.joined_players.len() >= self.player_count {
            self.is_ready = true;
        }
        true
    }

    pub fn is_full(&self) -> (r: bool)
        ensures
            r == (self.joined_players@.len() >= self.player_count),
    {
        self.joined_players.len() >= self.player_count
    }
}

/// A client of the relay network: its keys, the relay, and the matches it follows
/// (each match id at most once).
#[derive(Debug)]
pub struct NostrClient {
    keys: NostrKeys,
    relay_url: String,
    active_matches: Vec<MatchState>,
}

pub open spec fn match_ids(v: Seq<MatchState>) -> Seq<Seq<char>> {
    v.map_values(|m: MatchState| m.match_id@)
}

pub open spec fn ids_unique(ids: Seq<Seq<char>>) -> bool {
    forall|i: int, j: int| 0 <= i < j < ids.len() ==> ids[i] != ids[j]
}

/// Text of a match id: `match_` and a random identifier.
pub open spec fn is_match_id(s: Seq<char>) -> bool {
    s.len() == 42 && s.subrange(0, 6) == seq!['m', 'a', 't', 'c', 'h', '_']
}

impl NostrClient {
    pub closed spec fn public_key_view(&self) -> Seq<char> {
        self.keys.public_key@
    }

    pub closed spec fn relay_view(&self) -> Seq<char> {
        self.relay_url@
    }

    pub closed spec fn matches_view(&self) -> Seq<MatchState> {
        self.active_matches@
    }

    pub closed spec fn wf(&self) -> bool {
        ids_unique(match_ids(self.active_matches@))
    }

    pub fn with_keys(keys: NostrKeys, relay_url: String) -> (r: Self)
        ensures
            r.wf(),
            r.public_key_view() == keys.public_key@,
            r.relay_view() == relay_url@,
            r.matches_view().len() == 0,
    {
        NostrClient { keys, relay_url, active_matches: Vec::new() }
    }

    fn find_match(&self, match_id: &str) -> (r: Option<usize>)
        ensures
            r is None ==> !match_ids(self.active_matches@).contains(match_id@),
            r is Some ==> r->0 < self.active_matches@.len() && self.active_matches@[r->0 as int].match_id@ == match_id@,
    {
        let ghost ids = match_ids(self.active_matches@);
        let target = String::from_str(match_id);
        let mut i: usize = 0;
        while i < self.active_matches.len()
            invariant
                i <= self.active_matches@.len(),
                ids == match_ids(self.active_matches@),
                target@ == match_id@,
                forall|j: int| 0 <= j < i ==> ids[j] != match_id@,
            decreases self.active_matches@.len() - i,
        {
            if self.active_matches[i].match_id == target {
                return Some(i);
            }
            assert(ids[i as int] == self.active_matches@[i as int].match_id@);
            i += 1;
        }
        None
    }

    /// Opens a match with a fresh random id (`match_` and a uuid) and follows it.
    pub fn seek_match(&mut self, game_mode: &str, player_count: usize) -> (r: Result<String, String>)
        requires
            old(self).wf(),
        ensures
            final(self).wf(),
            r is Ok,
            is_match_id(r->Ok_0@),
            match_ids(final(self).matches_view()).contains(r->Ok_0@),
            final(self).public_key_view() == old(self).public_key_view(),
    {
        proof { reveal_strlit("match_"); }
        let mut match_id = String::from_str("match_");
        let u = new_uuid_text();
        match_id.append(u.as_str());
        let state = MatchState::new(match_id.clone(), String::from_str(game_mode), player_count);
        let ghost ids = match_ids(self.active_matches@);
        match self.find_match(match_id.as_str()) {
            Some(i) => {
                self.active_matches.set(i, state);
                proof {
                    assert(match_ids(self.active_matches@) =~= ids.update(i as int, match_id@));
                    assert(ids[i as int] == match_id@);
                    assert(ids.update(i as int, match_id@) =~= ids);
                    assert(match_ids(self.active_matches@)[i as int] == match_id@);
                }
            },
            None => {
                self.active_matches.push(state);
                proof {
                    let nids = match_ids(self.active_matches@);
                    assert(nids =~= ids.push(match_id@));
                    assert(nids[ids.len() as int] == match_id@);
                    assert forall|a: int, b: int| 0 <= a < b < nids.len() implies nids[a] != nids[b] by {
                        if b == ids.len() {
                            assert(ids.contains(ids[a]));
                        }
                    }
                }
            },
        }
        assert(match_id@.subrange(0, 6) =~= seq!['m', 'a', 't', 'c', 'h', '_']);
        Ok(match_id)
    }

    /// Joins a followed match under this client's public key.
    pub fn join_match(&mut self, match_id: &str) -> (r: Result<(), String>)
        requires
            old(self).wf(),
        ensures
            final(self).wf(),
            r is Ok <==> (match_ids(old(self).matches_view()).contains(match_id@)
                && exists|i: int| 0 <= i < old(self).matches_view().len()
                    && #[trigger] old(self).matches_view()[i].match_id@ == match_id@
                    && !string_views(old(self).matches_view()[i].joined_players@).contains(old(self).public_key_view())),
            final(self).public_key_view() == old(self).public_key_view(),
    {
        let player_id = self.keys.public_key.clone();
        match self.find_match(match_id) {
            Some(i) => {
                let ghost ids = match_ids(self.active_matches@);
                let mut m = self.active_matches.remove(i);
                let added = m.add_player(player_id);
                self.active_matches.insert(i, m);
                proof {
                    assert(match_ids(self.active_matches@) =~= ids);
                    assert(ids[i as int] == match_id@);
                    assert(ids.contains(match_id@));
                    assert(old(self).matches_view() == old(self).active_matches@);
                    assert forall|j: int| 0 <= j < old(self).matches_view().len()
                        && #[trigger] old(self).matches_view()[j].match_id@ == match_id@ implies j == i as int by {
                        assert(ids[j] == ids[i as int]);
                    }
                    assert(old(self).matches_view()[i as int].match_id@ == match_id@);
                    assert(player_id@ == old(self).public_key_view());
                }
                if added {
                    Ok(())
                } else {
                    Err(String::from_str("既に参加しています"))
                }
            },
            None => {
                proof {
                    assert(old(self).matches_view() == old(self).active_matches@);
                    assert forall|j: int| 0 <= j < old(self).matches_view().len() implies
                        !(#[trigger] old(self).matches_view()[j].match_id@ == match_id@) by {
                        assert(match_ids(old(self).active_matches@)[j] == old(self).active_matches@[j].match_id@);
                    }
                }
                Err(String::from_str("マッチが見つかりません"))
            },
        }
    }

    /// The followed matches that are not ready yet, in the order they were opened.
    pub fn get_active_matches(&self) -> (r: Vec<&MatchState>)
        ensures
            forall|i: int| 0 <= i < r@.len() ==> !(#[trigger] r@[i]).is_ready,
            forall|i: int| 0 <= i < r@.len() ==> self.matches_view().contains(*(#[trigger] r@[i])),
            r@.len() == self.matches_view().filter(|m: MatchState| !m.is_ready).len(),
    {
        let mut out: Vec<&MatchState> = Vec::new();
        let mut i: usize = 0;
        while i < self.active_matches.len()
            invariant
                i <= self.active_matches@.len(),
                forall|j: int| 0 <= j < out@.len() ==> !(#[trigger] out@[j]).is_ready,
                forall|j: int| 0 <= j < out@.len() ==> self.active_matches@.contains(*(#[trigger] out@[j])),
                out@.len() == self.active_matches@.subrange(0, i as int).filter(|m: MatchState| !m.is_ready).len(),
            decreases self.active_matches@.len() - i,
        {
            let m = &self.active_matches[i];
            proof {
                let s = self.active_matches@.subrange(0, i as int + 1);
                assert(s.drop_last() =~= self.active_matches@.subrange(0, i as int));
                reveal(Seq::filter);
                assert(self.active_matches@.contains(self.active_matches@[i as int]));
            }
            if !m.is_ready {
                out.push(m);
            }
            i += 1;
        }
        assert(self.active_matches@.subrange(0, self.active_matches@.len() as int) =~= self.active_matches@);
        out
    }

    pub fn public_key(&self) -> (r: &str)
        ensures
            r@ == self.public_key_view(),
    {
        self.keys.public_key.as_str()
    }

    pub fn relay_url(&self) -> (r: &str)
        ensures
            r@ == self.relay_view(),
    {
        self.relay_url.as_str()
    }
}

} // verus!
