//! The buckets and events that the watcher reports to aw-server.
//!
//! Own-game events (bucket type `currently-playing-game`) carry
//! `currently-playing-game`, `game-id` (the app id as text, the schema that
//! existing aw-watcher-steam dashboards read), `appid` (the app id as a number),
//! `install-dir` and `source` (`local` or `api`). Friends events carry one
//! `friend-<persona>-playing` key per friend in a game.

use vstd::prelude::*;
use crate::aw::{AwClient, BucketRequest, DataValue, DataValueView, Event, EventData};
use crate::decimal::{decimal, u32_to_decimal};
use crate::steam::{GameInfo, GameInfoView};

verus! {

/// Bucket type of the own-game bucket.
pub const GAME_BUCKET_TYPE: &'static str = "currently-playing-game";

/// Bucket type of the friends bucket.
pub const FRIENDS_BUCKET_TYPE: &'static str = "steam-friends-activity";

/// The name of the own-game bucket of host `hostname`.
pub open spec fn game_bucket(hostname: Seq<char>) -> Seq<char> {
    "aw-watcher-steam_"@ + hostname
}

/// The name of the friends bucket of host `hostname`.
pub open spec fn friends_bucket(hostname: Seq<char>) -> Seq<char> {
    "aw-watcher-steam-friends_"@ + hostname
}

/// Bucket name for the user's own currently-playing game.
pub fn game_bucket_name(hostname: &str) -> (r: String)
    ensures
        r@ == game_bucket(hostname@),
{
    let mut name = String::from_str("aw-watcher-steam_");
    name.append(hostname);
    name
}

/// Bucket name for friends' activity (Steam Web API layer only).
pub fn friends_bucket_name(hostname: &str) -> (r: String)
    ensures
        r@ == friends_bucket(hostname@),
{
    let mut name = String::from_str("aw-watcher-steam-friends_");
    name.append(hostname);
    name
}

/// The data of the event for a game being played, reported by `source`.
pub open spec fn game_data(info: GameInfoView, source: Seq<char>) -> Map<Seq<char>, DataValueView> {
    Map::empty().insert("currently-playing-game"@, DataValueView::Text(info.name)).insert(
        "game-id"@,
        DataValueView::Text(decimal(info.app_id as nat)),
    ).insert("appid"@, DataValueView::Number(info.app_id as u64)).insert(
        "install-dir"@,
        DataValueView::Text(info.install_dir),
    ).insert("source"@, DataValueView::Text(source))
}

/// Law: the event of a game being played carries exactly five keys: the
/// game's name under `currently-playing-game`, its app id as decimal text
/// under `game-id` and as a number under `appid`, its install directory under
/// `install-dir`, and the reporting source under `source`.
pub proof fn lemma_game_data_fields(info: GameInfoView, source: Seq<char>)
    ensures
        game_data(info, source).dom() =~= set![
            "currently-playing-game"@,
            "game-id"@,
            "appid"@,
            "install-dir"@,
            "source"@,
        ],
        game_data(info, source)["currently-playing-game"@] == DataValueView::Text(info.name),
        game_data(info, source)["game-id"@] == DataValueView::Text(decimal(info.app_id as nat)),
        game_data(info, source)["appid"@] == DataValueView::Number(info.app_id as u64),
        game_data(info, source)["install-dir"@] == DataValueView::Text(info.install_dir),
        game_data(info, source)["source"@] == DataValueView::Text(source),
{
    reveal_strlit("currently-playing-game");
    reveal_strlit("game-id");
    reveal_strlit("appid");
    reveal_strlit("install-dir");
    reveal_strlit("source");
    assert("currently-playing-game"@.len() == 22);
    assert("game-id"@.len() == 7);
    assert("appid"@.len() == 5);
    assert("install-dir"@.len() == 11);
    assert("source"@.len() == 6);
    assert("game-id"@[0] != "appid"@[0]);
}

/// The data key of friend `persona`.
pub open spec fn friend_key(persona: Seq<char>) -> Seq<char> {
    "friend-"@ + persona + "-playing"@
}

/// The data of a friends snapshot: each `(persona, game)` pair in order sets
/// the persona's key to the game.
pub open spec fn friends_data(playing: Seq<(Seq<char>, Seq<char>)>) -> Map<Seq<char>, DataValueView>
    decreases playing.len(),
{
    if playing.len() == 0 {
        Map::empty()
    } else {
        friends_data(playing.drop_last()).insert(
            friend_key(playing.last().0),
            DataValueView::Text(playing.last().1),
        )
    }
}

/// The `(persona, game)` pairs of a vector, as plain values.
pub open spec fn playing_view(v: Seq<(String, String)>) -> Seq<(Seq<char>, Seq<char>)> {
    v.map_values(|p: (String, String)| (p.0@, p.1@))
}

/// Build the event payload for a currently-playing game, starting at
/// `timestamp_ms` (the caller reads the clock) with zero duration; the server
/// extends it via heartbeat merging. `source` is `"local"` (process
/// detection) or `"api"` (Steam Web API).
pub fn game_event(info: &GameInfo, source: &str, timestamp_ms: i64) -> (e: Event)
    ensures
        e.timestamp_ms == timestamp_ms,
        e.duration_ms == 0,
        e.data@ == game_data(info@, source@),
        e.data@.dom().contains("currently-playing-game"@),
        e.data@["currently-playing-game"@] == DataValueView::Text(info.name@),
        e.data@["game-id"@] == DataValueView::Text(decimal(info.app_id as nat)),
        e.data@["appid"@] == DataValueView::Number(info.app_id as u64),
        e.data@["install-dir"@] == DataValueView::Text(info.install_dir@),
        e.data@["source"@] == DataValueView::Text(source@),
{
    proof {
        lemma_game_data_fields(info@, source@);
    }
    let mut data = EventData::new();
    data.insert(String::from_str("currently-playing-game"), DataValue::Text(info.name.clone()));
    data.insert(String::from_str("game-id"), DataValue::Text(u32_to_decimal(info.app_id)));
    data.insert(String::from_str("appid"), DataValue::Number(info.app_id as u64));
    data.insert(String::from_str("install-dir"), DataValue::Text(info.install_dir.clone()));
    data.insert(String::from_str("source"), DataValue::Text(String::from_str(source)));
    Event { timestamp_ms, duration_ms: 0, data }
}

/// Build a friends snapshot event starting at `timestamp_ms` (the caller
/// reads the clock): one `friend-<persona>-playing` key per friend currently
/// in a game.
pub fn friends_event(playing: &[(String, String)], timestamp_ms: i64) -> (e: Event)
    ensures
        e.timestamp_ms == timestamp_ms,
        e.duration_ms == 0,
        e.data@ == friends_data(playing_view(playing@)),
{
    let mut data = EventData::new();
    let mut i: usize = 0;
    assert(playing_view(playing@).take(0) =~= Seq::<(Seq<char>, Seq<char>)>::empty());
    while i < playing.len()
        invariant
            i <= playing.len(),
            data@ == friends_data(playing_view(playing@).take(i as int)),
        decreases playing.len() - i,
    {
        let persona = &playing[i].0;
        let game = &playing[i].1;
        let mut key = String::from_str("friend-");
        key.append(persona.as_str());
        key.append("-playing");
        data.insert(key, DataValue::Text(game.clone()));
        let ghost s = playing_view(playing@);
        assert(s.take(i + 1).drop_last() =~= s.take(i as int));
        assert(s.take(i + 1).last() == s[i as int]);
        i = i + 1;
    }
    assert(playing_view(playing@).take(i as int) =~= playing_view(playing@));
    Event { timestamp_ms, duration_ms: 0, data }
}

/// Law: different personas get different keys.
pub proof fn lemma_friend_key_injective(a: Seq<char>, b: Seq<char>)
    requires
        friend_key(a) == friend_key(b),
    ensures
        a == b,
{
    reveal_strlit("friend-");
    reveal_strlit("-playing");
    let ka = friend_key(a);
    let kb = friend_key(b);
    assert(ka.len() == b.len() + 15);
    assert forall|i: int| 0 <= i < a.len() implies a[i] == b[i] by {
        assert(ka[i + 7] == a[i]);
        assert(kb[i + 7] == b[i]);
    }
    assert(a =~= b);
}

/// Law: in a friends snapshot, the key of each persona that appears holds the
/// game of the last pair with that persona.
pub proof fn lemma_friends_data_last_wins(playing: Seq<(Seq<char>, Seq<char>)>, i: int)
    requires
        0 <= i < playing.len(),
        forall|j: int| i < j < playing.len() ==> (#[trigger] playing[j]).0 != playing[i].0,
    ensures
        friends_data(playing).dom().contains(friend_key(playing[i].0)),
        friends_data(playing)[friend_key(playing[i].0)] == DataValueView::Text(playing[i].1),
    decreases playing.len(),
{
    let t = playing.drop_last();
    if i < playing.len() - 1 {
        assert forall|j: int| i < j < t.len() implies (#[trigger] t[j]).0 != t[i].0 by {
            assert(t[j] == playing[j]);
        }
        lemma_friends_data_last_wins(t, i);
        assert(t[i] == playing[i]);
        let last = playing[playing.len() - 1];
        if friend_key(last.0) == friend_key(playing[i].0) {
            lemma_friend_key_injective(last.0, playing[i].0);
        }
    }
}

/// Law: a friends snapshot has a key for a persona only if that persona
/// appears in the pairs.
pub proof fn lemma_friends_data_keys(playing: Seq<(Seq<char>, Seq<char>)>, k: Seq<char>)
    requires
        friends_data(playing).dom().contains(k),
    ensures
        exists|j: int| 0 <= j < playing.len() && k == friend_key(#[trigger] playing[j].0),
    decreases playing.len(),
{
    let t = playing.drop_last();
    if k != friend_key(playing.last().0) {
        lemma_friends_data_keys(t, k);
        let j = choose|j: int| 0 <= j < t.len() && k == friend_key(#[trigger] t[j].0);
        assert(playing[j] == t[j]);
    } else {
        assert(k == friend_key(playing[playing.len() - 1].0));
    }
}

/// One heartbeat to send: the bucket it goes to and its event.
#[derive(Debug, Clone)]
pub struct Heartbeat {
    pub bucket: String,
    pub event: Event,
}

/// Owns the bucket names of one host, and builds the heartbeats that go to
/// them.
#[derive(Debug, Clone)]
pub struct Reporter {
    pub game_bucket: String,
    pub friends_bucket: String,
}

impl Reporter {
    /// The reporter of `client`'s host: the bucket names embed the hostname
    /// the client resolved. (The buckets are created with
    /// [`Reporter::game_bucket_request`] and [`Reporter::ensure_friends_bucket`].)
    pub fn new(client: &AwClient) -> (r: Reporter)
        ensures
            r.game_bucket@ == game_bucket(client.hostname@),
            r.friends_bucket@ == friends_bucket(client.hostname@),
    {
        let hostname = client.hostname.as_str();
        Reporter { game_bucket: game_bucket_name(hostname), friends_bucket: friends_bucket_name(hostname) }
    }

    /// The request that creates the own-game bucket (creating it again is a
    /// no-op on the server).
    pub fn game_bucket_request(&self, client: &AwClient) -> (r: BucketRequest)
        ensures
            r.id@ == self.game_bucket@,
            r.client@ == client.name@,
            r.bucket_type@ == GAME_BUCKET_TYPE@,
            r.hostname@ == client.hostname@,
    {
        client.bucket_request(self.game_bucket.as_str(), GAME_BUCKET_TYPE)
    }

    /// The request that creates the friends bucket (only needed when the API
    /// layer tracks friends).
    pub fn ensure_friends_bucket(&self, client: &AwClient) -> (r: BucketRequest)
        ensures
            r.id@ == self.friends_bucket@,
            r.client@ == client.name@,
            r.bucket_type@ == FRIENDS_BUCKET_TYPE@,
            r.hostname@ == client.hostname@,
    {
        client.bucket_request(self.friends_bucket.as_str(), FRIENDS_BUCKET_TYPE)
    }

    /// The heartbeat of the currently-playing game: `None` when nothing is
    /// played, which lets the open event expire after its pulsetime.
    pub fn heartbeat_game(&self, game: Option<&GameInfo>, source: &str, timestamp_ms: i64) -> (r: Option<Heartbeat>)
        ensures
            match game {
                None => r is None,
                Some(info) => r matches Some(h) && h.bucket@ == self.game_bucket@
                    && h.event.timestamp_ms == timestamp_ms && h.event.duration_ms == 0
                    && h.event.data@ == game_data(info@, source@),
            },
    {
        match game {
            None => None,
            Some(info) => Some(Heartbeat { bucket: self.game_bucket.clone(), event: game_event(info, source, timestamp_ms) }),
        }
    }

    /// The heartbeat of a friends snapshot.
    pub fn heartbeat_friends(&self, playing: &[(String, String)], timestamp_ms: i64) -> (r: Heartbeat)
        ensures
            r.bucket@ == self.friends_bucket@,
            r.event.timestamp_ms == timestamp_ms,
            r.event.duration_ms == 0,
            r.event.data@ == friends_data(playing_view(playing@)),
    {
        Heartbeat { bucket: self.friends_bucket.clone(), event: friends_event(playing, timestamp_ms) }
    }
}

} // verus!
