//! The Steam Web API layer: the addresses it requests and what it reads from
//! the replies.
//!
//! Two `ISteamUser` endpoints are used: `GetPlayerSummaries` (v2), the current
//! persona and game of up to 100 SteamIDs per call, and `GetFriendList` (v1),
//! the configured user's friends.

use vstd::prelude::*;
use crate::decimal::{parse_u32, parse_decimal_u32};
use crate::steam::{GameInfo, GameInfoView};

verus! {

/// The Steam Web API's base address.
pub const STEAM_API_BASE: &'static str = "https://api.steampowered.com";

/// The most SteamIDs that one `GetPlayerSummaries` call accepts.
pub const SUMMARIES_PER_CALL: usize = 100;

/// A friend currently in a game: `(persona name, game name)`.
pub type FriendPlaying = (String, String);

/// The `[steam_api]` section of the configuration.
#[derive(Debug, Clone)]
pub struct SteamApiConfig {
    pub api_key: String,
    pub steam_id: String,
    pub poll_interval_seconds: u64,
    pub track_friends: bool,
}

/// One player of a `GetPlayerSummaries` reply.
#[derive(Debug, Clone)]
pub struct PlayerSummary {
    pub personaname: String,
    /// Present only while in a game; the numeric app id as a string.
    pub gameid: Option<String>,
    /// Human-readable game name while in a game.
    pub gameextrainfo: Option<String>,
}

/// One friend of a `GetFriendList` reply.
#[derive(Debug, Clone)]
pub struct Friend {
    pub steamid: String,
}

/// The friend list of a `GetFriendList` reply.
#[derive(Debug, Clone)]
pub struct FriendList {
    pub friends: Vec<Friend>,
}

/// The text of an optional string, as a plain value.
pub open spec fn opt_view(o: Option<String>) -> Option<Seq<char>> {
    match o {
        Some(s) => Some(s@),
        None => None,
    }
}

/// The app id that a summary's `gameid` gives: its number, or 0 where it is
/// missing or is not a `u32`.
pub open spec fn app_id_of(gameid: Option<Seq<char>>) -> u32 {
    match gameid {
        Some(g) => match parse_u32(g) {
            Some(n) => n,
            None => 0,
        },
        None => 0,
    }
}

/// The game that a summary shows its player in, if any. The install dir is
/// unknown from the API, so it is empty.
pub open spec fn summary_game(p: PlayerSummary) -> Option<GameInfoView> {
    match p.gameextrainfo {
        Some(name) => Some(
            GameInfoView { app_id: app_id_of(opt_view(p.gameid)), name: name@, install_dir: Seq::empty() },
        ),
        None => None,
    }
}

/// Convert a player summary into a [`GameInfo`] if they're in a game. The
/// install dir is unknown from the API, so it's left empty.
pub fn to_game_info(p: &PlayerSummary) -> (r: Option<GameInfo>)
    ensures
        match r {
            Some(g) => summary_game(*p) == Some(g@),
            None => summary_game(*p) is None,
        },
{
    let name = match &p.gameextrainfo {
        Some(n) => n.clone(),
        None => {
            return None;
        },
    };
    let app_id = match &p.gameid {
        Some(g) => match parse_decimal_u32(g.as_str()) {
            Some(n) => n,
            None => 0,
        },
        None => 0,
    };
    Some(GameInfo { app_id, name, install_dir: String::new() })
}

/// The game of the first summary that shows its player in a game.
pub open spec fn first_game(summaries: Seq<PlayerSummary>) -> Option<GameInfoView>
    decreases summaries.len(),
{
    if summaries.len() == 0 {
        None
    } else {
        match summary_game(summaries[0]) {
            Some(g) => Some(g),
            None => first_game(summaries.drop_first()),
        }
    }
}

/// The `(persona, game)` pairs of the summaries that show their player in a
/// game, in order.
pub open spec fn playing_pairs(summaries: Seq<PlayerSummary>) -> Seq<(Seq<char>, Seq<char>)>
    decreases summaries.len(),
{
    if summaries.len() == 0 {
        Seq::empty()
    } else {
        let rest = playing_pairs(summaries.drop_last());
        match summaries.last().gameextrainfo {
            Some(game) => rest.push((summaries.last().personaname@, game@)),
            None => rest,
        }
    }
}

/// The test "shows its player in a game".
pub open spec fn in_game() -> spec_fn(PlayerSummary) -> bool {
    |p: PlayerSummary| p.gameextrainfo is Some
}

/// The `(persona, game)` pair of a summary that shows its player in a game.
pub open spec fn game_pair() -> spec_fn(PlayerSummary) -> (Seq<char>, Seq<char>) {
    |p: PlayerSummary| (p.personaname@, p.gameextrainfo->0@)
}

/// Law: the pairs are, in order, those of exactly the summaries that show
/// their player in a game: every such summary gives one pair, its persona and
/// its game, and no other summary gives any.
pub proof fn lemma_playing_pairs_are_those_in_game(summaries: Seq<PlayerSummary>)
    ensures
        playing_pairs(summaries) == summaries.filter(in_game()).map_values(game_pair()),
        playing_pairs(summaries).len() == summaries.filter(in_game()).len(),
    decreases summaries.len(),
{
    reveal(Seq::filter);
    if summaries.len() == 0 {
        assert(summaries.filter(in_game()) =~= Seq::<PlayerSummary>::empty());
        assert(summaries.filter(in_game()).map_values(game_pair()) =~= Seq::<(Seq<char>, Seq<char>)>::empty());
    } else {
        let t = summaries.drop_last();
        let last = summaries.last();
        lemma_playing_pairs_are_those_in_game(t);
        if last.gameextrainfo is Some {
            assert(summaries.filter(in_game()) == t.filter(in_game()).push(last));
            assert(summaries.filter(in_game()).map_values(game_pair()) =~= t.filter(in_game()).map_values(
                game_pair(),
            ).push(game_pair()(last)));
        } else {
            assert(summaries.filter(in_game()) == t.filter(in_game()));
        }
    }
}

/// The pairs of a vector of `(persona, game)`, as plain values.
pub open spec fn pairs_of(v: Seq<FriendPlaying>) -> Seq<(Seq<char>, Seq<char>)> {
    v.map_values(|p: FriendPlaying| (p.0@, p.1@))
}

/// Appends to `playing` the friends of `summaries` that are in a game.
pub fn collect_playing(playing: &mut Vec<FriendPlaying>, summaries: &Vec<PlayerSummary>)
    ensures
        pairs_of(final(playing)@) == pairs_of(old(playing)@) + playing_pairs(summaries@),
        pairs_of(final(playing)@) == pairs_of(old(playing)@) + summaries@.filter(in_game()).map_values(
            game_pair(),
        ),
{
    proof {
        lemma_playing_pairs_are_those_in_game(summaries@);
    }
    let ghost start = pairs_of(playing@);
    let mut i: usize = 0;
    assert(summaries@.take(0) =~= Seq::<PlayerSummary>::empty());
    assert(start + Seq::<(Seq<char>, Seq<char>)>::empty() =~= start);
    while i < summaries.len()
        invariant
            i <= summaries.len(),
            pairs_of(playing@) == start + playing_pairs(summaries@.take(i as int)),
        decreases summaries.len() - i,
    {
        let p = &summaries[i];
        let ghost before = pairs_of(playing@);
        assert(summaries@.take(i + 1).drop_last() =~= summaries@.take(i as int));
        assert(summaries@.take(i + 1).last() == summaries@[i as int]);
        match &p.gameextrainfo {
            Some(game) => {
                playing.push((p.personaname.clone(), game.clone()));
                assert(pairs_of(playing@) =~= before.push((p.personaname@, game@)));
                assert(start + playing_pairs(summaries@.take(i + 1)) =~= (start + playing_pairs(
                    summaries@.take(i as int),
                )).push((p.personaname@, game@)));
            },
            None => {},
        }
        i = i + 1;
    }
    assert(summaries@.take(i as int) =~= summaries@);
}

proof fn lemma_flatten_take_step<A>(s: Seq<Seq<A>>, i: int)
    requires
        0 <= i < s.len(),
    ensures
        s.take(i + 1).flatten() == s.take(i).flatten() + s[i],
{
    let t = s.take(i + 1);
    lemma_flatten_push(s.take(i), s[i]);
    assert(s.take(i).push(s[i]) =~= t);
}

proof fn lemma_flatten_push<A>(s: Seq<Seq<A>>, x: Seq<A>)
    ensures
        s.push(x).flatten() == s.flatten() + x,
    decreases s.len(),
{
    if s.len() == 0 {
        assert(s.push(x).drop_first() =~= Seq::<Seq<A>>::empty());
        assert(s.push(x).flatten() == x + Seq::<Seq<A>>::empty().flatten());
        assert(x + Seq::<A>::empty() =~= x);
        assert(Seq::<A>::empty() + x =~= x);
    } else {
        lemma_flatten_push(s.drop_first(), x);
        assert(s.push(x).drop_first() =~= s.drop_first().push(x));
        assert(s.push(x)[0] == s[0]);
        assert(s[0] + (s.drop_first().flatten() + x) =~= (s[0] + s.drop_first().flatten()) + x);
    }
}

/// The texts of a vector of strings.
pub open spec fn texts(v: Seq<String>) -> Seq<Seq<char>> {
    v.map_values(|s: String| s@)
}

/// The SteamIDs of a friend list, as plain values.
pub open spec fn steamids(f: Seq<Friend>) -> Seq<Seq<char>> {
    f.map_values(|f: Friend| f.steamid@)
}

/// The friends' SteamIDs of a `GetFriendList` reply; none where the profile's
/// friends list is private (the reply has no list).
pub fn friend_ids(list: Option<FriendList>) -> (r: Vec<String>)
    ensures
        match list {
            Some(l) => texts(r@) == steamids(l.friends@),
            None => r@.len() == 0,
        },
{
    match list {
        None => Vec::new(),
        Some(l) => {
            let mut ids: Vec<String> = Vec::new();
            let mut i: usize = 0;
            assert(texts(ids@) =~= steamids(l.friends@.take(0)));
            while i < l.friends.len()
                invariant
                    i <= l.friends.len(),
                    texts(ids@) == steamids(l.friends@.take(i as int)),
                decreases l.friends.len() - i,
            {
                let ghost before = ids@;
                ids.push(l.friends[i].steamid.clone());
                assert(texts(ids@) =~= texts(before).push(l.friends@[i as int].steamid@));
                assert(steamids(l.friends@.take(i + 1)) =~= steamids(l.friends@.take(i as int)).push(
                    l.friends@[i as int].steamid@,
                ));
                i = i + 1;
            }
            assert(l.friends@.take(i as int) =~= l.friends@);
            ids
        },
    }
}

/// The `k`-th group of at most 100 ids of `ids`.
pub open spec fn chunk_spec(ids: Seq<Seq<char>>, k: int) -> Seq<Seq<char>> {
    let end = if 100 * (k + 1) < ids.len() { 100 * (k + 1) } else { ids.len() as int };
    ids.subrange(100 * k, end)
}

/// Splits `ids` into consecutive groups of at most 100, as `ids.chunks(100)`
/// does: every group but the last holds exactly 100.
pub fn id_chunks(ids: &Vec<String>) -> (r: Vec<Vec<String>>)
    ensures
        r@.len() == (ids@.len() + 99) / 100,
        forall|k: int| 0 <= k < r@.len() ==> texts((#[trigger] r@[k])@) == chunk_spec(texts(ids@), k),
{
    let mut r: Vec<Vec<String>> = Vec::new();
    let mut start: usize = 0;
    while start < ids.len()
        invariant
            start <= ids.len(),
            start == ids.len() || start == 100 * r@.len(),
            r@.len() == (start + 99) / 100,
            forall|k: int| 0 <= k < r@.len() ==> texts((#[trigger] r@[k])@) == chunk_spec(texts(ids@), k),
        decreases ids.len() - start,
    {
        let end = if ids.len() - start > 100 { start + 100 } else { ids.len() };
        let mut chunk: Vec<String> = Vec::new();
        let mut j = start;
        assert(texts(chunk@) =~= texts(ids@).subrange(start as int, start as int));
        while j < end
            invariant
                start <= j <= end <= ids.len(),
                texts(chunk@) == texts(ids@).subrange(start as int, j as int),
            decreases end - j,
        {
            let ghost before = chunk@;
            chunk.push(ids[j].clone());
            assert(texts(chunk@) =~= texts(before).push(ids@[j as int]@));
            assert(texts(chunk@) =~= texts(ids@).subrange(start as int, j + 1));
            j = j + 1;
        }
        let ghost k = r@.len() as int;
        assert(start == 100 * k);
        assert(texts(chunk@) == chunk_spec(texts(ids@), k));
        let ghost before = r@;
        r.push(chunk);
        assert forall|q: int| 0 <= q < r@.len() implies texts((#[trigger] r@[q])@) == chunk_spec(
            texts(ids@),
            q,
        ) by {
            if q < k {
                assert(r@[q] == before[q]);
            }
        }
        start = end;
    }
    assert(r@.len() == (ids@.len() + 99) / 100);
    r
}

/// Law: each group holds between 1 and 100 ids, and all but the last hold
/// exactly 100.
pub proof fn lemma_chunk_sizes(ids: Seq<Seq<char>>, k: int)
    requires
        0 <= k < (ids.len() + 99) / 100,
    ensures
        1 <= chunk_spec(ids, k).len() <= 100,
        k + 1 < (ids.len() + 99) / 100 ==> chunk_spec(ids, k).len() == 100,
{
}

/// Law: every id lands in a group, at the place its index gives, so the
/// groups together cover `ids` in order.
pub proof fn lemma_chunks_cover(ids: Seq<Seq<char>>, i: int)
    requires
        0 <= i < ids.len(),
    ensures
        i / 100 < (ids.len() + 99) / 100,
        i % 100 < chunk_spec(ids, i / 100).len(),
        chunk_spec(ids, i / 100)[i % 100] == ids[i],
{
}

/// Joins `ids` with commas between them.
pub open spec fn comma_joined(ids: Seq<Seq<char>>) -> Seq<char>
    decreases ids.len(),
{
    if ids.len() == 0 {
        Seq::empty()
    } else if ids.len() == 1 {
        ids[0]
    } else {
        comma_joined(ids.drop_last()) + ","@ + ids.last()
    }
}

/// `ids.join(",")`.
pub fn join_ids(ids: &[String]) -> (r: String)
    ensures
        r@ == comma_joined(texts(ids@)),
{
    let mut out = String::new();
    let mut i: usize = 0;
    let ghost all = texts(ids@);
    assert(all.take(0) =~= Seq::<Seq<char>>::empty());
    while i < ids.len()
        invariant
            i <= ids.len(),
            all == texts(ids@),
            out@ == comma_joined(all.take(i as int)),
        decreases ids.len() - i,
    {
        if i > 0 {
            out.append(",");
        }
        out.append(ids[i].as_str());
        assert(all.take(i + 1).drop_last() =~= all.take(i as int));
        assert(all.take(i + 1).last() == ids[i as int]@);
        if i == 0 {
            assert(out@ =~= all.take(1)[0]);
        }
        i = i + 1;
    }
    assert(all.take(i as int) =~= all);
    out
}

/// The address of `GetFriendList` for the user `steam_id`.
pub open spec fn friend_list_url_spec(api_key: Seq<char>, steam_id: Seq<char>) -> Seq<char> {
    "https://api.steampowered.com"@ + "/ISteamUser/GetFriendList/v1/?key="@ + api_key
        + "&steamid="@ + steam_id + "&relationship=friend"@
}

/// The address of `GetPlayerSummaries` for the users `ids`.
pub open spec fn summaries_url_spec(api_key: Seq<char>, ids: Seq<Seq<char>>) -> Seq<char> {
    "https://api.steampowered.com"@ + "/ISteamUser/GetPlayerSummaries/v2/?key="@ + api_key
        + "&steamids="@ + comma_joined(ids)
}

/// Client of the Steam Web API: the addresses of its requests, from the
/// `[steam_api]` configuration.
#[derive(Debug, Clone)]
pub struct SteamApiClient {
    pub cfg: SteamApiConfig,
}

impl SteamApiClient {
    pub fn new(cfg: SteamApiConfig) -> (r: SteamApiClient)
        ensures
            r.cfg == cfg,
    {
        SteamApiClient { cfg }
    }

    /// The address of `GetFriendList` for the configured user.
    pub fn friend_list_url(&self) -> (r: String)
        ensures
            r@ == friend_list_url_spec(self.cfg.api_key@, self.cfg.steam_id@),
    {
        proof {
            reveal_strlit("https://api.steampowered.com");
        }
        let mut url = String::from_str(STEAM_API_BASE);
        url.append("/ISteamUser/GetFriendList/v1/?key=");
        url.append(self.cfg.api_key.as_str());
        url.append("&steamid=");
        url.append(self.cfg.steam_id.as_str());
        url.append("&relationship=friend");
        url
    }

    /// The address of `GetPlayerSummaries` for the users `ids`; none for no
    /// users, since such a call is not made.
    pub fn player_summaries_url(&self, ids: &[String]) -> (r: Option<String>)
        ensures
            ids@.len() == 0 <==> r is None,
            r matches Some(u) ==> u@ == summaries_url_spec(
                self.cfg.api_key@,
                texts(ids@),
            ),
    {
        if ids.len() == 0 {
            return None;
        }
        let mut url = String::from_str(STEAM_API_BASE);
        url.append("/ISteamUser/GetPlayerSummaries/v2/?key=");
        url.append(self.cfg.api_key.as_str());
        url.append("&steamids=");
        let joined = join_ids(ids);
        url.append(joined.as_str());
        Some(url)
    }

    /// The address of `GetPlayerSummaries` for the configured user alone.
    pub fn self_summary_url(&self) -> (r: String)
        ensures
            r@ == summaries_url_spec(self.cfg.api_key@, seq![self.cfg.steam_id@]),
    {
        let ids = vec![self.cfg.steam_id.clone()];
        assert(texts(ids@) =~= seq![self.cfg.steam_id@]);
        match self.player_summaries_url(ids.as_slice()) {
            Some(u) => u,
            None => String::new(),
        }
    }

    /// The user's own currently-playing game, read from the summaries of a
    /// `GetPlayerSummaries` call about the user.
    pub fn self_current_game(summaries: &Vec<PlayerSummary>) -> (r: Option<GameInfo>)
        ensures
            match r {
                Some(g) => first_game(summaries@) == Some(g@),
                None => first_game(summaries@) is None,
            },
    {
        let mut i: usize = 0;
        assert(summaries@.skip(0) =~= summaries@);
        while i < summaries.len()
            invariant
                i <= summaries.len(),
                first_game(summaries@) == first_game(summaries@.skip(i as int)),
            decreases summaries.len() - i,
        {
            let ghost s = summaries@.skip(i as int);
            assert(s[0] == summaries@[i as int]);
            assert(s.drop_first() =~= summaries@.skip(i + 1));
            let g = to_game_info(&summaries[i]);
            if g.is_some() {
                return g;
            }
            i = i + 1;
        }
        None
    }

    /// Friends who are currently in a game, as `(persona, game)` pairs, read from
    /// the summaries of the `GetPlayerSummaries` calls about them, in order.
    pub fn friends_playing(replies: &Vec<Vec<PlayerSummary>>) -> (r: Vec<FriendPlaying>)
        ensures
            pairs_of(r@) == replies@.map_values(|v: Vec<PlayerSummary>| playing_pairs(v@)).flatten(),
            pairs_of(r@) == replies@.map_values(
                |v: Vec<PlayerSummary>| v@.filter(in_game()).map_values(game_pair()),
            ).flatten(),
    {
        let mut playing: Vec<FriendPlaying> = Vec::new();
        let mut i: usize = 0;
        let ghost all = replies@.map_values(|v: Vec<PlayerSummary>| playing_pairs(v@));
        assert(all.take(0).flatten() =~= Seq::<(Seq<char>, Seq<char>)>::empty()) by {
            assert(all.take(0) =~= Seq::<Seq<(Seq<char>, Seq<char>)>>::empty());
        }
        assert(pairs_of(playing@) =~= Seq::<(Seq<char>, Seq<char>)>::empty());
        while i < replies.len()
            invariant
                i <= replies.len(),
                all == replies@.map_values(|v: Vec<PlayerSummary>| playing_pairs(v@)),
                pairs_of(playing@) == all.take(i as int).flatten(),
            decreases replies.len() - i,
        {
            collect_playing(&mut playing, &replies[i]);
            proof {
                lemma_flatten_take_step(all, i as int);
            }
            i = i + 1;
        }
        assert(all.take(i as int) =~= all);
        proof {
            let direct = replies@.map_values(
                |v: Vec<PlayerSummary>| v@.filter(in_game()).map_values(game_pair()),
            );
            assert forall|k: int| 0 <= k < all.len() implies all[k] == direct[k] by {
                lemma_playing_pairs_are_those_in_game(replies@[k]@);
            }
            assert(all =~= direct);
        }
        playing
    }
}

} // verus!
