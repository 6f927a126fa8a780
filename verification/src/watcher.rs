//! The watcher's decisions, tick by tick: when to rebuild the game cache,
//! whether to scan processes, how a newly detected game changes what is
//! being played, and when the Steam Web API layer polls.

use vstd::prelude::*;
use crate::api::SteamApiConfig;
use crate::steam::{GameInfo, GameInfoView};

verus! {

/// The game played, as a plain value.
pub open spec fn game_view(g: Option<GameInfo>) -> Option<GameInfoView> {
    match g {
        Some(i) => Some(i@),
        None => None,
    }
}

/// The app id of the game played, if any.
pub open spec fn app_id_view(g: Option<GameInfoView>) -> Option<u32> {
    match g {
        Some(i) => Some(i.app_id),
        None => None,
    }
}

/// The game held as played after `detected` is seen while `current` was:
/// it changes only when the app id does.
pub open spec fn next_game(current: Option<GameInfoView>, detected: Option<GameInfoView>) -> Option<GameInfoView> {
    if app_id_view(current) == app_id_view(detected) {
        current
    } else {
        detected
    }
}

/// A transition between games, as [`log_game_change`] reports it.
#[derive(Debug, Clone, PartialEq)]
pub enum GameChange {
    /// The same app (or none) as before.
    Unchanged,
    /// A game started where none was played.
    Started { now: GameInfo },
    /// Another game replaced the one played.
    Switched { now: GameInfo, was: GameInfo },
    /// The game played stopped.
    Stopped { was: GameInfo },
}

/// Whether `change` describes the step from `current` to `detected`.
pub open spec fn describes(change: GameChange, current: Option<GameInfoView>, detected: Option<GameInfoView>) -> bool {
    if app_id_view(current) == app_id_view(detected) {
        change is Unchanged
    } else {
        match (current, detected) {
            (None, Some(d)) => change matches GameChange::Started { now } && now@ == d,
            (Some(c), Some(d)) => change matches GameChange::Switched { now, was } && now@ == d && was@ == c,
            (Some(c), None) => change matches GameChange::Stopped { was } && was@ == c,
            (None, None) => false,
        }
    }
}

fn copy_game(g: Option<&GameInfo>) -> (r: Option<GameInfo>)
    ensures
        game_view(r) == match g {
            Some(i) => Some(i@),
            None => None,
        },
{
    match g {
        Some(i) => Some(i.duplicate()),
        None => None,
    }
}

/// Game start/stop/switch transitions. Compares the app ids of the game held
/// as played and the one detected; where they differ, the detected game
/// becomes the one played and the transition is returned (for the caller to
/// log); where they agree nothing changes.
pub fn log_game_change(current: &mut Option<GameInfo>, detected: Option<&GameInfo>) -> (change: GameChange)
    ensures
        ({
            let det = match detected {
                Some(i) => Some(i@),
                None => None,
            };
            &&& game_view(*final(current)) == next_game(game_view(*old(current)), det)
            &&& describes(change, game_view(*old(current)), det)
        }),
{
    let cur_id = match current {
        Some(c) => Some(c.app_id),
        None => None,
    };
    let det_id = match detected {
        Some(d) => Some(d.app_id),
        None => None,
    };
    if cur_id == det_id {
        return GameChange::Unchanged;
    }
    let change = match (&*current, detected) {
        (None, Some(now)) => GameChange::Started { now: now.duplicate() },
        (Some(prev), Some(now)) => GameChange::Switched { now: now.duplicate(), was: prev.duplicate() },
        (Some(prev), None) => GameChange::Stopped { was: prev.duplicate() },
        (None, None) => GameChange::Unchanged,
    };
    *current = copy_game(detected);
    change
}

/// Law: once a game is seen, seeing it again changes nothing.
pub proof fn lemma_game_change_settles(current: Option<GameInfoView>, detected: Option<GameInfoView>)
    ensures
        app_id_view(next_game(current, detected)) == app_id_view(detected),
        next_game(next_game(current, detected), detected) == next_game(current, detected),
        describes(GameChange::Unchanged, next_game(current, detected), detected),
{
}

/// Seconds between two ticks of the watcher: the configured interval, at
/// least one.
pub fn poll_seconds(configured: u64) -> (r: u64)
    ensures
        r == if configured < 1 { 1 } else { configured },
{
    if configured < 1 { 1 } else { configured }
}

/// Ticks between two rebuilds of the game cache: roughly five minutes' worth,
/// at least one.
pub fn cache_refresh_ticks(poll: u64) -> (r: u64)
    requires
        poll >= 1,
    ensures
        r == if 300u64 / poll < 1 { 1 } else { 300u64 / poll },
{
    let n = 300 / poll;
    if n < 1 { 1 } else { n }
}

/// Whether the game cache is rebuilt at tick `tick`: every `every` ticks, not
/// at the first (where it was just built).
pub open spec fn refresh_due(tick: u64, every: u64) -> bool {
    tick != 0 && tick % every == 0
}

/// What one tick of the watcher does before it sleeps.
#[derive(Debug, Clone, Copy, PartialEq, Eq)]
pub struct TickPlan {
    /// Rebuild the game cache first.
    pub refresh_cache: bool,
    /// Scan the processes for a running game and heartbeat it.
    pub scan_processes: bool,
}

/// The state of the watcher's main loop.
#[derive(Debug)]
pub struct Watcher {
    poll: u64,
    refresh_every: u64,
    tick: u64,
    scan: bool,
    current_game: Option<GameInfo>,
}

/// The state of the watcher's main loop, as plain values.
pub struct WatcherView {
    /// Seconds between ticks.
    pub poll: u64,
    /// Ticks between cache rebuilds.
    pub refresh_every: u64,
    /// Ticks so far, wrapping around.
    pub tick: u64,
    /// Whether local process scanning is on.
    pub scan: bool,
    /// The game held as played.
    pub current_game: Option<GameInfoView>,
}

impl View for Watcher {
    type V = WatcherView;

    closed spec fn view(&self) -> WatcherView {
        WatcherView {
            poll: self.poll,
            refresh_every: self.refresh_every,
            tick: self.tick,
            scan: self.scan,
            current_game: game_view(self.current_game),
        }
    }
}

impl Watcher {
    /// The intervals are at least one.
    #[verifier::type_invariant]
    closed spec fn wf(&self) -> bool {
        self.poll >= 1 && self.refresh_every >= 1
    }

    /// A watcher that polls every `poll_interval_seconds` (at least one) and
    /// scans processes unless `disable_process_scan`.
    pub fn new(poll_interval_seconds: u64, disable_process_scan: bool) -> (r: Watcher)
        ensures
            r@.poll == if poll_interval_seconds < 1 { 1 } else { poll_interval_seconds },
            r@.refresh_every == if 300u64 / r@.poll < 1 { 1 } else { 300u64 / r@.poll },
            r@.tick == 0,
            r@.scan == !disable_process_scan,
            r@.current_game is None,
    {
        let poll = poll_seconds(poll_interval_seconds);
        let refresh_every = cache_refresh_ticks(poll);
        Watcher { poll, refresh_every, tick: 0, scan: !disable_process_scan, current_game: None }
    }

    /// Seconds between ticks (at least one).
    pub fn poll(&self) -> (r: u64)
        ensures
            r == self@.poll,
            r >= 1,
    {
        proof {
            use_type_invariant(self);
        }
        self.poll
    }

    /// Ticks between cache rebuilds (at least one).
    pub fn refresh_every(&self) -> (r: u64)
        ensures
            r == self@.refresh_every,
            r >= 1,
    {
        proof {
            use_type_invariant(self);
        }
        self.refresh_every
    }

    /// Ticks so far, wrapping around.
    pub fn tick(&self) -> (r: u64)
        ensures
            r == self@.tick,
    {
        self.tick
    }

    /// Whether local process scanning is on.
    pub fn scans(&self) -> (r: bool)
        ensures
            r == self@.scan,
    {
        self.scan
    }

    /// The game held as played.
    pub fn current_game(&self) -> (r: Option<&GameInfo>)
        ensures
            self@.current_game == match r {
                Some(g) => Some(g@),
                None => None,
            },
    {
        match &self.current_game {
            Some(g) => Some(g),
            None => None,
        }
    }

    /// What this tick does.
    pub fn plan(&self) -> (r: TickPlan)
        ensures
            r.refresh_cache == refresh_due(self@.tick, self@.refresh_every),
            r.scan_processes == self@.scan,
    {
        proof {
            use_type_invariant(self);
        }
        TickPlan { refresh_cache: self.tick != 0 && self.tick % self.refresh_every == 0, scan_processes: self.scan }
    }

    /// Takes in the game detected by this tick's scan.
    pub fn observe(&mut self, detected: Option<&GameInfo>) -> (change: GameChange)
        ensures
            final(self)@.poll == old(self)@.poll,
            final(self)@.refresh_every == old(self)@.refresh_every,
            final(self)@.tick == old(self)@.tick,
            final(self)@.scan == old(self)@.scan,
            ({
                let det = match detected {
                    Some(i) => Some(i@),
                    None => None,
                };
                &&& final(self)@.current_game == next_game(old(self)@.current_game, det)
                &&& describes(change, old(self)@.current_game, det)
            }),
    {
        proof {
            use_type_invariant(&*self);
        }
        let mut current = copy_game(self.current_game.as_ref());
        let change = log_game_change(&mut current, detected);
        self.current_game = current;
        change
    }

    /// Ends the tick.
    pub fn finish_tick(&mut self)
        ensures
            final(self)@.tick == (if old(self)@.tick == u64::MAX { 0 } else { old(self)@.tick + 1 }),
            final(self)@.poll == old(self)@.poll,
            final(self)@.refresh_every == old(self)@.refresh_every,
            final(self)@.scan == old(self)@.scan,
            final(self)@.current_game == old(self)@.current_game,
    {
        proof {
            use_type_invariant(&*self);
        }
        self.tick = self.tick.wrapping_add(1);
    }
}

/// Law: the cache is rebuilt once every `every` ticks: at tick `k * every`
/// for `k >= 1`, and at no tick in between.
pub proof fn lemma_refresh_period(every: u64, k: u64, j: u64)
    requires
        every >= 1,
        k >= 1,
        0 < j < every,
        k * every + j <= u64::MAX,
    ensures
        refresh_due((k * every) as u64, every),
        !refresh_due((k * every + j) as u64, every),
{
    assert((k * every) as u64 % every == 0) by (nonlinear_arith)
        requires
            every >= 1,
            k * every <= u64::MAX,
    ;
    assert((k * every + j) as u64 % every == j) by (nonlinear_arith)
        requires
            every >= 1,
            0 < j < every,
            k * every + j <= u64::MAX,
    ;
    assert(k * every >= 1) by (nonlinear_arith)
        requires
            every >= 1,
            k >= 1,
    ;
}

/// What the `config` subcommand does.
#[derive(Debug, Clone, Copy, PartialEq, Eq)]
pub struct ConfigActions {
    /// Print the config file's path.
    pub show_path: bool,
    /// Write a starter config.
    pub generate: bool,
}

/// With no flags, `config` behaves like `--path` (it shows where the config
/// lives); `--generate` writes a starter config.
pub fn config_actions(generate: bool, path: bool) -> (r: ConfigActions)
    ensures
        r.show_path == (path || !generate),
        r.generate == generate,
{
    ConfigActions { show_path: path || !generate, generate }
}

/// What one poll of the Steam Web API layer asks.
#[derive(Debug, Clone, Copy, PartialEq, Eq)]
pub struct ApiPoll {
    /// Ask for the user's own game (only when local scanning is off, so the
    /// game bucket has one source).
    pub own_game: bool,
    /// Ask for the friends' games.
    pub friends: bool,
}

/// Seconds between two polls of the Steam Web API: the configured interval,
/// at least one.
pub fn api_poll_seconds(configured: u64) -> (r: u64)
    ensures
        r == if configured < 1 { 1 } else { configured },
{
    poll_seconds(configured)
}

/// How the Steam Web API layer runs.
#[derive(Debug, Clone, Copy, PartialEq, Eq)]
pub struct ApiLayerSettings {
    /// Seconds between two polls (at least one).
    pub poll_interval_seconds: u64,
    /// Whether friends' games are asked for.
    pub track_friends: bool,
    /// Whether the friends bucket is created when the layer starts.
    pub create_friends_bucket: bool,
}

/// The Steam Web API layer runs exactly when a `[steam_api]` section is
/// configured; it creates the friends bucket only when it tracks friends.
pub fn api_layer_settings(api: Option<&SteamApiConfig>) -> (r: Option<ApiLayerSettings>)
    ensures
        api is None <==> r is None,
        api matches Some(c) ==> r matches Some(s) && s.poll_interval_seconds == (if c.poll_interval_seconds
            < 1 {
            1
        } else {
            c.poll_interval_seconds
        }) && s.track_friends == c.track_friends && s.create_friends_bucket == c.track_friends,
{
    match api {
        None => None,
        Some(c) => Some(
            ApiLayerSettings {
                poll_interval_seconds: api_poll_seconds(c.poll_interval_seconds),
                track_friends: c.track_friends,
                create_friends_bucket: c.track_friends,
            },
        ),
    }
}

/// Whether the Steam Web API layer polls now, `elapsed_ms` milliseconds after
/// its last poll, and what it asks: nothing before `interval_seconds` have
/// passed.
pub fn api_poll(elapsed_ms: u128, interval_seconds: u64, disable_process_scan: bool, track_friends: bool) -> (r: Option<ApiPoll>)
    ensures
        r is None <==> elapsed_ms < 1000 * interval_seconds,
        r matches Some(p) ==> p.own_game == disable_process_scan && p.friends == track_friends,
{
    if elapsed_ms / 1000 < interval_seconds as u128 {
        return None;
    }
    Some(ApiPoll { own_game: disable_process_scan, friends: track_friends })
}

} // verus!
