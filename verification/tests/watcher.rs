use aw_watcher_steam::steam::GameInfo;
use aw_watcher_steam::api::SteamApiConfig;
use aw_watcher_steam::watcher::{
    api_layer_settings, api_poll, api_poll_seconds, cache_refresh_ticks, config_actions,
    log_game_change, poll_seconds, GameChange, Watcher,
};

fn game(id: u32, name: &str) -> GameInfo {
    GameInfo { app_id: id, name: name.to_string(), install_dir: name.to_string() }
}

#[test]
fn game_changes_are_reported_once() {
    let mut current = None;
    let portal = game(400, "Portal");
    assert_eq!(
        log_game_change(&mut current, Some(&portal)),
        GameChange::Started { now: portal.clone() }
    );
    assert_eq!(current, Some(portal.clone()));
    assert_eq!(log_game_change(&mut current, Some(&portal)), GameChange::Unchanged);
    let hl = game(70, "Half-Life");
    assert_eq!(
        log_game_change(&mut current, Some(&hl)),
        GameChange::Switched { now: hl.clone(), was: portal.clone() }
    );
    assert_eq!(log_game_change(&mut current, None), GameChange::Stopped { was: hl.clone() });
    assert_eq!(current, None);
    assert_eq!(log_game_change(&mut current, None), GameChange::Unchanged);
}

#[test]
fn same_app_id_keeps_the_held_game() {
    let mut current = Some(game(400, "Portal"));
    let renamed = game(400, "Portal (renamed)");
    assert_eq!(log_game_change(&mut current, Some(&renamed)), GameChange::Unchanged);
    assert_eq!(current.unwrap().name, "Portal");
}

#[test]
fn intervals_are_at_least_one() {
    assert_eq!(poll_seconds(0), 1);
    assert_eq!(poll_seconds(5), 5);
    assert_eq!(cache_refresh_ticks(5), 60);
    assert_eq!(cache_refresh_ticks(301), 1);
    assert_eq!(cache_refresh_ticks(1), 300);
    assert_eq!(api_poll_seconds(0), 1);
    assert_eq!(api_poll_seconds(60), 60);
}

#[test]
fn cache_is_rebuilt_every_refresh_period() {
    let mut w = Watcher::new(100, false);
    assert_eq!(w.poll(), 100);
    assert_eq!(w.refresh_every(), 3);
    assert_eq!(w.tick(), 0);
    assert!(w.scans());
    let mut refreshed = vec![];
    for _ in 0..10 {
        let plan = w.plan();
        assert!(plan.scan_processes);
        refreshed.push(plan.refresh_cache);
        w.finish_tick();
    }
    assert_eq!(
        refreshed,
        vec![false, false, false, true, false, false, true, false, false, true]
    );
    let mut w = Watcher::new(5, true);
    assert!(!w.plan().scan_processes);
    w.finish_tick();
    assert_eq!(w.tick(), 1);
    let w = Watcher::new(0, false);
    assert_eq!(w.poll(), 1);
    assert_eq!(w.refresh_every(), 300);
}

#[test]
fn watcher_observes_games() {
    let mut w = Watcher::new(5, false);
    let portal = game(400, "Portal");
    assert_eq!(w.observe(Some(&portal)), GameChange::Started { now: portal.clone() });
    assert_eq!(w.observe(Some(&portal)), GameChange::Unchanged);
    assert_eq!(w.current_game(), Some(&portal));
    assert_eq!(w.observe(None), GameChange::Stopped { was: portal.clone() });
    assert_eq!(w.current_game(), None);
}

#[test]
fn config_subcommand_defaults_to_path() {
    let a = config_actions(false, false);
    assert!(a.show_path && !a.generate);
    let a = config_actions(true, false);
    assert!(!a.show_path && a.generate);
    let a = config_actions(true, true);
    assert!(a.show_path && a.generate);
}

#[test]
fn api_polls_after_its_interval() {
    assert!(api_poll(59_999, 60, false, true).is_none());
    let p = api_poll(60_000, 60, false, true).unwrap();
    assert!(!p.own_game && p.friends);
    let p = api_poll(u128::MAX, 60, true, false).unwrap();
    assert!(p.own_game && !p.friends);
}

#[test]
fn api_layer_runs_only_when_configured() {
    assert!(api_layer_settings(None).is_none());
    let cfg = SteamApiConfig {
        api_key: "K".to_string(),
        steam_id: "1".to_string(),
        poll_interval_seconds: 0,
        track_friends: true,
    };
    let s = api_layer_settings(Some(&cfg)).unwrap();
    assert_eq!(s.poll_interval_seconds, 1);
    assert!(s.track_friends && s.create_friends_bucket);
    let cfg = SteamApiConfig { track_friends: false, poll_interval_seconds: 60, ..cfg };
    let s = api_layer_settings(Some(&cfg)).unwrap();
    assert_eq!(s.poll_interval_seconds, 60);
    assert!(!s.track_friends && !s.create_friends_bucket);
}
