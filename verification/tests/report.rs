use aw_watcher_steam::aw::{AwClient, DataValue};
use aw_watcher_steam::report::{
    friends_bucket_name, friends_event, game_bucket_name, game_event, Reporter,
    FRIENDS_BUCKET_TYPE, GAME_BUCKET_TYPE,
};
use aw_watcher_steam::steam::GameInfo;

fn sample() -> GameInfo {
    GameInfo {
        app_id: 400,
        name: "Portal".to_string(),
        install_dir: "Portal".to_string(),
    }
}

fn text(s: &str) -> DataValue {
    DataValue::Text(s.to_string())
}

#[test]
fn bucket_names_follow_convention() {
    assert_eq!(game_bucket_name("HOST"), "aw-watcher-steam_HOST");
}

#[test]
fn friends_bucket_name_follows_convention() {
    assert_eq!(friends_bucket_name("HOST"), "aw-watcher-steam-friends_HOST");
}

#[test]
fn game_event_has_compatible_and_extra_fields() {
    let e = game_event(&sample(), "local", 1_781_438_400_000);
    assert_eq!(e.data.get("currently-playing-game"), Some(&text("Portal")));
    assert_eq!(e.data.get("game-id"), Some(&text("400"))); // string, as dashboards read it
    assert_eq!(e.data.get("appid"), Some(&DataValue::Number(400))); // numeric extra
    assert_eq!(e.data.get("install-dir"), Some(&text("Portal")));
    assert_eq!(e.data.get("source"), Some(&text("local")));
}

#[test]
fn friends_event_keys_per_persona() {
    let e = friends_event(
        &[
            ("Alice".to_string(), "Dota 2".to_string()),
            ("Bob".to_string(), "CS2".to_string()),
        ],
        1_781_438_400_000,
    );
    assert_eq!(e.data.get("friend-Alice-playing"), Some(&text("Dota 2")));
    assert_eq!(e.data.get("friend-Bob-playing"), Some(&text("CS2")));
}

#[test]
fn bucket_types_match_the_dashboard_schema() {
    assert_eq!(GAME_BUCKET_TYPE, "currently-playing-game");
    assert_eq!(FRIENDS_BUCKET_TYPE, "steam-friends-activity");
}

#[test]
fn bucket_names_with_empty_hostname() {
    assert_eq!(game_bucket_name(""), "aw-watcher-steam_");
    assert_eq!(friends_bucket_name(""), "aw-watcher-steam-friends_");
}

#[test]
fn game_event_keeps_timestamp_and_zero_duration() {
    let e = game_event(&sample(), "api", 1_781_438_400_000);
    assert_eq!(e.timestamp_ms, 1_781_438_400_000);
    assert_eq!(e.duration_ms, 0);
    assert_eq!(e.data.get("source"), Some(&text("api")));
    assert_eq!(e.data.pairs().len(), 5);
    assert_eq!(e.data.get("missing"), None);
}

#[test]
fn game_id_is_decimal_text_of_app_id() {
    let info = GameInfo {
        app_id: 4_294_967_295,
        name: "Max".to_string(),
        install_dir: String::new(),
    };
    let e = game_event(&info, "local", 0);
    assert_eq!(e.data.get("game-id"), Some(&text("4294967295")));
    assert_eq!(e.data.get("appid"), Some(&DataValue::Number(4_294_967_295)));
    let zero = GameInfo {
        app_id: 0,
        name: "Zero".to_string(),
        install_dir: String::new(),
    };
    let e = game_event(&zero, "local", 0);
    assert_eq!(e.data.get("game-id"), Some(&text("0")));
}

#[test]
fn friends_event_last_pair_of_a_persona_wins() {
    let e = friends_event(
        &[
            ("Alice".to_string(), "Dota 2".to_string()),
            ("Alice".to_string(), "Portal".to_string()),
        ],
        7,
    );
    assert_eq!(e.timestamp_ms, 7);
    assert_eq!(e.data.get("friend-Alice-playing"), Some(&text("Portal")));
    assert_eq!(e.data.get("friend-Bob-playing"), None);
}

#[test]
fn friends_event_empty_snapshot() {
    let e = friends_event(&[], 0);
    assert_eq!(e.data.pairs().len(), 0);
}

#[test]
fn reporter_heartbeats_go_to_its_buckets() {
    let c = AwClient::with_hostname("localhost", 5600, "aw-watcher-steam", Some("box".to_string()));
    let r = Reporter::new(&c);
    assert_eq!(r.game_bucket, "aw-watcher-steam_box");
    assert_eq!(r.friends_bucket, "aw-watcher-steam-friends_box");
    assert!(r.heartbeat_game(None, "local", 5).is_none());
    let h = r.heartbeat_game(Some(&sample()), "local", 5).unwrap();
    assert_eq!(h.bucket, "aw-watcher-steam_box");
    assert_eq!(h.event.timestamp_ms, 5);
    assert_eq!(h.event.data.get("currently-playing-game"), Some(&text("Portal")));
    let f = r.heartbeat_friends(&[("Bob".to_string(), "CS2".to_string())], 6);
    assert_eq!(f.event.timestamp_ms, 6);
    assert_eq!(f.bucket, "aw-watcher-steam-friends_box");
    assert_eq!(f.event.data.get("friend-Bob-playing"), Some(&text("CS2")));
}

#[test]
fn bucket_requests_carry_names_and_types() {
    let c = AwClient::with_hostname("localhost", 5600, "aw-watcher-steam", Some("box".to_string()));
    let r = Reporter::new(&c);
    let g = r.game_bucket_request(&c);
    assert_eq!(g.id, "aw-watcher-steam_box");
    assert_eq!(g.bucket_type, "currently-playing-game");
    assert_eq!(g.client, "aw-watcher-steam");
    assert_eq!(g.hostname, "box");
    let f = r.ensure_friends_bucket(&c);
    assert_eq!(f.id, "aw-watcher-steam-friends_box");
    assert_eq!(f.bucket_type, "steam-friends-activity");
}
