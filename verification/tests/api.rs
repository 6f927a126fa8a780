use aw_watcher_steam::api::{
    id_chunks, join_ids, to_game_info, collect_playing, friend_ids, Friend, FriendList, PlayerSummary,
    SteamApiClient, SteamApiConfig,
};

fn summary(persona: &str, gameid: Option<&str>, game: Option<&str>) -> PlayerSummary {
    PlayerSummary {
        personaname: persona.to_string(),
        gameid: gameid.map(|s| s.to_string()),
        gameextrainfo: game.map(|s| s.to_string()),
    }
}

fn client() -> SteamApiClient {
    SteamApiClient::new(SteamApiConfig {
        api_key: "KEY".to_string(),
        steam_id: "76561197960287930".to_string(),
        poll_interval_seconds: 60,
        track_friends: true,
    })
}

#[test]
fn game_info_from_summary() {
    let g = to_game_info(&summary("me", Some("570"), Some("Dota 2"))).unwrap();
    assert_eq!(g.app_id, 570);
    assert_eq!(g.name, "Dota 2");
    assert_eq!(g.install_dir, "");
    assert!(to_game_info(&summary("me", Some("570"), None)).is_none());
    assert_eq!(to_game_info(&summary("me", None, Some("X"))).unwrap().app_id, 0);
    assert_eq!(to_game_info(&summary("me", Some("abc"), Some("X"))).unwrap().app_id, 0);
    assert_eq!(to_game_info(&summary("me", Some("99999999999"), Some("X"))).unwrap().app_id, 0);
}

#[test]
fn self_current_game_takes_first_in_game() {
    let s = vec![summary("a", None, None), summary("b", Some("400"), Some("Portal"))];
    assert_eq!(SteamApiClient::self_current_game(&s).unwrap().app_id, 400);
    assert!(SteamApiClient::self_current_game(&vec![summary("a", None, None)]).is_none());
}

#[test]
fn friends_playing_keeps_those_in_game_in_order() {
    let replies = vec![
        vec![summary("Alice", Some("570"), Some("Dota 2")), summary("Carol", None, None)],
        vec![summary("Bob", Some("730"), Some("CS2"))],
    ];
    let p = SteamApiClient::friends_playing(&replies);
    assert_eq!(
        p,
        vec![
            ("Alice".to_string(), "Dota 2".to_string()),
            ("Bob".to_string(), "CS2".to_string())
        ]
    );
    let mut acc = vec![("Z".to_string(), "G".to_string())];
    collect_playing(&mut acc, &vec![summary("Y", None, Some("H"))]);
    assert_eq!(acc.len(), 2);
    assert_eq!(acc[1], ("Y".to_string(), "H".to_string()));
}

#[test]
fn friend_ids_of_reply() {
    let list = FriendList { friends: vec![Friend { steamid: "1".to_string() }, Friend { steamid: "2".to_string() }] };
    assert_eq!(friend_ids(Some(list)), vec!["1", "2"]);
    assert!(friend_ids(None).is_empty());
}

#[test]
fn ids_are_grouped_by_hundred() {
    let ids: Vec<String> = (0..250).map(|i| i.to_string()).collect();
    let chunks = id_chunks(&ids);
    assert_eq!(chunks.len(), 3);
    assert_eq!(chunks[0].len(), 100);
    assert_eq!(chunks[1].len(), 100);
    assert_eq!(chunks[2].len(), 50);
    assert_eq!(chunks.concat(), ids);
    assert!(id_chunks(&vec![]).is_empty());
    let exact: Vec<String> = (0..100).map(|i| i.to_string()).collect();
    assert_eq!(id_chunks(&exact).len(), 1);
}

#[test]
fn request_addresses() {
    let c = client();
    assert_eq!(
        c.friend_list_url(),
        "https://api.steampowered.com/ISteamUser/GetFriendList/v1/?key=KEY&steamid=76561197960287930&relationship=friend"
    );
    assert_eq!(
        c.player_summaries_url(&["1".to_string(), "2".to_string()]).unwrap(),
        "https://api.steampowered.com/ISteamUser/GetPlayerSummaries/v2/?key=KEY&steamids=1,2"
    );
    assert!(c.player_summaries_url(&[]).is_none());
    assert_eq!(
        c.self_summary_url(),
        "https://api.steampowered.com/ISteamUser/GetPlayerSummaries/v2/?key=KEY&steamids=76561197960287930"
    );
    assert_eq!(join_ids(&["a".to_string(), "b".to_string(), "c".to_string()]), "a,b,c");
    assert_eq!(join_ids(&[]), "");
}
