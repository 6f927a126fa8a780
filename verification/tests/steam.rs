use aw_watcher_steam::steam::{installed_game, GameCache, GameInfo};
use aw_watcher_steam::path::PathStyle;

fn game(id: u32, name: &str, dir: &str) -> GameInfo {
    GameInfo {
        app_id: id,
        name: name.to_string(),
        install_dir: dir.to_string(),
    }
}

fn sample_cache() -> GameCache {
    GameCache::from_entries(vec![
        (
            "/steam/steamapps/common/Half-Life".to_string(),
            game(70, "Half-Life", "Half-Life"),
        ),
        (
            "/steam/steamapps/common/Portal".to_string(),
            game(400, "Portal", "Portal"),
        ),
    ])
}

#[test]
fn matches_exe_inside_install_dir() {
    let cache = sample_cache();
    let hit = cache
        .match_exe("/steam/steamapps/common/Portal/portal.exe")
        .expect("should match Portal");
    assert_eq!(hit.app_id, 400);
    assert_eq!(hit.name, "Portal");
}

#[test]
fn no_match_for_non_steam_process() {
    let cache = sample_cache();
    assert!(cache.match_exe("/usr/bin/firefox").is_none());
}

#[test]
fn longest_prefix_wins_when_dirs_nest() {
    // A library nested inside another library's tree must resolve to the
    // more specific (longer) path.
    let cache = GameCache::from_entries(vec![
        ("/games".to_string(), game(1, "Outer", "Outer")),
        (
            "/games/steamapps/common/Inner".to_string(),
            game(2, "Inner", "Inner"),
        ),
    ]);
    let hit = cache
        .match_exe("/games/steamapps/common/Inner/run.exe")
        .unwrap();
    assert_eq!(hit.app_id, 2);
}

#[test]
fn outer_dir_still_matches_outside_inner() {
    let cache = GameCache::from_entries(vec![
        ("/games".to_string(), game(1, "Outer", "Outer")),
        ("/games/steamapps/common/Inner".to_string(), game(2, "Inner", "Inner")),
    ]);
    assert_eq!(cache.match_exe("/games/other/run.exe").unwrap().app_id, 1);
}

#[test]
fn only_whole_components_match() {
    let cache = sample_cache();
    assert!(cache.match_exe("/steam/steamapps/common/Portal2/portal2.exe").is_none());
    assert!(cache.match_exe("/steam/steamapps/common/Por").is_none());
}

#[test]
fn redundant_separators_and_dots_are_ignored() {
    let cache = sample_cache();
    assert_eq!(cache.match_exe("/steam//steamapps/./common/Portal/bin/portal").unwrap().app_id, 400);
    assert_eq!(cache.match_exe("/steam/steamapps/common/Portal").unwrap().app_id, 400);
    assert_eq!(cache.match_exe("/steam/steamapps/common/Portal/").unwrap().app_id, 400);
}

#[test]
fn relative_exe_does_not_match_absolute_dir() {
    let cache = sample_cache();
    assert!(cache.match_exe("steam/steamapps/common/Portal/portal.exe").is_none());
}

#[test]
fn empty_cache() {
    let cache = GameCache::from_entries(vec![]);
    assert!(cache.is_empty());
    assert_eq!(cache.len(), 0);
    assert!(cache.match_exe("/anything").is_none());
    let d = GameCache::default();
    assert!(d.is_empty());
}

#[test]
fn equal_length_dirs_keep_their_order() {
    let cache = GameCache::from_entries(vec![
        ("/a".to_string(), game(1, "A", "A")),
        ("/".to_string(), game(9, "Root", "Root")),
        ("/b".to_string(), game(2, "B", "B")),
    ]);
    assert!(!cache.is_empty());
    assert_eq!(cache.len(), 3);
    assert_eq!(cache.match_exe("/a/x").unwrap().app_id, 1);
    assert_eq!(cache.match_exe("/b/x").unwrap().app_id, 2);
    assert_eq!(cache.match_exe("/c/x").unwrap().app_id, 9);
}

#[test]
fn first_running_game_takes_first_matching_exe() {
    let cache = sample_cache();
    let exes = vec![
        "/usr/bin/bash".to_string(),
        "/steam/steamapps/common/Half-Life/hl.exe".to_string(),
        "/steam/steamapps/common/Portal/portal.exe".to_string(),
    ];
    assert_eq!(cache.first_running_game(&exes).unwrap().app_id, 70);
    assert!(cache.first_running_game(&vec!["/usr/bin/bash".to_string()]).is_none());
    assert!(cache.first_running_game(&vec![]).is_none());
}

#[test]
fn installed_game_name_falls_back_to_install_dir() {
    let g = installed_game(4000, None, "GarrysMod".to_string());
    assert_eq!(g.name, "GarrysMod");
    assert_eq!(g.install_dir, "GarrysMod");
    assert_eq!(g.app_id, 4000);
    let g = installed_game(4000, Some("Garry's Mod".to_string()), "GarrysMod".to_string());
    assert_eq!(g.name, "Garry's Mod");
}

#[test]
fn duplicate_copies_all_fields() {
    let g = game(1, "A", "B");
    assert_eq!(g.duplicate(), g);
}

#[test]
fn equally_long_matching_dirs_first_given_wins() {
    let a = ("/g/a/".to_string(), game(1, "A", "a"));
    let b = ("/g//a".to_string(), game(2, "B", "a"));
    let ab = GameCache::from_entries(vec![a.clone(), b.clone()]);
    assert_eq!(ab.match_exe("/g/a/x.exe").unwrap().app_id, 1);
    let ba = GameCache::from_entries(vec![b, a]);
    assert_eq!(ba.match_exe("/g/a/x.exe").unwrap().app_id, 2);
}

#[test]
fn order_of_entries_does_not_matter_for_distinct_lengths() {
    let outer = ("/games".to_string(), game(1, "Outer", "Outer"));
    let inner = ("/games/steamapps/common/Inner".to_string(), game(2, "Inner", "Inner"));
    let c1 = GameCache::from_entries(vec![outer.clone(), inner.clone()]);
    let c2 = GameCache::from_entries(vec![inner, outer]);
    for exe in ["/games/steamapps/common/Inner/run.exe", "/games/x", "/other"] {
        assert_eq!(c1.match_exe(exe), c2.match_exe(exe));
    }
}

#[test]
fn windows_cache_reads_windows_paths() {
    let cache = GameCache::from_entries_in(
        vec![(
            "C:\\Program Files (x86)\\Steam\\steamapps\\common\\Portal".to_string(),
            game(400, "Portal", "Portal"),
        )],
        PathStyle::Windows,
    );
    assert_eq!(cache.style(), PathStyle::Windows);
    let exe = "c:\\Program Files (x86)\\Steam\\steamapps\\common\\Portal\\portal.exe";
    assert_eq!(cache.match_exe(exe).unwrap().app_id, 400);
    let exe = "C:/Program Files (x86)/Steam/steamapps/common/Portal/bin/x.exe";
    assert_eq!(cache.match_exe(exe).unwrap().app_id, 400);
    assert!(cache.match_exe("D:\\Program Files (x86)\\Steam\\steamapps\\common\\Portal\\p.exe").is_none());
    assert!(cache.match_exe("C:\\Program Files (x86)\\Steam\\steamapps\\common\\Portal2\\p.exe").is_none());
}

#[test]
fn unix_cache_does_not_split_on_backslash() {
    let cache = GameCache::from_entries_in(
        vec![("C:\\Games\\Portal".to_string(), game(400, "Portal", "Portal"))],
        PathStyle::Unix,
    );
    assert_eq!(cache.style(), PathStyle::Unix);
    assert!(cache.match_exe("C:\\Games\\Portal\\portal.exe").is_none());
    assert_eq!(cache.match_exe("C:\\Games\\Portal/portal.exe").unwrap().app_id, 400);
}

#[test]
fn from_entries_keeps_every_entry() {
    let cache = GameCache::from_entries(vec![
        ("/a".to_string(), game(1, "A", "a")),
        ("/a".to_string(), game(1, "A", "a")),
        ("/bb".to_string(), game(2, "B", "bb")),
    ]);
    assert_eq!(cache.len(), 3);
    assert_eq!(cache.match_exe("/a/x").unwrap().app_id, 1);
    assert_eq!(cache.match_exe("/bb/x").unwrap().app_id, 2);
}

#[test]
fn first_running_game_ignores_other_executables() {
    let cache = sample_cache();
    let all = vec![
        "/usr/bin/bash".to_string(),
        "/home/me/.secret/tool".to_string(),
        "/steam/steamapps/common/Portal/portal.exe".to_string(),
        "/usr/lib/firefox/firefox".to_string(),
        "/steam/steamapps/common/Half-Life/hl.exe".to_string(),
    ];
    let games_only = vec![
        "/steam/steamapps/common/Portal/portal.exe".to_string(),
        "/steam/steamapps/common/Half-Life/hl.exe".to_string(),
    ];
    assert_eq!(cache.first_running_game(&all), cache.first_running_game(&games_only));
    assert_eq!(cache.first_running_game(&all).unwrap().app_id, 400);
}
