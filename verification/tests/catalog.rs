use modeman::game::{add_manual_game, from_manual_path, record_install, remove_manual_game, spec_by_id, InstalledGame, ManualEntry, PrefixUsers};
use modeman::json::Json;
use modeman::launchers::{heroic_games, heroic_wine_prefix, library_titles, lutris_install, normalize, push_match, spec_for_title, yaml_value, lutris_install_dir};

#[test]
fn titles_match_catalog() {
    assert_eq!(spec_for_title("Cyberpunk 2077").unwrap().id, "cyberpunk");
    assert_eq!(
        spec_for_title("The Elder Scrolls V: Skyrim Special Edition")
            .unwrap()
            .id,
        "skyrimse"
    );
    assert_eq!(
        spec_for_title("Fallout: New Vegas").unwrap().id,
        "falloutnv"
    );
    assert_eq!(spec_for_title("Stardew Valley").unwrap().id, "stardew");
    assert!(spec_for_title("Some Unknown Game").is_none());
}

#[test]
fn prefix_override_resolves_appdata_with_gog_variant() {
    // GOG-suffixed appdata folder under a plain-Wine user dir.
    let g = InstalledGame {
        spec: spec_by_id("skyrimse").unwrap(),
        path: "/tmp/pfx-game".to_string(),
        prefix: Some("/tmp/pfx-root".to_string()),
    };
    let users = PrefixUsers { steamuser: true, login: None };
    let present = vec!["Skyrim Special Edition GOG".to_string()];
    let appdata = g.prefix_appdata(&users, &present).unwrap();
    assert!(appdata.ends_with("Skyrim Special Edition GOG"));
    assert_eq!(
        appdata,
        "/tmp/pfx-root/drive_c/users/steamuser/AppData/Local/Skyrim Special Edition GOG"
    );
}

fn conv(v: serde_json::Value) -> Json {
    match v {
        serde_json::Value::Null => Json::Null,
        serde_json::Value::Bool(b) => Json::Bool(b),
        serde_json::Value::Number(n) => Json::Number(n.to_string()),
        serde_json::Value::String(s) => Json::Str(s),
        serde_json::Value::Array(a) => Json::Array(a.into_iter().map(conv).collect()),
        serde_json::Value::Object(m) => Json::Object(m.into_iter().map(|(k, v)| (k, conv(v))).collect()),
    }
}

fn json(text: &str) -> Json {
    conv(serde_json::from_str(text).unwrap())
}

#[test]
fn detects_heroic_gog_install_with_prefix() {
    let game_dir = "/tmp/heroic-game";
    let prefix = "/tmp/heroic-prefix";
    let installed = json(&format!(
        r#"{{"installed":[{{"appName":"1423049311","platform":"windows","install_path":"{}"}}]}}"#,
        game_dir
    ));
    let library = json(r#"{"games":[{"app_name":"1423049311","title":"Cyberpunk 2077"}]}"#);
    let config = json(&format!(r#"{{"1423049311":{{"winePrefix":"{}"}},"version":"v0"}}"#, prefix));

    let titles = library_titles(&library);
    let found = heroic_games(Some(installed), None, None, &titles);
    assert_eq!(found, vec![("1423049311".to_string(), "Cyberpunk 2077".to_string(), game_dir.to_string())]);
    let (app, title, dir) = &found[0];
    let pfx = heroic_wine_prefix(&config, app);
    let mut out = Vec::new();
    push_match(&mut out, title, dir, true, pfx);
    assert_eq!(out.len(), 1);
    assert_eq!(out[0].spec.id, "cyberpunk");
    assert_eq!(out[0].path, game_dir);
    assert_eq!(out[0].prefix.as_deref(), Some(prefix));
}

#[test]
fn heroic_epic_and_sideloaded_games_are_found() {
    let legendary = json(r#"{"Fortnite":{"title":"Fortnite","install_path":"/g/fn"},"Broken":{"title":"No path"}}"#);
    let sideload = json(r#"{"games":[{"app_name":"sl1","title":"Stardew Valley","install":{"executable":"/g/sdv/Stardew Valley.exe"}},{"title":"no exe"}]}"#);
    let found = heroic_games(None, Some(legendary), Some(sideload), &[]);
    assert_eq!(
        found,
        vec![
            ("Fortnite".to_string(), "Fortnite".to_string(), "/g/fn".to_string()),
            ("sl1".to_string(), "Stardew Valley".to_string(), "/g/sdv".to_string()),
        ]
    );
    assert_eq!(heroic_wine_prefix(&json(r#"{"x":{"winePrefix":"/p"}}"#), ""), None);
    // A GOG install without a library title is named after its folder.
    let gog = json(r#"{"installed":[{"appName":"9","install_path":"/g/Some Game"},{"appName":"10"}]}"#);
    let found = heroic_games(Some(gog), None, None, &[]);
    assert_eq!(found, vec![("9".to_string(), "Some Game".to_string(), "/g/Some Game".to_string())]);
}

#[test]
fn lutris_rows_without_a_dir_are_skipped() {
    assert_eq!(lutris_install(None, ""), None);
    let yml = "game:\n  exe: /g/x/run.exe\n  prefix: /pfx\n";
    assert_eq!(lutris_install(Some(String::new()), yml), Some(("/g/x".to_string(), Some("/pfx".to_string()))));
}

#[test]
fn detects_lutris_install_from_pga_db() {
    let yml = "game:\n  exe: /games/lutris-game/SkyrimSELauncher.exe\n  prefix: /pfx/lutris-prefix\n";
    let dir = lutris_install_dir(Some(String::new()), yml);
    assert_eq!(dir, "/games/lutris-game");
    let prefix = yaml_value(yml, "prefix");
    assert_eq!(prefix.as_deref(), Some("/pfx/lutris-prefix"));
    let mut out = Vec::new();
    push_match(&mut out, "The Elder Scrolls V: Skyrim Special Edition", &dir, true, prefix);
    assert_eq!(out.len(), 1);
    assert_eq!(out[0].spec.id, "skyrimse");
    assert_eq!(out[0].path, "/games/lutris-game");
    assert_eq!(out[0].prefix.as_deref(), Some("/pfx/lutris-prefix"));
}

#[test]
fn unknown_title_or_missing_dir_is_not_recorded() {
    let mut out = Vec::new();
    assert!(!push_match(&mut out, "Some Unknown Game", "/games/x", true, None));
    assert!(!push_match(&mut out, "Stardew Valley", "/games/x", false, None));
    assert!(push_match(&mut out, "Stardew Valley", "/games/x", true, None));
    assert!(!push_match(&mut out, "Stardew Valley", "/games/x/", true, None));
    assert_eq!(out.len(), 1);
}

#[test]
fn normalize_keeps_lowercase_alphanumerics() {
    assert_eq!(normalize("The Elder Scrolls V: Skyrim!"), "theelderscrollsvskyrim");
    assert_eq!(normalize(""), "");
}

#[test]
fn yaml_value_strips_quotes_and_blanks() {
    assert_eq!(yaml_value("  exe: 'C:/a b.exe'  \n", "exe").as_deref(), Some("C:/a b.exe"));
    assert_eq!(yaml_value("prefix: \"\"\nprefix: /x\n", "prefix"), None);
    assert_eq!(yaml_value("other: 1\n", "prefix"), None);
}

#[test]
fn manual_path_validation() {
    let g = from_manual_path("skyrimse", "/games/SkyrimSE", true).unwrap();
    assert_eq!(g.spec.name, "Skyrim Special Edition");
    assert!(g.prefix.is_none());
    match from_manual_path("nope", "/games/x", true) {
        Err(modeman::Error::UnknownGame(m)) => assert_eq!(m, "nope"),
        other => panic!("unexpected {:?}", other),
    }
    match from_manual_path("skyrimse", "/games/x", false) {
        Err(modeman::Error::GameNotInstalled(m)) => assert_eq!(m, "/games/x is not a directory"),
        other => panic!("unexpected {:?}", other),
    }
}

#[test]
fn deploy_root_and_prefix_paths() {
    let users = PrefixUsers { steamuser: false, login: Some("alice".to_string()) };
    let sky = from_manual_path("skyrimse", "/lib/steamapps/common/SkyrimSE", true).unwrap();
    assert_eq!(sky.deploy_root(&users).unwrap(), "/lib/steamapps/common/SkyrimSE/Data");
    assert_eq!(sky.steamapps_dir().as_deref(), Some("/lib/steamapps"));
    assert_eq!(
        sky.prefix_documents(&users, "").as_deref(),
        Some("/lib/steamapps/compatdata/489830/pfx/drive_c/users/alice/Documents")
    );
    let cp = from_manual_path("cyberpunk", "/lib/steamapps/common/Cyberpunk 2077", true).unwrap();
    assert_eq!(cp.deploy_root(&users).unwrap(), "/lib/steamapps/common/Cyberpunk 2077");
    let ck3 = InstalledGame { spec: spec_by_id("ck3").unwrap(), path: "/".to_string(), prefix: None };
    match ck3.deploy_root(&users) {
        Err(modeman::Error::GameNotInstalled(m)) => {
            assert_eq!(m, "Crusader Kings III: Proton prefix / Documents not found (run the game once)")
        }
        other => panic!("unexpected {:?}", other),
    }
}

#[test]
fn manual_registration_replaces_the_same_path() {
    let entries = vec![ManualEntry { id: "stardew".to_string(), path: "/games/sdv/".to_string() }];
    // `/games/sdv` and `/games/sdv/` are one path.
    let (g, es) = add_manual_game(&entries, "rimworld", "/games/sdv", true).unwrap();
    assert_eq!(g.spec.id, "rimworld");
    assert_eq!(es.len(), 1);
    assert_eq!(es[0].id, "rimworld");
    assert!(remove_manual_game(&es, "/games//sdv").is_empty());
    assert_eq!(remove_manual_game(&es, "/games/other").len(), 1);
    assert!(add_manual_game(&entries, "nope", "/x", true).is_err());

    let mut found: Vec<InstalledGame> = Vec::new();
    assert!(record_install(&mut found, from_manual_path("skyrimse", "/lib/SkyrimSE", true).unwrap()));
    assert!(!record_install(&mut found, from_manual_path("skyrimse", "/lib/SkyrimSE/", true).unwrap()));
    assert_eq!(found.len(), 1);
}

#[test]
fn nexus_downloads_find_their_game() {
    let games = vec![
        from_manual_path("cyberpunk", "/g/cp", true).unwrap(),
        from_manual_path("skyrimse", "/g/sse", true).unwrap(),
    ];
    assert_eq!(modeman::game::game_for_domain(&games, "skyrimspecialedition"), Some(1));
    assert_eq!(modeman::game::game_for_domain(&games, "oblivion"), None);
}

#[test]
fn prefix_documents_games_get_no_overlay_option() {
    let users = PrefixUsers { steamuser: false, login: Some("alice".to_string()) };
    let ck3 = InstalledGame {
        spec: spec_by_id("ck3").unwrap(),
        path: "/games/ck3".to_string(),
        prefix: Some("/pfx".to_string()),
    };
    assert!(ck3.deploy_root(&users).is_ok());
    assert_eq!(modeman::vfs::launch_option_for(&ck3, &users, "/store", &["/store/mods/a".to_string()]), None);
    let sky = from_manual_path("skyrimse", "/lib/steamapps/common/SkyrimSE", true).unwrap();
    let dirs = vec!["/store/mods/a".to_string()];
    let expected = modeman::vfs::steam_launch_option(
        "/lib/steamapps/common/SkyrimSE/Data",
        &dirs,
        &modeman::vfs::OverlayDirs::under("/store"),
    );
    assert_eq!(modeman::vfs::launch_option_for(&sky, &users, "/store", &dirs), Some(expected));
}
