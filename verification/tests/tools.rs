use modeman::nxm::NxmLink;
use modeman::redmod::deploy_args;
use modeman::vdf::{parse, Vdf};
use modeman::vfs::{bwrap_args, steam_launch_option, OverlayDirs};

#[test]
fn builds_deploy_args() {
    let args = deploy_args("/games/cp/tools/redmod/bin/redMod.exe", "/games/cp");
    assert_eq!(args[0], "run");
    assert_eq!(args[2], "deploy");
    assert_eq!(args[3], "-root=/games/cp");
    assert!(args[1].ends_with("redMod.exe"));
}

#[test]
fn parses_nested() {
    let doc = r#"
        "libraryfolders"
        {
            "0"
            {
                "path"  "/games"
                "apps"
                {
                    "489830"  "123"
                }
            }
        }
    "#;
    let v = parse(doc).unwrap();
    let lf = v.get("libraryfolders").unwrap();
    let path = lf.get("0").unwrap().get("path").unwrap().as_str().unwrap();
    assert_eq!(path, "/games");
    let apps = lf.get("0").unwrap().get("apps").unwrap();
    assert_eq!(apps.get("489830").unwrap().as_str(), Some("123"));
}

#[test]
fn overlay_stacks_mods_over_game_dir() {
    let overlay = OverlayDirs {
        upper: "/store/.overlay/upper".to_string(),
        work: "/store/.overlay/work".to_string(),
    };
    let mods = vec!["/store/mods/a".to_string(), "/store/mods/b".to_string()];
    let args = bwrap_args("/game/Data", &mods, &overlay);

    // Base layer is the game dir, then mods in order, then the overlay dest.
    let base_pos = args.iter().position(|a| a == "/game/Data").unwrap();
    let a_pos = args.iter().position(|a| a == "/store/mods/a").unwrap();
    let b_pos = args.iter().position(|a| a == "/store/mods/b").unwrap();
    assert!(base_pos < a_pos && a_pos < b_pos, "base lowest, mods stack up");
    assert!(args.contains(&"--overlay".to_string()));

    let opt = steam_launch_option("/game/Data", &mods, &overlay);
    assert!(opt.starts_with("bwrap "));
    assert!(opt.ends_with("-- %command%"));
}

#[test]
fn parses_free_link() {
    let l = NxmLink::parse(
        "nxm://skyrimspecialedition/mods/12345/files/67890?key=AbC123&expires=1700000000&user_id=999",
    )
    .unwrap();
    assert_eq!(l.domain, "skyrimspecialedition");
    assert_eq!(l.mod_id, 12345);
    assert_eq!(l.file_id, 67890);
    assert_eq!(l.key.as_deref(), Some("AbC123"));
    assert_eq!(l.expires, Some(1700000000));
    assert_eq!(l.user_id, Some(999));
}

#[test]
fn parses_premium_link() {
    let l = NxmLink::parse("nxm://cyberpunk2077/mods/42/files/100").unwrap();
    assert_eq!(l.domain, "cyberpunk2077");
    assert_eq!(l.mod_id, 42);
    assert_eq!(l.file_id, 100);
    assert!(l.key.is_none());
}

#[test]
fn rejects_non_nxm() {
    assert!(NxmLink::parse("https://example.com/mods/1/files/2").is_err());
    assert!(NxmLink::parse("nxm://game/mods/abc/files/2").is_err());
}

#[test]
fn link_errors_say_why() {
    match NxmLink::parse("https://example.com/mods/1/files/2") {
        Err(modeman::Error::BadLink(m)) => assert_eq!(m, "scheme is 'https', not 'nxm'"),
        other => panic!("unexpected {:?}", other),
    }
    match NxmLink::parse("nxm://game/mods/abc/files/2") {
        Err(modeman::Error::BadLink(m)) => assert_eq!(m, "bad mod_id: 'abc'"),
        other => panic!("unexpected {:?}", other),
    }
    match NxmLink::parse("nxm://game/mod/1") {
        Err(modeman::Error::BadLink(m)) => assert_eq!(m, "unexpected path: /mod/1"),
        other => panic!("unexpected {:?}", other),
    }
    assert!(matches!(NxmLink::parse("not a url"), Err(modeman::Error::BadLink(_))));
}

#[test]
fn later_query_pairs_win_and_bad_numbers_drop() {
    let l = NxmLink::parse("  nxm://g/mods/1/files/2?key=a&key=b&expires=x  ").unwrap();
    assert_eq!(l.key.as_deref(), Some("b"));
    assert_eq!(l.expires, None);
}

#[test]
fn shell_quoting_of_launch_option() {
    let overlay = OverlayDirs::under("/store");
    assert_eq!(overlay.upper, "/store/.overlay/upper");
    let opt = steam_launch_option("/games/My Game", &[], &overlay);
    assert_eq!(
        opt,
        "bwrap --dev-bind / / --overlay-src '/games/My Game' --overlay /store/.overlay/upper /store/.overlay/work '/games/My Game' -- %command%"
    );
    let quoted = modeman::vfs::shell_join(&["it's".to_string(), "".to_string()]);
    assert_eq!(quoted, "'it'\\''s' ''");
}

#[test]
fn string_pairs_keep_first_place_and_last_text() {
    let v = Vdf::Obj(vec![
        ("a".to_string(), Vdf::Str("1".to_string())),
        ("b".to_string(), Vdf::Obj(vec![])),
        ("c".to_string(), Vdf::Str("3".to_string())),
        ("a".to_string(), Vdf::Str("2".to_string())),
    ]);
    assert_eq!(
        v.str_pairs(),
        vec![("a".to_string(), "2".to_string()), ("c".to_string(), "3".to_string())]
    );
    let m = v.str_map();
    assert_eq!(m.len(), 2);
    assert_eq!(m.get("a").map(|s| s.as_str()), Some("2"));
    assert!(matches!(v.get("a"), Some(Vdf::Str(s)) if s == "1"));
    assert!(Vdf::Str("x".to_string()).str_pairs().is_empty());
}
