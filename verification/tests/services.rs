use modeman::game;
use modeman::nexus::{self, DownloadLink, ModList};
use modeman::nxm::NxmLink;
use modeman::platform::ListSort;
use modeman::protocol;
use modeman::redmod::{self, RedmodStatus};
use modeman::store::{self, ModRecord};
use modeman::Error;

#[test]
fn nexus_urls() {
    assert_eq!(nexus::validate_url(), "https://api.nexusmods.com/v1/users/validate.json");
    assert_eq!(nexus::mod_info_url("skyrimspecialedition", 266), "https://api.nexusmods.com/v1/games/skyrimspecialedition/mods/266.json");
    assert_eq!(nexus::mod_list_url("cyberpunk2077", ModList::LatestUpdated), "https://api.nexusmods.com/v1/games/cyberpunk2077/mods/latest_updated.json");
    assert_eq!(nexus::files_url("stardewvalley", 7), "https://api.nexusmods.com/v1/games/stardewvalley/mods/7/files.json");
    assert_eq!(nexus::sort_to_modlist(ListSort::Top), ModList::Trending);
}

#[test]
fn free_links_pass_key_and_expiry() {
    let link = NxmLink::parse("nxm://skyrimspecialedition/mods/12345/files/67890?key=AbC123&expires=1700000000&user_id=999").unwrap();
    assert_eq!(
        nexus::download_links_url(&link.domain, link.mod_id, link.file_id, Some(&link)),
        "https://api.nexusmods.com/v1/games/skyrimspecialedition/mods/12345/files/67890/download_link.json?key=AbC123&expires=1700000000"
    );
    let premium = NxmLink::parse("nxm://cyberpunk2077/mods/42/files/100").unwrap();
    assert_eq!(
        nexus::download_links_url(&premium.domain, 42, 100, Some(&premium)),
        "https://api.nexusmods.com/v1/games/cyberpunk2077/mods/42/files/100/download_link.json"
    );
}

#[test]
fn api_keys_and_links() {
    assert!(matches!(nexus::check_api_key("   "), Err(Error::NoApiKey)));
    assert!(nexus::check_api_key("abc").is_ok());
    match nexus::first_link(vec![]) {
        Err(e) => assert_eq!(e.message(), "no download links returned"),
        Ok(_) => panic!("no links, yet a link"),
    }
    let l = |n: &str| DownloadLink { name: n.to_string(), short_name: n.to_string(), uri: format!("https://{n}/f.zip") };
    assert_eq!(nexus::first_link(vec![l("a"), l("b")]).unwrap().name, "a");
}

#[test]
fn error_messages() {
    assert_eq!(Error::NoApiKey.message(), "no api key set");
    let api = Error::Api { service: "nexus".to_string(), status: 403, body: "forbidden".to_string() };
    assert_eq!(api.message(), "nexus api returned 403: forbidden");
    assert_eq!(Error::io("/x", "denied").message(), "io error at /x: denied");
    assert_eq!(Error::GameUnsupported("mod.io".to_string()).message(), "this game is not available on mod.io");
    assert_eq!(Error::other("plain").message(), "plain");
}

#[test]
fn desktop_entry_points_at_the_executable() {
    let text = protocol::desktop_entry("/usr/bin/modeman");
    assert_eq!(
        text,
        "[Desktop Entry]\nType=Application\nName=modeman (nxm handler)\nExec=/usr/bin/modeman --nxm %u\nNoDisplay=true\nMimeType=x-scheme-handler/nxm;\nCategories=Game;\n"
    );
    assert_eq!(protocol::data_home(Some("/xdg".to_string()), Some("/home/u".to_string())).unwrap(), "/xdg");
    assert_eq!(protocol::data_home(Some(String::new()), Some("/home/u".to_string())).unwrap(), "/home/u/.local/share");
    assert!(matches!(protocol::data_home(None, None), Err(Error::Other(m)) if m == "HOME not set"));
    assert_eq!(protocol::desktop_file_path("/xdg"), "/xdg/applications/modeman-nxm.desktop");
}

#[test]
fn proton_prefers_experimental_then_latest() {
    let names = |v: &[&str]| -> Vec<String> { v.iter().map(|s| s.to_string()).collect() };
    assert_eq!(
        redmod::pick_proton("/s/common", &names(&["Proton 8.0", "Proton - Experimental", "Proton 9.0"])),
        Some("/s/common/Proton - Experimental/proton".to_string())
    );
    assert_eq!(
        redmod::pick_proton("/s/common", &names(&["Proton 8.0", "Proton 9.0", "Proton 7.0"])),
        Some("/s/common/Proton 9.0/proton".to_string())
    );
    assert_eq!(redmod::pick_proton("/s/common", &[]), None);
}

#[test]
fn redmod_deploy_plan() {
    let g = game::from_manual_path("cyberpunk", "/lib/steamapps/common/Cyberpunk 2077", true).unwrap();
    assert!(matches!(redmod::plan_deploy(&g, false, None, None), Err(RedmodStatus::NoRedmodMods)));
    assert!(matches!(redmod::plan_deploy(&g, true, None, None), Err(RedmodStatus::ToolMissing)));
    assert!(matches!(
        redmod::plan_deploy(&g, true, Some("redMod.exe".to_string()), None),
        Err(RedmodStatus::ProtonMissing)
    ));
    let launch = redmod::plan_deploy(&g, true, Some("/x/redMod.exe".to_string()), Some("/p/proton".to_string())).unwrap();
    assert_eq!(launch.proton, "/p/proton");
    assert_eq!(launch.args, vec!["run", "/x/redMod.exe", "deploy", "-root=/lib/steamapps/common/Cyberpunk 2077"]);
    assert_eq!(launch.compat_data, format!("/lib/steamapps/compatdata/{}", g.spec.steam_appid));
    assert_eq!(launch.steam_root, "/lib");
    assert!(redmod::is_redmod(&["archive".to_string(), "Info.JSON".to_string()]));
    assert!(!redmod::is_redmod(&["mod.archive".to_string()]));
}

#[test]
fn slugs_are_safe_and_unique() {
    assert_eq!(store::slugify("Cool Mod!! v2"), "cool-mod-v2");
    assert_eq!(store::slugify("--A__b--"), "a-b");
    let rec = |s: &str| ModRecord { slug: s.to_string(), name: String::new(), source: None, size_bytes: 0, nexus: None };
    let existing = vec![rec("cool"), rec("cool-2")];
    assert_eq!(store::unique_slug(&existing, "cool"), "cool-3");
    assert_eq!(store::unique_slug(&existing, "other"), "other");
    assert_eq!(store::unique_slug(&[], ""), "mod");
    assert!(store::is_supported("a/b/Mod.7Z"));
    assert!(!store::is_supported("readme.txt"));
    assert_eq!(store::source_label("/dl/cool.zip"), Some("cool.zip".to_string()));
}

#[test]
fn wrapper_folders_are_hoisted() {
    assert_eq!(store::wrapper_to_hoist(&[("CoolMod".to_string(), true)]), Some("CoolMod".to_string()));
    assert_eq!(store::wrapper_to_hoist(&[("Data".to_string(), true)]), None);
    assert_eq!(store::wrapper_to_hoist(&[("a.esp".to_string(), false)]), None);
    assert_eq!(store::wrapper_to_hoist(&[("A".to_string(), true), ("B".to_string(), true)]), None);
    assert!(store::is_known_root("Textures"));
}
