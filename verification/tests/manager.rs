use modeman::deploy::{DeployManifest, LinkMethod};
use modeman::fomod::FomodSession;
use modeman::game;
use modeman::game::Engine;
use modeman::manager::{declared_name, GameState, Manager, PendingFomod};
use modeman::store::ModRecord;
use modeman::Error;

fn record(slug: &str) -> ModRecord {
    ModRecord { slug: slug.to_string(), name: slug.to_uppercase(), source: None, size_bytes: 0, nexus: None }
}

fn manager() -> Manager {
    let g = game::from_manual_path("skyrimse", "/lib/steamapps/common/SkyrimSE", true).unwrap();
    Manager::new("/data", g, GameState::default())
}

fn slugs(v: &[(usize, String, String)]) -> Vec<String> {
    v.iter().map(|(_, s, _)| s.clone()).collect()
}

#[test]
fn detects_overwrite_winner() {
    let mut mgr = manager();
    mgr.register_record(record("aaa"));
    mgr.register_record(record("bbb"));
    let files = |slug: &str| -> Vec<String> {
        match slug {
            "aaa" => vec!["Textures/shared.dds".to_string(), "a-only.esp".to_string()],
            _ => vec!["Textures/shared.dds".to_string(), "b-only.esp".to_string()],
        }
    };
    let sources = |mgr: &Manager| -> Vec<Vec<String>> {
        mgr.enabled_dirs().into_iter().map(|(_, slug, _)| files(&slug)).collect()
    };

    // Both enabled; load order is install order (a before b) → b wins.
    let conflicts = mgr.conflicts(&sources(&mgr));
    assert_eq!(conflicts.len(), 1, "exactly one shared file");
    let c = &conflicts[0];
    assert_eq!(c.rel_path, "Textures/shared.dds");
    assert_eq!(c.providers, vec!["aaa".to_string(), "bbb".to_string()]);
    assert_eq!(c.winner, "bbb", "later in load order wins");

    // Disabling b removes the conflict.
    mgr.set_enabled("bbb", false);
    assert!(mgr.conflicts(&sources(&mgr)).is_empty());
}

#[test]
fn new_manager_has_the_default_profile() {
    let mgr = manager();
    assert_eq!(mgr.store_dir(), "/data/games/skyrimse");
    assert_eq!(mgr.profile_names(), vec!["Default".to_string()]);
    assert_eq!(mgr.active_profile().name, "Default");
    assert!(mgr.mods().is_empty());
    assert!(!mgr.is_deployed());
    assert_eq!(mgr.deploy_method(), LinkMethod::Symlink);
}

#[test]
fn enabled_dirs_follow_load_order() {
    let mut mgr = manager();
    mgr.register_record(record("a"));
    mgr.register_record(record("b"));
    mgr.register_record(record("c"));
    mgr.set_enabled("b", false);
    let dirs = mgr.enabled_dirs();
    assert_eq!(dirs.len(), 2);
    assert_eq!(dirs[0], (0, "a".to_string(), "/data/games/skyrimse/mods/a".to_string()));
    assert_eq!(dirs[1], (1, "c".to_string(), "/data/games/skyrimse/mods/c".to_string()));

    mgr.move_mod(2, 0);
    assert_eq!(slugs(&mgr.enabled_dirs()), vec!["c".to_string(), "a".to_string()]);
    mgr.move_mod(0, 99);
    assert_eq!(slugs(&mgr.enabled_dirs()), vec!["a".to_string(), "c".to_string()]);
}

#[test]
fn profiles_are_created_and_switched() {
    let mut mgr = manager();
    mgr.register_record(record("a"));
    mgr.create_profile("Alt").unwrap();
    match mgr.create_profile("Alt") {
        Err(e) => assert_eq!(e.message(), "profile 'Alt' already exists"),
        Ok(()) => panic!("duplicate profile accepted"),
    }
    mgr.set_active_profile("Alt").unwrap();
    assert_eq!(mgr.active_profile().name, "Alt");
    assert_eq!(mgr.active_profile().order.len(), 1);
    mgr.set_enabled("a", false);
    assert!(mgr.enabled_dirs().is_empty());
    mgr.set_active_profile("Default").unwrap();
    assert_eq!(mgr.enabled_dirs().len(), 1);
    assert!(matches!(mgr.set_active_profile("Nope"), Err(Error::ProfileNotFound(n)) if n == "Nope"));
}

#[test]
fn removing_a_mod_drops_it_everywhere() {
    let mut mgr = manager();
    mgr.register_record(record("a"));
    mgr.register_record(record("b"));
    mgr.create_profile("Alt").unwrap();
    let (removed, live) = mgr.remove_mod("a").unwrap();
    assert_eq!(removed.slug, "a");
    assert!(live.is_none());
    assert_eq!(mgr.mods().len(), 1);
    assert_eq!(mgr.find_record("a"), None);
    assert_eq!(mgr.find_record("b"), Some(0));
    for p in &mgr.state.profiles {
        assert!(p.order.iter().all(|e| e.slug != "a"));
    }
    assert!(matches!(mgr.remove_mod("a"), Err(Error::ModNotFound(s)) if s == "a"));
}

#[test]
fn deploy_state_is_recorded_and_taken() {
    let mut mgr = manager();
    assert!(mgr.set_deploy_method(LinkMethod::Hardlink));
    assert!(!mgr.set_deploy_method(LinkMethod::Hardlink));
    let mut m = DeployManifest::empty();
    m.record_link("Data/a.esp");
    mgr.record_deploy(m);
    assert!(mgr.is_deployed());
    let taken = mgr.take_deployed().unwrap();
    assert_eq!(taken.links, vec!["Data/a.esp".to_string()]);
    assert!(!mgr.is_deployed());
    assert!(mgr.take_deployed().is_none());
}

#[test]
fn pending_fomod_is_finished_or_cancelled() {
    let xml = r#"<config><moduleName>M</moduleName>
        <requiredInstallFiles><file source="a.esp"/></requiredInstallFiles></config>"#;
    let mut mgr = manager();
    let pending = |staging: &str| PendingFomod {
        slug: "m".to_string(),
        session: FomodSession::load(xml, "/staging/m".to_string()).unwrap(),
        staging: staging.to_string(),
        name: "M".to_string(),
        source: None,
    };
    assert!(mgr.add_pending(pending("/staging/1")).is_none());
    // A second install of the same slug replaces the first.
    let replaced = mgr.add_pending(pending("/staging/2")).unwrap();
    assert_eq!(replaced.staging, "/staging/1");
    assert_eq!(mgr.pending_fomod.len(), 1);
    match mgr.finish_fomod("x", &vec![], &[]) {
        Err(e) => assert_eq!(e.message(), "no pending FOMOD for 'x'"),
        Ok(_) => panic!("unknown slug finished"),
    }
    let (p, plan) = mgr.finish_fomod("m", &vec![], &[]).unwrap();
    assert_eq!(p.slug, "m");
    assert_eq!(p.staging, "/staging/2");
    assert!(mgr.finish_fomod("m", &vec![], &[]).is_err());
    let plan = plan.unwrap();
    assert_eq!(plan.len(), 1);
    assert_eq!(plan[0].source, "a.esp");
    assert!(mgr.cancel_fomod("m").is_none());
}

#[test]
fn register_then_remove_gives_back_the_state() {
    let mut mgr = manager();
    mgr.register_record(record("a"));
    mgr.set_enabled("a", false);
    let before: Vec<(String, bool)> = mgr.active_profile().order.iter().map(|e| (e.slug.clone(), e.enabled)).collect();
    mgr.register_record(record("fresh"));
    assert_eq!(mgr.active_profile().order.last().unwrap().slug, "fresh");
    assert!(mgr.active_profile().order.last().unwrap().enabled);
    mgr.remove_mod("fresh").unwrap();
    let after: Vec<(String, bool)> = mgr.active_profile().order.iter().map(|e| (e.slug.clone(), e.enabled)).collect();
    assert_eq!(before, after);
    assert_eq!(mgr.mods().len(), 1);
    assert_eq!(mgr.mods()[0].slug, "a");
}

#[test]
fn declared_names_win_over_archive_names() {
    let s = |x: &str| x.to_string();
    assert_eq!(declared_name(Engine::Stardew, Some(s("Lookup Anything")), None, s("lookup")), "Lookup Anything");
    assert_eq!(declared_name(Engine::Unity, None, Some(s("x")), s("arc")), "arc");
    assert_eq!(declared_name(Engine::RimWorld, None, Some(s("Cool Mod")), s("coolmod")), "Cool Mod");
    assert_eq!(declared_name(Engine::Bethesda, Some(s("m")), Some(s("a")), s("coolmod")), "coolmod");
}

#[test]
fn removing_a_deployed_mod_hands_back_the_live_deployment() {
    let mut mgr = manager();
    mgr.register_record(record("a"));
    let mut m = DeployManifest::empty();
    m.record_link("Data/a.esp");
    mgr.record_deploy(m);
    let (_, live) = mgr.remove_mod("a").unwrap();
    assert_eq!(live.unwrap().links, vec!["Data/a.esp".to_string()]);
    assert!(!mgr.is_deployed());
    assert!(mgr.remove_mod("zzz").is_err());
}

#[test]
fn new_profiles_track_every_mod_enabled_in_record_order() {
    let mut mgr = manager();
    mgr.register_record(record("b"));
    mgr.register_record(record("a"));
    mgr.set_enabled("b", false);
    mgr.create_profile("Alt").unwrap();
    mgr.set_active_profile("Alt").unwrap();
    let order: Vec<(String, bool)> = mgr.active_profile().order.iter().map(|e| (e.slug.clone(), e.enabled)).collect();
    assert_eq!(order, vec![("b".to_string(), true), ("a".to_string(), true)]);
}
