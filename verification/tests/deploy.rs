use modeman::deploy::{self, DeployManifest, DeploySource, ShadowAction};

#[test]
fn backups_sit_beside_the_original() {
    assert_eq!(deploy::backup_path("/g/Data/Textures/wall.dds"), "/g/Data/Textures/wall.dds.modeman-orig");
    assert_eq!(deploy::backup_path("wall.dds"), "wall.dds.modeman-orig");
}

#[test]
fn vanilla_files_are_never_overwritten() {
    assert_eq!(deploy::shadow_action(false, false, true, false), ShadowAction::BackUp);
    assert_eq!(deploy::shadow_action(false, false, true, true), ShadowAction::RemoveFile);
    assert_eq!(deploy::shadow_action(true, false, true, false), ShadowAction::RemoveLink);
    assert_eq!(deploy::shadow_action(false, false, false, false), ShadowAction::Nothing);
    // A hard link made earlier in this deploy is ours, not an original.
    assert_eq!(deploy::shadow_action(false, true, true, false), ShadowAction::RemoveLink);
    let mut m = DeployManifest::empty();
    m.record_link("Data/a.esp");
    assert!(m.has_link("Data/a.esp"));
    assert!(!m.has_link("Data/b.esp"));
}

#[test]
fn sources_apply_in_rank_order() {
    let src = |root: &str, rank: usize| DeploySource { root: root.to_string(), rank };
    let sources = vec![src("c", 2), src("a", 0), src("b1", 1), src("b2", 1)];
    assert_eq!(deploy::order_by_rank(&sources), vec![1, 2, 3, 0]);
}

#[test]
fn dirs_are_removed_deepest_first() {
    let dirs: Vec<String> = ["Data", "Data/Textures", "Data/Textures/x", "Data/Meshes"].iter().map(|s| s.to_string()).collect();
    let out = deploy::removal_order(&dirs);
    assert_eq!(out, vec!["Data/Textures/x", "Data/Textures", "Data/Meshes", "Data"]);
    assert_eq!(deploy::slash_count("a/b/c"), 2);
}

#[test]
fn manifest_records_each_link_once() {
    let mut m = DeployManifest::empty();
    m.record_link("Data/a.esp");
    m.record_link("Data/a.esp");
    m.record_backup("Data/b.esp");
    assert_eq!(m.links, vec!["Data/a.esp".to_string()]);
    assert_eq!(m.backups, vec!["Data/b.esp".to_string()]);
    assert!(m.dirs.is_empty());
}
