use modeman::json::Json;
use modeman::loadorder;

fn strs(v: &[&str]) -> Vec<String> {
    v.iter().map(|s| s.to_string()).collect()
}

#[test]
fn toggles_enabled_in_active_playset() {
    // Enable alpha, disable beta; only mods the launcher knows are touched.
    let enabled = strs(&["mod/alpha.mod"]);
    let managed = strs(&["mod/alpha.mod", "mod/beta.mod", "mod/gamma.mod"]);
    let known = vec![Some("m1".to_string()), Some("m2".to_string()), None];
    let rows = loadorder::playset_updates(&enabled, &managed, &known);
    assert_eq!(rows, vec![("m1".to_string(), true), ("m2".to_string(), false)]);
}

#[test]
fn merge_keeps_user_entries_in_place() {
    let existing = strs(&["dlc/a", "mod/old.mod", "user/b"]);
    let active = strs(&["mod/new.mod", "MOD/NEW.mod"]);
    let managed = strs(&["mod/OLD.mod", "mod/new.mod"]);
    let out = loadorder::merge_managed(&existing, &active, &managed);
    assert_eq!(out, strs(&["dlc/a", "user/b", "mod/new.mod"]));
    // Clearing: nothing active, managed entries pruned.
    assert_eq!(loadorder::merge_managed(&out, &[], &managed), strs(&["dlc/a", "user/b"]));
}

#[test]
fn rimworld_core_stays_present() {
    let out = loadorder::rimworld_order(&[], &strs(&["author.coolmod"]), &strs(&["author.coolmod"]));
    assert_eq!(out, strs(&["ludeon.rimworld", "author.coolmod"]));
    let out = loadorder::rimworld_order(&strs(&["Ludeon.RimWorld", "x"]), &[], &strs(&["x"]));
    assert_eq!(out, strs(&["Ludeon.RimWorld"]));
}

#[test]
fn mods_config_renders_and_reads_back() {
    let text = loadorder::render("1.5", &strs(&["ludeon.rimworld", "author.coolmod"]), &strs(&["ludeon.rimworld.ideology"]));
    assert_eq!(
        text,
        "<?xml version=\"1.0\" encoding=\"utf-8\"?>\n<ModsConfigData>\n  <version>1.5</version>\n  <activeMods>\n    <li>ludeon.rimworld</li>\n    <li>author.coolmod</li>\n  </activeMods>\n  <knownExpansions>\n    <li>ludeon.rimworld.ideology</li>\n  </knownExpansions>\n</ModsConfigData>\n"
    );
    let (version, active, known) = loadorder::parse_mods_config(&text);
    assert_eq!(version, "1.5");
    assert_eq!(active, strs(&["ludeon.rimworld", "author.coolmod"]));
    assert_eq!(known, strs(&["ludeon.rimworld.ideology"]));
    let empty = loadorder::render("1.4", &[], &[]);
    assert!(!empty.contains("knownExpansions"));
}

#[test]
fn unreadable_mods_config_gives_defaults() {
    let (version, active, known) = loadorder::parse_mods_config("");
    assert_eq!(version, "1.5");
    assert!(active.is_empty() && known.is_empty());
}

#[test]
fn about_xml_gives_package_id_and_name() {
    let about = "<ModMetaData><name> Cool Mod </name><packageId>Author.CoolMod</packageId></ModMetaData>";
    assert_eq!(loadorder::package_id(about), Some("author.coolmod".to_string()));
    assert_eq!(loadorder::mod_name(about), Some("Cool Mod".to_string()));
    assert_eq!(loadorder::mod_name("<ModMetaData><name>  </name></ModMetaData>"), None);
    assert_eq!(loadorder::package_id("not xml"), None);
}

#[test]
fn descriptors_are_mod_files() {
    let names = strs(&["mymod.mod", "readme.txt", "OTHER.MOD", "mod"]);
    assert_eq!(loadorder::descriptors(&names), strs(&["mod/mymod.mod", "mod/OTHER.MOD"]));
}

#[test]
fn dedupe_keeps_first_spelling() {
    let v = strs(&["A.esp", "b.esp", "a.ESP", "B.esp", "c.esp"]);
    assert_eq!(loadorder::dedupe_ignore_case(&v), strs(&["A.esp", "b.esp", "c.esp"]));
}

#[test]
fn manifest_names_are_trimmed() {
    assert_eq!(loadorder::manifest_display_name(" Lookup Anything "), Some("Lookup Anything".to_string()));
    assert_eq!(loadorder::manifest_display_name("   "), None);
}

#[test]
fn rewriting_twice_changes_nothing() {
    let existing = strs(&["dlc/a", "mod/x.mod", "user/b"]);
    let active = strs(&["mod/y.mod", "mod/x.mod"]);
    let managed = strs(&["mod/x.mod", "mod/y.mod"]);
    let once = loadorder::merge_managed(&existing, &active, &managed);
    let twice = loadorder::merge_managed(&once, &active, &managed);
    assert_eq!(once, twice);
    assert_eq!(once, strs(&["dlc/a", "user/b", "mod/y.mod", "mod/x.mod"]));
}

fn conv(v: serde_json::Value) -> Json {
    match v {
        serde_json::Value::Null => Json::Null,
        serde_json::Value::Bool(b) => Json::Bool(b),
        serde_json::Value::Number(n) => Json::Number(n.to_string()),
        serde_json::Value::String(s) => Json::Str(s),
        serde_json::Value::Array(a) => Json::Array(a.into_iter().map(conv).collect()),
        serde_json::Value::Object(m) => Json::Object(m.into_iter().map(|(k, v)| (k, conv(v))).collect()),
    }
}

fn json(text: &str) -> Json {
    conv(serde_json::from_str(text).unwrap())
}

fn texts(j: Option<&Json>) -> Vec<String> {
    j.unwrap().items().iter().map(|i| i.as_text().unwrap().to_string()).collect()
}

#[test]
fn paradox_writes_dlc_load() {
    let doc = json(r#"{"enabled_mods":["mod/user.mod","mod/OLD.mod"],"disabled_dlcs":["dlc001"],"other":7}"#);
    let out = loadorder::paradox_rewrite(Some(doc), &strs(&["mod/mymod.mod"]), &strs(&["mod/old.mod", "mod/mymod.mod"]));
    assert_eq!(texts(out.field("enabled_mods")), strs(&["mod/user.mod", "mod/mymod.mod"]));
    assert_eq!(texts(out.field("disabled_dlcs")), strs(&["dlc001"]));
    assert!(matches!(out.field("other"), Some(Json::Number(n)) if n == "7"));
    // Descriptor removed on clear, structure preserved.
    let cleared = loadorder::paradox_rewrite(Some(out), &[], &strs(&["mod/mymod.mod"]));
    assert_eq!(texts(cleared.field("enabled_mods")), strs(&["mod/user.mod"]));
    assert_eq!(texts(cleared.field("disabled_dlcs")), strs(&["dlc001"]));
}

#[test]
fn a_missing_dlc_load_is_created() {
    let out = loadorder::paradox_rewrite(None, &strs(&["mod/a.mod"]), &strs(&["mod/a.mod"]));
    assert_eq!(texts(out.field("enabled_mods")), strs(&["mod/a.mod"]));
    assert!(texts(out.field("disabled_dlcs")).is_empty());
    assert_eq!(out.members().len(), 2);
    let odd = loadorder::paradox_rewrite(Some(json("[1,2]")), &[], &[]);
    assert_eq!(odd.members().len(), 2);
}

#[test]
fn smapi_names_come_from_the_manifest() {
    let doc = json(r#"{ "Name": "Lookup Anything", "UniqueID": "Pathoschild.LookupAnything" }"#);
    assert_eq!(loadorder::smapi_name(&doc), Some("Lookup Anything".to_string()));
    assert_eq!(loadorder::smapi_name(&json(r#"{"Name":"  "}"#)), None);
    assert_eq!(loadorder::smapi_name(&json(r#"{"Name":3}"#)), None);
}
