use modeman::fomod::{self, FomodSession, GroupKind, PluginType};
use modeman::fomod_xml::parse_config;
use modeman::Error;

const MODULE_CONFIG: &str = r#"<?xml version="1.0" encoding="utf-8"?>
<config>
  <moduleName>Test Mod</moduleName>
  <requiredInstallFiles>
    <folder source="Core" destination="" priority="0"/>
  </requiredInstallFiles>
  <installSteps order="Explicit">
    <installStep name="Main">
      <optionalFileGroups order="Explicit">
        <group name="Texture Resolution" type="SelectExactlyOne">
          <plugins order="Explicit">
            <plugin name="1K">
              <description>low res</description>
              <files><folder source="Optional\1K" destination="textures"/></files>
              <typeDescriptor><type name="Recommended"/></typeDescriptor>
            </plugin>
            <plugin name="2K">
              <description>high res</description>
              <files><folder source="Optional\2K" destination="textures"/></files>
              <typeDescriptor><type name="Optional"/></typeDescriptor>
            </plugin>
          </plugins>
        </group>
      </optionalFileGroups>
    </installStep>
  </installSteps>
</config>
"#;

#[test]
fn fomod_wizard_plan_selects_option() {
    let session = FomodSession::load(MODULE_CONFIG, "/staging/x".to_string()).unwrap();
    let config = &session.config;
    assert_eq!(config.module_name, "Test Mod");
    assert_eq!(config.steps.len(), 1);
    assert_eq!(config.steps[0].groups[0].plugins.len(), 2);
    assert_eq!(config.steps[0].groups[0].kind, GroupKind::ExactlyOne);

    // Default picks 1K (Recommended); override to choose 2K.
    let mut sel = config.default_selections();
    assert_eq!(sel, vec![vec![vec![true, false]]]);
    sel[0][0] = vec![false, true];

    let plan = session.install_plan(&sel, &[]).unwrap();
    assert_eq!(plan.len(), 2);
    assert_eq!(plan[0].source, "Core");
    assert_eq!(plan[0].destination, "");
    assert!(plan[0].is_folder);
    assert_eq!(plan[1].source, "Optional\\2K");
    assert_eq!(plan[1].destination, "textures");
}

#[test]
fn plugin_type_pattern_evaluates_flags() {
    let xml = r#"<?xml version="1.0"?>
    <config>
      <moduleName>T</moduleName>
      <installSteps order="Explicit">
        <installStep name="S">
          <optionalFileGroups order="Explicit">
            <group name="G" type="SelectAny">
              <plugins order="Explicit">
                <plugin name="Patch">
                  <description>compat patch</description>
                  <files/>
                  <typeDescriptor>
                    <dependencyType>
                      <defaultType name="NotUsable"/>
                      <patterns>
                        <pattern>
                          <dependencies operator="And">
                            <flagDependency flag="hasBase" value="On"/>
                          </dependencies>
                          <type name="Recommended"/>
                        </pattern>
                      </patterns>
                    </dependencyType>
                  </typeDescriptor>
                </plugin>
              </plugins>
            </group>
          </optionalFileGroups>
        </installStep>
      </installSteps>
    </config>"#;
    let config = parse_config(xml).unwrap();
    let plugin = &config.steps[0].groups[0].plugins[0];

    // No flags → default NotUsable.
    assert_eq!(plugin.effective_type(&[], &[]), PluginType::NotUsable);
    // Flag set → pattern matches → Recommended.
    let flags = vec![("hasBase".to_string(), "On".to_string())];
    assert_eq!(plugin.effective_type(&flags, &[]), PluginType::Recommended);
}

#[test]
fn not_xml_is_refused() {
    match parse_config("this is not xml <") {
        Err(Error::Other(m)) => assert!(m.starts_with("fomod xml: ")),
        other => panic!("unexpected: {other:?}"),
    }
}

#[test]
fn exactly_one_group_needs_a_choice() {
    let config = parse_config(MODULE_CONFIG).unwrap();
    let none = vec![vec![vec![false, false]]];
    assert!(config.validate(&none).is_err());
    assert!(config.install_plan(&none, &[]).is_err());
    let both = vec![vec![vec![true, true]]];
    assert!(config.validate(&both).is_err());
    let one = vec![vec![vec![false, true]]];
    assert!(config.validate(&one).is_ok());
}

#[test]
fn default_selections_validate() {
    let config = parse_config(MODULE_CONFIG).unwrap();
    let sel = config.default_selections();
    assert!(config.validate(&sel).is_ok());
}

#[test]
fn radio_groups_keep_one_choice() {
    let mut sel = vec![true, false, false];
    fomod::toggle_choice(GroupKind::ExactlyOne, &mut sel, 2, true);
    assert_eq!(sel, vec![false, false, true]);
    let mut sel = vec![true, false];
    fomod::toggle_choice(GroupKind::Any, &mut sel, 1, true);
    assert_eq!(sel, vec![true, true]);
    fomod::toggle_choice(GroupKind::Any, &mut sel, 0, false);
    assert_eq!(sel, vec![false, true]);
}

#[test]
fn wizard_steps_stay_in_range() {
    assert_eq!(fomod::next_step(0, -1, 3), 0);
    assert_eq!(fomod::next_step(1, 1, 3), 2);
    assert_eq!(fomod::next_step(2, 1, 3), 2);
    assert_eq!(fomod::next_step(0, 1, 0), 0);
}

#[test]
fn type_and_kind_names() {
    assert_eq!(fomod::type_from_name("Required"), PluginType::Required);
    assert_eq!(fomod::type_from_name("CouldBeUsable"), PluginType::CouldBeUsable);
    assert_eq!(fomod::type_from_name("whatever"), PluginType::Optional);
    assert_eq!(fomod::kind_from_name("SelectAtLeastOne"), GroupKind::AtLeastOne);
    assert_eq!(fomod::kind_from_name("SelectAll"), GroupKind::All);
    assert_eq!(fomod::plugin_type_str(PluginType::NotUsable), "not usable");
}

#[test]
fn relative_paths_are_cleaned() {
    assert_eq!(fomod::normalize_rel("Optional\\2K\\"), "Optional/2K");
    assert_eq!(fomod::normalize_rel("./a//b"), "a/b");
}

#[test]
fn checking_in_an_all_group_selects_everything() {
    let mut sel = vec![false, false, true];
    fomod::toggle_choice(GroupKind::All, &mut sel, 0, true);
    assert_eq!(sel, vec![true, true, true]);
    let mut sel = vec![false, true];
    fomod::toggle_choice(GroupKind::AtMostOne, &mut sel, 1, false);
    assert_eq!(sel, vec![false, false]);
    let mut sel = vec![true, false];
    fomod::toggle_choice(GroupKind::ExactlyOne, &mut sel, 0, false);
    assert_eq!(sel, vec![true, false]);
}

#[test]
fn wizard_toggle_follows_the_group_kind() {
    let config = parse_config(MODULE_CONFIG).unwrap();
    let mut sel = config.default_selections();
    fomod::wizard_toggle(&config, &mut sel, 0, 0, 1, true);
    assert_eq!(sel, vec![vec![vec![false, true]]]);
    // Unchecking a radio choice does nothing.
    fomod::wizard_toggle(&config, &mut sel, 0, 0, 1, false);
    assert_eq!(sel, vec![vec![vec![false, true]]]);
    // No such page or group.
    fomod::wizard_toggle(&config, &mut sel, 3, 0, 0, true);
    fomod::wizard_toggle(&config, &mut sel, 0, 7, 0, true);
    assert_eq!(sel, vec![vec![vec![false, true]]]);
    assert!(config.validate(&sel).is_ok());
}

#[test]
fn install_plan_follows_priority() {
    let xml = r#"<config><moduleName>P</moduleName>
      <requiredInstallFiles>
        <file source="late.esp" priority="5"/>
        <file source="early.esp" priority="-1"/>
        <folder source="mid" priority="2"/>
        <file source="also-early.esp" priority="-1"/>
      </requiredInstallFiles></config>"#;
    let config = parse_config(xml).unwrap();
    let plan = config.install_plan(&vec![], &[]).unwrap();
    let order: Vec<&str> = plan.iter().map(|i| i.source.as_str()).collect();
    assert_eq!(order, vec!["early.esp", "also-early.esp", "mid", "late.esp"]);
}

#[test]
fn defaults_are_clamped_to_each_group() {
    let xml = r#"<config><moduleName>D</moduleName><installSteps><installStep name="S"><optionalFileGroups>
      <group name="One" type="SelectExactlyOne"><plugins>
        <plugin name="a"><description/><typeDescriptor><type name="Required"/></typeDescriptor></plugin>
        <plugin name="b"><description/><typeDescriptor><type name="Required"/></typeDescriptor></plugin>
      </plugins></group>
      <group name="Most" type="SelectAtMostOne"><plugins>
        <plugin name="c"><description/><typeDescriptor><type name="Optional"/></typeDescriptor></plugin>
        <plugin name="d"><description/><typeDescriptor><type name="Recommended"/></typeDescriptor></plugin>
        <plugin name="e"><description/><typeDescriptor><type name="Recommended"/></typeDescriptor></plugin>
      </plugins></group>
    </optionalFileGroups></installStep></installSteps></config>"#;
    let config = parse_config(xml).unwrap();
    let sel = config.default_selections();
    assert_eq!(sel, vec![vec![vec![true, false], vec![false, true, false]]]);
    assert!(config.validate(&sel).is_ok());
}

#[test]
fn the_last_choice_of_an_at_least_one_group_stays() {
    let mut sel = vec![false, true, false];
    fomod::toggle_choice(GroupKind::AtLeastOne, &mut sel, 1, false);
    assert_eq!(sel, vec![false, true, false]);
    fomod::toggle_choice(GroupKind::AtLeastOne, &mut sel, 0, true);
    fomod::toggle_choice(GroupKind::AtLeastOne, &mut sel, 1, false);
    assert_eq!(sel, vec![true, false, false]);
    // A plugin the group does not have changes nothing.
    fomod::toggle_choice(GroupKind::ExactlyOne, &mut sel, 9, true);
    assert_eq!(sel, vec![true, false, false]);
}

#[test]
fn a_refused_plan_reports_the_validation_error() {
    let config = parse_config(MODULE_CONFIG).unwrap();
    let none = vec![vec![vec![false, false]]];
    let v = config.validate(&none).unwrap_err().message();
    let p = config.install_plan(&none, &[]).unwrap_err().message();
    assert_eq!(v, p);
    assert_eq!(p, "group 'Texture Resolution' needs ExactlyOne, got 0 selected");
}
