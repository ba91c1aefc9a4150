use modeman::plugins::{self, masters_of, sort_by_masters};

fn field16(tag: &[u8; 4], data: &[u8]) -> Vec<u8> {
    let mut v = tag.to_vec();
    v.extend_from_slice(&(data.len() as u16).to_le_bytes());
    v.extend_from_slice(data);
    v
}

fn field32(tag: &[u8; 4], data: &[u8]) -> Vec<u8> {
    let mut v = tag.to_vec();
    v.extend_from_slice(&(data.len() as u32).to_le_bytes());
    v.extend_from_slice(data);
    v
}

/// Modern TES4 plugin (Skyrim/FO4): 24-byte record header.
fn tes4_modern(masters: &[&str]) -> Vec<u8> {
    let mut fields = field16(b"HEDR", &[0u8; 12]);
    for m in masters {
        let mut z = m.as_bytes().to_vec();
        z.push(0);
        fields.extend(field16(b"MAST", &z));
        fields.extend(field16(b"DATA", &[0u8; 8]));
    }
    let mut v = b"TES4".to_vec();
    v.extend_from_slice(&(fields.len() as u32).to_le_bytes());
    v.extend_from_slice(&[0u8; 12]);
    v.extend_from_slice(&44u16.to_le_bytes());
    v.extend_from_slice(&0u16.to_le_bytes());
    v.extend(fields);
    v
}

/// Oblivion-era TES4 plugin: 20-byte record header.
fn tes4_oblivion(masters: &[&str]) -> Vec<u8> {
    let mut fields = field16(b"HEDR", &[0u8; 12]);
    for m in masters {
        let mut z = m.as_bytes().to_vec();
        z.push(0);
        fields.extend(field16(b"MAST", &z));
        fields.extend(field16(b"DATA", &[0u8; 8]));
    }
    let mut v = b"TES4".to_vec();
    v.extend_from_slice(&(fields.len() as u32).to_le_bytes());
    v.extend_from_slice(&[0u8; 12]);
    v.extend(fields);
    v
}

/// Morrowind TES3 plugin: 16-byte record header, u32 field sizes.
fn tes3(masters: &[&str]) -> Vec<u8> {
    let mut fields = field32(b"HEDR", &[0u8; 300]);
    for m in masters {
        let mut z = m.as_bytes().to_vec();
        z.push(0);
        fields.extend(field32(b"MAST", &z));
        fields.extend(field32(b"DATA", &[0u8; 8]));
    }
    let mut v = b"TES3".to_vec();
    v.extend_from_slice(&(fields.len() as u32).to_le_bytes());
    v.extend_from_slice(&[0u8; 8]);
    v.extend(fields);
    v
}

#[test]
fn parses_masters_modern() {
    assert_eq!(masters_of(&tes4_modern(&["Skyrim.esm", "Update.esm"])), vec!["Skyrim.esm", "Update.esm"]);
}

#[test]
fn parses_masters_oblivion_header() {
    assert_eq!(masters_of(&tes4_oblivion(&["Oblivion.esm"])), vec!["Oblivion.esm"]);
}

#[test]
fn parses_masters_tes3() {
    assert_eq!(masters_of(&tes3(&["Morrowind.esm", "Tribunal.esm"])), vec!["Morrowind.esm", "Tribunal.esm"]);
}

#[test]
fn garbage_yields_no_masters() {
    assert!(masters_of(b"not a plugin at all").is_empty());
}

#[test]
fn sorts_dependents_after_masters() {
    // c.esp depends on b.esp which depends on a.esm; user order is wrong.
    let order: Vec<String> = ["c.esp", "b.esp", "a.esm", "x.esp"]
        .iter()
        .map(|s| s.to_string())
        .collect();
    let masters = vec![
        ("c.esp".to_string(), vec!["b.esp".to_string()]),
        ("b.esp".to_string(), vec!["a.esm".to_string()]),
        // x.esp depends on something outside the managed set — ignored.
        ("x.esp".to_string(), vec!["skyrim.esm".to_string()]),
    ];
    let sorted = sort_by_masters(&order, &masters);
    assert_eq!(sorted, vec!["a.esm", "b.esp", "c.esp", "x.esp"]);
}

#[test]
fn sort_is_stable_without_deps() {
    let order: Vec<String> = ["z.esp", "m.esp", "a.esp"]
        .iter()
        .map(|s| s.to_string())
        .collect();
    let sorted = sort_by_masters(&order, &[]);
    assert_eq!(sorted, order, "no deps → order untouched");
}

#[test]
fn sort_survives_cycles() {
    let order: Vec<String> = ["a.esp", "b.esp"].iter().map(|s| s.to_string()).collect();
    let masters = vec![
        ("a.esp".to_string(), vec!["b.esp".to_string()]),
        ("b.esp".to_string(), vec!["a.esp".to_string()]),
    ];
    let sorted = sort_by_masters(&order, &masters);
    assert_eq!(sorted.len(), 2, "cycle broken, nothing dropped");
}

#[test]
fn plugins_txt_rewrite_then_clear_keeps_base_masters() {
    let existing = "# This file is used by Skyrim to keep track of your downloaded content.\n*Skyrim.esm\n*Old.esp\n";
    let managed = vec!["CoolMod.esp".to_string(), "old.esp".to_string()];
    let active = vec!["CoolMod.esp".to_string()];
    let deployed = plugins::plugins_txt_contents(existing, &active, &managed);
    assert_eq!(
        deployed,
        "# This file is used by Skyrim to keep track of your downloaded content.\n*Skyrim.esm\n*CoolMod.esp\n"
    );
    let cleared = plugins::clear_plugins_txt(&deployed, &managed);
    assert_eq!(cleared, "# This file is used by Skyrim to keep track of your downloaded content.\n*Skyrim.esm\n");
    assert_eq!(cleared, plugins::clear_plugins_txt(existing, &managed));
    assert_eq!(plugins::clear_plugins_txt("", &managed), "\n");
}
