use stagepilot::json::JVal;
use stagepilot::kv::StrMap;
use stagepilot::resolver::{
    get_band_setup_data, infer_monitoring_default_from_ref, normalize_default_lineup_keys,
    MonitorMode, MonitorType, RoleFiles,
};

fn entry(name: &str, data: &str) -> (String, String) {
    (name.to_string(), data.to_string())
}

fn role_dirs(musicians: Vec<(&str, Vec<(&str, &str)>)>) -> Vec<RoleFiles> {
    let mut out = Vec::new();
    for (role, files) in musicians {
        let mut entries = Vec::new();
        for (name, data) in files {
            entries.push(entry(name, data));
        }
        out.push(RoleFiles { role: role.to_string(), files: StrMap { entries } });
    }
    out
}

fn empty_roles() -> Vec<RoleFiles> {
    role_dirs(vec![
        ("drums", vec![]),
        ("bass", vec![]),
        ("guitar", vec![]),
        ("keys", vec![]),
        ("vocs", vec![]),
        ("talkback", vec![]),
    ])
}

#[test]
fn infer_monitoring_classifies_references() {
    let wireless = infer_monitoring_default_from_ref("Shure PSM wireless stereo");
    assert_eq!(wireless.monitor_type, MonitorType::IemWireless);
    assert_eq!(wireless.mode, MonitorMode::Stereo);
    assert_eq!(wireless.mix_count, 2);

    let wedge = infer_monitoring_default_from_ref("wedge-1");
    assert_eq!(wedge.monitor_type, MonitorType::Wedge);
    assert_eq!(wedge.mode, MonitorMode::Mono);
    assert_eq!(wedge.mix_count, 1);

    let wired = infer_monitoring_default_from_ref("  IEM rack MONO ");
    assert_eq!(wired.monitor_type, MonitorType::IemWired);
    assert_eq!(wired.mode, MonitorMode::Mono);
    assert_eq!(wired.mix_count, 2);
}

fn obj_keys(v: &JVal) -> Vec<String> {
    match v {
        JVal::Obj(entries) => entries.iter().map(|e| e.0.clone()).collect(),
        _ => Vec::new(),
    }
}

fn obj_get<'a>(v: &'a JVal, key: &str) -> Option<&'a JVal> {
    match v {
        JVal::Obj(entries) => entries.iter().find(|e| e.0 == key).map(|e| &e.1),
        _ => None,
    }
}

fn str_entry(key: &str, value: &str) -> (String, JVal) {
    (key.to_string(), JVal::Str(value.to_string()))
}

#[test]
fn lineup_normalization_collapses_legacy_keys() {
    let lineup = JVal::Obj(vec![
        str_entry("drums", "m1"),
        str_entry("lead_vocs", "m2"),
        str_entry("vocs", "m3"),
    ]);
    let out = normalize_default_lineup_keys(Some(lineup)).unwrap();
    let keys = obj_keys(&out);
    assert_eq!(keys, vec!["drums".to_string(), "vocs".to_string()]);
    match obj_get(&out, "vocs").unwrap() {
        JVal::Str(s) => assert_eq!(s, "m2"),
        _ => panic!("vocs should be a string"),
    }
    let again = normalize_default_lineup_keys(Some(out));
    let keys = obj_keys(again.as_ref().unwrap());
    assert_eq!(keys, vec!["drums".to_string(), "vocs".to_string()]);

    let single = JVal::Obj(vec![str_entry("lead_voc", "m9")]);
    let out = normalize_default_lineup_keys(Some(single)).unwrap();
    assert_eq!(obj_keys(&out), vec!["vocs".to_string()]);

    assert!(normalize_default_lineup_keys(None).is_none());
}

#[test]
fn restriction_to_one_drummer_empties_other_roles() {
    let mut bands = StrMap { entries: Vec::new() };
    bands.entries.push(entry(
        "band.json",
        "{\"id\":\"b1\",\"name\":\"Alpha\",\"code\":\"AL\",\"members\":[{\"musicianId\":\"m1\",\"roles\":[\"drums\"]}]}",
    ));
    let roles = role_dirs(vec![
        ("drums", vec![
            ("m1.json", "{\"id\":\"m1\",\"firstName\":\"Zoe\",\"lastName\":\"Berg\"}"),
            ("m2.json", "{\"id\":\"m2\",\"firstName\":\"Al\",\"lastName\":\"Adams\"}"),
        ]),
        ("bass", vec![("m3.json", "{\"id\":\"m3\",\"firstName\":\"Bo\",\"lastName\":\"Low\"}")]),
        ("guitar", vec![]),
        ("keys", vec![]),
        ("vocs", vec![]),
        ("talkback", vec![]),
    ]);
    let setup = get_band_setup_data(&bands, &roles, "b1").unwrap();
    for rm in &setup.members {
        if rm.role == "drums" {
            assert_eq!(rm.members.len(), 1);
            assert_eq!(rm.members[0].id, "m1");
            assert_eq!(rm.members[0].name, "Berg Zoe");
        } else {
            assert!(rm.members.is_empty(), "role {} should be empty", rm.role);
        }
    }
}

#[test]
fn empty_restriction_keeps_global_roster() {
    let mut bands = StrMap { entries: Vec::new() };
    bands.entries.push(entry(
        "band.json",
        "{\"id\":\"b1\",\"name\":\"Alpha\",\"code\":\"AL\",\"members\":[]}",
    ));
    let roles = role_dirs(vec![
        ("drums", vec![
            ("m1.json", "{\"id\":\"m1\",\"firstName\":\"Zoe\",\"lastName\":\"Berg\"}"),
            ("m2.json", "{\"id\":\"m2\",\"firstName\":\"Al\",\"lastName\":\"Adams\"}"),
        ]),
        ("bass", vec![]),
        ("guitar", vec![]),
        ("keys", vec![]),
        ("vocs", vec![]),
        ("talkback", vec![]),
    ]);
    let setup = get_band_setup_data(&bands, &roles, "b1").unwrap();
    let drums = setup.members.iter().find(|rm| rm.role == "drums").unwrap();
    assert_eq!(drums.members.len(), 2);
    assert_eq!(drums.members[0].name, "Adams Al");
    assert_eq!(drums.members[1].name, "Berg Zoe");
}

#[test]
fn missing_lineup_reference_yields_one_warning() {
    let mut bands = StrMap { entries: Vec::new() };
    bands.entries.push(entry(
        "band.json",
        "{\"id\":\"b1\",\"name\":\"Alpha\",\"code\":\"AL\",\"defaultLineup\":{\"drums\":\"ghost\",\"bass\":[\"m3\",\"phantom\"]}}",
    ));
    let roles = role_dirs(vec![
        ("drums", vec![]),
        ("bass", vec![("m3.json", "{\"id\":\"m3\",\"firstName\":\"Bo\",\"lastName\":\"Low\"}")]),
        ("guitar", vec![]),
        ("keys", vec![]),
        ("vocs", vec![]),
        ("talkback", vec![]),
    ]);
    let setup = get_band_setup_data(&bands, &roles, "b1").unwrap();
    assert_eq!(setup.load_warnings.len(), 2);
    assert_eq!(
        setup.load_warnings[0],
        "Band 'b1' defaultLineup role 'bass' references missing musician 'phantom'"
    );
    assert_eq!(
        setup.load_warnings[1],
        "Band 'b1' defaultLineup role 'drums' references missing musician 'ghost'"
    );
}

#[test]
fn band_lookup_matches_code_case_insensitively() {
    let mut bands = StrMap { entries: Vec::new() };
    bands.entries.push(entry(
        "band.json",
        "{\"id\":\"b1\",\"name\":\"Alpha\",\"code\":\"AL\"}",
    ));
    let setup = get_band_setup_data(&bands, &empty_roles(), "al").unwrap();
    assert_eq!(setup.id, "b1");
    assert_eq!(setup.name, "Alpha");

    let err = get_band_setup_data(&bands, &empty_roles(), " nope ").unwrap_err();
    assert_eq!(err.code, "BAND_NOT_FOUND");
    assert_eq!(err.message, "Band not found for reference 'nope' (checked id and code)");
}

#[test]
fn constraints_decode_or_fail() {
    let mut bands = StrMap { entries: Vec::new() };
    bands.entries.push(entry(
        "band.json",
        "{\"id\":\"b1\",\"name\":\"Alpha\",\"code\":\"AL\",\"constraints\":{\"drums\":{\"min\":1,\"max\":2}}}",
    ));
    let setup = get_band_setup_data(&bands, &empty_roles(), "b1").unwrap();
    assert_eq!(setup.constraints.len(), 1);
    assert_eq!(setup.constraints[0].0, "drums");
    assert_eq!(setup.constraints[0].1.min, 1);
    assert_eq!(setup.constraints[0].1.max, 2);

    let mut bands = StrMap { entries: Vec::new() };
    bands.entries.push(entry(
        "band.json",
        "{\"id\":\"b1\",\"name\":\"Alpha\",\"code\":\"AL\",\"constraints\":{\"drums\":{\"min\":1}}}",
    ));
    let err = get_band_setup_data(&bands, &empty_roles(), "b1").unwrap_err();
    assert_eq!(err.code, "BAND_SETUP_LOAD_FAILED");
    assert_eq!(err.message, "Invalid constraints for band b1");
}

#[test]
fn restriction_ignores_unknown_roles_and_dedups() {
    let mut bands = StrMap { entries: Vec::new() };
    bands.entries.push(entry(
        "band.json",
        "{\"id\":\"b1\",\"name\":\"Alpha\",\"code\":\"AL\",\"members\":[{\"musicianId\":\"m1\",\"roles\":[\"drums\",\"kazoo\",\"drums\"]},{\"musicianId\":\"ghost\",\"roles\":[\"drums\"]}]}",
    ));
    let roles = role_dirs(vec![
        ("drums", vec![("m1.json", "{\"id\":\"m1\",\"firstName\":\"Zoe\",\"lastName\":\"Berg\"}")]),
        ("bass", vec![]),
        ("guitar", vec![]),
        ("keys", vec![]),
        ("vocs", vec![]),
        ("talkback", vec![]),
    ]);
    let setup = get_band_setup_data(&bands, &roles, "b1").unwrap();
    let drums = setup.members.iter().find(|rm| rm.role == "drums").unwrap();
    assert_eq!(drums.members.len(), 1);
    assert_eq!(drums.members[0].id, "m1");
}

#[test]
fn member_without_roles_uses_default_role() {
    let mut bands = StrMap { entries: Vec::new() };
    bands.entries.push(entry(
        "band.json",
        "{\"id\":\"b1\",\"name\":\"Alpha\",\"code\":\"AL\",\"members\":[{\"musicianId\":\"m3\"}]}",
    ));
    let roles = role_dirs(vec![
        ("drums", vec![]),
        ("bass", vec![("m3.json", "{\"id\":\"m3\",\"firstName\":\"Bo\",\"lastName\":\"Low\"}")]),
        ("guitar", vec![]),
        ("keys", vec![]),
        ("vocs", vec![]),
        ("talkback", vec![]),
    ]);
    let setup = get_band_setup_data(&bands, &roles, "b1").unwrap();
    let bass = setup.members.iter().find(|rm| rm.role == "bass").unwrap();
    assert_eq!(bass.members.len(), 1);
    assert_eq!(bass.members[0].id, "m3");
}

#[test]
fn exact_id_wins_before_code() {
    let mut bands = StrMap { entries: Vec::new() };
    bands.entries.push(entry(
        "one.json",
        "{\"id\":\"AL\",\"name\":\"ById\",\"code\":\"ZZ\"}",
    ));
    bands.entries.push(entry(
        "two.json",
        "{\"id\":\"b2\",\"name\":\"ByCode\",\"code\":\"AL\"}",
    ));
    let setup = get_band_setup_data(&bands, &empty_roles(), "AL").unwrap();
    assert_eq!(setup.name, "ById");
}

#[test]
fn global_roster_is_deduplicated_by_id() {
    let mut bands = StrMap { entries: Vec::new() };
    bands.entries.push(entry(
        "band.json",
        "{\"id\":\"b1\",\"name\":\"Alpha\",\"code\":\"AL\"}",
    ));
    let roles = role_dirs(vec![
        ("drums", vec![
            ("m1a.json", "{\"id\":\"m1\",\"firstName\":\"Zoe\",\"lastName\":\"Berg\"}"),
            ("m1b.json", "{\"id\":\"m1\",\"firstName\":\"Zoe\",\"lastName\":\"Berg\"}"),
        ]),
        ("bass", vec![]),
        ("guitar", vec![]),
        ("keys", vec![]),
        ("vocs", vec![]),
        ("talkback", vec![]),
    ]);
    let setup = get_band_setup_data(&bands, &roles, "b1").unwrap();
    let drums = setup.members.iter().find(|rm| rm.role == "drums").unwrap();
    assert_eq!(drums.members.len(), 1);
    assert_eq!(drums.members[0].id, "m1");
}

#[test]
fn monitoring_defaults_come_from_presets() {
    let mut bands = StrMap { entries: Vec::new() };
    bands.entries.push(entry(
        "band.json",
        "{\"id\":\"b1\",\"name\":\"Alpha\",\"code\":\"AL\"}",
    ));
    let roles = role_dirs(vec![
        ("drums", vec![(
            "m1.json",
            "{\"id\":\"m1\",\"firstName\":\"Zoe\",\"lastName\":\"Berg\",\"presets\":[{\"kind\":\"other\",\"ref\":\"x\"},{\"kind\":\"monitor\",\"ref\":\"wireless stereo rig\"}]}",
        )]),
        ("bass", vec![]),
        ("guitar", vec![]),
        ("keys", vec![]),
        ("vocs", vec![]),
        ("talkback", vec![]),
    ]);
    let setup = get_band_setup_data(&bands, &roles, "b1").unwrap();
    assert_eq!(setup.musician_defaults.len(), 1);
    assert_eq!(setup.musician_defaults[0].0, "m1");
    assert_eq!(setup.musician_defaults[0].1.monitor_type, MonitorType::IemWireless);
    assert_eq!(setup.musician_defaults[0].1.mode, MonitorMode::Stereo);
}
