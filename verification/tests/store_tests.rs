use stagepilot::kv::StrMap;
use stagepilot::store::{
    delete_project, delete_project_permanently, read_project, reserve_project_file_name,
    resolve_project_path_by_id, save_project,
};

fn entry(name: &str, data: &str) -> (String, String) {
    (name.to_string(), data.to_string())
}

fn empty_map() -> StrMap {
    StrMap { entries: Vec::new() }
}

#[test]
fn reserve_file_name_is_deterministic() {
    let dir = empty_map();
    assert_eq!(reserve_project_file_name(&dir, "show"), "show.json");
    let dir = StrMap { entries: vec![entry("show.json", "{}")] };
    assert_eq!(reserve_project_file_name(&dir, "show"), "show__2.json");
    let dir = StrMap { entries: vec![entry("show.json", "{}"), entry("show__2.json", "{}")] };
    assert_eq!(reserve_project_file_name(&dir, "show"), "show__3.json");
}

#[test]
fn reserve_fills_the_first_gap() {
    let dir = StrMap { entries: vec![entry("show__2.json", "{}")] };
    assert_eq!(reserve_project_file_name(&dir, "show"), "show.json");
    let dir = StrMap {
        entries: vec![entry("show.json", "{}"), entry("show__3.json", "{}")],
    };
    assert_eq!(reserve_project_file_name(&dir, "show"), "show__2.json");
}

#[test]
fn save_then_read_returns_identical_text() {
    let mut dir = empty_map();
    let mut index = empty_map();
    let json = "{\"id\":\"p1\",\"slug\":\"show\",\"extra\":[1,2,3]}";
    save_project(&mut dir, &mut index, "p1", json, None).unwrap();
    let back = read_project(&dir, &mut index, "p1").unwrap();
    assert_eq!(back, json);
}

#[test]
fn rename_via_slug_removes_old_file() {
    let mut dir = empty_map();
    let mut index = empty_map();
    let first = "{\"id\":\"p1\",\"slug\":\"alpha\"}";
    save_project(&mut dir, &mut index, "p1", first, None).unwrap();
    assert!(dir.get("alpha.json").is_some());
    let second = "{\"id\":\"p1\",\"slug\":\"beta\"}";
    save_project(&mut dir, &mut index, "p1", second, None).unwrap();
    assert!(dir.get("alpha.json").is_none());
    assert_eq!(dir.get("beta.json").unwrap(), second);
    let back = read_project(&dir, &mut index, "p1").unwrap();
    assert_eq!(back, second);
    assert_eq!(dir.len(), 1);
}

#[test]
fn save_requires_slug() {
    let mut dir = empty_map();
    let mut index = empty_map();
    let err = save_project(&mut dir, &mut index, "p1", "{\"id\":\"p1\"}", None).unwrap_err();
    assert_eq!(err.code, "PROJECT_SAVE_FAILED");
    let err = save_project(&mut dir, &mut index, "p1", "not json", None).unwrap_err();
    assert_eq!(err.code, "PROJECT_SAVE_FAILED");
}

#[test]
fn save_rejects_empty_slug() {
    let mut dir = empty_map();
    let mut index = empty_map();
    let err =
        save_project(&mut dir, &mut index, "p1", "{\"id\":\"p1\",\"slug\":\"\"}", None).unwrap_err();
    assert_eq!(err.code, "PROJECT_SAVE_FAILED");
    assert_eq!(dir.len(), 0);
    assert_eq!(index.len(), 0);
}

#[test]
fn not_found_errors_name_the_project() {
    let dir = empty_map();
    let mut index = empty_map();
    let err = read_project(&dir, &mut index, "ghost-1").unwrap_err();
    assert_eq!(err.code, "PROJECT_READ_FAILED");
    assert_eq!(err.message, "Project not found: ghost-1");

    let mut dir = empty_map();
    let err = delete_project_permanently(&mut dir, &mut index, "ghost-2").unwrap_err();
    assert_eq!(err.code, "PROJECT_DELETE_FAILED");
    assert_eq!(err.message, "Project not found: ghost-2");
}

#[test]
fn save_keeps_collision_suffixed_file() {
    let mut dir = StrMap {
        entries: vec![
            entry("show.json", "{\"id\":\"other\",\"slug\":\"show\"}"),
            entry("show__2.json", "{\"id\":\"p1\",\"slug\":\"show\"}"),
        ],
    };
    let mut index = empty_map();
    let updated = "{\"id\":\"p1\",\"slug\":\"show\",\"v\":2}";
    save_project(&mut dir, &mut index, "p1", updated, None).unwrap();
    assert_eq!(dir.get("show__2.json").unwrap(), updated);
    assert_eq!(dir.len(), 2);
}

#[test]
fn save_with_legacy_id_removes_legacy_file() {
    let mut dir = StrMap {
        entries: vec![entry("old.json", "{\"id\":\"legacy\",\"slug\":\"old\"}")],
    };
    let mut index = empty_map();
    let json = "{\"id\":\"p1\",\"slug\":\"fresh\"}";
    save_project(&mut dir, &mut index, "p1", json, Some("legacy")).unwrap();
    assert!(dir.get("old.json").is_none());
    assert_eq!(dir.get("fresh.json").unwrap(), json);
}

#[test]
fn resolve_falls_back_to_scan_and_repairs_index() {
    let dir = StrMap {
        entries: vec![
            entry("a.json", "{\"id\":\"x\"}"),
            entry("b.json", "{\"id\":\"y\"}"),
        ],
    };
    let mut index = empty_map();
    let found = resolve_project_path_by_id(&dir, &mut index, "y").unwrap();
    assert_eq!(found.unwrap(), "b.json");
    assert_eq!(index.get("y").unwrap(), "b.json");
    let missing = resolve_project_path_by_id(&dir, &mut index, "zzz").unwrap();
    assert!(missing.is_none());
}

#[test]
fn resolve_reports_invalid_json() {
    let dir = StrMap { entries: vec![entry("bad.json", "not json")] };
    let mut index = empty_map();
    let err = resolve_project_path_by_id(&dir, &mut index, "x").unwrap_err();
    assert_eq!(err.code, "PROJECT_READ_FAILED");
}

#[test]
fn delete_removes_file_and_index_entry() {
    let mut dir = StrMap {
        entries: vec![entry("show.json", "{\"id\":\"p1\",\"slug\":\"show\"}")],
    };
    let mut index = empty_map();
    let text = delete_project_permanently(&mut dir, &mut index, "p1").unwrap();
    assert_eq!(text, "{\"id\":\"p1\",\"slug\":\"show\"}");
    assert_eq!(dir.len(), 0);
    assert!(index.get("p1").is_none());
    let err = delete_project(&mut dir, &mut index, "p1").unwrap_err();
    assert_eq!(err.code, "PROJECT_DELETE_FAILED");
}
