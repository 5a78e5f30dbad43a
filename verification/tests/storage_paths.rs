use stagepilot::sanitize::{project_json_path, safe_join, sanitize_id_to_filename};

#[test]
fn sanitize_project_id() {
    assert_eq!(sanitize_id_to_filename("project-1"), "project-1");
    assert_eq!(sanitize_id_to_filename("../../evil"), "_.._evil");
    assert_eq!(sanitize_id_to_filename(""), "project");
}

#[test]
fn safe_join_disallows_traversal() {
    let root = "/tmp/root";
    assert!(safe_join(root, "ok.json").is_ok());
    assert!(safe_join(root, "../bad.json").is_err());
}

#[test]
fn safe_join_joins_with_separator() {
    assert_eq!(safe_join("/base", "child.json").unwrap(), "/base/child.json");
    assert!(safe_join("/base", "/abs.json").is_err());
    assert!(safe_join("/base", "a/../b.json").is_err());
    assert!(safe_join("/base", "..").is_err());
    assert!(safe_join("/base", "a/..").is_err());
    assert_eq!(safe_join("/base", "a/b.json").unwrap(), "/base/a/b.json");
}

#[test]
fn sanitize_caps_length_and_replaces() {
    let long: String = std::iter::repeat('a').take(200).collect();
    let out = sanitize_id_to_filename(&long);
    assert_eq!(out.len(), 120);
    assert_eq!(sanitize_id_to_filename("a b/c"), "a_b_c");
    assert_eq!(sanitize_id_to_filename("..."), "project");
    assert_eq!(sanitize_id_to_filename(".hidden"), "hidden");
}

#[test]
fn project_json_path_appends_extension() {
    let p = project_json_path("/data/projects", "show 1").unwrap();
    assert_eq!(p, "/data/projects/show_1.json");
}
