use stagepilot::errors::{api_error, map_io_error, StorageError};
use stagepilot::export::{
    clarify_sharing_violation, default_export_pdf_path, export_artifacts_to_remove,
    interpret_export_output, interpret_preview_output, new_storage_meta, now_iso,
    parse_storage_meta, preview_pdf_name, storage_meta_path,
};
use stagepilot::kv::StrMap;
use stagepilot::listing::{list_bands, list_projects};

fn entry(name: &str, data: &str) -> (String, String) {
    (name.to_string(), data.to_string())
}

#[test]
fn list_projects_sorts_by_effective_update_descending() {
    let dir = StrMap {
        entries: vec![
            entry("a.json", "{\"id\":\"a\",\"slug\":\"a\",\"updatedAt\":\"2024-01-01T10:00:00Z\"}"),
            entry("b.json", "{\"id\":\"b\",\"slug\":\"b\",\"eventDate\":\"2024-06-01\"}"),
            entry("c.json", "{\"id\":\"c\",\"slug\":\"c\"}"),
            entry("notes.txt", "ignored"),
        ],
    };
    let mut index = StrMap { entries: Vec::new() };
    let list = list_projects(&dir, &mut index).unwrap();
    let ids: Vec<&str> = list.iter().map(|s| s.id.as_str()).collect();
    assert_eq!(ids, vec!["b", "a", "c"]);
    assert_eq!(list[0].updated_at.as_deref(), Some("2024-06-01T00:00:00Z"));
    assert_eq!(index.get("a").unwrap(), "a.json");

    let bad = StrMap { entries: vec![entry("x.json", "nope")] };
    let mut index = StrMap { entries: Vec::new() };
    let err = list_projects(&bad, &mut index).unwrap_err();
    assert_eq!(err.code, "PROJECT_LIST_FAILED");
}

#[test]
fn list_projects_falls_back_to_file_stem_for_id() {
    let dir = StrMap { entries: vec![entry("mystery.json", "{\"slug\":\"m\"}")] };
    let mut index = StrMap { entries: Vec::new() };
    let list = list_projects(&dir, &mut index).unwrap();
    assert_eq!(list[0].id, "mystery");
}

#[test]
fn list_bands_skips_incomplete_and_sorts() {
    let dir = StrMap {
        entries: vec![
            entry("one.json", "{\"id\":\"b1\",\"name\":\"zeta\",\"code\":\"Z\"}"),
            entry("two.json", "{\"id\":\"b2\",\"name\":\"Alpha\"}"),
            entry("three.json", "{\"id\":\"\",\"name\":\"ignored\"}"),
            entry("four.json", "{\"name\":\"no id\"}"),
        ],
    };
    let list = list_bands(&dir).unwrap();
    let names: Vec<&str> = list.iter().map(|b| b.name.as_str()).collect();
    assert_eq!(names, vec!["Alpha", "zeta"]);
    assert_eq!(list[0].code, None);
    assert_eq!(list[1].code.as_deref(), Some("Z"));
}

#[test]
fn export_response_paths() {
    let ok = "{\"ok\":true,\"result\":{\"versionPdfPath\":\"/v.pdf\",\"exportPdfPath\":\"/e.pdf\",\"exportUpdated\":true,\"versionId\":\"v1\",\"versionPath\":\"/v\"}}";
    let res = interpret_export_output(ok).unwrap();
    assert_eq!(res.export_pdf_path, "/e.pdf");
    assert_eq!(res.version_pdf_path, "/v.pdf");
    assert!(res.export_updated);
    assert_eq!(res.version_id, "v1");

    let failed = "{\"ok\":false,\"code\":\"RENDER_BROKE\",\"message\":\"boom\",\"exportPdfPath\":\"/e.pdf\",\"versionPdfPath\":\"/v.pdf\"}";
    let err = interpret_export_output(failed).unwrap_err();
    assert_eq!(err.code, "RENDER_BROKE");
    assert_eq!(err.message, "boom");
    assert_eq!(err.export_pdf_path.as_deref(), Some("/e.pdf"));
    assert_eq!(err.version_pdf_path.as_deref(), Some("/v.pdf"));

    let garbled = "definitely not json";
    let err = interpret_export_output(garbled).unwrap_err();
    assert_eq!(err.code, "EXPORT_FAILED");

    let no_result = "{\"ok\":true}";
    let err = interpret_export_output(no_result).unwrap_err();
    assert_eq!(err.code, "EXPORT_FAILED");
}

#[test]
fn preview_response_paths() {
    let ok = "{\"ok\":true,\"result\":{\"previewPdfPath\":\"/tmp/p.pdf\"}}";
    assert_eq!(interpret_preview_output(ok).unwrap(), "/tmp/p.pdf");

    let failed = "{\"ok\":false,\"code\":\"NO_CHROMIUM\"}";
    let err = interpret_preview_output(failed).unwrap_err();
    assert_eq!(err.code, "NO_CHROMIUM");

    let err = interpret_preview_output("{}").unwrap_err();
    assert_eq!(err.code, "PREVIEW_FAILED");

    let no_path = "{\"ok\":true,\"result\":{},\"code\":\"IGNORED\"}";
    let err = interpret_preview_output(no_path).unwrap_err();
    assert_eq!(err.code, "PREVIEW_FAILED");

    let no_result = "{\"ok\":true,\"code\":\"NO_RESULT\"}";
    let err = interpret_preview_output(no_result).unwrap_err();
    assert_eq!(err.code, "NO_RESULT");
}

#[test]
fn export_artifacts_match_slug_names() {
    let files = vec![
        "show.pdf".to_string(),
        "show__2.pdf".to_string(),
        "shower.pdf".to_string(),
        "show.txt".to_string(),
        "other.pdf".to_string(),
    ];
    let out = export_artifacts_to_remove(&files, "show");
    assert_eq!(out, vec!["show.pdf".to_string(), "show__2.pdf".to_string()]);
}

#[test]
fn export_paths_and_preview_names() {
    assert_eq!(default_export_pdf_path("/data/exports", "show"), "/data/exports/show.pdf");
    assert_eq!(preview_pdf_name("k1"), "preview_k1.pdf");
    assert_eq!(storage_meta_path("/data"), "/data/storage.json");
}

#[test]
fn sharing_violation_message_is_clarified() {
    let e = map_io_error("os error 32", "EXPORT_FAILED", "Failed to overwrite existing PDF");
    let out = clarify_sharing_violation(e);
    assert_eq!(out.code, "EXPORT_FAILED");
    assert!(out.message.ends_with("Close it and retry."));

    let e = api_error("EXPORT_FAILED", "plain failure");
    let out = clarify_sharing_violation(e);
    assert_eq!(out.message, "plain failure");
}

#[test]
fn storage_meta_round() {
    let meta = parse_storage_meta("{\"schemaVersion\":1,\"createdAt\":\"123Z\"}").unwrap();
    assert_eq!(meta.schema_version, 1);
    assert_eq!(meta.created_at, "123Z");
    assert!(meta.last_migrated_at.is_none());

    match parse_storage_meta("{\"schemaVersion\":9,\"createdAt\":\"123Z\"}").unwrap_err() {
        StorageError::InvalidSchema(n) => assert_eq!(n, 9),
        _ => panic!("expected a schema error"),
    }
    match parse_storage_meta("not json").unwrap_err() {
        StorageError::Resolve(_) => {}
        _ => panic!("expected a resolve error"),
    }

    let fresh = new_storage_meta(now_iso());
    assert_eq!(fresh.schema_version, 1);
    assert!(fresh.created_at.ends_with('Z'));
    assert_eq!(stagepilot::export::format_timestamp(0), "0Z");
    assert_eq!(stagepilot::export::format_timestamp(1700000000), "1700000000Z");
}
