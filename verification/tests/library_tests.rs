use stagepilot::library::{
    delete_library_band, delete_library_contact, delete_library_instrument,
    delete_library_message, delete_library_musician, duplicate_library_band,
    list_library_bands, list_library_musicians, read_library_band, upsert_library_band,
    upsert_library_contact, upsert_library_instrument, upsert_library_message,
    upsert_library_musician, LibraryBand, LibraryBandMember, LibraryContact, LibraryInstrument,
    LibraryMessage, LibraryMusician,
};
use stagepilot::listing::ProjectSummary;

fn band(id: &str, name: &str, code: &str) -> LibraryBand {
    LibraryBand {
        id: id.to_string(),
        name: name.to_string(),
        code: code.to_string(),
        description: None,
        constraints: Vec::new(),
        role_constraints: None,
        default_lineup: None,
        members: Vec::new(),
        contacts: Vec::new(),
        messages: Vec::new(),
    }
}

fn musician(id: &str, name: &str) -> LibraryMusician {
    LibraryMusician {
        id: id.to_string(),
        name: name.to_string(),
        gender: None,
        default_roles: Vec::new(),
        notes: None,
    }
}

fn summary(id: &str, band_ref: Option<&str>) -> ProjectSummary {
    ProjectSummary {
        id: id.to_string(),
        slug: None,
        display_name: None,
        band_ref: band_ref.map(|s| s.to_string()),
        event_date: None,
        event_venue: None,
        purpose: None,
        created_at: None,
        updated_at: None,
    }
}

#[test]
fn upsert_band_validates_and_replaces() {
    let items = vec![band("b1", "Alpha", "AL")];
    let err = upsert_library_band(items, band("b2", "  ", "X")).unwrap_err();
    assert_eq!(err.code, "LIBRARY_VALIDATION_FAILED");
}

#[test]
fn upsert_band_rejects_duplicate_code() {
    let items = vec![band("b1", "Alpha", "AL")];
    let err = upsert_library_band(items, band("b2", "Beta", "al")).unwrap_err();
    assert_eq!(err.code, "LIBRARY_VALIDATION_FAILED");
    assert_eq!(err.message, "Band code 'al' is already used.");
    let items = vec![band("b1", "Alpha", "AL")];
    let out = upsert_library_band(items, band("b1", "Alpha Two", "AL")).unwrap();
    assert_eq!(out.len(), 1);
    assert_eq!(out[0].name, "Alpha Two");
}

#[test]
fn delete_band_blocked_while_referenced() {
    let projects = vec![summary("p1", Some("b1"))];
    let items = vec![band("b1", "Alpha", "AL"), band("b2", "Beta", "BE")];
    let err = delete_library_band(&projects, items, "b1").unwrap_err();
    assert_eq!(err.code, "LIBRARY_DELETE_BLOCKED");

    let projects = vec![summary("p1", Some("b2"))];
    let items = vec![band("b1", "Alpha", "AL"), band("b2", "Beta", "BE")];
    let out = delete_library_band(&projects, items, "b1").unwrap();
    assert_eq!(out.len(), 1);
    assert_eq!(out[0].id, "b2");
}

#[test]
fn delete_musician_blocked_while_in_band() {
    let mut b = band("b1", "Alpha", "AL");
    b.members.push(LibraryBandMember {
        musician_id: "m1".to_string(),
        roles: vec!["drums".to_string()],
        is_default: true,
    });
    let bands = vec![b];
    let items = vec![musician("m1", "Mika")];
    let err = delete_library_musician(&bands, items, "m1").unwrap_err();
    assert_eq!(err.code, "LIBRARY_DELETE_BLOCKED");

    let bands: Vec<LibraryBand> = Vec::new();
    let items = vec![musician("m1", "Mika"), musician("m2", "Noa")];
    let out = delete_library_musician(&bands, items, "m1").unwrap();
    assert_eq!(out.len(), 1);
    assert_eq!(out[0].id, "m2");
}

#[test]
fn upsert_musician_requires_id_and_name() {
    let err = upsert_library_musician(Vec::new(), musician("", "Mika")).unwrap_err();
    assert_eq!(err.code, "LIBRARY_VALIDATION_FAILED");
    let out = upsert_library_musician(Vec::new(), musician("m1", "Mika")).unwrap();
    assert_eq!(out.len(), 1);
}

#[test]
fn duplicate_band_picks_fresh_id_and_suffixes() {
    let items = vec![band("b1", "Alpha", "AL")];
    let (out, dup) = duplicate_library_band(items, "b1").unwrap();
    assert_eq!(dup.id, "b1_copy");
    assert_eq!(dup.name, "Alpha Copy");
    assert_eq!(dup.code, "AL-COPY1");
    assert_eq!(out.len(), 2);

    let items = vec![band("b1", "Alpha", "AL"), band("b1_copy", "Alpha Copy", "AL-COPY1")];
    let (_, dup2) = duplicate_library_band(items, "b1").unwrap();
    assert_eq!(dup2.id, "b1_copy_2");
    assert_eq!(dup2.code, "AL-COPY2");

    let err = duplicate_library_band(Vec::new(), "nope").unwrap_err();
    assert_eq!(err.code, "LIBRARY_NOT_FOUND");
    assert_eq!(err.message, "Band not found: nope");
}

#[test]
fn lists_sort_by_lowercased_name() {
    let items = vec![band("b1", "zeta", "Z"), band("b2", "Alpha", "A"), band("b3", "beta", "B")];
    let sorted = list_library_bands(items);
    let names: Vec<&str> = sorted.iter().map(|b| b.name.as_str()).collect();
    assert_eq!(names, vec!["Alpha", "beta", "zeta"]);

    let ms = vec![musician("m1", "bob"), musician("m2", "Al")];
    let sorted = list_library_musicians(ms);
    assert_eq!(sorted[0].name, "Al");
}

#[test]
fn read_band_finds_by_id() {
    let items = vec![band("b1", "Alpha", "AL")];
    assert_eq!(read_library_band(&items, "b1").unwrap().name, "Alpha");
    let err = read_library_band(&items, "zz").unwrap_err();
    assert_eq!(err.code, "LIBRARY_NOT_FOUND");
    assert_eq!(err.message, "Band not found: zz");
}

#[test]
fn simple_collections_upsert_and_delete() {
    let inst = LibraryInstrument {
        id: "i1".to_string(),
        name: "Kick".to_string(),
        key: "kick".to_string(),
        channels: 1,
        stereo_mode: None,
        notes: None,
    };
    let items = upsert_library_instrument(Vec::new(), inst);
    assert_eq!(items.len(), 1);
    let items = delete_library_instrument(items, "i1");
    assert_eq!(items.len(), 0);

    let c = LibraryContact {
        id: "c1".to_string(),
        name: "Sam".to_string(),
        title: None,
        phone: None,
        email: None,
        note: None,
        primary: Some(true),
    };
    let items = upsert_library_contact(Vec::new(), c);
    let items = delete_library_contact(items, "c1");
    assert_eq!(items.len(), 0);

    let m = LibraryMessage {
        id: "msg1".to_string(),
        name: "Welcome".to_string(),
        body: "hi".to_string(),
    };
    let items = upsert_library_message(Vec::new(), m);
    let items = delete_library_message(items, "msg1");
    assert_eq!(items.len(), 0);
}
