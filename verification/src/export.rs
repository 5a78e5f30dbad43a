//! Interpretation of the external rendering subprocess's responses, export
//! artifact matching, export path construction, and storage metadata
//! checks. The host launches the subprocess and performs file operations;
//! every decision is made here.
use vstd::prelude::*;
use vstd::string::StringExecFns;
use crate::errors::{api_error, ApiError, StorageError};
use crate::json::{json_of, parse_json, spec_get, spec_str_field, JVal};
use crate::text::{
    contains_seq, contains_str, ends_with_seq, ends_with_str, spec_dec, starts_with_seq,
    starts_with_str, trim_spec, trim_str, u64_to_dec,
};

verus! {

/// The result of a successful PDF export.
#[derive(Debug)]
pub struct ExportPdfResult {
    pub version_pdf_path: String,
    pub export_pdf_path: String,
    pub export_updated: bool,
    pub version_id: String,
    pub version_path: String,
}

/// An optional string field of a response object: absent or null is
/// nothing, a string is itself, and anything else refuses the response.
pub open spec fn opt_str_of(v: JVal, key: Seq<char>) -> Option<Option<Seq<char>>> {
    match spec_get(v, key) {
        None => Some(None),
        Some(JVal::Null) => Some(None),
        Some(JVal::Str(s)) => Some(Some(s@)),
        Some(_) => None,
    }
}

/// Whether a subprocess response parses to the expected shape: an object
/// with a boolean `ok` and optional string `code`, `message`,
/// `exportPdfPath`, `versionPdfPath` fields.
pub open spec fn response_shape_ok(v: JVal) -> bool {
    &&& spec_get(v, "ok"@) matches Some(JVal::Bool(_))
    &&& opt_str_of(v, "code"@) is Some
    &&& opt_str_of(v, "message"@) is Some
    &&& opt_str_of(v, "exportPdfPath"@) is Some
    &&& opt_str_of(v, "versionPdfPath"@) is Some
}

/// What a well-shaped export result payload holds.
pub open spec fn export_payload_ok(v: JVal) -> bool {
    &&& spec_str_field(v, "versionPdfPath"@) is Some
    &&& spec_str_field(v, "exportPdfPath"@) is Some
    &&& spec_get(v, "exportUpdated"@) matches Some(JVal::Bool(_))
    &&& spec_str_field(v, "versionId"@) is Some
    &&& spec_str_field(v, "versionPath"@) is Some
}

/// Whether an export result matches a payload value.
pub open spec fn export_result_matches(r: ExportPdfResult, v: JVal) -> bool {
    &&& Some(r.version_pdf_path@) == spec_str_field(v, "versionPdfPath"@)
    &&& Some(r.export_pdf_path@) == spec_str_field(v, "exportPdfPath"@)
    &&& spec_get(v, "exportUpdated"@) == Some(JVal::Bool(r.export_updated))
    &&& Some(r.version_id@) == spec_str_field(v, "versionId"@)
    &&& Some(r.version_path@) == spec_str_field(v, "versionPath"@)
}

/// Reads an optional string field of a response object; refuses a
/// non-string, non-null value.
fn opt_str_field(v: &JVal, key: &str) -> (r: Result<Option<String>, ()>)
    ensures
        match r {
            Ok(o) => opt_str_of(*v, key@) == Some(
                match o {
                    Some(s) => Some(s@),
                    None => None::<Seq<char>>,
                },
            ),
            Err(_) => opt_str_of(*v, key@) is None,
        },
{
    match v.get(key) {
        None => Ok(None),
        Some(x) => match x {
            JVal::Null => Ok(None),
            JVal::Str(s) => Ok(Some(s.clone())),
            _ => Err(()),
        },
    }
}

/// Interprets the export subprocess's standard output: a well-shaped
/// response with `ok` true must carry a result payload with the five
/// export fields; `ok` false carries the reported code and message, with
/// `EXPORT_FAILED` and a fixed message as fallbacks, and passes the
/// response's PDF paths through; anything else is a parse failure.
pub fn interpret_export_output(stdout: &str) -> (r: Result<ExportPdfResult, ApiError>)
    ensures
        match r {
            Ok(res) => {
                &&& json_of(trim_spec(stdout@)) matches Some(v)
                &&& response_shape_ok(v)
                &&& spec_get(v, "ok"@) == Some(JVal::Bool(true))
                &&& spec_get(v, "result"@) matches Some(p) && export_payload_ok(p)
                    && export_result_matches(res, p)
            },
            Err(e) => match json_of(trim_spec(stdout@)) {
                None => e.code@ == "EXPORT_FAILED"@,
                Some(v) => {
                    if !response_shape_ok(v) {
                        e.code@ == "EXPORT_FAILED"@
                    } else if spec_get(v, "ok"@) == Some(JVal::Bool(true)) {
                        !(spec_get(v, "result"@) matches Some(p) && export_payload_ok(p))
                            && e.code@ == "EXPORT_FAILED"@
                    } else {
                        &&& e.code@ == match opt_str_of(v, "code"@) {
                            Some(Some(c)) => c,
                            _ => "EXPORT_FAILED"@,
                        }
                        &&& e.message@ == match opt_str_of(v, "message"@) {
                            Some(Some(m)) => m,
                            _ => "Export failed."@,
                        }
                        &&& opt_str_of(v, "exportPdfPath"@) == Some(
                            crate::sorting::opt_key_view(e.export_pdf_path),
                        )
                        &&& opt_str_of(v, "versionPdfPath"@) == Some(
                            crate::sorting::opt_key_view(e.version_pdf_path),
                        )
                    }
                },
            },
        },
{
    let trimmed = trim_str(stdout);
    let v = match parse_json(trimmed.as_str()) {
        Some(v) => v,
        None => {
            return Err(api_error("EXPORT_FAILED", "Failed to parse export response"));
        },
    };
    let ok_flag: bool = match v.get("ok") {
        Some(JVal::Bool(b)) => *b,
        _ => {
            return Err(api_error("EXPORT_FAILED", "Failed to parse export response"));
        },
    };
    let code = match opt_str_field(&v, "code") {
        Ok(o) => o,
        Err(_) => {
            return Err(api_error("EXPORT_FAILED", "Failed to parse export response"));
        },
    };
    let message = match opt_str_field(&v, "message") {
        Ok(o) => o,
        Err(_) => {
            return Err(api_error("EXPORT_FAILED", "Failed to parse export response"));
        },
    };
    let export_pdf_path = match opt_str_field(&v, "exportPdfPath") {
        Ok(o) => o,
        Err(_) => {
            return Err(api_error("EXPORT_FAILED", "Failed to parse export response"));
        },
    };
    let version_pdf_path = match opt_str_field(&v, "versionPdfPath") {
        Ok(o) => o,
        Err(_) => {
            return Err(api_error("EXPORT_FAILED", "Failed to parse export response"));
        },
    };
    if ok_flag {
        let payload = match v.get("result") {
            Some(p) => p,
            None => {
                return Err(api_error("EXPORT_FAILED", "Export succeeded but no result returned."));
            },
        };
        let vpp = payload.str_field("versionPdfPath");
        let epp = payload.str_field("exportPdfPath");
        let upd: Option<bool> = match payload.get("exportUpdated") {
            Some(JVal::Bool(b)) => Some(*b),
            _ => None,
        };
        let vid = payload.str_field("versionId");
        let vpath = payload.str_field("versionPath");
        match (vpp, epp, upd, vid, vpath) {
            (Some(a), Some(b), Some(c), Some(d), Some(e)) => Ok(
                ExportPdfResult {
                    version_pdf_path: a,
                    export_pdf_path: b,
                    export_updated: c,
                    version_id: d,
                    version_path: e,
                },
            ),
            _ => Err(api_error("EXPORT_FAILED", "Export payload is invalid")),
        }
    } else {
        let e_code = match code {
            Some(c) => c,
            None => "EXPORT_FAILED".to_owned(),
        };
        let e_message = match message {
            Some(m) => m,
            None => "Export failed.".to_owned(),
        };
        Err(
            ApiError {
                code: e_code,
                message: e_message,
                export_pdf_path,
                version_pdf_path,
            },
        )
    }
}

/// Interprets the preview subprocess's standard output: a result is owed
/// exactly when the output parses with `ok` true and a result carrying a
/// string `previewPdfPath`. A present result without the path fails with
/// the fixed `PREVIEW_FAILED` code; everything else fails with the
/// response's reported code, or `PREVIEW_FAILED` as the fallback.
pub fn interpret_preview_output(stdout: &str) -> (r: Result<String, ApiError>)
    ensures
        match r {
            Ok(path) => {
                &&& json_of(trim_spec(stdout@)) matches Some(v)
                &&& spec_get(v, "ok"@) == Some(JVal::Bool(true))
                &&& spec_get(v, "result"@) matches Some(p) && spec_str_field(
                    p,
                    "previewPdfPath"@,
                ) == Some(path@)
            },
            Err(e) => match json_of(trim_spec(stdout@)) {
                None => e.code@ == "PREVIEW_FAILED"@,
                Some(v) => {
                    &&& !(spec_get(v, "ok"@) == Some(JVal::Bool(true)) && (spec_get(v, "result"@)
                        matches Some(p) && spec_str_field(p, "previewPdfPath"@) is Some))
                    &&& if spec_get(v, "ok"@) == Some(JVal::Bool(true)) && spec_get(v, "result"@)
                        is Some {
                        e.code@ == "PREVIEW_FAILED"@
                    } else {
                        e.code@ == match opt_str_of(v, "code"@) {
                            Some(Some(c)) => c,
                            _ => "PREVIEW_FAILED"@,
                        }
                    }
                },
            },
        },
{
    let trimmed = trim_str(stdout);
    let v = match parse_json(trimmed.as_str()) {
        Some(v) => v,
        None => {
            return Err(api_error("PREVIEW_FAILED", "Failed to parse preview response"));
        },
    };
    let ok_flag: bool = match v.get("ok") {
        Some(JVal::Bool(b)) => *b,
        _ => false,
    };
    if ok_flag {
        match v.get("result") {
            Some(p) => match p.str_field("previewPdfPath") {
                Some(path) => {
                    return Ok(path);
                },
                None => {
                    return Err(
                        api_error(
                            "PREVIEW_FAILED",
                            "Preview succeeded but no preview path was returned.",
                        ),
                    );
                },
            },
            None => {
            },
        }
    }
    let e_code = match opt_str_field(&v, "code") {
        Ok(Some(c)) => c,
        _ => "PREVIEW_FAILED".to_owned(),
    };
    Err(
        ApiError {
            code: e_code,
            message:
                "Preview could not be generated. Please retry. Check desktop logs for Chromium diagnostics.".to_owned(),
            export_pdf_path: None,
            version_pdf_path: None,
        },
    )
}

/// The `.pdf` file-name suffix.
pub open spec fn pdf_suffix() -> Seq<char> {
    seq!['.', 'p', 'd', 'f']
}

/// Whether an exported file belongs to a project slug: exactly
/// `<slug>.pdf`, or a `<slug>__` collision name ending in `.pdf`.
pub open spec fn is_export_artifact(file: Seq<char>, slug: Seq<char>) -> bool {
    ||| file == slug + pdf_suffix()
    ||| (starts_with_seq(file, slug + seq!['_', '_']) && ends_with_seq(file, pdf_suffix()))
}

/// The artifact names among the given files, in directory order, each as
/// often as it occurs.
pub open spec fn artifacts_of(files: Seq<String>, slug: Seq<char>) -> Seq<String>
    decreases files.len(),
{
    if files.len() == 0 {
        Seq::empty()
    } else if is_export_artifact(files.last()@, slug) {
        artifacts_of(files.drop_last(), slug).push(files.last())
    } else {
        artifacts_of(files.drop_last(), slug)
    }
}

/// The exported PDF files that belong to a project slug, in directory
/// order: these are removed when the project is deleted.
pub fn export_artifacts_to_remove(export_files: &Vec<String>, slug: &str) -> (r: Vec<String>)
    ensures
        r@ == artifacts_of(export_files@, slug@),
{
    proof {
        reveal_strlit(".pdf");
        assert(".pdf"@ =~= pdf_suffix());
        reveal_strlit("__");
        assert("__"@ =~= seq!['_', '_']);
    }
    let mut prefix = slug.to_owned();
    prefix.append("__");
    let mut exact = slug.to_owned();
    exact.append(".pdf");
    let mut r: Vec<String> = Vec::new();
    let mut i: usize = 0;
    while i < export_files.len()
        invariant
            i <= export_files@.len(),
            prefix@ == slug@ + seq!['_', '_'],
            exact@ == slug@ + pdf_suffix(),
            ".pdf"@ =~= pdf_suffix(),
            r@ == artifacts_of(export_files@.take(i as int), slug@),
        decreases export_files@.len() - i,
    {
        proof {
            assert(export_files@.take(i as int + 1).drop_last() =~= export_files@.take(i as int));
            assert(export_files@.take(i as int + 1).last() == export_files@[i as int]);
        }
        let f = &export_files[i];
        let keep = crate::text::str_eq(f.as_str(), exact.as_str()) || (starts_with_str(
            f.as_str(),
            prefix.as_str(),
        ) && ends_with_str(f.as_str(), ".pdf"));
        if keep {
            r.push(f.clone());
        }
        i = i + 1;
    }
    proof {
        assert(export_files@.take(export_files@.len() as int) =~= export_files@);
    }
    r
}

/// The default export path of a project slug under the exports directory.
pub fn default_export_pdf_path(exports_dir: &str, project_slug: &str) -> (r: String)
    ensures
        r@ == exports_dir@ + seq!['/'] + project_slug@ + pdf_suffix(),
{
    proof {
        reveal_strlit("/");
        assert("/"@ =~= seq!['/']);
        reveal_strlit(".pdf");
        assert(".pdf"@ =~= pdf_suffix());
    }
    let mut r = exports_dir.to_owned();
    r.append("/");
    r.append(project_slug);
    r.append(".pdf");
    proof {
        assert(r@ =~= exports_dir@ + seq!['/'] + project_slug@ + pdf_suffix());
    }
    r
}

/// The temp file name of a preview keyed by a caller token.
pub fn preview_pdf_name(preview_key: &str) -> (r: String)
    ensures
        r@ == "preview_"@ + preview_key@ + pdf_suffix(),
{
    proof {
        reveal_strlit(".pdf");
        assert(".pdf"@ =~= pdf_suffix());
    }
    let mut r = "preview_".to_owned();
    r.append(preview_key);
    r.append(".pdf");
    proof {
        assert(r@ =~= "preview_"@ + preview_key@ + pdf_suffix());
    }
    r
}

/// Appends a user-actionable hint to an I/O error whose OS text names a
/// sharing violation (a file held open by another program).
pub fn clarify_sharing_violation(e: ApiError) -> (r: ApiError)
    ensures
        r.code@ == e.code@,
        contains_seq(e.message@, "os error 32"@) ==> r.message@ == e.message@
            + " — File is open in another program (e.g. preview). Close it and retry."@,
        !contains_seq(e.message@, "os error 32"@) ==> r.message@ == e.message@,
        r.export_pdf_path == e.export_pdf_path,
        r.version_pdf_path == e.version_pdf_path,
{
    let mut e = e;
    if contains_str(e.message.as_str(), "os error 32") {
        e.message.append(" — File is open in another program (e.g. preview). Close it and retry.");
    }
    e
}

/// The storage schema version this layer understands.
pub const STORAGE_SCHEMA_VERSION: u32 = 1;

/// The small metadata document at the root of the user storage tree.
#[derive(Debug)]
pub struct UserStorageMeta {
    pub schema_version: u32,
    pub created_at: String,
    pub last_migrated_at: Option<String>,
}

/// Whether a parsed metadata document has the expected shape.
pub open spec fn meta_shape_ok(v: JVal) -> bool {
    &&& spec_get(v, "schemaVersion"@) matches Some(JVal::Int(n)) && 0 <= n <= u32::MAX
    &&& spec_str_field(v, "createdAt"@) is Some
}

/// The schema version a parsed metadata document records.
pub open spec fn meta_version_of(v: JVal) -> int {
    spec_get(v, "schemaVersion"@)->0->Int_0 as int
}

/// Parses and checks the storage metadata document: malformed JSON or a
/// missing field is a resolution failure; an unexpected schema version is
/// a hard initialization failure.
pub fn parse_storage_meta(text: &str) -> (r: Result<UserStorageMeta, StorageError>)
    ensures
        match r {
            Ok(meta) => {
                &&& json_of(text@) matches Some(v) && meta_shape_ok(v)
                &&& meta_version_of(json_of(text@)->0) == STORAGE_SCHEMA_VERSION
                &&& meta.schema_version == STORAGE_SCHEMA_VERSION
                &&& Some(meta.created_at@) == spec_str_field(json_of(text@)->0, "createdAt"@)
            },
            Err(e) => match e {
                StorageError::InvalidSchema(n) => {
                    &&& json_of(text@) matches Some(v) && meta_shape_ok(v)
                    &&& meta_version_of(json_of(text@)->0) == n
                    &&& n != STORAGE_SCHEMA_VERSION
                },
                _ => !(json_of(text@) matches Some(v) && meta_shape_ok(v)),
            },
        },
{
    let v = match parse_json(text) {
        Some(v) => v,
        None => {
            return Err(StorageError::Resolve("Invalid storage metadata JSON".to_owned()));
        },
    };
    let version: u32 = match v.get("schemaVersion") {
        Some(JVal::Int(n)) => {
            if *n >= 0 && *n <= u32::MAX as i64 {
                *n as u32
            } else {
                return Err(StorageError::Resolve("Invalid storage metadata JSON".to_owned()));
            }
        },
        _ => {
            return Err(StorageError::Resolve("Invalid storage metadata JSON".to_owned()));
        },
    };
    let created_at = match v.str_field("createdAt") {
        Some(s) => s,
        None => {
            return Err(StorageError::Resolve("Invalid storage metadata JSON".to_owned()));
        },
    };
    if version != STORAGE_SCHEMA_VERSION {
        return Err(StorageError::InvalidSchema(version));
    }
    let last_migrated_at = v.str_field("lastMigratedAt");
    Ok(UserStorageMeta { schema_version: version, created_at, last_migrated_at })
}

/// Relies on std::time::SystemTime::now and duration_since: the seconds
/// elapsed since the Unix epoch, or zero if the clock reads earlier.
/// Nothing more is promised of the clock.
#[verifier::external_body]
fn now_secs() -> u64 {
    match std::time::SystemTime::now().duration_since(std::time::UNIX_EPOCH) {
        Ok(d) => d.as_secs(),
        Err(_) => 0,
    }
}

/// A compact timestamp for a count of epoch seconds: its decimal rendering
/// with a `Z` suffix.
pub fn format_timestamp(secs: u64) -> (r: String)
    ensures
        r@ == spec_dec(secs) + seq!['Z'],
{
    let mut r = u64_to_dec(secs);
    crate::text::push_char(&mut r, 'Z');
    proof {
        assert(r@ =~= spec_dec(secs) + seq!['Z']);
    }
    r
}

/// The current time as a compact timestamp. Whatever the clock read, the
/// text is that reading's timestamp.
pub fn now_iso() -> (r: String)
    ensures
        exists|secs: u64| r@ == spec_dec(secs) + seq!['Z'],
{
    format_timestamp(now_secs())
}

/// A fresh storage metadata value carrying the current schema version and
/// a creation timestamp.
pub fn new_storage_meta(created_at: String) -> (r: UserStorageMeta)
    ensures
        r.schema_version == STORAGE_SCHEMA_VERSION,
        r.created_at == created_at,
        r.last_migrated_at is None,
{
    UserStorageMeta {
        schema_version: STORAGE_SCHEMA_VERSION,
        created_at,
        last_migrated_at: None,
    }
}

/// The path of the storage metadata document under a storage root.
pub fn storage_meta_path(root: &str) -> (r: String)
    ensures
        r@ == root@ + seq!['/'] + "storage.json"@,
{
    proof {
        reveal_strlit("/");
        assert("/"@ =~= seq!['/']);
    }
    let mut r = root.to_owned();
    r.append("/");
    r.append("storage.json");
    proof {
        assert(r@ =~= root@ + seq!['/'] + "storage.json"@);
    }
    r
}


} // verus!
