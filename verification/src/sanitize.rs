//! Path sanitization: turning arbitrary identifiers into safe, traversal-free
//! file-system names, and joining caller-supplied relative paths under a base
//! directory.
use vstd::prelude::*;
use vstd::string::StringExecFns;
use crate::errors::StorageError;
use crate::text::{
    contains_seq, contains_str, ends_with_seq, ends_with_str, starts_with_seq, starts_with_str,
    str_to_chars, string_from_chars,
};

verus! {

/// Longest file name kept when sanitizing an identifier.
pub const MAX_ID_LEN: usize = 120;

/// Characters an identifier may keep in a file name: ASCII alphanumerics,
/// dot, underscore, and hyphen.
pub open spec fn is_fname_char(c: char) -> bool {
    let u = c as u32;
    ||| (48 <= u && u <= 57)
    ||| (65 <= u && u <= 90)
    ||| (97 <= u && u <= 122)
    ||| u == 46
    ||| u == 95
    ||| u == 45
}

/// Every character kept or replaced with an underscore, up to the length cap.
pub open spec fn sanitize_map(s: Seq<char>) -> Seq<char> {
    s.map_values(|c: char| if is_fname_char(c) { c } else { '_' })
}

/// The sequence with leading dots removed.
pub open spec fn strip_leading_dots(s: Seq<char>) -> Seq<char>
    decreases s.len(),
{
    if s.len() > 0 && s[0] == '.' {
        strip_leading_dots(s.drop_first())
    } else {
        s
    }
}

/// The fallback file name used when sanitizing leaves nothing.
pub open spec fn fallback_name() -> Seq<char> {
    seq!['p', 'r', 'o', 'j', 'e', 'c', 't']
}

/// Sanitization of an identifier into a file name: keep safe characters,
/// replace the rest with underscores, cap the length, strip leading dots,
/// and fall back to a fixed name when nothing remains.
pub open spec fn spec_sanitize(s: Seq<char>) -> Seq<char> {
    let capped = if s.len() <= MAX_ID_LEN {
        sanitize_map(s)
    } else {
        sanitize_map(s).take(MAX_ID_LEN as int)
    };
    let stripped = strip_leading_dots(capped);
    if stripped.len() == 0 {
        fallback_name()
    } else {
        stripped
    }
}

proof fn lemma_strip_leading_dots_skip(s: Seq<char>, lo: int)
    requires
        0 <= lo <= s.len(),
        forall|j: int| 0 <= j < lo ==> s[j] == '.',
        lo < s.len() ==> s[lo] != '.',
    ensures
        strip_leading_dots(s) == s.skip(lo),
    decreases lo,
{
    if lo == 0 {
        assert(s.skip(0) =~= s);
    } else {
        lemma_strip_leading_dots_skip(s.drop_first(), lo - 1);
        assert(s.drop_first().skip(lo - 1) =~= s.skip(lo));
    }
}

/// What strip_leading_dots leaves never starts with a dot and keeps only
/// characters of the input.
proof fn lemma_strip_no_leading_dot(s: Seq<char>)
    requires
        forall|j: int| 0 <= j < s.len() ==> s[j] != '/',
    ensures
        strip_leading_dots(s).len() > 0 ==> strip_leading_dots(s)[0] != '.',
        forall|j: int|
            0 <= j < strip_leading_dots(s).len() ==> #[trigger] strip_leading_dots(s)[j] != '/',
    decreases s.len(),
{
    if s.len() > 0 && s[0] == '.' {
        assert(forall|j: int| 0 <= j < s.drop_first().len() ==> s.drop_first()[j] != '/');
        lemma_strip_no_leading_dot(s.drop_first());
    }
}

/// Decides whether a character is kept in a sanitized file name.
fn is_fname_char_exec(c: char) -> (r: bool)
    ensures
        r == is_fname_char(c),
{
    let u = c as u32;
    (48 <= u && u <= 57) || (65 <= u && u <= 90) || (97 <= u && u <= 122) || u == 46 || u == 95
        || u == 45
}

/// Turns an arbitrary identifier into a safe file name: anything outside
/// ASCII alphanumerics, dot, underscore, and hyphen becomes an underscore,
/// the result is capped in length and stripped of leading dots, and an empty
/// result is replaced by a fixed placeholder name.
pub fn sanitize_id_to_filename(project_id: &str) -> (r: String)
    ensures
        r@ == spec_sanitize(project_id@),
{
    let chars = str_to_chars(project_id);
    let cap = if chars.len() <= MAX_ID_LEN {
        chars.len()
    } else {
        MAX_ID_LEN
    };
    let ghost capped = if project_id@.len() <= MAX_ID_LEN {
        sanitize_map(project_id@)
    } else {
        sanitize_map(project_id@).take(MAX_ID_LEN as int)
    };
    let mut out: Vec<char> = Vec::new();
    let mut i: usize = 0;
    while i < cap
        invariant
            chars@ == project_id@,
            cap <= chars.len(),
            cap == if chars@.len() <= MAX_ID_LEN {
                chars@.len() as int
            } else {
                MAX_ID_LEN as int
            },
            i <= cap,
            capped == if project_id@.len() <= MAX_ID_LEN {
                sanitize_map(project_id@)
            } else {
                sanitize_map(project_id@).take(MAX_ID_LEN as int)
            },
            out@ =~= capped.take(i as int),
        decreases cap - i,
    {
        let c = chars[i];
        if is_fname_char_exec(c) {
            out.push(c);
        } else {
            out.push('_');
        }
        i = i + 1;
        proof {
            assert(out@ =~= capped.take(i as int));
        }
    }
    proof {
        assert(capped.take(cap as int) =~= capped);
    }
    let mut lo: usize = 0;
    while lo < out.len() && out[lo] == '.'
        invariant
            out@ == capped,
            lo <= out.len(),
            forall|j: int| 0 <= j < lo ==> capped[j] == '.',
        decreases out.len() - lo,
    {
        lo = lo + 1;
    }
    proof {
        lemma_strip_leading_dots_skip(capped, lo as int);
    }
    if lo == out.len() {
        proof {
            assert(strip_leading_dots(capped).len() == 0);
            reveal_strlit("project");
            assert("project"@ =~= fallback_name());
        }
        "project".to_owned()
    } else {
        let mut kept: Vec<char> = Vec::new();
        let mut i: usize = lo;
        while i < out.len()
            invariant
                out@ == capped,
                lo <= i <= out.len(),
                kept@ =~= capped.subrange(lo as int, i as int),
            decreases out.len() - i,
        {
            kept.push(out[i]);
            i = i + 1;
        }
        proof {
            assert(capped.subrange(lo as int, capped.len() as int) =~= capped.skip(lo as int));
        }
        string_from_chars(&kept)
    }
}

/// A child path is rejected when it is absolute or contains a
/// parent-directory component.
pub open spec fn is_absolute_child(c: Seq<char>) -> bool {
    starts_with_seq(c, seq!['/'])
}

/// Whether a relative path contains a parent-directory component.
pub open spec fn has_parent_component(c: Seq<char>) -> bool {
    ||| c =~= seq!['.', '.']
    ||| starts_with_seq(c, seq!['.', '.', '/'])
    ||| ends_with_seq(c, seq!['/', '.', '.'])
    ||| contains_seq(c, seq!['/', '.', '.', '/'])
}

/// Joins a caller-supplied relative path under a base directory, rejecting
/// absolute paths and any parent-directory traversal component.
pub fn safe_join(base: &str, child: &str) -> (r: Result<String, StorageError>)
    ensures
        is_absolute_child(child@) ==> r is Err,
        !is_absolute_child(child@) && has_parent_component(child@) ==> r is Err,
        !is_absolute_child(child@) && !has_parent_component(child@) ==> (r matches Ok(p) && p@
            == base@ + seq!['/'] + child@),
{
    proof {
        reveal_strlit("/");
        assert("/"@ =~= seq!['/']);
        reveal_strlit("..");
        assert(".."@ =~= seq!['.', '.']);
        reveal_strlit("../");
        assert("../"@ =~= seq!['.', '.', '/']);
        reveal_strlit("/..");
        assert("/.."@ =~= seq!['/', '.', '.']);
        reveal_strlit("/../");
        assert("/../"@ =~= seq!['/', '.', '.', '/']);
    }
    if starts_with_str(child, "/") {
        return Err(StorageError::Resolve("Absolute paths are not allowed".to_owned()));
    }
    let is_parent = crate::text::str_eq(child, "..");
    if is_parent || starts_with_str(child, "../") || ends_with_str(child, "/..") || contains_str(
        child,
        "/../",
    ) {
        return Err(StorageError::Resolve("Path traversal is not allowed".to_owned()));
    }
    let mut p = base.to_owned();
    p.append("/");
    p.append(child);
    Ok(p)
}

/// The `.json` file-name suffix.
pub open spec fn json_suffix() -> Seq<char> {
    seq!['.', 'j', 's', 'o', 'n']
}

/// The file name a project slug maps to: the slug with a `.json` suffix.
pub fn project_file_name_from_slug(slug: &str) -> (r: String)
    ensures
        r@ == slug@ + json_suffix(),
{
    proof {
        reveal_strlit(".json");
        assert(".json"@ =~= json_suffix());
    }
    let mut r = slug.to_owned();
    r.append(".json");
    r
}

/// A file name is safe when it is non-empty, free of path separators, and
/// does not start with a dot.
pub open spec fn spec_is_safe_name(s: Seq<char>) -> bool {
    &&& s.len() > 0
    &&& s[0] != '.'
    &&& forall|i: int| 0 <= i < s.len() ==> #[trigger] s[i] != '/'
}

/// Law: a sanitized name is a safe file name, whatever the identifier: it
/// is non-empty, holds no separators, and never starts with a dot, so it
/// can be joined under any base directory.
pub proof fn lemma_sanitize_safe(s: Seq<char>)
    ensures
        spec_is_safe_name(spec_sanitize(s)),
        spec_sanitize(s).len() > 0,
        spec_sanitize(s)[0] != '.',
        forall|j: int| 0 <= j < spec_sanitize(s).len() ==> #[trigger] spec_sanitize(s)[j] != '/',
{
    let capped = if s.len() <= MAX_ID_LEN {
        sanitize_map(s)
    } else {
        sanitize_map(s).take(MAX_ID_LEN as int)
    };
    assert forall|j: int| 0 <= j < capped.len() implies capped[j] != '/' by {
        assert(capped[j] == sanitize_map(s)[j]);
        assert('/' as u32 == 47);
    }
    lemma_strip_no_leading_dot(capped);
    if strip_leading_dots(capped).len() == 0 {
        assert(fallback_name()[0] == 'p');
        assert('p' as u32 == 112);
        assert('.' as u32 == 46);
        assert forall|j: int| 0 <= j < fallback_name().len() implies #[trigger] fallback_name()[j]
            != '/' by {
            assert('/' as u32 == 47);
        }
    }
}

/// The full path of a project's JSON document under the projects directory:
/// the sanitized identifier with a `.json` suffix, joined under the base.
pub fn project_json_path(projects_dir: &str, project_id: &str) -> (r: Result<
    String,
    StorageError,
>)
    ensures
        r matches Ok(p) && p@ == projects_dir@ + seq!['/'] + spec_sanitize(project_id@)
            + json_suffix(),
{
    let name = sanitize_id_to_filename(project_id);
    let file_name = project_file_name_from_slug(name.as_str());
    proof {
        lemma_sanitize_safe(project_id@);
        let f = file_name@;
        assert(f == spec_sanitize(project_id@) + json_suffix());
        assert(f[0] == spec_sanitize(project_id@)[0]);
        assert(f[0] != '/');
        assert(!is_absolute_child(f)) by {
            if starts_with_seq(f, seq!['/']) {
                assert(f.subrange(0, 1)[0] == f[0]);
            }
        }
        assert(forall|j: int| 0 <= j < f.len() ==> f[j] != '/') by {
            assert forall|j: int| 0 <= j < f.len() implies f[j] != '/' by {
                if j < spec_sanitize(project_id@).len() {
                    assert(f[j] == spec_sanitize(project_id@)[j]);
                } else {
                    assert(f[j] == json_suffix()[j - spec_sanitize(project_id@).len()]);
                    assert('.' as u32 == 46 && 'j' as u32 == 106 && 's' as u32 == 115 && 'o' as u32
                        == 111 && 'n' as u32 == 110 && '/' as u32 == 47);
                }
            }
        }
        assert(!has_parent_component(f)) by {
            lemma_no_slash_no_parent(f);
            assert(f[0] != '.');
        }
    }
    let r = safe_join(projects_dir, file_name.as_str());
    match r {
        Ok(p) => {
            proof {
                assert(p@ =~= projects_dir@ + seq!['/'] + spec_sanitize(project_id@)
                    + json_suffix());
            }
            Ok(p)
        },
        Err(e) => Err(e),
    }
}

/// A name without separators and without a leading dot holds no
/// parent-directory component.
proof fn lemma_no_slash_no_parent(f: Seq<char>)
    requires
        f.len() > 0,
        f[0] != '.',
        forall|j: int| 0 <= j < f.len() ==> f[j] != '/',
    ensures
        !has_parent_component(f),
{
    assert(f =~= seq!['.', '.'] ==> f[0] == '.');
    if starts_with_seq(f, seq!['.', '.', '/']) {
        assert(f.subrange(0, 3)[0] == f[0]);
    }
    if ends_with_seq(f, seq!['/', '.', '.']) {
        assert(f.subrange(f.len() - 3, f.len() as int)[0] == f[f.len() - 3]);
    }
    if contains_seq(f, seq!['/', '.', '.', '/']) {
        let i = choose|i: int|
            0 <= i && i + 4 <= f.len() && #[trigger] f.subrange(i, i + 4) == seq![
                '/',
                '.',
                '.',
                '/',
            ];
        assert(f.subrange(i, i + 4)[0] == f[i]);
    }
}

} // verus!
