//! The shared library collections: bands, musicians, instruments, contacts,
//! and message templates. Each collection is a list of id-keyed records;
//! operations compute the new collection contents, and the host persists
//! them.
use vstd::prelude::*;
use vstd::string::StringExecFns;
use crate::errors::{api_error, api_error_msg, ApiError};
use crate::json::{jval_eqv, JVal};
use crate::listing::ProjectSummary;
use crate::sorting::opt_key_view;
use crate::text::{lower_seq, str_eq, to_lower, trim_spec, trim_str};

verus! {

/// A record stored in an id-keyed collection.
pub trait Keyed {
    /// The record's identifier.
    spec fn key(&self) -> Seq<char>;

    /// The record's identifier, as a string.
    fn key_ref(&self) -> (r: &str)
        ensures
            r@ == self.key(),
    ;
}

/// Index of the first record with the given identifier, or -1.
pub open spec fn key_idx<T: Keyed>(s: Seq<T>, k: Seq<char>) -> int
    decreases s.len(),
{
    if s.len() == 0 {
        -1
    } else if s[0].key() == k {
        0
    } else {
        let r = key_idx(s.drop_first(), k);
        if r < 0 {
            -1
        } else {
            r + 1
        }
    }
}

/// Whether some record has the given identifier.
pub open spec fn has_key<T: Keyed>(s: Seq<T>, k: Seq<char>) -> bool {
    key_idx(s, k) >= 0
}

/// The collection after an upsert: the first record with the same
/// identifier is replaced in place, or the record is appended.
pub open spec fn upsert_seq<T: Keyed>(s: Seq<T>, x: T) -> Seq<T> {
    if has_key(s, x.key()) {
        s.update(key_idx(s, x.key()), x)
    } else {
        s.push(x)
    }
}

/// The collection after removing every record with the given identifier.
pub open spec fn remove_key_seq<T: Keyed>(s: Seq<T>, k: Seq<char>) -> Seq<T>
    decreases s.len(),
{
    if s.len() == 0 {
        Seq::empty()
    } else if s.last().key() == k {
        remove_key_seq(s.drop_last(), k)
    } else {
        remove_key_seq(s.drop_last(), k).push(s.last())
    }
}

/// The first matching index is in range, matches the identifier, and
/// nothing before it does.
pub proof fn lemma_key_idx<T: Keyed>(s: Seq<T>, k: Seq<char>)
    ensures
        has_key(s, k) ==> 0 <= key_idx(s, k) < s.len() && s[key_idx(s, k)].key() == k,
        forall|j: int| 0 <= j < key_idx(s, k) ==> s[j].key() != k,
        !has_key(s, k) ==> forall|j: int| 0 <= j < s.len() ==> s[j].key() != k,
    decreases s.len(),
{
    if s.len() > 0 && s[0].key() != k {
        lemma_key_idx(s.drop_first(), k);
        assert forall|j: int| 0 <= j < key_idx(s, k) implies s[j].key() != k by {
            if j > 0 {
                assert(s.drop_first()[j - 1] == s[j]);
                assert(s.drop_first()[j - 1].key() != k);
            }
        }
        if !has_key(s, k) {
            assert forall|j: int| 0 <= j < s.len() implies s[j].key() != k by {
                if j > 0 {
                    assert(s.drop_first()[j - 1] == s[j]);
                    assert(s.drop_first()[j - 1].key() != k);
                }
            }
        }
    }
}

/// An identifier occurs somewhere exactly when lookup finds it.
pub proof fn lemma_has_key_exists<T: Keyed>(s: Seq<T>, k: Seq<char>)
    ensures
        has_key(s, k) <==> exists|i: int| 0 <= i < s.len() && (#[trigger] s[i].key()) == k,
{
    lemma_key_idx(s, k);
    if has_key(s, k) {
        assert(s[key_idx(s, k)].key() == k);
    }
}

/// Position of the first record with the identifier.
fn find_key<T: Keyed>(items: &Vec<T>, k: &str) -> (r: Option<usize>)
    ensures
        match r {
            Some(i) => key_idx(items@, k@) == i as int && has_key(items@, k@),
            None => !has_key(items@, k@),
        },
{
    proof {
        assert(items@.skip(0) =~= items@);
    }
    let mut i: usize = 0;
    while i < items.len()
        invariant
            i <= items@.len(),
            key_idx(items@, k@) == if has_key(items@.skip(i as int), k@) {
                key_idx(items@.skip(i as int), k@) + i
            } else {
                -1
            },
        decreases items@.len() - i,
    {
        proof {
            assert(items@.skip(i as int)[0] == items@[i as int]);
            assert(items@.skip(i as int).drop_first() =~= items@.skip(i as int + 1));
        }
        if str_eq(items[i].key_ref(), k) {
            return Some(i);
        }
        i = i + 1;
    }
    proof {
        assert(items@.skip(i as int).len() == 0);
    }
    None
}

/// Upserts a record: replaces the first record with the same identifier,
/// or appends.
pub fn upsert_item<T: Keyed>(items: Vec<T>, x: T) -> (r: Vec<T>)
    ensures
        r@ == upsert_seq(items@, x),
{
    let mut items = items;
    let idx = find_key(&items, x.key_ref());
    match idx {
        Some(i) => {
            proof {
                lemma_key_idx(items@, x.key());
            }
            items[i] = x;
        },
        None => {
            items.push(x);
        },
    }
    items
}

/// Removes every record with the given identifier.
pub fn remove_key_items<T: Keyed>(items: Vec<T>, k: &str) -> (r: Vec<T>)
    ensures
        r@ == remove_key_seq(items@, k@),
{
    let mut items = items;
    let ghost orig = items@;
    let mut out: Vec<T> = Vec::new();
    while items.len() > 0
        invariant
            out@.len() <= orig.len() - items@.len(),
            items@ =~= orig.skip(orig.len() - items@.len()),
            out@ == remove_key_seq(orig.take(orig.len() - items@.len()), k@),
        decreases items@.len(),
    {
        let ghost done = orig.len() - items@.len();
        let x = items.remove(0);
        proof {
            assert(x == orig[done]);
            assert(orig.take(done + 1).drop_last() =~= orig.take(done));
            assert(orig.take(done + 1).last() == orig[done]);
        }
        let keep = !str_eq(x.key_ref(), k);
        if keep {
            out.push(x);
        }
        proof {
            assert(items@ =~= orig.skip(orig.len() - items@.len()));
        }
    }
    proof {
        assert(orig.take(orig.len() as int) =~= orig);
    }
    out
}

/// A stage-role headcount constraint.
#[derive(Clone, Copy, PartialEq, Eq, Structural, Debug)]
pub struct RoleCountConstraint {
    pub min: usize,
    pub max: usize,
}

/// A band's membership entry: a musician, the roles it covers for this
/// band, and whether it belongs to the default lineup.
#[derive(Debug)]
pub struct LibraryBandMember {
    pub musician_id: String,
    pub roles: Vec<String>,
    pub is_default: bool,
}

/// A contact attached to a band.
#[derive(Debug)]
pub struct LibraryContact {
    pub id: String,
    pub name: String,
    pub title: Option<String>,
    pub phone: Option<String>,
    pub email: Option<String>,
    pub note: Option<String>,
    pub primary: Option<bool>,
}

/// A message template attached to a band.
#[derive(Debug)]
pub struct LibraryMessage {
    pub id: String,
    pub name: String,
    pub body: String,
}

/// A band of the shared library.
#[derive(Debug)]
pub struct LibraryBand {
    pub id: String,
    pub name: String,
    pub code: String,
    pub description: Option<String>,
    pub constraints: Vec<(String, RoleCountConstraint)>,
    pub role_constraints: Option<JVal>,
    pub default_lineup: Option<JVal>,
    pub members: Vec<LibraryBandMember>,
    pub contacts: Vec<LibraryContact>,
    pub messages: Vec<LibraryMessage>,
}

/// A musician of the shared library.
#[derive(Debug)]
pub struct LibraryMusician {
    pub id: String,
    pub name: String,
    pub gender: Option<String>,
    pub default_roles: Vec<String>,
    pub notes: Option<String>,
}

/// An instrument of the shared library.
#[derive(Debug)]
pub struct LibraryInstrument {
    pub id: String,
    pub name: String,
    pub key: String,
    pub channels: usize,
    pub stereo_mode: Option<String>,
    pub notes: Option<String>,
}

impl Keyed for LibraryBand {
    open spec fn key(&self) -> Seq<char> {
        self.id@
    }

    fn key_ref(&self) -> (r: &str) {
        self.id.as_str()
    }
}

impl Keyed for LibraryMusician {
    open spec fn key(&self) -> Seq<char> {
        self.id@
    }

    fn key_ref(&self) -> (r: &str) {
        self.id.as_str()
    }
}

impl Keyed for LibraryInstrument {
    open spec fn key(&self) -> Seq<char> {
        self.id@
    }

    fn key_ref(&self) -> (r: &str) {
        self.id.as_str()
    }
}

impl Keyed for LibraryContact {
    open spec fn key(&self) -> Seq<char> {
        self.id@
    }

    fn key_ref(&self) -> (r: &str) {
        self.id.as_str()
    }
}

impl Keyed for LibraryMessage {
    open spec fn key(&self) -> Seq<char> {
        self.id@
    }

    fn key_ref(&self) -> (r: &str) {
        self.id.as_str()
    }
}

/// Whether another band already uses this band's code, compared
/// case-insensitively.
pub open spec fn code_clash(s: Seq<LibraryBand>, b: LibraryBand) -> bool {
    exists|i: int|
        0 <= i < s.len() && (#[trigger] s[i]).id@ != b.id@ && lower_seq(s[i].code@) == lower_seq(
            b.code@,
        )
}

/// Upserts a band: requires a non-blank id, name, and code, and rejects a
/// code already used by another band (case-insensitively); then replaces
/// the band with the same id or appends it.
pub fn upsert_library_band(items: Vec<LibraryBand>, band: LibraryBand) -> (r: Result<
    Vec<LibraryBand>,
    ApiError,
>)
    ensures
        match r {
            Ok(out) => {
                &&& trim_spec(band.name@).len() > 0
                &&& trim_spec(band.code@).len() > 0
                &&& trim_spec(band.id@).len() > 0
                &&& !code_clash(items@, band)
                &&& out@ == upsert_seq(items@, band)
            },
            Err(e) => {
                &&& (trim_spec(band.name@).len() == 0 || trim_spec(band.code@).len() == 0
                    || trim_spec(band.id@).len() == 0 || code_clash(items@, band))
                &&& e.code@ == "LIBRARY_VALIDATION_FAILED"@
                &&& ((trim_spec(band.name@).len() == 0 || trim_spec(band.code@).len() == 0
                    || trim_spec(band.id@).len() == 0) ==> e.message@
                    == "Band id, name, and code are required."@)
                &&& (!(trim_spec(band.name@).len() == 0 || trim_spec(band.code@).len() == 0
                    || trim_spec(band.id@).len() == 0) ==> code_clash(items@, band) && e.message@
                    == "Band code '"@ + band.code@ + "' is already used."@)
            },
        },
{
    let name_t = trim_str(band.name.as_str());
    let code_t = trim_str(band.code.as_str());
    let id_t = trim_str(band.id.as_str());
    if name_t.as_str().unicode_len() == 0 || code_t.as_str().unicode_len() == 0
        || id_t.as_str().unicode_len() == 0 {
        return Err(api_error("LIBRARY_VALIDATION_FAILED", "Band id, name, and code are required."));
    }
    let band_code_lower = to_lower(band.code.as_str());
    let mut i: usize = 0;
    while i < items.len()
        invariant
            i <= items@.len(),
            band_code_lower@ == lower_seq(band.code@),
            trim_spec(band.name@).len() > 0,
            trim_spec(band.code@).len() > 0,
            trim_spec(band.id@).len() > 0,
            forall|j: int|
                0 <= j < i ==> !((#[trigger] items@[j]).id@ != band.id@ && lower_seq(
                    items@[j].code@,
                ) == lower_seq(band.code@)),
        decreases items@.len() - i,
    {
        let other = !str_eq(items[i].id.as_str(), band.id.as_str());
        if other {
            let other_code_lower = to_lower(items[i].code.as_str());
            if str_eq(other_code_lower.as_str(), band_code_lower.as_str()) {
                proof {
                    assert((items@[i as int]).id@ != band.id@ && lower_seq(items@[i as int].code@)
                        == lower_seq(band.code@));
                }
                let mut m = "Band code '".to_owned();
                m.append(band.code.as_str());
                m.append("' is already used.");
                proof {
                    assert(m@ =~= "Band code '"@ + band.code@ + "' is already used."@);
                }
                return Err(api_error_msg("LIBRARY_VALIDATION_FAILED", m));
            }
        }
        i = i + 1;
    }
    Ok(upsert_item(items, band))
}

/// Upserts a musician: requires a non-blank id and name; then replaces the
/// musician with the same id or appends it.
pub fn upsert_library_musician(items: Vec<LibraryMusician>, musician: LibraryMusician) -> (r:
    Result<Vec<LibraryMusician>, ApiError>)
    ensures
        match r {
            Ok(out) => {
                &&& trim_spec(musician.id@).len() > 0
                &&& trim_spec(musician.name@).len() > 0
                &&& out@ == upsert_seq(items@, musician)
            },
            Err(e) => {
                &&& (trim_spec(musician.id@).len() == 0 || trim_spec(musician.name@).len() == 0)
                &&& e.code@ == "LIBRARY_VALIDATION_FAILED"@
                &&& e.message@ == "Musician id and name are required."@
            },
        },
{
    let id_t = trim_str(musician.id.as_str());
    let name_t = trim_str(musician.name.as_str());
    if id_t.as_str().unicode_len() == 0 || name_t.as_str().unicode_len() == 0 {
        return Err(api_error("LIBRARY_VALIDATION_FAILED", "Musician id and name are required."));
    }
    Ok(upsert_item(items, musician))
}

/// Whether any listed project references the band.
pub open spec fn band_referenced(projects: Seq<ProjectSummary>, band_id: Seq<char>) -> bool {
    exists|i: int|
        0 <= i < projects.len() && opt_key_view((#[trigger] projects[i]).band_ref) == Some(band_id)
}

/// Deletes a band: refused while any existing project references it via
/// `bandRef`; otherwise removes exactly the records with that id.
pub fn delete_library_band(
    projects: &Vec<ProjectSummary>,
    items: Vec<LibraryBand>,
    band_id: &str,
) -> (r: Result<Vec<LibraryBand>, ApiError>)
    ensures
        match r {
            Ok(out) => !band_referenced(projects@, band_id@) && out@ == remove_key_seq(
                items@,
                band_id@,
            ),
            Err(e) => band_referenced(projects@, band_id@) && e.code@
                == "LIBRARY_DELETE_BLOCKED"@,
        },
{
    let mut i: usize = 0;
    while i < projects.len()
        invariant
            i <= projects@.len(),
            forall|j: int|
                0 <= j < i ==> opt_key_view((#[trigger] projects@[j]).band_ref) != Some(band_id@),
        decreases projects@.len() - i,
    {
        let hit = match &projects[i].band_ref {
            Some(b) => str_eq(b.as_str(), band_id),
            None => false,
        };
        if hit {
            return Err(
                api_error(
                    "LIBRARY_DELETE_BLOCKED",
                    "Band is referenced by existing projects and cannot be deleted.",
                ),
            );
        }
        i = i + 1;
    }
    Ok(remove_key_items(items, band_id))
}

/// Whether any band's member list references the musician.
pub open spec fn musician_referenced(bands: Seq<LibraryBand>, musician_id: Seq<char>) -> bool {
    exists|i: int, j: int|
        0 <= i < bands.len() && 0 <= j < (#[trigger] bands[i]).members@.len()
            && (#[trigger] bands[i].members@[j]).musician_id@ == musician_id
}

/// Deletes a musician: refused while any band's member list references it;
/// otherwise removes exactly the records with that id.
pub fn delete_library_musician(
    bands: &Vec<LibraryBand>,
    items: Vec<LibraryMusician>,
    musician_id: &str,
) -> (r: Result<Vec<LibraryMusician>, ApiError>)
    ensures
        match r {
            Ok(out) => !musician_referenced(bands@, musician_id@) && out@ == remove_key_seq(
                items@,
                musician_id@,
            ),
            Err(e) => musician_referenced(bands@, musician_id@) && e.code@
                == "LIBRARY_DELETE_BLOCKED"@,
        },
{
    let mut i: usize = 0;
    while i < bands.len()
        invariant
            i <= bands@.len(),
            forall|ii: int, j: int|
                0 <= ii < i && 0 <= j < (#[trigger] bands@[ii]).members@.len() ==> (
                #[trigger] bands@[ii].members@[j]).musician_id@ != musician_id@,
        decreases bands@.len() - i,
    {
        let members = &bands[i].members;
        let mut j: usize = 0;
        while j < members.len()
            invariant
                i < bands@.len(),
                members == bands@[i as int].members,
                j <= members@.len(),
                forall|jj: int|
                    0 <= jj < j ==> (#[trigger] members@[jj]).musician_id@ != musician_id@,
            decreases members@.len() - j,
        {
            if str_eq(members[j].musician_id.as_str(), musician_id) {
                return Err(
                    api_error(
                        "LIBRARY_DELETE_BLOCKED",
                        "Musician is referenced by a band and cannot be deleted.",
                    ),
                );
            }
            j = j + 1;
        }
        i = i + 1;
    }
    Ok(remove_key_items(items, musician_id))
}

/// Upserts an instrument.
pub fn upsert_library_instrument(items: Vec<LibraryInstrument>, instrument: LibraryInstrument) -> (r:
    Vec<LibraryInstrument>)
    ensures
        r@ == upsert_seq(items@, instrument),
{
    upsert_item(items, instrument)
}

/// Deletes an instrument by id.
pub fn delete_library_instrument(items: Vec<LibraryInstrument>, instrument_id: &str) -> (r: Vec<
    LibraryInstrument,
>)
    ensures
        r@ == remove_key_seq(items@, instrument_id@),
{
    remove_key_items(items, instrument_id)
}

/// Upserts a contact.
pub fn upsert_library_contact(items: Vec<LibraryContact>, contact: LibraryContact) -> (r: Vec<
    LibraryContact,
>)
    ensures
        r@ == upsert_seq(items@, contact),
{
    upsert_item(items, contact)
}

/// Deletes a contact by id.
pub fn delete_library_contact(items: Vec<LibraryContact>, contact_id: &str) -> (r: Vec<
    LibraryContact,
>)
    ensures
        r@ == remove_key_seq(items@, contact_id@),
{
    remove_key_items(items, contact_id)
}

/// Upserts a message template.
pub fn upsert_library_message(items: Vec<LibraryMessage>, message_item: LibraryMessage) -> (r: Vec<
    LibraryMessage,
>)
    ensures
        r@ == upsert_seq(items@, message_item),
{
    upsert_item(items, message_item)
}

/// Deletes a message template by id.
pub fn delete_library_message(items: Vec<LibraryMessage>, message_id: &str) -> (r: Vec<
    LibraryMessage,
>)
    ensures
        r@ == remove_key_seq(items@, message_id@),
{
    remove_key_items(items, message_id)
}

/// Equality of optional JSON values, by structure.
pub open spec fn opt_jval_eqv(a: Option<JVal>, b: Option<JVal>) -> bool {
    match a {
        Some(x) => b matches Some(y) && jval_eqv(x, y),
        None => b is None,
    }
}

/// Equality of band members, by content.
pub open spec fn member_eqv(a: LibraryBandMember, b: LibraryBandMember) -> bool {
    a.musician_id == b.musician_id && a.roles@ == b.roles@ && a.is_default == b.is_default
}

/// Equality of everything in a band except its id, name, and code.
pub open spec fn band_rest_eqv(a: LibraryBand, b: LibraryBand) -> bool {
    &&& a.description == b.description
    &&& a.constraints@ == b.constraints@
    &&& opt_jval_eqv(a.role_constraints, b.role_constraints)
    &&& opt_jval_eqv(a.default_lineup, b.default_lineup)
    &&& a.members@.len() == b.members@.len()
    &&& forall|i: int|
        0 <= i < a.members@.len() ==> member_eqv(#[trigger] a.members@[i], b.members@[i])
    &&& a.contacts@ == b.contacts@
    &&& a.messages@ == b.messages@
}

fn copy_opt_string(o: &Option<String>) -> (r: Option<String>)
    ensures
        r == *o,
{
    match o {
        Some(s) => Some(s.clone()),
        None => None,
    }
}

fn copy_strings(v: &Vec<String>) -> (r: Vec<String>)
    ensures
        r@ == v@,
{
    let mut r: Vec<String> = Vec::new();
    let mut i: usize = 0;
    while i < v.len()
        invariant
            i <= v@.len(),
            r@ =~= v@.take(i as int),
        decreases v@.len() - i,
    {
        r.push(v[i].clone());
        i = i + 1;
        proof {
            assert(r@ =~= v@.take(i as int));
        }
    }
    proof {
        assert(v@.take(v@.len() as int) =~= v@);
    }
    r
}

fn copy_members(v: &Vec<LibraryBandMember>) -> (r: Vec<LibraryBandMember>)
    ensures
        r@.len() == v@.len(),
        forall|i: int| 0 <= i < v@.len() ==> member_eqv(#[trigger] r@[i], v@[i]),
{
    let mut r: Vec<LibraryBandMember> = Vec::new();
    let mut i: usize = 0;
    while i < v.len()
        invariant
            i <= v@.len(),
            r@.len() == i,
            forall|j: int| 0 <= j < i ==> member_eqv(#[trigger] r@[j], v@[j]),
        decreases v@.len() - i,
    {
        let m = &v[i];
        r.push(
            LibraryBandMember {
                musician_id: m.musician_id.clone(),
                roles: copy_strings(&m.roles),
                is_default: m.is_default,
            },
        );
        i = i + 1;
    }
    r
}

fn copy_contacts(v: &Vec<LibraryContact>) -> (r: Vec<LibraryContact>)
    ensures
        r@ == v@,
{
    let mut r: Vec<LibraryContact> = Vec::new();
    let mut i: usize = 0;
    while i < v.len()
        invariant
            i <= v@.len(),
            r@ =~= v@.take(i as int),
        decreases v@.len() - i,
    {
        let c = &v[i];
        r.push(
            LibraryContact {
                id: c.id.clone(),
                name: c.name.clone(),
                title: copy_opt_string(&c.title),
                phone: copy_opt_string(&c.phone),
                email: copy_opt_string(&c.email),
                note: copy_opt_string(&c.note),
                primary: match c.primary {
                    Some(b) => Some(b),
                    None => None,
                },
            },
        );
        i = i + 1;
        proof {
            assert(r@ =~= v@.take(i as int));
        }
    }
    proof {
        assert(v@.take(v@.len() as int) =~= v@);
    }
    r
}

fn copy_messages(v: &Vec<LibraryMessage>) -> (r: Vec<LibraryMessage>)
    ensures
        r@ == v@,
{
    let mut r: Vec<LibraryMessage> = Vec::new();
    let mut i: usize = 0;
    while i < v.len()
        invariant
            i <= v@.len(),
            r@ =~= v@.take(i as int),
        decreases v@.len() - i,
    {
        let m = &v[i];
        r.push(LibraryMessage { id: m.id.clone(), name: m.name.clone(), body: m.body.clone() });
        i = i + 1;
        proof {
            assert(r@ =~= v@.take(i as int));
        }
    }
    proof {
        assert(v@.take(v@.len() as int) =~= v@);
    }
    r
}

fn copy_constraints(v: &Vec<(String, RoleCountConstraint)>) -> (r: Vec<
    (String, RoleCountConstraint),
>)
    ensures
        r@ == v@,
{
    let mut r: Vec<(String, RoleCountConstraint)> = Vec::new();
    let mut i: usize = 0;
    while i < v.len()
        invariant
            i <= v@.len(),
            r@ =~= v@.take(i as int),
        decreases v@.len() - i,
    {
        r.push((v[i].0.clone(), v[i].1));
        i = i + 1;
        proof {
            assert(r@ =~= v@.take(i as int));
        }
    }
    proof {
        assert(v@.take(v@.len() as int) =~= v@);
    }
    r
}

fn copy_opt_jval(o: &Option<JVal>) -> (r: Option<JVal>)
    ensures
        opt_jval_eqv(r, *o),
{
    match o {
        Some(v) => Some(v.duplicate()),
        None => None,
    }
}

/// A copy of a band carrying new identity fields.
fn make_band_copy(b: &LibraryBand, id: String, name: String, code: String) -> (r: LibraryBand)
    ensures
        r.id == id,
        r.name == name,
        r.code == code,
        band_rest_eqv(r, *b),
{
    LibraryBand {
        id,
        name,
        code,
        description: copy_opt_string(&b.description),
        constraints: copy_constraints(&b.constraints),
        role_constraints: copy_opt_jval(&b.role_constraints),
        default_lineup: copy_opt_jval(&b.default_lineup),
        members: copy_members(&b.members),
        contacts: copy_contacts(&b.contacts),
        messages: copy_messages(&b.messages),
    }
}

/// The copy-identifier suffix.
pub open spec fn copy_suffix() -> Seq<char> {
    seq!['_', 'c', 'o', 'p', 'y']
}

/// The name suffix of a duplicated band.
pub open spec fn name_copy_suffix() -> Seq<char> {
    seq![' ', 'C', 'o', 'p', 'y']
}

/// The code infix of a duplicated band.
pub open spec fn code_copy_infix() -> Seq<char> {
    seq!['-', 'C', 'O', 'P', 'Y']
}

/// The k-th candidate identifier for a duplicate of `base`: `base_copy`
/// first, then `base_copy_2`, `base_copy_3`, and so on.
pub open spec fn copy_id_candidate(base: Seq<char>, k: u64) -> Seq<char> {
    if k == 1 {
        base + copy_suffix()
    } else {
        base + copy_suffix() + seq!['_'] + crate::text::spec_dec(k)
    }
}

/// Distinct candidate numbers give distinct duplicate identifiers.
proof fn lemma_copy_id_injective(base: Seq<char>, j: u64, k: u64)
    requires
        1 <= j,
        1 <= k,
        copy_id_candidate(base, j) == copy_id_candidate(base, k),
    ensures
        j == k,
{
    crate::text::lemma_spec_dec_len(j);
    crate::text::lemma_spec_dec_len(k);
    if j == 1 && k == 1 {
    } else if j == 1 {
        assert(copy_id_candidate(base, j).len() == base.len() + 5);
        assert(copy_id_candidate(base, k).len() >= base.len() + 7);
    } else if k == 1 {
        assert(copy_id_candidate(base, k).len() == base.len() + 5);
        assert(copy_id_candidate(base, j).len() >= base.len() + 7);
    } else {
        let dj = crate::text::spec_dec(j);
        let dk = crate::text::spec_dec(k);
        assert(copy_id_candidate(base, j).len() == base.len() + 6 + dj.len());
        assert(copy_id_candidate(base, k).len() == base.len() + 6 + dk.len());
        assert(dj.len() == dk.len());
        assert forall|i: int| 0 <= i < dj.len() implies dj[i] == dk[i] by {
            assert(copy_id_candidate(base, j)[base.len() + 6 + i] == dj[i]);
            assert(copy_id_candidate(base, k)[base.len() + 6 + i] == dk[i]);
        }
        assert(dj =~= dk);
        crate::text::lemma_spec_dec_injective(j, k);
    }
}

/// If k pairwise distinct identifiers all occur in the collection, it holds
/// at least k records.
proof fn lemma_distinct_keys_bound<T: Keyed>(items: Seq<T>, base: Seq<char>, k: u64)
    requires
        1 <= k,
        forall|j: u64| 1 <= j <= k ==> has_key(items, #[trigger] copy_id_candidate(base, j)),
    ensures
        k <= items.len(),
{
    broadcast use vstd::seq_lib::seq_to_set_is_finite;

    let cands = Seq::new(k as nat, |i: int| copy_id_candidate(base, (i + 1) as u64));
    let keys = items.map_values(|t: T| t.key());
    assert forall|p: int, q: int|
        0 <= p < cands.len() && 0 <= q < cands.len() && p != q implies cands[p] != cands[q] by {
        if cands[p] == cands[q] {
            lemma_copy_id_injective(base, (p + 1) as u64, (q + 1) as u64);
        }
    }
    assert(cands.no_duplicates());
    assert forall|i: int| 0 <= i < cands.len() implies keys.contains(cands[i]) by {
        assert(has_key(items, copy_id_candidate(base, (i + 1) as u64)));
        lemma_has_key_exists(items, cands[i]);
        let l = choose|l: int| 0 <= l < items.len() && (#[trigger] items[l].key()) == cands[i];
        assert(keys[l] == cands[i]);
    }
    cands.unique_seq_to_set();
    keys.lemma_cardinality_of_set();
    assert(cands.to_set().subset_of(keys.to_set())) by {
        assert forall|x: Seq<char>| cands.to_set().contains(x) implies keys.to_set().contains(
            x,
        ) by {
            assert(cands.contains(x));
            let i = choose|i: int| 0 <= i < cands.len() && cands[i] == x;
            assert(keys.contains(cands[i]));
        }
    }
    vstd::set_lib::lemma_len_subset(cands.to_set(), keys.to_set());
}

/// What a successful duplication yields: a copy of the resolved band under
/// the first free `_copy` identifier, its name suffixed with " Copy" and
/// its code with "-COPY" and the tiebreak number, appended to the
/// collection.
pub open spec fn duplicate_post(
    items: Seq<LibraryBand>,
    band_id: Seq<char>,
    out: Seq<LibraryBand>,
    dup: LibraryBand,
) -> bool {
    let existing = items[key_idx(items, band_id)];
    &&& has_key(items, band_id)
    &&& (exists|k: u64|
        {
            &&& 1 <= k
            &&& dup.id@ == copy_id_candidate(existing.id@, k)
            &&& !has_key(items, #[trigger] copy_id_candidate(existing.id@, k))
            &&& (forall|j: u64|
                1 <= j < k ==> has_key(items, #[trigger] copy_id_candidate(existing.id@, j)))
            &&& dup.name@ == existing.name@ + name_copy_suffix()
            &&& dup.code@ == existing.code@ + code_copy_infix() + crate::text::spec_dec(k)
        })
    &&& band_rest_eqv(dup, existing)
    &&& out.len() == items.len() + 1
    &&& out.take(items.len() as int) == items
    &&& out.last().id == dup.id
    &&& out.last().name == dup.name
    &&& out.last().code == dup.code
    &&& band_rest_eqv(out.last(), existing)
}

/// Duplicates a band: the copy takes the first unused `base_copy` /
/// `base_copy_N` identifier, the name gains a " Copy" suffix, the code a
/// "-COPY<n>" suffix with the tiebreak number, and the copy is appended.
pub fn duplicate_library_band(items: Vec<LibraryBand>, band_id: &str) -> (r: Result<
    (Vec<LibraryBand>, LibraryBand),
    ApiError,
>)
    requires
        items@.len() < usize::MAX,
    ensures
        match r {
            Ok(p) => duplicate_post(items@, band_id@, p.0@, p.1),
            Err(e) => !has_key(items@, band_id@) && e.code@ == "LIBRARY_NOT_FOUND"@
                && e.message@ == "Band not found: "@ + band_id@,
        },
{
    proof {
        reveal_strlit("_copy");
        assert("_copy"@ =~= copy_suffix());
        reveal_strlit("_copy_");
        assert("_copy_"@ =~= copy_suffix() + seq!['_']);
        reveal_strlit(" Copy");
        assert(" Copy"@ =~= name_copy_suffix());
        reveal_strlit("-COPY");
        assert("-COPY"@ =~= code_copy_infix());
    }
    let idx = match find_key(&items, band_id) {
        Some(i) => i,
        None => {
            let mut m = "Band not found: ".to_owned();
            m.append(band_id);
            proof {
                assert(m@ =~= "Band not found: "@ + band_id@);
            }
            return Err(api_error_msg("LIBRARY_NOT_FOUND", m));
        },
    };
    proof {
        lemma_key_idx(items@, band_id@);
    }
    let n = items.len();
    let mut k: u64 = 1;
    let ghost base = items@[idx as int].id@;
    loop
        invariant
            items@.len() < usize::MAX,
            n == items@.len(),
            idx < n,
            base == items@[idx as int].id@,
            1 <= k <= n + 1,
            forall|j: u64| 1 <= j < k ==> has_key(items@, #[trigger] copy_id_candidate(base, j)),
            "_copy"@ =~= copy_suffix(),
            "_copy_"@ =~= copy_suffix() + seq!['_'],
            " Copy"@ =~= name_copy_suffix(),
            "-COPY"@ =~= code_copy_infix(),
        ensures
            1 <= k,
            !has_key(items@, copy_id_candidate(base, k)),
            forall|j: u64| 1 <= j < k ==> has_key(items@, #[trigger] copy_id_candidate(base, j)),
        decreases n + 1 - k,
    {
        let mut cand = items[idx].id.clone();
        if k == 1 {
            cand.append("_copy");
        } else {
            cand.append("_copy_");
            let d = crate::text::u64_to_dec(k);
            cand.append(d.as_str());
        }
        proof {
            assert(cand@ =~= copy_id_candidate(base, k));
        }
        let taken = match find_key(&items, cand.as_str()) {
            Some(_) => true,
            None => false,
        };
        if !taken {
            break ;
        }
        proof {
            assert(forall|j: u64|
                1 <= j <= k ==> has_key(items@, #[trigger] copy_id_candidate(base, j)));
            lemma_distinct_keys_bound(items@, base, k);
        }
        k = k + 1;
    }
    let mut new_id = items[idx].id.clone();
    if k == 1 {
        new_id.append("_copy");
    } else {
        new_id.append("_copy_");
        let d = crate::text::u64_to_dec(k);
        new_id.append(d.as_str());
    }
    proof {
        assert(new_id@ =~= copy_id_candidate(base, k));
    }
    let mut new_name = items[idx].name.clone();
    new_name.append(" Copy");
    let mut new_code = items[idx].code.clone();
    new_code.append("-COPY");
    let dk = crate::text::u64_to_dec(k);
    new_code.append(dk.as_str());
    proof {
        assert(new_name@ =~= items@[idx as int].name@ + name_copy_suffix());
        assert(new_code@ =~= items@[idx as int].code@ + code_copy_infix()
            + crate::text::spec_dec(k));
    }
    let pushed = make_band_copy(&items[idx], new_id.clone(), new_name.clone(), new_code.clone());
    let returned = make_band_copy(&items[idx], new_id, new_name, new_code);
    let ghost items0 = items@;
    let mut items = items;
    proof {
        lemma_has_key_exists(items@, pushed.key());
    }
    items.push(pushed);
    proof {
        assert(items@.take(items0.len() as int) =~= items0);
    }
    Ok((items, returned))
}

/// The bands keyed by lower-cased name, for sorting.
pub open spec fn band_keyed(s: Seq<LibraryBand>) -> Seq<(Seq<char>, LibraryBand)> {
    s.map_values(|b: LibraryBand| (lower_seq(b.name@), b))
}

/// The musicians keyed by lower-cased name, for sorting.
pub open spec fn musician_keyed(s: Seq<LibraryMusician>) -> Seq<(Seq<char>, LibraryMusician)> {
    s.map_values(|m: LibraryMusician| (lower_seq(m.name@), m))
}

/// Lists the band collection sorted by lower-cased name, stably.
pub fn list_library_bands(items: Vec<LibraryBand>) -> (r: Vec<LibraryBand>)
    ensures
        r@ == crate::sorting::strip_keys(crate::sorting::sort_asc(band_keyed(items@))),
{
    let mut items = items;
    let ghost orig = items@;
    let mut pairs: Vec<(String, LibraryBand)> = Vec::new();
    while items.len() > 0
        invariant
            pairs@.len() + items@.len() == orig.len(),
            items@ =~= orig.skip(pairs@.len() as int),
            crate::sorting::key_views(pairs@) =~= band_keyed(orig.take(pairs@.len() as int)),
        decreases items@.len(),
    {
        let ghost done = pairs@.len();
        proof {
            assert(items@[0] == orig.skip(done as int)[0]);
            assert(orig.skip(done as int)[0] == orig[done as int]);
        }
        let b = items.remove(0);
        proof {
            assert(b == orig[done as int]);
        }
        let key = to_lower(b.name.as_str());
        let ghost prev = pairs@;
        pairs.push((key, b));
        proof {
            assert(items@ =~= orig.skip(pairs@.len() as int));
            assert forall|j: int| 0 <= j < pairs@.len() implies crate::sorting::key_views(
                pairs@,
            )[j] == band_keyed(orig.take(pairs@.len() as int))[j] by {
                assert(orig.take(pairs@.len() as int)[j] == orig[j]);
                if j < prev.len() {
                    assert(pairs@[j] == prev[j]);
                    assert(crate::sorting::key_views(prev)[j] == band_keyed(
                        orig.take(done as int),
                    )[j]);
                    assert(orig.take(done as int)[j] == orig[j]);
                } else {
                    assert(pairs@[j] == (key, b));
                }
            }
            assert(crate::sorting::key_views(pairs@) =~= band_keyed(
                orig.take(pairs@.len() as int),
            ));
        }
    }
    proof {
        assert(orig.take(pairs@.len() as int) =~= orig);
    }
    let sorted = crate::sorting::sort_asc_exec(pairs);
    crate::sorting::strip_keys_exec(sorted)
}

/// Lists the musician collection sorted by lower-cased name, stably.
pub fn list_library_musicians(items: Vec<LibraryMusician>) -> (r: Vec<LibraryMusician>)
    ensures
        r@ == crate::sorting::strip_keys(crate::sorting::sort_asc(musician_keyed(items@))),
{
    let mut items = items;
    let ghost orig = items@;
    let mut pairs: Vec<(String, LibraryMusician)> = Vec::new();
    while items.len() > 0
        invariant
            pairs@.len() + items@.len() == orig.len(),
            items@ =~= orig.skip(pairs@.len() as int),
            crate::sorting::key_views(pairs@) =~= musician_keyed(orig.take(pairs@.len() as int)),
        decreases items@.len(),
    {
        let ghost done = pairs@.len();
        proof {
            assert(items@[0] == orig.skip(done as int)[0]);
            assert(orig.skip(done as int)[0] == orig[done as int]);
        }
        let m = items.remove(0);
        proof {
            assert(m == orig[done as int]);
        }
        let key = to_lower(m.name.as_str());
        let ghost prev = pairs@;
        pairs.push((key, m));
        proof {
            assert(items@ =~= orig.skip(pairs@.len() as int));
            assert forall|j: int| 0 <= j < pairs@.len() implies crate::sorting::key_views(
                pairs@,
            )[j] == musician_keyed(orig.take(pairs@.len() as int))[j] by {
                assert(orig.take(pairs@.len() as int)[j] == orig[j]);
                if j < prev.len() {
                    assert(pairs@[j] == prev[j]);
                    assert(crate::sorting::key_views(prev)[j] == musician_keyed(
                        orig.take(done as int),
                    )[j]);
                    assert(orig.take(done as int)[j] == orig[j]);
                } else {
                    assert(pairs@[j] == (key, m));
                }
            }
            assert(crate::sorting::key_views(pairs@) =~= musician_keyed(
                orig.take(pairs@.len() as int),
            ));
        }
    }
    proof {
        assert(orig.take(pairs@.len() as int) =~= orig);
    }
    let sorted = crate::sorting::sort_asc_exec(pairs);
    crate::sorting::strip_keys_exec(sorted)
}

/// Finds a band by id.
pub fn read_library_band<'a>(items: &'a Vec<LibraryBand>, band_id: &str) -> (r: Result<
    &'a LibraryBand,
    ApiError,
>)
    ensures
        match r {
            Ok(b) => has_key(items@, band_id@) && *b == items@[key_idx(items@, band_id@)],
            Err(e) => !has_key(items@, band_id@) && e.code@ == "LIBRARY_NOT_FOUND"@
                && e.message@ == "Band not found: "@ + band_id@,
        },
{
    match find_key(items, band_id) {
        Some(i) => {
            proof {
                lemma_key_idx(items@, band_id@);
            }
            Ok(&items[i])
        },
        None => {
            let mut m = "Band not found: ".to_owned();
            m.append(band_id);
            proof {
                assert(m@ =~= "Band not found: "@ + band_id@);
            }
            Err(api_error_msg("LIBRARY_NOT_FOUND", m))
        },
    }
}

/// With distinct ids, deleting an id present in the collection removes
/// exactly one record: the remaining records are all the others, in order.
pub proof fn lemma_remove_key_unique<T: Keyed>(s: Seq<T>, k: Seq<char>)
    requires
        forall|i: int, j: int| 0 <= i < j < s.len() ==> (#[trigger] s[i]).key() != (#[trigger] s[j]).key(),
        has_key(s, k),
    ensures
        remove_key_seq(s, k).len() == s.len() - 1,
        remove_key_seq(s, k) == s.remove(key_idx(s, k)),
    decreases s.len(),
{
    lemma_key_idx(s, k);
    let i0 = key_idx(s, k);
    if s.last().key() == k {
        lemma_has_key_exists(s.drop_last(), k);
        if has_key(s.drop_last(), k) {
            let w = choose|i: int|
                0 <= i < s.drop_last().len() && (#[trigger] s.drop_last()[i].key()) == k;
            assert(s.drop_last()[w] == s[w]);
            assert(s[w].key() == s[s.len() - 1].key());
            assert(false);
        }
        assert forall|j: int| 0 <= j < s.len() - 1 implies s[j].key() != k by {
            assert(s.drop_last()[j] == s[j]);
            lemma_has_key_exists(s.drop_last(), k);
        }
        lemma_key_idx_unique(s, k, s.len() - 1);
        assert(i0 == s.len() - 1);
        lemma_remove_key_none(s.drop_last(), k);
        assert(remove_key_seq(s, k) =~= s.remove(i0));
    } else {
        lemma_has_key_exists(s, k);
        lemma_has_key_exists(s.drop_last(), k);
        assert(s[i0] == s.drop_last()[i0]);
        lemma_key_idx(s.drop_last(), k);
        assert forall|j: int| 0 <= j < i0 implies s.drop_last()[j].key() != k by {
            assert(s.drop_last()[j] == s[j]);
        }
        lemma_key_idx_unique(s.drop_last(), k, i0);
        lemma_remove_key_unique(s.drop_last(), k);
        assert(remove_key_seq(s, k) =~= s.remove(i0));
    }
}

/// Removing an absent id leaves the collection unchanged.
pub proof fn lemma_remove_key_none<T: Keyed>(s: Seq<T>, k: Seq<char>)
    requires
        !has_key(s, k),
    ensures
        remove_key_seq(s, k) == s,
    decreases s.len(),
{
    lemma_key_idx(s, k);
    if s.len() > 0 {
        assert(s.last().key() != k);
        lemma_has_key_exists(s, k);
        lemma_has_key_exists(s.drop_last(), k);
        assert forall|i: int| 0 <= i < s.drop_last().len() implies (#[trigger] s.drop_last()[i]).key()
            != k by {
            assert(s.drop_last()[i] == s[i]);
        }
        if has_key(s.drop_last(), k) {
            let w = choose|i: int|
                0 <= i < s.drop_last().len() && (#[trigger] s.drop_last()[i].key()) == k;
        }
        lemma_remove_key_none(s.drop_last(), k);
        assert(remove_key_seq(s, k) =~= s);
    } else {
        assert(remove_key_seq(s, k) =~= s);
    }
}

/// The first-match index is pinned by its characterization.
proof fn lemma_key_idx_unique<T: Keyed>(s: Seq<T>, k: Seq<char>, i: int)
    requires
        0 <= i < s.len(),
        s[i].key() == k,
        forall|j: int| 0 <= j < i ==> s[j].key() != k,
    ensures
        key_idx(s, k) == i,
    decreases s.len(),
{
    if i > 0 {
        lemma_key_idx_unique(s.drop_first(), k, i - 1);
        assert(forall|j: int|
            0 <= j < s.drop_first().len() ==> #[trigger] s.drop_first()[j] == s[j + 1]);
    }
}

} // verus!
