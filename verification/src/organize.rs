//! The organization pipeline: collision-avoidance naming for the
//! relocator, the fixed extension-to-category mapping used for
//! auto-tagging, the decision step of automatic organization, and the
//! catalog writes that both the automatic and the manual path end in.
//! The filesystem moves themselves happen outside the library; the
//! decisions and catalog effects here are what they follow.
use vstd::prelude::*;
use crate::catalog::Catalog;
use crate::catalog::CatalogError;
use crate::catalog::FileRecord;
use crate::catalog::file_id_at_path;
use crate::catalog::files_except;
use crate::catalog::has_tag_name;
use crate::catalog::link_insert;
use crate::catalog::links_without_file;
use crate::rules::match_destination_spec;
use crate::text::lower_seq;
use crate::text::str_eq;
use crate::timestamp::Timestamp;
use crate::timestamp::format_timestamp;
use crate::timestamp::now_utc_parts;
use crate::timestamp::timestamp_digits;
use crate::utils::is_file;
use crate::utils::join_seq;
use crate::utils::path_exists;
use crate::utils::path_extension_of;

verus! {

/// The collision-avoidance name `{stem}_{YYYYMMDDHHMMSS}.{extension}`.
pub open spec fn collision_name_seq(stem: Seq<char>, ts: Timestamp, ext: Seq<char>) -> Seq<char> {
    stem + seq!['_'] + timestamp_digits(ts) + seq!['.'] + ext
}

/// Build the collision-avoidance name for a stem and extension at a
/// given timestamp.
pub fn collision_name(stem: &str, ts: &Timestamp, ext: &str) -> (r: String)
    requires
        ts.wf(),
    ensures
        r@ == collision_name_seq(stem@, *ts, ext@),
{
    proof {
        reveal_strlit("_");
        reveal_strlit(".");
    }
    let mut out: String = stem.to_owned();
    out.append("_");
    let t = format_timestamp(ts);
    out.append(t.as_str());
    out.append(".");
    out.append(ext);
    proof {
        assert(out@ =~= collision_name_seq(stem@, *ts, ext@));
    }
    out
}

/// The final name of a relocated file: the original name when the
/// candidate destination is free, else the collision-avoidance name.
pub open spec fn resolved_name_seq(
    file_name: Seq<char>,
    stem: Seq<char>,
    ext: Seq<char>,
    occupied: bool,
    ts: Timestamp,
) -> Seq<char> {
    if occupied {
        collision_name_seq(stem, ts, ext)
    } else {
        file_name
    }
}

/// Resolve the destination file name: keep `file_name` when the
/// candidate is free, else stamp stem and extension with the timestamp.
pub fn resolve_collision(
    file_name: &str,
    stem: &str,
    ext: &str,
    occupied: bool,
    ts: &Timestamp,
) -> (r: String)
    requires
        ts.wf(),
    ensures
        r@ == resolved_name_seq(file_name@, stem@, ext@, occupied, *ts),
{
    if occupied {
        collision_name(stem, ts, ext)
    } else {
        file_name.to_owned()
    }
}

/// The collision name for a timestamp, exactly when the timestamp's
/// fields are well formed; `None` otherwise.
pub fn checked_collision_name(stem: &str, ts: &Timestamp, ext: &str) -> (r: Option<String>)
    ensures
        r is Some <==> ts.wf(),
        r matches Some(s) ==> s@ == collision_name_seq(stem@, *ts, ext@),
{
    if 0 <= ts.year && ts.year <= 9999 && 1 <= ts.month && ts.month <= 12 && 1 <= ts.day
        && ts.day <= 31 && ts.hour <= 23 && ts.minute <= 59 && ts.second <= 59 {
        Some(collision_name(stem, ts, ext))
    } else {
        None
    }
}

/// Collision name stamped with the clock's current UTC time; `None`
/// when the clock is unreadable or its year needs more than four
/// digits (never observed in practice). The decision sits in
/// `checked_collision_name`; only the clock read itself is unpromised.
pub fn timestamped_name_now(stem: &str, ext: &str) -> (r: Option<String>)
    ensures
        r matches Some(s) ==> exists|ts: Timestamp|
            ts.wf() && s@ == #[trigger] collision_name_seq(stem@, ts, ext@),
{
    match now_utc_parts() {
        None => None,
        Some(ts) => checked_collision_name(stem, &ts, ext),
    }
}

/// Shape of a collision-resolved name: the original stem, an underscore,
/// fourteen decimal digits, a dot, and the original extension.
pub proof fn lemma_collision_name_shape(stem: Seq<char>, ts: Timestamp, ext: Seq<char>)
    requires
        ts.wf(),
    ensures
        collision_name_seq(stem, ts, ext).len() == stem.len() + ext.len() + 16,
        collision_name_seq(stem, ts, ext).subrange(0, stem.len() as int) == stem,
        collision_name_seq(stem, ts, ext)[stem.len() as int] == '_',
        collision_name_seq(stem, ts, ext).subrange(stem.len() as int + 1, stem.len() as int + 15)
            == timestamp_digits(ts),
        forall|i: int|
            stem.len() + 1 <= i < stem.len() + 15 ==> crate::timestamp::is_digit_char(
                #[trigger] collision_name_seq(stem, ts, ext)[i],
            ),
        collision_name_seq(stem, ts, ext)[stem.len() as int + 15] == '.',
        collision_name_seq(stem, ts, ext).subrange(
            stem.len() as int + 16,
            collision_name_seq(stem, ts, ext).len() as int,
        ) == ext,
{
    crate::timestamp::lemma_timestamp_digits_shape(ts);
    let s = collision_name_seq(stem, ts, ext);
    assert(s.subrange(0, stem.len() as int) =~= stem);
    assert(s.subrange(stem.len() as int + 1, stem.len() as int + 15) =~= timestamp_digits(ts));
    assert(s.subrange(stem.len() as int + 16, s.len() as int) =~= ext);
}

/// The fixed built-in mapping from an extension to the category tag used
/// for auto-tagging. It mirrors the seed rules and does not follow
/// user-edited rule destinations.
pub open spec fn auto_tag_of(ext: Seq<char>) -> Option<Seq<char>> {
    let e = lower_seq(ext);
    if e == "pdf"@ || e == "doc"@ || e == "docx"@ || e == "txt"@ || e == "rtf"@ || e == "odt"@ {
        Some("Documents"@)
    } else if e == "jpg"@ || e == "jpeg"@ || e == "png"@ || e == "gif"@ || e == "bmp"@
        || e == "webp"@ || e == "svg"@ {
        Some("Images"@)
    } else if e == "mp4"@ || e == "avi"@ || e == "mov"@ || e == "wmv"@ || e == "mkv"@
        || e == "webm"@ {
        Some("Videos"@)
    } else if e == "mp3"@ || e == "wav"@ || e == "flac"@ || e == "ogg"@ || e == "aac"@ {
        Some("Music"@)
    } else if e == "zip"@ || e == "rar"@ || e == "7z"@ || e == "tar"@ || e == "gz"@ {
        Some("Archives"@)
    } else {
        None
    }
}

/// The built-in category tag name for an extension, if any.
pub fn auto_tag_name(ext: &str) -> (r: Option<String>)
    ensures
        r is Some <==> auto_tag_of(ext@) is Some,
        r matches Some(n) ==> n@ == auto_tag_of(ext@)->0,
{
    let lowered = crate::text::lower_str(ext);
    let e = lowered.as_str();
    if str_eq(e, "pdf") || str_eq(e, "doc") || str_eq(e, "docx") || str_eq(e, "txt") || str_eq(
        e,
        "rtf",
    ) || str_eq(e, "odt") {
        Some("Documents".to_owned())
    } else if str_eq(e, "jpg") || str_eq(e, "jpeg") || str_eq(e, "png") || str_eq(e, "gif")
        || str_eq(e, "bmp") || str_eq(e, "webp") || str_eq(e, "svg") {
        Some("Images".to_owned())
    } else if str_eq(e, "mp4") || str_eq(e, "avi") || str_eq(e, "mov") || str_eq(e, "wmv")
        || str_eq(e, "mkv") || str_eq(e, "webm") {
        Some("Videos".to_owned())
    } else if str_eq(e, "mp3") || str_eq(e, "wav") || str_eq(e, "flac") || str_eq(e, "ogg")
        || str_eq(e, "aac") {
        Some("Music".to_owned())
    } else if str_eq(e, "zip") || str_eq(e, "rar") || str_eq(e, "7z") || str_eq(e, "tar")
        || str_eq(e, "gz") {
        Some("Archives".to_owned())
    } else {
        None
    }
}

/// Why an organization step failed.
#[derive(Clone, Copy, Debug, PartialEq, Eq, Structural)]
pub enum OrganizeError {
    /// No home directory is known, so a rule destination cannot be rooted.
    HomeDirUnavailable,
    /// The catalog refused the write.
    Catalog(CatalogError),
}

/// Relies on `dirs::home_dir`: the current user's home directory, if the
/// platform knows one. No contract is stated; the answer depends on the
/// machine and its environment.
#[verifier::external_body]
fn home_dir_path() -> (r: Option<String>) {
    dirs::home_dir().map(|p| p.to_string_lossy().to_string())
}

/// The absolute destination folder that the rules give an extension: the
/// first matching rule's destination, rooted under the home directory.
/// `Ok(None)` exactly when no rule matches; fails when a rule matches but
/// no home directory is known.
pub fn rule_destination_path(catalog: &Catalog, extension: &str) -> (r: Result<
    Option<String>,
    OrganizeError,
>)
    ensures
        match_destination_spec(catalog.rules@, extension@) is None <==> r == Result::<
            Option<String>,
            OrganizeError,
        >::Ok(None),
        r matches Ok(p) ==> (p matches Some(full) ==> match_destination_spec(
            catalog.rules@,
            extension@,
        ) matches Some(dst) && exists|h: Seq<char>| full@ == #[trigger] join_seq(h, dst)),
        r matches Err(e) ==> e == OrganizeError::HomeDirUnavailable && match_destination_spec(
            catalog.rules@,
            extension@,
        ) is Some,
{
    match catalog.match_destination(extension) {
        None => Ok(None),
        Some(dest) => match home_dir_path() {
            None => Err(OrganizeError::HomeDirUnavailable),
            Some(home) => {
                let full = crate::utils::join_path(home.as_str(), dest.as_str());
                proof {
                    let dst = match_destination_spec(catalog.rules@, extension@)->0;
                    assert(full@ == join_seq(home@, dst));
                }
                Ok(Some(full))
            },
        },
    }
}

/// What the automatic path decided to do with a candidate file.
pub enum AutoPlan {
    /// The path does not exist: leave it alone.
    SkipMissing,
    /// The path is not a regular file: leave it alone.
    SkipNotFile,
    /// The file has no (or an empty) extension: leave it alone.
    SkipNoExtension,
    /// No active extension rule matches: leave the file alone.
    SkipNoRule,
    /// Move the file to the rule's destination folder (relative to the
    /// home directory) and record it under its lowercased extension.
    Move { extension: String, destination: String },
}

/// The decision step of automatic organization, from the probed state of
/// the file: skip anything missing, non-regular or extensionless, ask the
/// rules for everything else.
pub fn plan_organize_by_rules(
    catalog: &Catalog,
    path: &str,
    exists_on_disk: bool,
    is_regular: bool,
) -> (r: AutoPlan)
    ensures
        !exists_on_disk ==> r is SkipMissing,
        exists_on_disk && !is_regular ==> r is SkipNotFile,
        exists_on_disk && is_regular && (path_extension_of(path@) is None || path_extension_of(
            path@,
        )->0 == Seq::<char>::empty()) ==> r is SkipNoExtension,
        exists_on_disk && is_regular ==> (path_extension_of(path@) matches Some(x) ==> (x.len()
            > 0 ==> match match_destination_spec(catalog.rules@, lower_seq(x)) {
            None => r is SkipNoRule,
            Some(d) => r matches AutoPlan::Move { extension, destination } && extension@
                == lower_seq(x) && destination@ == d,
        })),
        r matches AutoPlan::Move { extension, destination } ==> path_extension_of(
            path@,
        ) matches Some(x) && extension@ == lower_seq(x) && match_destination_spec(
            catalog.rules@,
            lower_seq(x),
        ) == Some(destination@),
        r is SkipNoRule ==> path_extension_of(path@) is Some,
{
    if !exists_on_disk {
        return AutoPlan::SkipMissing;
    }
    if !is_regular {
        return AutoPlan::SkipNotFile;
    }
    let ext = match crate::utils::get_file_extension(path) {
        None => return AutoPlan::SkipNoExtension,
        Some(e) => e,
    };
    if ext.as_str().unicode_len() == 0 {
        return AutoPlan::SkipNoExtension;
    }
    proof {
        crate::text::lemma_lower_idempotent(path_extension_of(path@)->0);
    }
    match catalog.match_destination(ext.as_str()) {
        None => AutoPlan::SkipNoRule,
        Some(d) => AutoPlan::Move { extension: ext, destination: d },
    }
}

/// The automatic path's decision for a path, probing the filesystem for
/// existence and regularity. Whatever the probes said: a `Move` decision
/// implies a matching active rule for the file's lowercased extension.
pub fn organize_file_by_rules(catalog: &Catalog, path: &str) -> (r: AutoPlan)
    ensures
        r matches AutoPlan::Move { extension, destination } ==> path_extension_of(
            path@,
        ) matches Some(x) && extension@ == lower_seq(x) && match_destination_spec(
            catalog.rules@,
            lower_seq(x),
        ) == Some(destination@),
        path_extension_of(path@) is None ==> !(r is SkipNoRule) && !(r is Move),
{
    let on_disk = path_exists(path);
    let regular = is_file(path);
    plan_organize_by_rules(catalog, path, on_disk, regular)
}

/// The catalog step that both organization paths end in for a manually
/// chosen destination: upsert the file record, adding no tag links.
pub fn record_manual_file(
    catalog: &mut Catalog,
    path: String,
    name: String,
    extension: String,
    size: i64,
    created_at: String,
    modified_at: String,
) -> (r: Result<i64, CatalogError>)
    requires
        old(catalog).wf(),
    ensures
        final(catalog).wf(),
        final(catalog).tags@ == old(catalog).tags@,
        final(catalog).rules@ == old(catalog).rules@,
        final(catalog).watched@ == old(catalog).watched@,
        match r {
            Ok(id) => {
                &&& id == old(catalog).next_file_id
                &&& final(catalog).files@ == files_except(old(catalog).files@, path@).push(
                    FileRecord { id, path, name, extension, size, created_at, modified_at },
                )
                &&& final(catalog).links@ == match file_id_at_path(old(catalog).files@, path@) {
                    Some(fid) => links_without_file(old(catalog).links@, fid),
                    None => old(catalog).links@,
                }
            },
            Err(CatalogError::IdsExhausted) => old(catalog).next_file_id == i64::MAX && *final(catalog) == *old(catalog),
            Err(_) => false,
        },
{
    catalog.add_file(path, name, extension, size, created_at, modified_at)
}

/// The catalog step of automatic organization: upsert the file record,
/// then link it to the built-in category tag for its extension. No link
/// is added for an extension outside the mapping; a mapped category whose
/// tag row is missing fails with `MissingTag`, the file staying recorded.
pub fn record_organized_file(
    catalog: &mut Catalog,
    path: String,
    name: String,
    extension: String,
    size: i64,
    created_at: String,
    modified_at: String,
) -> (r: Result<(i64, Option<i64>), CatalogError>)
    requires
        old(catalog).wf(),
    ensures
        final(catalog).wf(),
        final(catalog).tags@ == old(catalog).tags@,
        final(catalog).rules@ == old(catalog).rules@,
        final(catalog).watched@ == old(catalog).watched@,
        match r {
            Ok((id, tag)) => {
                &&& id == old(catalog).next_file_id
                &&& final(catalog).files@ == files_except(old(catalog).files@, path@).push(
                    FileRecord {
                        id,
                        path,
                        name,
                        extension,
                        size,
                        created_at,
                        modified_at,
                    },
                )
                &&& {
                    let cascaded = match file_id_at_path(old(catalog).files@, path@) {
                        Some(fid) => links_without_file(old(catalog).links@, fid),
                        None => old(catalog).links@,
                    };
                    match auto_tag_of(extension@) {
                        None => tag is None && final(catalog).links@ == cascaded,
                        Some(cat) => tag matches Some(tid) && has_tag_name(old(catalog).tags@, cat)
                            && (exists|w: int|
                            0 <= w < old(catalog).tags@.len() && (#[trigger] old(catalog).tags@[w]).id == tid && old(catalog).tags@[w].name@ == cat) && final(catalog).links@ == link_insert(cascaded, id, tid),
                    }
                }
            },
            Err(CatalogError::IdsExhausted) => old(catalog).next_file_id == i64::MAX && *final(catalog) == *old(catalog),
            Err(CatalogError::MissingTag) => auto_tag_of(extension@) matches Some(cat)
                && !has_tag_name(old(catalog).tags@, cat) && old(catalog).next_file_id < i64::MAX
                && final(catalog).next_file_id == old(catalog).next_file_id + 1
                && final(catalog).files@ == files_except(old(catalog).files@, path@).push(
                FileRecord {
                    id: old(catalog).next_file_id,
                    path,
                    name,
                    extension,
                    size,
                    created_at,
                    modified_at,
                },
            ) && final(catalog).links@ == (match file_id_at_path(old(catalog).files@, path@) {
                Some(fid) => links_without_file(old(catalog).links@, fid),
                None => old(catalog).links@,
            }),
            Err(_) => false,
        },
{
    let tag = auto_tag_name(extension.as_str());
    let id = match catalog.add_file(path, name, extension, size, created_at, modified_at) {
        Err(e) => return Err(e),
        Ok(id) => id,
    };
    proof {
        assert(crate::catalog::has_file_id(catalog.files@, id)) by {
            assert(catalog.files@.last().id == id);
        }
    }
    match tag {
        None => Ok((id, None)),
        Some(cat) => match catalog.tag_id_by_name(cat.as_str()) {
            None => Err(CatalogError::MissingTag),
            Some(tid) => {
                proof {
                    let w = choose|w: int|
                        0 <= w < catalog.tags@.len() && (#[trigger] catalog.tags@[w]).id == tid
                            && catalog.tags@[w].name@ == cat@;
                    assert(crate::catalog::has_tag_id(catalog.tags@, tid));
                }
                match catalog.add_tag_to_file(id, tid) {
                    Ok(()) => Ok((id, Some(tid))),
                    Err(e) => Err(e),
                }
            },
        },
    }
}

} // verus!
