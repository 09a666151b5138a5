//! The catalog: an in-memory relational store of file records, tags,
//! file-tag links, organization rules and watched-folder registrations.
//! Paths, tag names and watched-folder paths are unique keys; links are a
//! duplicate-free many-to-many relation that cascades when either side
//! goes away; rules keep their insertion order, which the rule engine's
//! first-match policy depends on.
use vstd::prelude::*;
use crate::text::str_eq;

verus! {

/// A tag: a unique name with a display color.
pub struct Tag {
    pub id: i64,
    pub name: String,
    pub color: String,
}

/// A cataloged file: its (unique) path, display name, lowercased
/// extension, size in bytes and two formatted timestamps.
pub struct FileRecord {
    pub id: i64,
    pub path: String,
    pub name: String,
    pub extension: String,
    pub size: i64,
    pub created_at: String,
    pub modified_at: String,
}

/// One row of the many-to-many relation between files and tags.
#[derive(Clone, Copy)]
pub struct FileTagLink {
    pub file_id: i64,
    pub tag_id: i64,
}

/// An organization rule: a comma-separated extension pattern and the
/// destination folder (relative to the home directory) it sends files to.
pub struct Rule {
    pub id: i64,
    pub name: String,
    pub pattern: String,
    pub destination_folder: String,
    pub is_extension: bool,
    pub is_active: bool,
}

/// A durability record of a folder that should be (re)watched.
pub struct WatchedFolder {
    pub path: String,
    pub is_active: bool,
}

/// Why a catalog operation was refused.
#[derive(Clone, Copy, Debug, PartialEq, Eq, Structural)]
pub enum CatalogError {
    /// A tag with the requested name already exists.
    DuplicateTagName,
    /// The id counter for the table has reached its maximum.
    IdsExhausted,
    /// No file row has the requested id.
    MissingFile,
    /// No tag row has the requested id.
    MissingTag,
}

pub open spec fn has_tag_id(tags: Seq<Tag>, id: i64) -> bool {
    exists|i: int| 0 <= i < tags.len() && tags[i].id == id
}

pub open spec fn has_tag_name(tags: Seq<Tag>, name: Seq<char>) -> bool {
    exists|i: int| 0 <= i < tags.len() && tags[i].name@ == name
}

pub open spec fn has_file_id(files: Seq<FileRecord>, id: i64) -> bool {
    exists|i: int| 0 <= i < files.len() && files[i].id == id
}

pub open spec fn has_file_path(files: Seq<FileRecord>, path: Seq<char>) -> bool {
    exists|i: int| 0 <= i < files.len() && files[i].path@ == path
}

pub open spec fn has_link(links: Seq<FileTagLink>, file_id: i64, tag_id: i64) -> bool {
    exists|i: int| 0 <= i < links.len() && links[i].file_id == file_id && links[i].tag_id == tag_id
}

pub open spec fn has_watched_path(ws: Seq<WatchedFolder>, path: Seq<char>) -> bool {
    exists|i: int| 0 <= i < ws.len() && ws[i].path@ == path
}

/// The tags that survive removing the tag with id `tag_id`.
pub open spec fn tags_except(tags: Seq<Tag>, tag_id: i64) -> Seq<Tag> {
    tags.filter(|t: Tag| t.id != tag_id)
}

/// The links that survive removing the tag with id `tag_id`.
pub open spec fn links_without_tag(links: Seq<FileTagLink>, tag_id: i64) -> Seq<FileTagLink> {
    links.filter(|l: FileTagLink| l.tag_id != tag_id)
}

/// Filtering out an id that no tag has changes nothing.
pub proof fn lemma_tags_except_all(tags: Seq<Tag>, tag_id: i64)
    requires
        forall|i: int| 0 <= i < tags.len() ==> (#[trigger] tags[i]).id != tag_id,
    ensures
        tags_except(tags, tag_id) == tags,
    decreases tags.len(),
{
    reveal_with_fuel(Seq::filter, 2);
    if tags.len() > 0 {
        assert(forall|i: int|
            0 <= i < tags.len() - 1 ==> (#[trigger] tags.drop_last()[i]).id != tag_id);
        lemma_tags_except_all(tags.drop_last(), tag_id);
        assert(tags_except(tags, tag_id) =~= tags);
    }
}

/// Filtering out a tag id that no link carries changes nothing.
pub proof fn lemma_links_without_tag_all(links: Seq<FileTagLink>, tag_id: i64)
    requires
        forall|i: int| 0 <= i < links.len() ==> (#[trigger] links[i]).tag_id != tag_id,
    ensures
        links_without_tag(links, tag_id) == links,
    decreases links.len(),
{
    reveal_with_fuel(Seq::filter, 2);
    if links.len() > 0 {
        assert(forall|i: int|
            0 <= i < links.len() - 1 ==> (#[trigger] links.drop_last()[i]).tag_id != tag_id);
        lemma_links_without_tag_all(links.drop_last(), tag_id);
        assert(links_without_tag(links, tag_id) =~= links);
    }
}

/// Removing the only tag whose id is `tag_id` is the same as filtering it
/// out.
proof fn lemma_tags_remove_is_filter(tags: Seq<Tag>, k: int, tag_id: i64)
    requires
        0 <= k < tags.len(),
        tags[k].id == tag_id,
        forall|i: int| 0 <= i < tags.len() && i != k ==> (#[trigger] tags[i]).id != tag_id,
    ensures
        tags.remove(k) == tags_except(tags, tag_id),
    decreases tags.len(),
{
    reveal_with_fuel(Seq::filter, 2);
    if k == tags.len() - 1 {
        assert(forall|i: int|
            0 <= i < tags.len() - 1 ==> (#[trigger] tags.drop_last()[i]).id != tag_id);
        lemma_tags_except_all(tags.drop_last(), tag_id);
        assert(tags_except(tags, tag_id) == tags_except(tags.drop_last(), tag_id));
        assert(tags.remove(k) =~= tags.drop_last());
    } else {
        let rest = tags.drop_last();
        assert(forall|i: int| 0 <= i < rest.len() && i != k ==> (#[trigger] rest[i]).id != tag_id);
        lemma_tags_remove_is_filter(rest, k, tag_id);
        assert(tags_except(tags, tag_id) == tags_except(rest, tag_id).push(tags.last()));
        assert(tags.remove(k) =~= rest.remove(k).push(tags.last()));
    }
}

/// The files that survive replacing the record at `path`.
pub open spec fn files_except(files: Seq<FileRecord>, path: Seq<char>) -> Seq<FileRecord> {
    files.filter(|f: FileRecord| f.path@ != path)
}

/// The links that survive removing the file with id `file_id`.
pub open spec fn links_without_file(links: Seq<FileTagLink>, file_id: i64) -> Seq<FileTagLink> {
    links.filter(|l: FileTagLink| l.file_id != file_id)
}

/// The id of the file at `path`, if any.
pub open spec fn file_id_at_path(files: Seq<FileRecord>, path: Seq<char>) -> Option<i64> {
    if has_file_path(files, path) {
        Some(files[choose|i: int| 0 <= i < files.len() && files[i].path@ == path].id)
    } else {
        None
    }
}

/// Filtering out a path that no file has changes nothing.
pub proof fn lemma_files_except_all(files: Seq<FileRecord>, path: Seq<char>)
    requires
        forall|i: int| 0 <= i < files.len() ==> (#[trigger] files[i]).path@ != path,
    ensures
        files_except(files, path) == files,
    decreases files.len(),
{
    reveal_with_fuel(Seq::filter, 2);
    if files.len() > 0 {
        assert(forall|i: int|
            0 <= i < files.len() - 1 ==> (#[trigger] files.drop_last()[i]).path@ != path);
        lemma_files_except_all(files.drop_last(), path);
        assert(files_except(files, path) =~= files);
    }
}

/// Removing the only file whose path is `path` is the same as filtering
/// it out.
proof fn lemma_files_remove_is_filter(files: Seq<FileRecord>, k: int, path: Seq<char>)
    requires
        0 <= k < files.len(),
        files[k].path@ == path,
        forall|i: int| 0 <= i < files.len() && i != k ==> (#[trigger] files[i]).path@ != path,
    ensures
        files.remove(k) == files_except(files, path),
    decreases files.len(),
{
    reveal_with_fuel(Seq::filter, 2);
    if k == files.len() - 1 {
        assert(forall|i: int|
            0 <= i < files.len() - 1 ==> (#[trigger] files.drop_last()[i]).path@ != path);
        lemma_files_except_all(files.drop_last(), path);
        assert(files_except(files, path) == files_except(files.drop_last(), path));
        assert(files.remove(k) =~= files.drop_last());
    } else {
        let rest = files.drop_last();
        assert(forall|i: int| 0 <= i < rest.len() && i != k ==> (#[trigger] rest[i]).path@ != path);
        lemma_files_remove_is_filter(rest, k, path);
        assert(files_except(files, path) == files_except(rest, path).push(files.last()));
        assert(files.remove(k) =~= rest.remove(k).push(files.last()));
    }
}

/// Insert-if-absent on the link relation.
pub open spec fn link_insert(links: Seq<FileTagLink>, file_id: i64, tag_id: i64) -> Seq<
    FileTagLink,
> {
    if has_link(links, file_id, tag_id) {
        links
    } else {
        links.push(FileTagLink { file_id, tag_id })
    }
}

/// How many rows link `file_id` to `tag_id`.
pub open spec fn link_count(links: Seq<FileTagLink>, file_id: i64, tag_id: i64) -> nat
    decreases links.len(),
{
    if links.len() == 0 {
        0
    } else {
        (if links.last().file_id == file_id && links.last().tag_id == tag_id {
            1nat
        } else {
            0nat
        }) + link_count(links.drop_last(), file_id, tag_id)
    }
}

/// A pair is linked exactly when its count is nonzero.
pub proof fn lemma_link_count_zero(links: Seq<FileTagLink>, file_id: i64, tag_id: i64)
    ensures
        link_count(links, file_id, tag_id) == 0 <==> !has_link(links, file_id, tag_id),
    decreases links.len(),
{
    if links.len() > 0 {
        lemma_link_count_zero(links.drop_last(), file_id, tag_id);
        assert(forall|j: int| 0 <= j < links.len() - 1 ==> links.drop_last()[j] == links[j]);
    }
}

/// Tagging is idempotent: inserting the same link twice is the same as
/// inserting it once, and inserting a link that was absent leaves exactly
/// one row for the pair.
pub proof fn lemma_link_insert_idempotent(links: Seq<FileTagLink>, file_id: i64, tag_id: i64)
    ensures
        link_insert(link_insert(links, file_id, tag_id), file_id, tag_id) == link_insert(
            links,
            file_id,
            tag_id,
        ),
        !has_link(links, file_id, tag_id) ==> link_count(
            link_insert(links, file_id, tag_id),
            file_id,
            tag_id,
        ) == 1,
{
    let once = link_insert(links, file_id, tag_id);
    assert(has_link(once, file_id, tag_id)) by {
        if has_link(links, file_id, tag_id) {
        } else {
            assert(once[links.len() as int].file_id == file_id);
        }
    }
    if !has_link(links, file_id, tag_id) {
        assert(once.drop_last() =~= links);
        lemma_link_count_zero(links, file_id, tag_id);
    }
}

/// In a duplicate-free link relation no pair has more than one row.
pub proof fn lemma_distinct_link_count(links: Seq<FileTagLink>, file_id: i64, tag_id: i64)
    requires
        forall|i: int, j: int|
            0 <= i < j < links.len() ==> !(links[i].file_id == links[j].file_id && links[i].tag_id
                == links[j].tag_id),
    ensures
        link_count(links, file_id, tag_id) <= 1,
    decreases links.len(),
{
    if links.len() > 0 {
        let rest = links.drop_last();
        assert(forall|j: int| 0 <= j < links.len() - 1 ==> rest[j] == links[j]);
        lemma_distinct_link_count(rest, file_id, tag_id);
        if links.last().file_id == file_id && links.last().tag_id == tag_id {
            assert(!has_link(rest, file_id, tag_id)) by {
                if has_link(rest, file_id, tag_id) {
                    let i = choose|i: int|
                        0 <= i < rest.len() && rest[i].file_id == file_id && rest[i].tag_id
                            == tag_id;
                    assert(!(links[i].file_id == links[links.len() - 1].file_id && links[i].tag_id
                        == links[links.len() - 1].tag_id));
                }
            }
            lemma_link_count_zero(rest, file_id, tag_id);
        }
    }
}

/// The catalog itself. All mutating operations keep `wf`.
pub struct Catalog {
    pub files: Vec<FileRecord>,
    pub tags: Vec<Tag>,
    pub links: Vec<FileTagLink>,
    pub rules: Vec<Rule>,
    pub watched: Vec<WatchedFolder>,
    pub next_file_id: i64,
    pub next_tag_id: i64,
    pub next_rule_id: i64,
}

impl Catalog {
    /// Well-formedness: ids and unique keys are duplicate-free and below
    /// their counters, and every link points at an existing file and tag.
    pub open spec fn wf(self) -> bool {
        &&& forall|i: int, j: int|
            0 <= i < j < self.files@.len() ==> self.files@[i].id != self.files@[j].id
                && self.files@[i].path@ != self.files@[j].path@
        &&& forall|i: int|
            0 <= i < self.files@.len() ==> 1 <= (#[trigger] self.files@[i]).id < self.next_file_id
        &&& forall|i: int, j: int|
            0 <= i < j < self.tags@.len() ==> self.tags@[i].id != self.tags@[j].id
                && self.tags@[i].name@ != self.tags@[j].name@
        &&& forall|i: int| 0 <= i < self.tags@.len() ==> 1 <= (#[trigger] self.tags@[i]).id < self.next_tag_id
        &&& forall|i: int, j: int|
            0 <= i < j < self.links@.len() ==> !(self.links@[i].file_id == self.links@[j].file_id
                && self.links@[i].tag_id == self.links@[j].tag_id)
        &&& forall|i: int|
            0 <= i < self.links@.len() ==> has_file_id(self.files@, (#[trigger] self.links@[i]).file_id)
                && has_tag_id(self.tags@, self.links@[i].tag_id)
        &&& forall|i: int, j: int|
            0 <= i < j < self.rules@.len() ==> self.rules@[i].id != self.rules@[j].id
        &&& forall|i: int| 0 <= i < self.rules@.len() ==> 1 <= (#[trigger] self.rules@[i]).id < self.next_rule_id
        &&& forall|i: int, j: int|
            0 <= i < j < self.watched@.len() ==> self.watched@[i].path@ != self.watched@[j].path@
        &&& 1 <= self.next_file_id
        &&& 1 <= self.next_tag_id
        &&& 1 <= self.next_rule_id
    }

    /// A fresh, empty catalog.
    pub fn new() -> (c: Catalog)
        ensures
            c.wf(),
            c.files@.len() == 0,
            c.tags@.len() == 0,
            c.links@.len() == 0,
            c.rules@.len() == 0,
            c.watched@.len() == 0,
            c.next_file_id == 1,
            c.next_tag_id == 1,
            c.next_rule_id == 1,
    {
        Catalog {
            files: Vec::new(),
            tags: Vec::new(),
            links: Vec::new(),
            rules: Vec::new(),
            watched: Vec::new(),
            next_file_id: 1,
            next_tag_id: 1,
            next_rule_id: 1,
        }
    }

    /// All tags, in insertion order.
    pub fn get_all_tags(&self) -> (r: Vec<Tag>)
        ensures
            r@.len() == self.tags@.len(),
            forall|i: int|
                0 <= i < r@.len() ==> r@[i].id == self.tags@[i].id && r@[i].name@
                    == self.tags@[i].name@ && r@[i].color@ == self.tags@[i].color@,
    {
        let mut out: Vec<Tag> = Vec::new();
        let n: usize = self.tags.len();
        let mut i: usize = 0;
        while i < n
            invariant
                n == self.tags@.len(),
                i <= n,
                out@.len() == i,
                forall|k: int|
                    0 <= k < i ==> out@[k].id == self.tags@[k].id && out@[k].name@
                        == self.tags@[k].name@ && out@[k].color@ == self.tags@[k].color@,
            decreases n - i,
        {
            let t = &self.tags[i];
            out.push(Tag { id: t.id, name: t.name.clone(), color: t.color.clone() });
            i = i + 1;
        }
        out
    }

    /// Add a tag with a new name. Fails when the name is taken (tag names
    /// are unique) or the id counter is exhausted; otherwise the tag is
    /// appended with the next fresh id.
    pub fn add_tag(&mut self, name: String, color: String) -> (r: Result<i64, CatalogError>)
        requires
            old(self).wf(),
        ensures
            final(self).wf(),
            final(self).files@ == old(self).files@,
            final(self).links@ == old(self).links@,
            final(self).rules@ == old(self).rules@,
            final(self).watched@ == old(self).watched@,
            final(self).next_file_id == old(self).next_file_id,
            final(self).next_rule_id == old(self).next_rule_id,
            match r {
                Ok(id) => !has_tag_name(old(self).tags@, name@) && old(self).next_tag_id
                    < i64::MAX && id == old(self).next_tag_id && final(self).tags@ == old(
                    self,
                ).tags@.push(Tag { id, name, color }) && final(self).next_tag_id == old(
                    self,
                ).next_tag_id + 1,
                Err(CatalogError::DuplicateTagName) => has_tag_name(old(self).tags@, name@)
                    && *final(self) == *old(self),
                Err(CatalogError::IdsExhausted) => !has_tag_name(old(self).tags@, name@) && old(
                    self,
                ).next_tag_id == i64::MAX && *final(self) == *old(self),
                Err(_) => false,
            },
    {
        let n: usize = self.tags.len();
        let mut i: usize = 0;
        while i < n
            invariant
                self == old(self),
                old(self).wf(),
                n == self.tags@.len(),
                i <= n,
                forall|j: int| 0 <= j < i ==> self.tags@[j].name@ != name@,
            decreases n - i,
        {
            if str_eq(self.tags[i].name.as_str(), name.as_str()) {
                return Err(CatalogError::DuplicateTagName);
            }
            i = i + 1;
        }
        if self.next_tag_id == i64::MAX {
            return Err(CatalogError::IdsExhausted);
        }
        let id = self.next_tag_id;
        self.tags.push(Tag { id, name, color });
        self.next_tag_id = id + 1;
        proof {
            assert forall|p: int| 0 <= p < self.links@.len() implies has_tag_id(
                self.tags@,
                (#[trigger] self.links@[p]).tag_id,
            ) by {
                let w = choose|w: int|
                    0 <= w < old(self).tags@.len() && (#[trigger] old(self).tags@[w]).id
                        == self.links@[p].tag_id;
                assert(self.tags@[w].id == self.links@[p].tag_id);
            };
        }
        Ok(id)
    }

    /// Whether some tag has this id.
    pub fn has_tag_with_id(&self, tag_id: i64) -> (r: bool)
        ensures
            r == has_tag_id(self.tags@, tag_id),
    {
        let n: usize = self.tags.len();
        let mut i: usize = 0;
        while i < n
            invariant
                n == self.tags@.len(),
                i <= n,
                forall|j: int| 0 <= j < i ==> self.tags@[j].id != tag_id,
            decreases n - i,
        {
            if self.tags[i].id == tag_id {
                return true;
            }
            i = i + 1;
        }
        false
    }

    /// Whether some file row has this id.
    pub fn has_file_with_id(&self, file_id: i64) -> (r: bool)
        ensures
            r == has_file_id(self.files@, file_id),
    {
        let n: usize = self.files.len();
        let mut i: usize = 0;
        while i < n
            invariant
                n == self.files@.len(),
                i <= n,
                forall|j: int| 0 <= j < i ==> self.files@[j].id != file_id,
            decreases n - i,
        {
            if self.files[i].id == file_id {
                return true;
            }
            i = i + 1;
        }
        false
    }

    /// Link a file to a tag. A duplicate link is a no-op; linking an
    /// absent file or tag id is refused and changes nothing.
    pub fn add_tag_to_file(&mut self, file_id: i64, tag_id: i64) -> (r: Result<(), CatalogError>)
        requires
            old(self).wf(),
        ensures
            final(self).wf(),
            final(self).files@ == old(self).files@,
            final(self).tags@ == old(self).tags@,
            final(self).rules@ == old(self).rules@,
            final(self).watched@ == old(self).watched@,
            final(self).next_file_id == old(self).next_file_id,
            final(self).next_tag_id == old(self).next_tag_id,
            final(self).next_rule_id == old(self).next_rule_id,
            match r {
                Ok(()) => has_file_id(old(self).files@, file_id) && has_tag_id(
                    old(self).tags@,
                    tag_id,
                ) && final(self).links@ == link_insert(old(self).links@, file_id, tag_id),
                Err(CatalogError::MissingFile) => !has_file_id(old(self).files@, file_id)
                    && *final(self) == *old(self),
                Err(CatalogError::MissingTag) => has_file_id(old(self).files@, file_id)
                    && !has_tag_id(old(self).tags@, tag_id) && *final(self) == *old(self),
                Err(_) => false,
            },
    {
        if !self.has_file_with_id(file_id) {
            return Err(CatalogError::MissingFile);
        }
        if !self.has_tag_with_id(tag_id) {
            return Err(CatalogError::MissingTag);
        }
        let m: usize = self.links.len();
        let mut k: usize = 0;
        while k < m
            invariant
                self == old(self),
                old(self).wf(),
                m == self.links@.len(),
                k <= m,
                has_file_id(self.files@, file_id),
                has_tag_id(self.tags@, tag_id),
                forall|j: int|
                    0 <= j < k ==> !((#[trigger] self.links@[j]).file_id == file_id
                        && self.links@[j].tag_id == tag_id),
            decreases m - k,
        {
            let l = self.links[k];
            if l.file_id == file_id && l.tag_id == tag_id {
                return Ok(());
            }
            k = k + 1;
        }
        self.links.push(FileTagLink { file_id, tag_id });
        Ok(())
    }

    /// Record that `path` should (or should no longer) be watched: the row
    /// with the same path is replaced, or a new row appended.
    pub fn upsert_watched_folder(&mut self, path: String, active: bool)
        requires
            old(self).wf(),
        ensures
            final(self).wf(),
            final(self).files@ == old(self).files@,
            final(self).tags@ == old(self).tags@,
            final(self).links@ == old(self).links@,
            final(self).rules@ == old(self).rules@,
            final(self).next_file_id == old(self).next_file_id,
            final(self).next_tag_id == old(self).next_tag_id,
            final(self).next_rule_id == old(self).next_rule_id,
            !has_watched_path(old(self).watched@, path@)
                ==> final(self).watched@
                == old(self).watched@.push(WatchedFolder { path, is_active: active }),
            has_watched_path(old(self).watched@, path@)
                ==> final(self).watched@.len() == old(self).watched@.len(),
            has_watched_path(old(self).watched@, path@) ==> forall|j: int|
                0 <= j < old(self).watched@.len() && (#[trigger] old(self).watched@[j]).path@
                    != path@ ==> final(self).watched@[j] == old(self).watched@[j],
            has_watched_path(old(self).watched@, path@) ==> forall|j: int|
                0 <= j < old(self).watched@.len() && (#[trigger] old(self).watched@[j]).path@
                    == path@ ==> final(self).watched@[j].path@ == path@
                    && final(self).watched@[j].is_active == active,
    {
        let n: usize = self.watched.len();
        let mut found: bool = false;
        let mut idx: usize = 0;
        let mut i: usize = 0;
        while i < n
            invariant
                self == old(self),
                old(self).wf(),
                n == self.watched@.len(),
                i <= n,
                !found ==> forall|j: int| 0 <= j < i ==> self.watched@[j].path@ != path@,
                found ==> idx < n && self.watched@[idx as int].path@ == path@,
            decreases n - i,
        {
            if !found && str_eq(self.watched[i].path.as_str(), path.as_str()) {
                found = true;
                idx = i;
            }
            i = i + 1;
        }
        if found {
            self.watched.remove(idx);
            self.watched.insert(idx, WatchedFolder { path, is_active: active });
            proof {
                assert(self.watched@ =~= old(self).watched@.update(
                    idx as int,
                    self.watched@[idx as int],
                ));
            }
        } else {
            self.watched.push(WatchedFolder { path, is_active: active });
        }
    }

    /// Mark every watched-folder row inactive, keeping the paths.
    pub fn set_all_watched_folders_inactive(&mut self)
        requires
            old(self).wf(),
        ensures
            final(self).wf(),
            final(self).files@ == old(self).files@,
            final(self).tags@ == old(self).tags@,
            final(self).links@ == old(self).links@,
            final(self).rules@ == old(self).rules@,
            final(self).next_file_id == old(self).next_file_id,
            final(self).next_tag_id == old(self).next_tag_id,
            final(self).next_rule_id == old(self).next_rule_id,
            final(self).watched@.len() == old(self).watched@.len(),
            forall|j: int|
                0 <= j < old(self).watched@.len() ==> (#[trigger] final(self).watched@[j]).path@
                    == old(self).watched@[j].path@ && !final(self).watched@[j].is_active,
    {
        let n: usize = self.watched.len();
        let mut new_w: Vec<WatchedFolder> = Vec::new();
        let mut i: usize = 0;
        while i < n
            invariant
                self == old(self),
                old(self).wf(),
                n == self.watched@.len(),
                i <= n,
                new_w@.len() == i,
                forall|j: int|
                    0 <= j < i ==> (#[trigger] new_w@[j]).path@ == self.watched@[j].path@
                        && !new_w@[j].is_active,
            decreases n - i,
        {
            new_w.push(WatchedFolder { path: self.watched[i].path.clone(), is_active: false });
            i = i + 1;
        }
        self.watched = new_w;
    }

    /// Upsert a file record: the row with the same path (if any) is
    /// replaced - its links cascade away with it - and a new row with a
    /// fresh id is appended. Returns the new id.
    pub fn add_file(
        &mut self,
        path: String,
        name: String,
        extension: String,
        size: i64,
        created_at: String,
        modified_at: String,
    ) -> (r: Result<i64, CatalogError>)
        requires
            old(self).wf(),
        ensures
            final(self).wf(),
            final(self).tags@ == old(self).tags@,
            final(self).rules@ == old(self).rules@,
            final(self).watched@ == old(self).watched@,
            final(self).next_tag_id == old(self).next_tag_id,
            final(self).next_rule_id == old(self).next_rule_id,
            match r {
                Ok(id) => {
                    &&& old(self).next_file_id < i64::MAX
                    &&& id == old(self).next_file_id
                    &&& final(self).next_file_id == old(self).next_file_id + 1
                    &&& final(self).files@ == files_except(old(self).files@, path@).push(
                        FileRecord { id, path, name, extension, size, created_at, modified_at },
                    )
                    &&& final(self).links@ == match file_id_at_path(old(self).files@, path@) {
                        Some(fid) => links_without_file(old(self).links@, fid),
                        None => old(self).links@,
                    }
                },
                Err(CatalogError::IdsExhausted) => old(self).next_file_id == i64::MAX
                    && *final(self) == *old(self),
                Err(_) => false,
            },
    {
        if self.next_file_id == i64::MAX {
            return Err(CatalogError::IdsExhausted);
        }
        let n: usize = self.files.len();
        let mut found: bool = false;
        let mut idx: usize = 0;
        let mut i: usize = 0;
        while i < n
            invariant
                self == old(self),
                old(self).wf(),
                n == self.files@.len(),
                i <= n,
                !found ==> forall|j: int| 0 <= j < i ==> self.files@[j].path@ != path@,
                found ==> idx < n && self.files@[idx as int].path@ == path@,
            decreases n - i,
        {
            if !found && str_eq(self.files[i].path.as_str(), path.as_str()) {
                found = true;
                idx = i;
            }
            i = i + 1;
        }
        if !found {
            proof {
                lemma_files_except_all(self.files@, path@);
            }
            let id = self.next_file_id;
            self.files.push(
                FileRecord { id, path, name, extension, size, created_at, modified_at },
            );
            self.next_file_id = id + 1;
            proof {
                assert forall|p: int| 0 <= p < self.links@.len() implies has_file_id(
                    self.files@,
                    (#[trigger] self.links@[p]).file_id,
                ) by {
                    let w = choose|w: int|
                        0 <= w < old(self).files@.len() && (#[trigger] old(self).files@[w]).id
                            == self.links@[p].file_id;
                    assert(self.files@[w].id == self.links@[p].file_id);
                };
            }
            return Ok(id);
        }
        let fid = self.files[idx].id;
        proof {
            assert forall|j: int|
                0 <= j < self.files@.len() && j != idx implies (#[trigger] self.files@[j]).path@
                != path@ by {};
            lemma_files_remove_is_filter(self.files@, idx as int, path@);
            let w = choose|w: int|
                0 <= w < self.files@.len() && (#[trigger] self.files@[w]).path@ == path@;
            assert(w == idx);
            assert(file_id_at_path(self.files@, path@) == Some(fid));
        }
        self.files.remove(idx);
        proof {
            assert(self.files@.len() == old(self).files@.len() - 1);
            assert forall|p: int| 0 <= p < self.files@.len() implies #[trigger] self.files@[p]
                == old(self).files@[if p < idx { p } else { p + 1 }] by {};
        }
        let mut new_links: Vec<FileTagLink> = Vec::new();
        let m: usize = self.links.len();
        let mut k: usize = 0;
        while k < m
            invariant
                old(self).wf(),
                self.links@ == old(self).links@,
                self.tags@ == old(self).tags@,
                self.rules@ == old(self).rules@,
                self.watched@ == old(self).watched@,
                self.next_file_id == old(self).next_file_id,
                self.next_tag_id == old(self).next_tag_id,
                self.next_rule_id == old(self).next_rule_id,
                idx < old(self).files@.len(),
                old(self).files@[idx as int].id == fid,
                self.files@ == old(self).files@.remove(idx as int),
                self.files@.len() == old(self).files@.len() - 1,
                forall|p: int|
                    0 <= p < self.files@.len() ==> #[trigger] self.files@[p] == old(
                        self,
                    ).files@[if p < idx { p } else { p + 1 }],
                m == self.links@.len(),
                k <= m,
                new_links@ == links_without_file(self.links@.take(k as int), fid),
                forall|p: int|
                    #![trigger new_links@[p]]
                    0 <= p < new_links@.len() ==> exists|j: int|
                        #![trigger self.links@[j]]
                        0 <= j < k && new_links@[p] == self.links@[j],
                forall|p: int, q: int|
                    0 <= p < q < new_links@.len() ==> !((#[trigger] new_links@[p]).file_id
                        == (#[trigger] new_links@[q]).file_id && new_links@[p].tag_id
                        == new_links@[q].tag_id),
                forall|p: int|
                    0 <= p < new_links@.len() ==> has_tag_id(
                        self.tags@,
                        (#[trigger] new_links@[p]).tag_id,
                    ) && new_links@[p].file_id != fid && has_file_id(
                        self.files@,
                        new_links@[p].file_id,
                    ),
            decreases m - k,
        {
            proof {
                reveal_with_fuel(Seq::filter, 2);
                assert(self.links@.take(k as int + 1).drop_last() =~= self.links@.take(k as int));
            }
            let l = self.links[k];
            if l.file_id != fid {
                proof {
                    assert forall|p: int| 0 <= p < new_links@.len() implies !((#[trigger] new_links@[p]).file_id
                        == self.links@[k as int].file_id && new_links@[p].tag_id
                        == self.links@[k as int].tag_id) by {
                        let j = choose|j: int|
                            #![trigger self.links@[j]]
                            0 <= j < k && new_links@[p] == self.links@[j];
                    };
                    let fi = choose|fi: int|
                        0 <= fi < old(self).files@.len() && (#[trigger] old(self).files@[fi]).id
                            == self.links@[k as int].file_id;
                    assert(fi != idx);
                    let fnn = if fi < idx { fi } else { fi - 1 };
                    assert(self.files@[fnn] == old(self).files@[fi]);
                    assert(has_file_id(self.files@, self.links@[k as int].file_id));
                }
                new_links.push(l);
                proof {
                    assert(new_links@.last() == self.links@[k as int]);
                }
            }
            k = k + 1;
        }
        proof {
            assert(self.links@.take(m as int) =~= self.links@);
        }
        self.links = new_links;
        proof {
            assert forall|p: int, q: int| 0 <= p < q < self.files@.len() implies (#[trigger] self.files@[p]).id
                != (#[trigger] self.files@[q]).id && self.files@[p].path@ != self.files@[q].path@ by {
                let pp = if p < idx { p } else { p + 1 };
                let qq = if q < idx { q } else { q + 1 };
                assert(self.files@[p] == old(self).files@[pp]);
                assert(self.files@[q] == old(self).files@[qq]);
            };
        }
        let id = self.next_file_id;
        self.files.push(FileRecord { id, path, name, extension, size, created_at, modified_at });
        self.next_file_id = id + 1;
        proof {
            let pushed = self.files@;
            let kept = old(self).files@.remove(idx as int);
            assert forall|p: int| 0 <= p < self.links@.len() implies has_file_id(
                pushed,
                (#[trigger] self.links@[p]).file_id,
            ) by {
                let w = choose|w: int|
                    0 <= w < kept.len() && (#[trigger] kept[w]).id == self.links@[p].file_id;
                assert(pushed[w].id == self.links@[p].file_id);
            };
        }
        Ok(id)
    }

    /// The id of the tag with this name, if any.
    pub fn tag_id_by_name(&self, name: &str) -> (r: Option<i64>)
        ensures
            r is Some <==> has_tag_name(self.tags@, name@),
            r matches Some(id) ==> exists|i: int|
                0 <= i < self.tags@.len() && (#[trigger] self.tags@[i]).id == id
                    && self.tags@[i].name@ == name@,
    {
        let n: usize = self.tags.len();
        let mut i: usize = 0;
        while i < n
            invariant
                n == self.tags@.len(),
                i <= n,
                forall|j: int| 0 <= j < i ==> self.tags@[j].name@ != name@,
            decreases n - i,
        {
            if str_eq(self.tags[i].name.as_str(), name) {
                return Some(self.tags[i].id);
            }
            i = i + 1;
        }
        None
    }

    /// Remove the tag with this id, if any, and cascade: every link that
    /// referenced it goes too. Removing an absent id changes nothing.
    pub fn remove_tag(&mut self, tag_id: i64)
        requires
            old(self).wf(),
        ensures
            final(self).wf(),
            final(self).tags@ == tags_except(old(self).tags@, tag_id),
            final(self).links@ == links_without_tag(old(self).links@, tag_id),
            final(self).files@ == old(self).files@,
            final(self).rules@ == old(self).rules@,
            final(self).watched@ == old(self).watched@,
            final(self).next_file_id == old(self).next_file_id,
            final(self).next_tag_id == old(self).next_tag_id,
            final(self).next_rule_id == old(self).next_rule_id,
    {
        let n: usize = self.tags.len();
        let mut found: bool = false;
        let mut idx: usize = 0;
        let mut i: usize = 0;
        while i < n
            invariant
                self == old(self),
                old(self).wf(),
                n == self.tags@.len(),
                i <= n,
                !found ==> forall|j: int| 0 <= j < i ==> self.tags@[j].id != tag_id,
                found ==> idx < n && self.tags@[idx as int].id == tag_id,
            decreases n - i,
        {
            if !found && self.tags[i].id == tag_id {
                found = true;
                idx = i;
            }
            i = i + 1;
        }
        if !found {
            proof {
                lemma_tags_except_all(self.tags@, tag_id);
                assert forall|p: int| 0 <= p < self.links@.len() implies (#[trigger] self.links@[p]).tag_id
                    != tag_id by {
                    if self.links@[p].tag_id == tag_id {
                        let w = choose|w: int|
                            0 <= w < self.tags@.len() && (#[trigger] self.tags@[w]).id
                                == self.links@[p].tag_id;
                    }
                };
                lemma_links_without_tag_all(self.links@, tag_id);
            }
            return ;
        }
        proof {
            assert forall|j: int|
                0 <= j < self.tags@.len() && j != idx implies (#[trigger] self.tags@[j]).id
                != tag_id by {};
            lemma_tags_remove_is_filter(self.tags@, idx as int, tag_id);
        }
        let ghost oldtags = self.tags@;
        self.tags.remove(idx);
        proof {
            assert(self.tags@.len() == oldtags.len() - 1);
            assert forall|p: int| 0 <= p < self.tags@.len() implies #[trigger] self.tags@[p]
                == oldtags[if p < idx { p } else { p + 1 }] by {};
        }
        let mut new_links: Vec<FileTagLink> = Vec::new();
        let m: usize = self.links.len();
        let mut k: usize = 0;
        while k < m
            invariant
                old(self).wf(),
                self.links@ == old(self).links@,
                self.files@ == old(self).files@,
                self.rules@ == old(self).rules@,
                self.watched@ == old(self).watched@,
                self.next_file_id == old(self).next_file_id,
                self.next_tag_id == old(self).next_tag_id,
                self.next_rule_id == old(self).next_rule_id,
                idx < old(self).tags@.len(),
                old(self).tags@[idx as int].id == tag_id,
                self.tags@ == old(self).tags@.remove(idx as int),
                self.tags@.len() == old(self).tags@.len() - 1,
                forall|p: int|
                    0 <= p < self.tags@.len() ==> #[trigger] self.tags@[p] == old(
                        self,
                    ).tags@[if p < idx { p } else { p + 1 }],
                m == self.links@.len(),
                k <= m,
                new_links@ == links_without_tag(self.links@.take(k as int), tag_id),
                forall|p: int|
                    #![trigger new_links@[p]]
                    0 <= p < new_links@.len() ==> exists|j: int|
                        #![trigger self.links@[j]]
                        0 <= j < k && new_links@[p] == self.links@[j],
                forall|p: int, q: int|
                    0 <= p < q < new_links@.len() ==> !((#[trigger] new_links@[p]).file_id
                        == (#[trigger] new_links@[q]).file_id && new_links@[p].tag_id
                        == new_links@[q].tag_id),
                forall|p: int|
                    0 <= p < new_links@.len() ==> has_file_id(
                        self.files@,
                        (#[trigger] new_links@[p]).file_id,
                    ) && new_links@[p].tag_id != tag_id && has_tag_id(
                        self.tags@,
                        new_links@[p].tag_id,
                    ),
            decreases m - k,
        {
            proof {
                reveal_with_fuel(Seq::filter, 2);
                assert(self.links@.take(k as int + 1).drop_last() =~= self.links@.take(k as int));
            }
            let l = self.links[k];
            if l.tag_id != tag_id {
                proof {
                    assert forall|p: int| 0 <= p < new_links@.len() implies !((#[trigger] new_links@[p]).file_id
                        == self.links@[k as int].file_id && new_links@[p].tag_id
                        == self.links@[k as int].tag_id) by {
                        let j = choose|j: int|
                            #![trigger self.links@[j]]
                            0 <= j < k && new_links@[p] == self.links@[j];
                    };
                    let ti = choose|ti: int|
                        0 <= ti < old(self).tags@.len() && (#[trigger] old(self).tags@[ti]).id
                            == self.links@[k as int].tag_id;
                    assert(ti != idx);
                    let tn = if ti < idx { ti } else { ti - 1 };
                    assert(self.tags@[tn] == old(self).tags@[ti]);
                    assert(has_tag_id(self.tags@, self.links@[k as int].tag_id));
                }
                new_links.push(l);
                proof {
                    assert(new_links@.last() == self.links@[k as int]);
                }
            }
            k = k + 1;
        }
        proof {
            assert(self.links@.take(m as int) =~= self.links@);
        }
        self.links = new_links;
        proof {
            assert forall|p: int, q: int| 0 <= p < q < self.tags@.len() implies (#[trigger] self.tags@[p]).id
                != (#[trigger] self.tags@[q]).id && self.tags@[p].name@ != self.tags@[q].name@ by {
                let pp = if p < idx { p } else { p + 1 };
                let qq = if q < idx { q } else { q + 1 };
                assert(self.tags@[p] == old(self).tags@[pp]);
                assert(self.tags@[q] == old(self).tags@[qq]);
            };
        }
    }
}

} // verus!
