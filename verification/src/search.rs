//! Catalog search: files filtered by a name/path substring (matched
//! ASCII-case-insensitively, as the store's `LIKE` did), by tag
//! membership and by exact extension, each result carrying its tags, the
//! whole list ordered by file name.
use vstd::prelude::*;
use crate::catalog::Catalog;
use crate::catalog::FileRecord;
use crate::catalog::FileTagLink;
use crate::catalog::Tag;
use crate::catalog::has_link;
use crate::catalog::has_tag_id;
use crate::text::lower_seq;
use crate::text::lower_str;
use crate::text::str_eq;

verus! {

/// Whether `needle` occurs in `hay` as a contiguous run.
pub open spec fn contains_seq(hay: Seq<char>, needle: Seq<char>) -> bool {
    exists|s: int|
        0 <= s <= hay.len() - needle.len() && #[trigger] hay.subrange(s, s + needle.len())
            == needle
}

/// Executable substring search.
pub fn contains_str(hay: &str, needle: &str) -> (r: bool)
    ensures
        r == contains_seq(hay@, needle@),
{
    let h: usize = hay.unicode_len();
    let n: usize = needle.unicode_len();
    if n == 0 {
        proof {
            assert(hay@.subrange(0, 0 + needle@.len() as int) =~= needle@);
            assert(contains_seq(hay@, needle@));
        }
        return true;
    }
    if n > h {
        return false;
    }
    let mut s: usize = 0;
    while s <= h - n
        invariant
            h == hay@.len(),
            n == needle@.len(),
            1 <= n <= h,
            s <= h - n + 1,
            forall|s2: int| 0 <= s2 < s ==> #[trigger] hay@.subrange(s2, s2 + n) != needle@,
        decreases h - n - s + 1,
    {
        let mut j: usize = 0;
        let mut eq: bool = true;
        while j < n
            invariant
                h == hay@.len(),
                n == needle@.len(),
                n <= h,
                s <= h - n,
                j <= n,
                eq ==> forall|j2: int| 0 <= j2 < j ==> hay@[s + j2] == needle@[j2],
                !eq ==> hay@.subrange(s as int, s as int + n as int) != needle@,
            decreases n - j,
        {
            if eq && hay.get_char(s + j) != needle.get_char(j) {
                proof {
                    assert(hay@.subrange(s as int, s as int + n as int)[j as int] == hay@[s + j]);
                }
                eq = false;
            }
            j = j + 1;
        }
        if eq {
            proof {
                assert(hay@.subrange(s as int, s as int + n as int) =~= needle@);
            }
            return true;
        }
        s = s + 1;
    }
    false
}

/// Lexicographic order on character sequences, by code point; a prefix
/// comes before its extensions.
pub open spec fn lex_le(a: Seq<char>, b: Seq<char>) -> bool
    decreases a.len(),
{
    if a.len() == 0 {
        true
    } else if b.len() == 0 {
        false
    } else if (a[0] as u32) < (b[0] as u32) {
        true
    } else if (a[0] as u32) > (b[0] as u32) {
        false
    } else {
        lex_le(a.skip(1), b.skip(1))
    }
}

/// The order is total.
pub proof fn lemma_lex_total(a: Seq<char>, b: Seq<char>)
    ensures
        lex_le(a, b) || lex_le(b, a),
    decreases a.len(),
{
    if a.len() > 0 && b.len() > 0 && (a[0] as u32) == (b[0] as u32) {
        lemma_lex_total(a.skip(1), b.skip(1));
    }
}

/// The order is transitive.
pub proof fn lemma_lex_trans(a: Seq<char>, b: Seq<char>, c: Seq<char>)
    requires
        lex_le(a, b),
        lex_le(b, c),
    ensures
        lex_le(a, c),
    decreases a.len(),
{
    if a.len() > 0 && b.len() > 0 && c.len() > 0 && (a[0] as u32) == (b[0] as u32) && (b[0] as u32)
        == (c[0] as u32) {
        lemma_lex_trans(a.skip(1), b.skip(1), c.skip(1));
    }
}

/// Equal prefixes do not decide the order.
proof fn lemma_lex_skip(a: Seq<char>, b: Seq<char>, i: int)
    requires
        0 <= i <= a.len(),
        i <= b.len(),
        forall|j: int| 0 <= j < i ==> a[j] == b[j],
    ensures
        lex_le(a, b) == lex_le(a.skip(i), b.skip(i)),
    decreases i,
{
    if i == 0 {
        assert(a.skip(0) =~= a);
        assert(b.skip(0) =~= b);
    } else {
        assert(a.len() > 0 && b.len() > 0 && a[0] == b[0]);
        assert(forall|j: int| 0 <= j < i - 1 ==> a.skip(1)[j] == b.skip(1)[j]);
        lemma_lex_skip(a.skip(1), b.skip(1), i - 1);
        assert(a.skip(1).skip(i - 1) =~= a.skip(i));
        assert(b.skip(1).skip(i - 1) =~= b.skip(i));
    }
}

/// Executable lexicographic comparison.
pub fn lex_le_str(a: &str, b: &str) -> (r: bool)
    ensures
        r == lex_le(a@, b@),
{
    let alen: usize = a.unicode_len();
    let blen: usize = b.unicode_len();
    let mut i: usize = 0;
    while i < alen && i < blen
        invariant
            alen == a@.len(),
            blen == b@.len(),
            i <= alen,
            i <= blen,
            forall|j: int| 0 <= j < i ==> a@[j] == b@[j],
        decreases alen - i,
    {
        let ca: u32 = a.get_char(i) as u32;
        let cb: u32 = b.get_char(i) as u32;
        if ca < cb {
            proof {
                lemma_lex_skip(a@, b@, i as int);
            }
            return true;
        }
        if ca > cb {
            proof {
                lemma_lex_skip(a@, b@, i as int);
            }
            return false;
        }
        proof {
            assert(a@[i as int] == b@[i as int]);
        }
        i = i + 1;
    }
    proof {
        lemma_lex_skip(a@, b@, i as int);
    }
    alen <= blen
}

/// A search result: a cataloged file together with its tags.
pub struct FileInfo {
    pub id: i64,
    pub path: String,
    pub name: String,
    pub extension: String,
    pub size: i64,
    pub created_at: String,
    pub modified_at: String,
    pub tags: Vec<Tag>,
}

/// The tag ids linked to a file, in link order.
pub open spec fn tag_ids_of(links: Seq<FileTagLink>, file_id: i64) -> Seq<i64>
    decreases links.len(),
{
    if links.len() == 0 {
        Seq::empty()
    } else {
        let rest = tag_ids_of(links.drop_last(), file_id);
        if links.last().file_id == file_id {
            rest.push(links.last().tag_id)
        } else {
            rest
        }
    }
}

/// Whether a file record passes the search filters: the query occurs in
/// its name or path (ASCII-case-insensitively), some requested tag is
/// linked to it, and its extension equals the requested one; an absent
/// filter passes everything.
#[verifier::opaque]
pub open spec fn passes_filters(
    f: FileRecord,
    query: Option<String>,
    tag_ids: Option<Vec<i64>>,
    extension: Option<String>,
    links: Seq<FileTagLink>,
) -> bool {
    &&& match query {
        Some(q) => contains_seq(lower_seq(f.name@), lower_seq(q@)) || contains_seq(
            lower_seq(f.path@),
            lower_seq(q@),
        ),
        None => true,
    }
    &&& match tag_ids {
        Some(ids) => exists|p: int| 0 <= p < ids@.len() && has_link(links, f.id, #[trigger] ids@[p]),
        None => true,
    }
    &&& match extension {
        Some(e) => f.extension@ == e@,
        None => true,
    }
}

/// The file records that a search returns, in catalog order.
pub open spec fn matching_files(
    files: Seq<FileRecord>,
    query: Option<String>,
    tag_ids: Option<Vec<i64>>,
    extension: Option<String>,
    links: Seq<FileTagLink>,
) -> Seq<FileRecord> {
    files.filter(|f: FileRecord| passes_filters(f, query, tag_ids, extension, links))
}

/// Whether a search result faithfully describes a file record: every
/// scalar field agrees, and its tag list is the file's links in order,
/// each entry carrying the name and color of the tag with that id.
#[verifier::opaque]
pub open spec fn info_matches(
    info: FileInfo,
    f: FileRecord,
    tags: Seq<Tag>,
    links: Seq<FileTagLink>,
) -> bool {
    &&& info.id == f.id
    &&& info.path@ == f.path@
    &&& info.name@ == f.name@
    &&& info.extension@ == f.extension@
    &&& info.size == f.size
    &&& info.created_at@ == f.created_at@
    &&& info.modified_at@ == f.modified_at@
    &&& info.tags@.len() == tag_ids_of(links, f.id).len()
    &&& forall|p: int|
        0 <= p < info.tags@.len() ==> (#[trigger] info.tags@[p]).id == tag_ids_of(links, f.id)[p]
    &&& forall|p: int|
        0 <= p < info.tags@.len() ==> exists|w: int|
            0 <= w < tags.len() && (#[trigger] info.tags@[p]).id == (#[trigger] tags[w]).id
                && info.tags@[p].name@ == tags[w].name@ && info.tags@[p].color@ == tags[w].color@
}

/// A returned entry is justified when it faithfully describes some
/// record that passes the search filters.
pub open spec fn entry_justified(
    info: FileInfo,
    files: Seq<FileRecord>,
    tags: Seq<Tag>,
    links: Seq<FileTagLink>,
    query: Option<String>,
    tag_ids: Option<Vec<i64>>,
    extension: Option<String>,
) -> bool {
    exists|w: int|
        #![trigger files[w]]
        0 <= w < files.len() && passes_filters(files[w], query, tag_ids, extension, links)
            && info_matches(info, files[w], tags, links)
}

/// Every returned entry is justified.
pub open spec fn results_justified(
    r: Seq<FileInfo>,
    files: Seq<FileRecord>,
    tags: Seq<Tag>,
    links: Seq<FileTagLink>,
    query: Option<String>,
    tag_ids: Option<Vec<i64>>,
    extension: Option<String>,
) -> bool {
    forall|p: int|
        #![trigger r[p]]
        0 <= p < r.len() ==> entry_justified(r[p], files, tags, links, query, tag_ids, extension)
}

impl Catalog {
    /// Whether a link row for this pair exists.
    fn links_contain(&self, file_id: i64, tag_id: i64) -> (r: bool)
        ensures
            r == has_link(self.links@, file_id, tag_id),
    {
        let m: usize = self.links.len();
        let mut k: usize = 0;
        while k < m
            invariant
                m == self.links@.len(),
                k <= m,
                forall|j: int|
                    0 <= j < k ==> !((#[trigger] self.links@[j]).file_id == file_id
                        && self.links@[j].tag_id == tag_id),
            decreases m - k,
        {
            let l = self.links[k];
            if l.file_id == file_id && l.tag_id == tag_id {
                return true;
            }
            k = k + 1;
        }
        false
    }

    /// A copy of the tag with this id, which must exist.
    fn clone_tag_by_id(&self, tag_id: i64) -> (r: Tag)
        requires
            has_tag_id(self.tags@, tag_id),
        ensures
            r.id == tag_id,
            exists|w: int|
                0 <= w < self.tags@.len() && tag_id == (#[trigger] self.tags@[w]).id && r.name@
                    == self.tags@[w].name@ && r.color@ == self.tags@[w].color@,
    {
        let n: usize = self.tags.len();
        let mut i: usize = 0;
        while i < n
            invariant
                has_tag_id(self.tags@, tag_id),
                n == self.tags@.len(),
                i <= n,
                forall|j: int| 0 <= j < i ==> self.tags@[j].id != tag_id,
            decreases n - i,
        {
            let t = &self.tags[i];
            if t.id == tag_id {
                return Tag { id: t.id, name: t.name.clone(), color: t.color.clone() };
            }
            i = i + 1;
        }
        proof {
            assert(false);
        }
        let t = &self.tags[0];
        Tag { id: t.id, name: t.name.clone(), color: t.color.clone() }
    }

    /// The search result for the file record at index `w`.
    fn build_file_info(&self, w: usize) -> (r: FileInfo)
        requires
            self.wf(),
            w < self.files@.len(),
        ensures
            info_matches(r, self.files@[w as int], self.tags@, self.links@),
    {
        let f = &self.files[w];
        let fid = f.id;
        let mut tags: Vec<Tag> = Vec::new();
        let m: usize = self.links.len();
        let mut k: usize = 0;
        while k < m
            invariant
                self.wf(),
                w < self.files@.len(),
                fid == self.files@[w as int].id,
                m == self.links@.len(),
                k <= m,
                tags@.len() == tag_ids_of(self.links@.take(k as int), fid).len(),
                forall|p: int|
                    0 <= p < tags@.len() ==> (#[trigger] tags@[p]).id == tag_ids_of(
                        self.links@.take(k as int),
                        fid,
                    )[p],
                forall|p: int|
                    0 <= p < tags@.len() ==> exists|w2: int|
                        0 <= w2 < self.tags@.len() && (#[trigger] tags@[p]).id == (
                        #[trigger] self.tags@[w2]).id && tags@[p].name@ == self.tags@[w2].name@
                            && tags@[p].color@ == self.tags@[w2].color@,
            decreases m - k,
        {
            proof {
                assert(self.links@.take(k as int + 1).drop_last() =~= self.links@.take(k as int));
            }
            let l = self.links[k];
            if l.file_id == fid {
                proof {
                    assert(has_tag_id(self.tags@, l.tag_id));
                }
                let t = self.clone_tag_by_id(l.tag_id);
                tags.push(t);
            }
            k = k + 1;
        }
        proof {
            reveal(info_matches);
            assert(self.links@.take(m as int) =~= self.links@);
        }
        FileInfo {
            id: f.id,
            path: f.path.clone(),
            name: f.name.clone(),
            extension: f.extension.clone(),
            size: f.size,
            created_at: f.created_at.clone(),
            modified_at: f.modified_at.clone(),
            tags,
        }
    }

    /// Whether the file record at index `w` passes the search filters.
    fn record_passes(
        &self,
        w: usize,
        query: &Option<String>,
        tag_ids: &Option<Vec<i64>>,
        extension: &Option<String>,
    ) -> (r: bool)
        requires
            w < self.files@.len(),
        ensures
            r == passes_filters(self.files@[w as int], *query, *tag_ids, *extension, self.links@),
    {
        proof {
            reveal(passes_filters);
        }
        let f = &self.files[w];
        let q_ok: bool = match query {
            None => true,
            Some(q) => {
                let ql = lower_str(q.as_str());
                let nl = lower_str(f.name.as_str());
                let pl = lower_str(f.path.as_str());
                contains_str(nl.as_str(), ql.as_str()) || contains_str(pl.as_str(), ql.as_str())
            },
        };
        if !q_ok {
            return false;
        }
        let t_ok: bool = match tag_ids {
            None => true,
            Some(ids) => {
                let cnt: usize = ids.len();
                let mut j: usize = 0;
                let mut found: bool = false;
                while j < cnt
                    invariant
                        cnt == ids@.len(),
                        j <= cnt,
                        found ==> exists|p: int|
                            0 <= p < ids@.len() && has_link(
                                self.links@,
                                self.files@[w as int].id,
                                #[trigger] ids@[p],
                            ),
                        !found ==> forall|p: int|
                            0 <= p < j ==> !has_link(
                                self.links@,
                                self.files@[w as int].id,
                                #[trigger] ids@[p],
                            ),
                        w < self.files@.len(),
                        f.id == self.files@[w as int].id,
                    decreases cnt - j,
                {
                    if !found && self.links_contain(f.id, ids[j]) {
                        found = true;
                    }
                    j = j + 1;
                }
                found
            },
        };
        if !t_ok {
            return false;
        }
        match extension {
            None => true,
            Some(e) => str_eq(f.extension.as_str(), e.as_str()),
        }
    }

    /// Search the catalog: the files that pass the query, tag and
    /// extension filters, each carrying its tags, ordered ascending by
    /// file name.
    #[verifier::rlimit(100)]
    pub fn search_files(
        &self,
        query: Option<String>,
        tag_ids: Option<Vec<i64>>,
        extension: Option<String>,
    ) -> (r: Vec<FileInfo>)
        requires
            self.wf(),
        ensures
            r@.len() == matching_files(self.files@, query, tag_ids, extension, self.links@).len(),
            results_justified(
                r@,
                self.files@,
                self.tags@,
                self.links@,
                query,
                tag_ids,
                extension,
            ),
            forall|w: int|
                #![trigger self.files@[w]]
                0 <= w < self.files@.len() && passes_filters(
                    self.files@[w],
                    query,
                    tag_ids,
                    extension,
                    self.links@,
                ) ==> exists|p: int|
                    #![trigger r@[p]]
                    0 <= p < r@.len() && r@[p].path@ == self.files@[w].path@,
            sorted_by_name(r@),
    {
        let n: usize = self.files.len();
        let mut order: Vec<usize> = Vec::new();
        let mut i: usize = 0;
        while i < n
            invariant
                self.wf(),
                n == self.files@.len(),
                i <= n,
                order@.len() == matching_files(
                    self.files@.take(i as int),
                    query,
                    tag_ids,
                    extension,
                    self.links@,
                ).len(),
                forall|p: int|
                    #![trigger order@[p]]
                    0 <= p < order@.len() ==> order@[p] < i && passes_filters(
                        self.files@[order@[p] as int],
                        query,
                        tag_ids,
                        extension,
                        self.links@,
                    ),
                forall|w: int|
                    #![trigger self.files@[w]]
                    0 <= w < i && passes_filters(
                        self.files@[w],
                        query,
                        tag_ids,
                        extension,
                        self.links@,
                    ) ==> exists|p: int|
                        #![trigger order@[p]]
                        0 <= p < order@.len() && order@[p] == w,
                forall|p: int, q: int|
                    #![trigger order@[p], order@[q]]
                    0 <= p < q < order@.len() ==> lex_le(
                        self.files@[order@[p] as int].name@,
                        self.files@[order@[q] as int].name@,
                    ),
            decreases n - i,
        {
            proof {
                reveal_with_fuel(Seq::filter, 2);
                assert(self.files@.take(i as int + 1).drop_last() =~= self.files@.take(i as int));
            }
            if self.record_passes(i, &query, &tag_ids, &extension) {
                let m: usize = order.len();
                let mut pos: usize = 0;
                let mut stop: bool = false;
                while pos < m && !stop
                    invariant
                        n == self.files@.len(),
                        i < n,
                        m == order@.len(),
                        pos <= m,
                        forall|p: int| 0 <= p < m ==> (#[trigger] order@[p]) < n,
                        forall|q2: int|
                            0 <= q2 < pos ==> lex_le(
                                self.files@[(#[trigger] order@[q2]) as int].name@,
                                self.files@[i as int].name@,
                            ),
                        stop ==> pos < m && !lex_le(
                            self.files@[order@[pos as int] as int].name@,
                            self.files@[i as int].name@,
                        ),
                    decreases m - pos + (if stop { 0int } else { 1int }),
                {
                    let oi: usize = order[pos];
                    if !lex_le_str(self.files[oi].name.as_str(), self.files[i].name.as_str()) {
                        stop = true;
                    } else {
                        pos = pos + 1;
                    }
                }
                let ghost old_order = order@;
                order.insert(pos, i);
                proof {
                    assert forall|p: int| 0 <= p < order@.len() implies #[trigger] order@[p] == (
                    if p < pos {
                        old_order[p]
                    } else if p == pos {
                        i as usize
                    } else {
                        old_order[p - 1]
                    }) by {};
                    if pos < old_order.len() {
                        lemma_lex_total(
                            self.files@[old_order[pos as int] as int].name@,
                            self.files@[i as int].name@,
                        );
                    }
                    assert forall|p: int, q: int|
                        #![trigger order@[p], order@[q]]
                        0 <= p < q < order@.len() implies lex_le(
                        self.files@[order@[p] as int].name@,
                        self.files@[order@[q] as int].name@,
                    ) by {
                        if p == pos && q > pos && q - 1 > pos {
                            lemma_lex_trans(
                                self.files@[i as int].name@,
                                self.files@[old_order[pos as int] as int].name@,
                                self.files@[old_order[q - 1] as int].name@,
                            );
                        }
                    };
                    assert forall|w: int|
                        #![trigger self.files@[w]]
                        0 <= w < i + 1 && passes_filters(
                            self.files@[w],
                            query,
                            tag_ids,
                            extension,
                            self.links@,
                        ) implies exists|p: int|
                        #![trigger order@[p]]
                        0 <= p < order@.len() && order@[p] == w by {
                        if w < i {
                            let p0 = choose|p0: int|
                                0 <= p0 < old_order.len() && #[trigger] old_order[p0] == w;
                            let pn = if p0 < pos {
                                p0
                            } else {
                                p0 + 1
                            };
                            assert(order@[pn] == old_order[p0]);
                        } else {
                            assert(order@[pos as int] == i as usize);
                        }
                    };
                }
            }
            i = i + 1;
        }
        proof {
            assert(self.files@.take(n as int) =~= self.files@);
        }
        let k: usize = order.len();
        let mut out: Vec<FileInfo> = Vec::new();
        let mut j: usize = 0;
        while j < k
            invariant
                self.wf(),
                n == self.files@.len(),
                k == order@.len(),
                j <= k,
                out@.len() == j,
                forall|p: int|
                    #![trigger order@[p]]
                    0 <= p < k ==> order@[p] < n && passes_filters(
                        self.files@[order@[p] as int],
                        query,
                        tag_ids,
                        extension,
                        self.links@,
                    ),
                forall|p: int|
                    #![trigger out@[p]]
                    0 <= p < j ==> info_matches(
                        out@[p],
                        self.files@[order@[p] as int],
                        self.tags@,
                        self.links@,
                    ),
                forall|p: int|
                    #![trigger out@[p]]
                    0 <= p < j ==> entry_justified(
                        out@[p],
                        self.files@,
                        self.tags@,
                        self.links@,
                        query,
                        tag_ids,
                        extension,
                    ),
            decreases k - j,
        {
            let idx: usize = order[j];
            let info = self.build_file_info(idx);
            out.push(info);
            proof {
                let w0 = idx as int;
                assert(passes_filters(self.files@[w0], query, tag_ids, extension, self.links@));
                assert(info_matches(out@[j as int], self.files@[w0], self.tags@, self.links@));
                assert(entry_justified(
                    out@[j as int],
                    self.files@,
                    self.tags@,
                    self.links@,
                    query,
                    tag_ids,
                    extension,
                ));
            }
            j = j + 1;
        }
        proof {
            assert(results_justified(
                out@,
                self.files@,
                self.tags@,
                self.links@,
                query,
                tag_ids,
                extension,
            ));
            assert forall|w: int|
                #![trigger self.files@[w]]
                0 <= w < self.files@.len() && passes_filters(
                    self.files@[w],
                    query,
                    tag_ids,
                    extension,
                    self.links@,
                ) implies exists|p: int|
                #![trigger out@[p]]
                0 <= p < out@.len() && out@[p].path@ == self.files@[w].path@ by {
                let p0 = choose|p0: int|
                    0 <= p0 < order@.len() && #[trigger] order@[p0] == w;
                assert(out@[p0].path@ == self.files@[w].path@) by {
                    reveal(info_matches);
                }
            };
            assert forall|p: int, q: int| 0 <= p < q < out@.len() implies lex_le(
                out@[p].name@,
                out@[q].name@,
            ) by {
                reveal(info_matches);
                assert(out@[p].name@ == self.files@[order@[p] as int].name@);
                assert(out@[q].name@ == self.files@[order@[q] as int].name@);
            };
        }
        out
    }
}

/// All-pairs ascending name order of a result list.
pub open spec fn sorted_by_name(s: Seq<FileInfo>) -> bool {
    forall|p: int, q: int| 0 <= p < q < s.len() ==> lex_le(s[p].name@, s[q].name@)
}

} // verus!
