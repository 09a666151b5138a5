//! A model of file names and paths as plain strings: a path is a
//! `/`-separated string, its file name is the part after the last `/`, and
//! stem and extension split that name at its last `.` (a name whose only
//! `.` is its first character counts as hidden and has no extension).
use vstd::prelude::*;
use crate::text::lower_seq;
use crate::text::lower_str;
use crate::text::str_eq;

verus! {

/// Index of the last occurrence of `c` in `s`, or -1 when `c` is absent.
pub open spec fn last_index_of(s: Seq<char>, c: char) -> int
    decreases s.len(),
{
    if s.len() == 0 {
        -1
    } else if s[s.len() - 1] == c {
        s.len() - 1
    } else {
        last_index_of(s.drop_last(), c)
    }
}

/// `last_index_of` points at an occurrence of `c`, and nothing after it is one.
pub proof fn lemma_last_index_of(s: Seq<char>, c: char)
    ensures
        -1 <= last_index_of(s, c) < s.len(),
        last_index_of(s, c) >= 0 ==> s[last_index_of(s, c)] == c,
        forall|j: int| last_index_of(s, c) < j < s.len() ==> s[j] != c,
    decreases s.len(),
{
    if s.len() > 0 && s[s.len() - 1] != c {
        lemma_last_index_of(s.drop_last(), c);
        assert(forall|j: int| 0 <= j < s.len() - 1 ==> s.drop_last()[j] == s[j]);
    }
}

/// The file-name component of a path string: everything after the last `/`
/// (the whole string when it holds no `/`).
pub open spec fn file_name_of(p: Seq<char>) -> Seq<char> {
    p.subrange(last_index_of(p, '/') + 1, p.len() as int)
}

/// The stem of a file name: the part before the last `.`; a name without a
/// `.` past its first character is its own stem.
pub open spec fn stem_of(name: Seq<char>) -> Seq<char> {
    let d = last_index_of(name, '.');
    if d <= 0 {
        name
    } else {
        name.take(d)
    }
}

/// The extension of a file name: the part after the last `.`; `None` when
/// the name holds no `.` past its first character.
pub open spec fn extension_of(name: Seq<char>) -> Option<Seq<char>> {
    let d = last_index_of(name, '.');
    if d <= 0 {
        None
    } else {
        Some(name.subrange(d + 1, name.len() as int))
    }
}

/// The extension of the file name of a whole path.
pub open spec fn path_extension_of(p: Seq<char>) -> Option<Seq<char>> {
    extension_of(file_name_of(p))
}

/// A name is hidden when it starts with a `.`.
pub open spec fn is_hidden_name(name: Seq<char>) -> bool {
    name.len() > 0 && name[0] == '.'
}

/// Index of the last occurrence of `c` in `s`, executable form.
fn find_last_char(s: &str, c: char) -> (r: Option<usize>)
    ensures
        match r {
            Some(j) => j == last_index_of(s@, c),
            None => last_index_of(s@, c) == -1,
        },
{
    proof {
        lemma_last_index_of(s@, c);
    }
    let n: usize = s.unicode_len();
    let mut i: usize = n;
    while i > 0
        invariant
            i <= n,
            n == s@.len(),
            forall|j: int| i <= j < n ==> s@[j] != c,
        decreases i,
    {
        let k = i - 1;
        if s.get_char(k) == c {
            proof {
                lemma_last_index_of(s@, c);
                let r = last_index_of(s@, c);
                if r < k {
                    assert(s@[k as int] != c);
                }
                if r > k {
                    assert(s@[r] != c);
                    assert(s@[r] == c);
                }
            }
            return Some(k);
        }
        i = k;
    }
    None
}

/// The file name of `path`: the part after the last `/`; `None` when that
/// part is empty (as for a path that ends in `/`).
pub fn get_file_name(path: &str) -> (r: Option<String>)
    ensures
        match r {
            Some(name) => file_name_of(path@).len() > 0 && name@ == file_name_of(path@),
            None => file_name_of(path@).len() == 0,
        },
{
    proof {
        lemma_last_index_of(path@, '/');
    }
    let n: usize = path.unicode_len();
    let start: usize = match find_last_char(path, '/') {
        Some(j) => j + 1,
        None => 0,
    };
    if start < n {
        let sub = path.substring_char(start, n);
        Some(sub.to_owned())
    } else {
        proof {
            assert(file_name_of(path@) =~= Seq::<char>::empty());
        }
        None
    }
}

/// The stem of the file name of `path`; `None` when the path has no file name.
pub fn get_file_stem(path: &str) -> (r: Option<String>)
    ensures
        match r {
            Some(st) => file_name_of(path@).len() > 0 && st@ == stem_of(file_name_of(path@)),
            None => file_name_of(path@).len() == 0,
        },
{
    match get_file_name(path) {
        None => None,
        Some(name) => {
            proof {
                lemma_last_index_of(name@, '.');
            }
            let d_pos: usize = match find_last_char(name.as_str(), '.') {
                Some(d) => d,
                None => 0,
            };
            if d_pos > 0 {
                let sub = name.as_str().substring_char(0, d_pos);
                proof {
                    assert(sub@ =~= stem_of(file_name_of(path@)));
                }
                Some(sub.to_owned())
            } else {
                Some(name)
            }
        },
    }
}

/// The extension of the file name of `path`, lowercased (ASCII); `None`
/// when the path has no file name or the name has no extension.
pub fn get_file_extension(path: &str) -> (r: Option<String>)
    ensures
        r is Some <==> path_extension_of(path@) is Some,
        r matches Some(e) ==> e@ == lower_seq(path_extension_of(path@)->0),
{
    match get_file_name(path) {
        None => {
            proof {
                lemma_last_index_of(Seq::<char>::empty(), '.');
            }
            None
        },
        Some(name) => {
            proof {
                lemma_last_index_of(name@, '.');
            }
            let nn: usize = name.as_str().unicode_len();
            let d_pos: usize = match find_last_char(name.as_str(), '.') {
                Some(d) => d,
                None => 0,
            };
            if d_pos > 0 {
                let sub = name.as_str().substring_char(d_pos + 1, nn);
                Some(lower_str(sub))
            } else {
                None
            }
        },
    }
}

/// `base` and `rel` joined with a single `/` separator.
pub open spec fn join_seq(base: Seq<char>, rel: Seq<char>) -> Seq<char> {
    if base.len() > 0 && base[base.len() - 1] == '/' {
        base + rel
    } else {
        base + seq!['/'] + rel
    }
}

/// Join a folder path and a relative path with a `/` separator, not
/// doubling one that `base` already ends with.
pub fn join_path(base: &str, rel: &str) -> (r: String)
    ensures
        r@ == join_seq(base@, rel@),
{
    let n: usize = base.unicode_len();
    let mut out: String = base.to_owned();
    if n == 0 || base.get_char(n - 1) != '/' {
        proof {
            reveal_strlit("/");
        }
        out.append("/");
    }
    out.append(rel);
    proof {
        assert(out@ =~= join_seq(base@, rel@));
    }
    out
}

/// MIME type for a file extension, matched ASCII-case-insensitively.
pub open spec fn mime_of(ext: Seq<char>) -> Seq<char> {
    let e = lower_seq(ext);
    if e == "jpg"@ || e == "jpeg"@ {
        "image/jpeg"@
    } else if e == "png"@ {
        "image/png"@
    } else if e == "gif"@ {
        "image/gif"@
    } else if e == "webp"@ {
        "image/webp"@
    } else if e == "svg"@ {
        "image/svg+xml"@
    } else if e == "bmp"@ {
        "image/bmp"@
    } else if e == "pdf"@ {
        "application/pdf"@
    } else if e == "doc"@ || e == "docx"@ {
        "application/msword"@
    } else if e == "xls"@ || e == "xlsx"@ {
        "application/vnd.ms-excel"@
    } else if e == "ppt"@ || e == "pptx"@ {
        "application/vnd.ms-powerpoint"@
    } else if e == "txt"@ {
        "text/plain"@
    } else if e == "rtf"@ {
        "application/rtf"@
    } else if e == "odt"@ {
        "application/vnd.oasis.opendocument.text"@
    } else if e == "mp3"@ {
        "audio/mpeg"@
    } else if e == "wav"@ {
        "audio/wav"@
    } else if e == "ogg"@ {
        "audio/ogg"@
    } else if e == "flac"@ {
        "audio/flac"@
    } else if e == "aac"@ {
        "audio/aac"@
    } else if e == "mp4"@ {
        "video/mp4"@
    } else if e == "avi"@ {
        "video/x-msvideo"@
    } else if e == "mov"@ {
        "video/quicktime"@
    } else if e == "mkv"@ {
        "video/x-matroska"@
    } else if e == "webm"@ {
        "video/webm"@
    } else if e == "wmv"@ {
        "video/x-ms-wmv"@
    } else if e == "zip"@ {
        "application/zip"@
    } else if e == "rar"@ {
        "application/x-rar-compressed"@
    } else if e == "7z"@ {
        "application/x-7z-compressed"@
    } else if e == "tar"@ {
        "application/x-tar"@
    } else if e == "gz"@ {
        "application/gzip"@
    } else {
        "application/octet-stream"@
    }
}

/// The MIME type that goes with a file extension; unknown extensions get
/// the generic byte-stream type.
pub fn get_mime_type(extension: &str) -> (r: String)
    ensures
        r@ == mime_of(extension@),
{
    let lowered = lower_str(extension);
    let e = lowered.as_str();
    if str_eq(e, "jpg") || str_eq(e, "jpeg") {
        "image/jpeg".to_owned()
    } else if str_eq(e, "png") {
        "image/png".to_owned()
    } else if str_eq(e, "gif") {
        "image/gif".to_owned()
    } else if str_eq(e, "webp") {
        "image/webp".to_owned()
    } else if str_eq(e, "svg") {
        "image/svg+xml".to_owned()
    } else if str_eq(e, "bmp") {
        "image/bmp".to_owned()
    } else if str_eq(e, "pdf") {
        "application/pdf".to_owned()
    } else if str_eq(e, "doc") || str_eq(e, "docx") {
        "application/msword".to_owned()
    } else if str_eq(e, "xls") || str_eq(e, "xlsx") {
        "application/vnd.ms-excel".to_owned()
    } else if str_eq(e, "ppt") || str_eq(e, "pptx") {
        "application/vnd.ms-powerpoint".to_owned()
    } else if str_eq(e, "txt") {
        "text/plain".to_owned()
    } else if str_eq(e, "rtf") {
        "application/rtf".to_owned()
    } else if str_eq(e, "odt") {
        "application/vnd.oasis.opendocument.text".to_owned()
    } else if str_eq(e, "mp3") {
        "audio/mpeg".to_owned()
    } else if str_eq(e, "wav") {
        "audio/wav".to_owned()
    } else if str_eq(e, "ogg") {
        "audio/ogg".to_owned()
    } else if str_eq(e, "flac") {
        "audio/flac".to_owned()
    } else if str_eq(e, "aac") {
        "audio/aac".to_owned()
    } else if str_eq(e, "mp4") {
        "video/mp4".to_owned()
    } else if str_eq(e, "avi") {
        "video/x-msvideo".to_owned()
    } else if str_eq(e, "mov") {
        "video/quicktime".to_owned()
    } else if str_eq(e, "mkv") {
        "video/x-matroska".to_owned()
    } else if str_eq(e, "webm") {
        "video/webm".to_owned()
    } else if str_eq(e, "wmv") {
        "video/x-ms-wmv".to_owned()
    } else if str_eq(e, "zip") {
        "application/zip".to_owned()
    } else if str_eq(e, "rar") {
        "application/x-rar-compressed".to_owned()
    } else if str_eq(e, "7z") {
        "application/x-7z-compressed".to_owned()
    } else if str_eq(e, "tar") {
        "application/x-tar".to_owned()
    } else if str_eq(e, "gz") {
        "application/gzip".to_owned()
    } else {
        "application/octet-stream".to_owned()
    }
}

/// Category name for a file extension, matched ASCII-case-insensitively.
pub open spec fn category_of(ext: Seq<char>) -> Seq<char> {
    let e = lower_seq(ext);
    if e == "pdf"@ || e == "doc"@ || e == "docx"@ || e == "txt"@ || e == "rtf"@ || e == "odt"@
        || e == "xls"@ || e == "xlsx"@ || e == "ppt"@ || e == "pptx"@ {
        "Documents"@
    } else if e == "jpg"@ || e == "jpeg"@ || e == "png"@ || e == "gif"@ || e == "bmp"@
        || e == "webp"@ || e == "svg"@ {
        "Images"@
    } else if e == "mp4"@ || e == "avi"@ || e == "mov"@ || e == "wmv"@ || e == "mkv"@
        || e == "webm"@ {
        "Videos"@
    } else if e == "mp3"@ || e == "wav"@ || e == "flac"@ || e == "ogg"@ || e == "aac"@ {
        "Music"@
    } else if e == "zip"@ || e == "rar"@ || e == "7z"@ || e == "tar"@ || e == "gz"@ {
        "Archives"@
    } else if e == "js"@ || e == "ts"@ || e == "html"@ || e == "css"@ || e == "rs"@ || e == "py"@
        || e == "java"@ || e == "cpp"@ || e == "c"@ || e == "h"@ {
        "Code"@
    } else {
        "Other"@
    }
}

/// The category name that goes with a file extension.
fn category_name(extension: &str) -> (r: String)
    ensures
        r@ == category_of(extension@),
{
    let lowered = lower_str(extension);
    let e = lowered.as_str();
    if str_eq(e, "pdf") || str_eq(e, "doc") || str_eq(e, "docx") || str_eq(e, "txt")
        || str_eq(e, "rtf") || str_eq(e, "odt") || str_eq(e, "xls") || str_eq(e, "xlsx")
        || str_eq(e, "ppt") || str_eq(e, "pptx") {
        "Documents".to_owned()
    } else if str_eq(e, "jpg") || str_eq(e, "jpeg") || str_eq(e, "png") || str_eq(e, "gif")
        || str_eq(e, "bmp") || str_eq(e, "webp") || str_eq(e, "svg") {
        "Images".to_owned()
    } else if str_eq(e, "mp4") || str_eq(e, "avi") || str_eq(e, "mov") || str_eq(e, "wmv")
        || str_eq(e, "mkv") || str_eq(e, "webm") {
        "Videos".to_owned()
    } else if str_eq(e, "mp3") || str_eq(e, "wav") || str_eq(e, "flac") || str_eq(e, "ogg")
        || str_eq(e, "aac") {
        "Music".to_owned()
    } else if str_eq(e, "zip") || str_eq(e, "rar") || str_eq(e, "7z") || str_eq(e, "tar")
        || str_eq(e, "gz") {
        "Archives".to_owned()
    } else if str_eq(e, "js") || str_eq(e, "ts") || str_eq(e, "html") || str_eq(e, "css")
        || str_eq(e, "rs") || str_eq(e, "py") || str_eq(e, "java") || str_eq(e, "cpp")
        || str_eq(e, "c") || str_eq(e, "h") {
        "Code".to_owned()
    } else {
        "Other".to_owned()
    }
}

/// The grouping key of a path when files are grouped by extension: the
/// lowercased extension, or the empty string for a file without one.
pub open spec fn extension_key_of(p: Seq<char>) -> Seq<char> {
    match path_extension_of(p) {
        Some(e) => lower_seq(e),
        None => Seq::empty(),
    }
}

/// The grouping key of a path when files are grouped by category.
pub open spec fn category_key_of(p: Seq<char>) -> Seq<char> {
    match path_extension_of(p) {
        Some(e) => category_of(e),
        None => "Other"@,
    }
}

/// One step of grouping: append `p` to the group of `key`, or open a new
/// group at the end when no group has that key yet.
pub open spec fn add_to_groups(
    gs: Seq<(Seq<char>, Seq<Seq<char>>)>,
    key: Seq<char>,
    p: Seq<char>,
) -> Seq<(Seq<char>, Seq<Seq<char>>)>
    decreases gs.len(),
{
    if gs.len() == 0 {
        seq![(key, seq![p])]
    } else if gs[0].0 == key {
        seq![(gs[0].0, gs[0].1.push(p))] + gs.skip(1)
    } else {
        seq![gs[0]] + add_to_groups(gs.skip(1), key, p)
    }
}

/// Grouping of `files` under the key function `keyf`, in order of first
/// appearance of each key.
pub open spec fn grouped(
    files: Seq<Seq<char>>,
    keyf: spec_fn(Seq<char>) -> Seq<char>,
) -> Seq<(Seq<char>, Seq<Seq<char>>)>
    decreases files.len(),
{
    if files.len() == 0 {
        Seq::empty()
    } else {
        add_to_groups(grouped(files.drop_last(), keyf), keyf(files.last()), files.last())
    }
}

/// When the first group with key `key` stands at `j`, one grouping step
/// updates exactly that group.
proof fn lemma_add_to_groups_found(
    gs: Seq<(Seq<char>, Seq<Seq<char>>)>,
    key: Seq<char>,
    p: Seq<char>,
    j: int,
)
    requires
        0 <= j < gs.len(),
        gs[j].0 == key,
        forall|i: int| 0 <= i < j ==> gs[i].0 != key,
    ensures
        add_to_groups(gs, key, p) == gs.update(j, (key, gs[j].1.push(p))),
    decreases j,
{
    if j == 0 {
        assert(add_to_groups(gs, key, p) =~~= gs.update(0, (key, gs[0].1.push(p))));
    } else {
        assert(forall|i: int| 0 <= i < j - 1 ==> gs.skip(1)[i].0 != key);
        lemma_add_to_groups_found(gs.skip(1), key, p, j - 1);
        assert(add_to_groups(gs, key, p) =~~= gs.update(j, (key, gs[j].1.push(p))));
    }
}

/// When no group has key `key`, one grouping step opens a new group at the
/// end.
proof fn lemma_add_to_groups_absent(gs: Seq<(Seq<char>, Seq<Seq<char>>)>, key: Seq<char>, p: Seq<char>)
    requires
        forall|i: int| 0 <= i < gs.len() ==> gs[i].0 != key,
    ensures
        add_to_groups(gs, key, p) == gs.push((key, seq![p])),
    decreases gs.len(),
{
    if gs.len() == 0 {
        assert(add_to_groups(gs, key, p) =~~= gs.push((key, seq![p])));
    } else {
        assert(forall|i: int| 0 <= i < gs.skip(1).len() ==> gs.skip(1)[i].0 != key);
        lemma_add_to_groups_absent(gs.skip(1), key, p);
        assert(add_to_groups(gs, key, p) =~~= gs.push((key, seq![p])));
    }
}

/// Group `files` by the precomputed key of each file, in order of first
/// appearance of each key.
fn group_pairs(
    files: &Vec<String>,
    keys: &Vec<String>,
    keyf: Ghost<spec_fn(Seq<char>) -> Seq<char>>,
) -> (r: Vec<(String, Vec<String>)>)
    requires
        keys@.len() == files@.len(),
        forall|i: int| 0 <= i < keys@.len() ==> keys@[i]@ == keyf@(files@[i]@),
    ensures
        r.deep_view() == grouped(files.deep_view(), keyf@),
{
    let mut out: Vec<(String, Vec<String>)> = Vec::new();
    let n: usize = files.len();
    let mut i: usize = 0;
    while i < n
        invariant
            n == files@.len(),
            keys@.len() == files@.len(),
            forall|k: int| 0 <= k < keys@.len() ==> keys@[k]@ == keyf@(files@[k]@),
            i <= n,
            out.deep_view() == grouped(files.deep_view().take(i as int), keyf@),
        decreases n - i,
    {
        proof {
            assert(files.deep_view().take(i as int + 1).drop_last() =~= files.deep_view().take(
                i as int,
            ));
        }
        let key = &keys[i];
        let file = &files[i];
        let m: usize = out.len();
        let mut j: usize = 0;
        let mut found: bool = false;
        while j < m && !found
            invariant
                m == out@.len(),
                j <= m,
                found ==> j < m && out@[j as int].0@ == key@,
                forall|q: int| 0 <= q < j ==> out@[q].0@ != key@,
            decreases m - j + (if found { 0int } else { 1int }),
        {
            if str_eq(out[j].0.as_str(), key.as_str()) {
                found = true;
            } else {
                j = j + 1;
            }
        }
        if found {
            proof {
                lemma_add_to_groups_found(out.deep_view(), key@, file@, j as int);
            }
            let pair = out.remove(j);
            let (k0, mut lst) = pair;
            lst.push(file.clone());
            out.insert(j, (k0, lst));
            proof {
                assert(out.deep_view() =~~= grouped(files.deep_view().take(i as int + 1), keyf@));
            }
        } else {
            proof {
                lemma_add_to_groups_absent(out.deep_view(), key@, file@);
            }
            let mut lst: Vec<String> = Vec::new();
            lst.push(file.clone());
            out.push((key.clone(), lst));
            proof {
                assert(out.deep_view() =~~= grouped(files.deep_view().take(i as int + 1), keyf@));
            }
        }
        i = i + 1;
    }
    proof {
        assert(files.deep_view().take(n as int) =~= files.deep_view());
    }
    out
}

/// Group paths by their lowercased extension; paths without an extension
/// gather under the empty-string key. Groups stand in order of first
/// appearance, each group's files in input order.
pub fn group_files_by_extension(files: &Vec<String>) -> (r: Vec<(String, Vec<String>)>)
    ensures
        r.deep_view() == grouped(files.deep_view(), |p: Seq<char>| extension_key_of(p)),
{
    let n: usize = files.len();
    let mut keys: Vec<String> = Vec::new();
    let mut i: usize = 0;
    while i < n
        invariant
            n == files@.len(),
            i <= n,
            keys@.len() == i,
            forall|k: int| 0 <= k < i ==> keys@[k]@ == extension_key_of(files@[k]@),
        decreases n - i,
    {
        match get_file_extension(files[i].as_str()) {
            Some(e) => keys.push(e),
            None => {
                proof {
                    reveal_strlit("");
                    assert(""@ =~= Seq::<char>::empty());
                }
                keys.push("".to_owned())
            },
        }
        i = i + 1;
    }
    group_pairs(files, &keys, Ghost(|p: Seq<char>| extension_key_of(p)))
}

/// Group paths by the category of their extension; paths without an
/// extension gather under the `Other` category. Groups stand in order of
/// first appearance, each group's files in input order.
pub fn categorize_files(files: &Vec<String>) -> (r: Vec<(String, Vec<String>)>)
    ensures
        r.deep_view() == grouped(files.deep_view(), |p: Seq<char>| category_key_of(p)),
{
    let n: usize = files.len();
    let mut keys: Vec<String> = Vec::new();
    let mut i: usize = 0;
    while i < n
        invariant
            n == files@.len(),
            i <= n,
            keys@.len() == i,
            forall|k: int| 0 <= k < i ==> keys@[k]@ == category_key_of(files@[k]@),
        decreases n - i,
    {
        match get_file_extension(files[i].as_str()) {
            Some(e) => {
                let c = category_name(e.as_str());
                proof {
                    crate::text::lemma_lower_idempotent(path_extension_of(files@[i as int]@)->0);
                }
                keys.push(c);
            },
            None => keys.push("Other".to_owned()),
        }
        i = i + 1;
    }
    group_pairs(files, &keys, Ghost(|p: Seq<char>| category_key_of(p)))
}

/// Relies on `std::path::Path::is_dir`: whether `path` names a directory
/// that exists on this machine right now. No contract is stated; the
/// answer depends on the state of the disk.
#[verifier::external_body]
pub fn is_directory(path: &str) -> bool {
    std::path::Path::new(path).is_dir()
}

/// Relies on `std::path::Path::is_file`: whether `path` names a regular
/// file that exists on this machine right now. No contract is stated; the
/// answer depends on the state of the disk.
#[verifier::external_body]
pub fn is_file(path: &str) -> bool {
    std::path::Path::new(path).is_file()
}

/// Relies on `std::path::Path::exists`: whether `path` exists on this
/// machine right now. No contract is stated; the answer depends on the
/// state of the disk.
#[verifier::external_body]
pub(crate) fn path_exists(path: &str) -> bool {
    std::path::Path::new(path).exists()
}

} // verus!
