//! Creating shares and sites from paths the user picked or pasted: the
//! records made for them, the reuse of a record already made for the same
//! folder or file, the checks on a site folder, and what is reported about
//! a pasted path. The caller looks at the file system and hands in what it
//! found.
use vstd::prelude::*;

use crate::config::{strip_extended_prefix, strip_extended_prefix_spec};
use crate::serve::Resource;
use crate::state::{ShareKind, ShareSession, SiteSession, Registry};

verus! {

/// The message when a picked path does not exist.
pub fn missing_path_message(path: &str) -> (r: String)
    ensures
        r@ == "路径不存在: "@ + path@,
{
    let mut r = String::from_str("路径不存在: ");
    r.append(path);
    r
}

/// A name, or `default` when there is none.
pub open spec fn name_or(name: Option<Seq<char>>, default: Seq<char>) -> Seq<char> {
    match name {
        Some(n) => n,
        None => default,
    }
}

/// The view of an optional name.
pub open spec fn opt_view(name: Option<&str>) -> Option<Seq<char>> {
    match name {
        Some(n) => Some(n@),
        None => None,
    }
}

fn name_or_default(name: Option<&str>, default: &str) -> (r: String)
    ensures
        r@ == name_or(opt_view(name), default@),
{
    match name {
        Some(n) => String::from_str(n),
        None => String::from_str(default),
    }
}

/// The kind of share a path makes.
pub open spec fn kind_of(is_dir: bool) -> ShareKind {
    if is_dir {
        ShareKind::Folder
    } else {
        ShareKind::File
    }
}

/// The file and byte counts of a share: for a folder, its direct entries
/// `(what, size)`: a file counts with its size, a directory counts without,
/// anything else is left out. The counts wrap around at 2^64.
pub open spec fn folder_stats_spec(entries: Seq<(Resource, u64)>) -> (u64, u64)
    decreases entries.len(),
{
    if entries.len() == 0 {
        (0, 0)
    } else {
        let (files, bytes) = folder_stats_spec(entries.drop_last());
        let (what, size) = entries.last();
        match what {
            Resource::RegularFile => (files.wrapping_add(1), bytes.wrapping_add(size)),
            Resource::Directory => (files.wrapping_add(1), bytes),
            _ => (files, bytes),
        }
    }
}

/// Counts the direct entries of a shared folder: how many files and
/// directories it holds, and the bytes of its files. Subdirectories are not
/// entered, so that huge trees can be shared at once.
pub fn folder_stats(entries: &[(Resource, u64)]) -> (r: (u64, u64))
    ensures
        r == folder_stats_spec(entries@),
{
    let mut files: u64 = 0;
    let mut bytes: u64 = 0;
    let mut i: usize = 0;
    while i < entries.len()
        invariant
            i <= entries@.len(),
            (files, bytes) == folder_stats_spec(entries@.take(i as int)),
        decreases entries.len() - i,
    {
        let ghost t = entries@.take(i + 1);
        assert(t.drop_last() =~= entries@.take(i as int));
        let (what, size) = entries[i];
        match what {
            Resource::RegularFile => {
                files = files.wrapping_add(1);
                bytes = bytes.wrapping_add(size);
            },
            Resource::Directory => {
                files = files.wrapping_add(1);
            },
            _ => {},
        }
        i = i + 1;
    }
    assert(entries@.take(i as int) =~= entries@);
    (files, bytes)
}

/// Creates the share of the path `path` picked by the user and stores it:
/// a folder or a file as `is_dir` tells, named by its file name (`share`
/// when it has none), with the counts `size` and `total_bytes`, the token
/// `id` and the time `created_at`.
pub fn create_share(
    shares: &mut Registry<ShareSession>,
    path: &str,
    is_dir: bool,
    file_name: Option<&str>,
    size: u64,
    total_bytes: u64,
    id: String,
    created_at: i64,
) -> (r: ShareSession)
    ensures
        r.id == id,
        r.name@ == name_or(opt_view(file_name), "share"@),
        r.path@ == path@,
        r.kind == kind_of(is_dir),
        r.size == size,
        r.total_bytes == total_bytes,
        r.created_at == created_at,
        final(shares).get_spec(id@) == Some(r),
        forall|other: Seq<char>|
            other != id@ ==> #[trigger] final(shares).get_spec(other) == old(shares).get_spec(other),
{
    let session = ShareSession {
        id,
        name: name_or_default(file_name, "share"),
        path: String::from_str(path),
        kind: if is_dir {
            ShareKind::Folder
        } else {
            ShareKind::File
        },
        size,
        total_bytes,
        created_at,
    };
    shares.insert(session.duplicate());
    session
}

/// The first position whose canonical path is `canonical` (`None` in
/// `canonicals` stands for a path that could not be resolved).
pub open spec fn first_same_path(canonicals: Seq<Option<String>>, canonical: Seq<char>) -> Option<
    int,
>
    decreases canonicals.len(),
{
    if canonicals.len() == 0 {
        None
    } else {
        match first_same_path(canonicals.drop_last(), canonical) {
            Some(i) => Some(i),
            None => match canonicals.last() {
                Some(c) => if c@ == canonical {
                    Some(canonicals.len() - 1)
                } else {
                    None
                },
                None => None,
            },
        }
    }
}

/// Finds the record, among those whose canonical paths are `canonicals`,
/// made for the same folder or file as `canonical`.
pub fn find_same_path(canonicals: &[Option<String>], canonical: &str) -> (r: Option<usize>)
    ensures
        first_same_path(canonicals@, canonical@) == match r {
            Some(i) => Some(i as int),
            None => None::<int>,
        },
{
    let mut i: usize = 0;
    while i < canonicals.len()
        invariant
            i <= canonicals@.len(),
            first_same_path(canonicals@.take(i as int), canonical@) is None,
        decreases canonicals.len() - i,
    {
        let ghost t = canonicals@.take(i + 1);
        assert(t.drop_last() =~= canonicals@.take(i as int));
        let same = match &canonicals[i] {
            Some(c) => crate::text::str_eq(c.as_str(), canonical),
            None => false,
        };
        if same {
            proof {
                lemma_first_same_path_prefix(canonicals@, canonical@, i + 1);
            }
            return Some(i);
        }
        i = i + 1;
    }
    assert(canonicals@.take(i as int) =~= canonicals@);
    None
}

/// A position found is a position of the list.
proof fn lemma_first_same_path_range(c: Seq<Option<String>>, canonical: Seq<char>)
    ensures
        first_same_path(c, canonical) matches Some(i) ==> 0 <= i < c.len(),
    decreases c.len(),
{
    if c.len() > 0 {
        lemma_first_same_path_range(c.drop_last(), canonical);
    }
}

/// A position found in a prefix is the one found in the whole list.
proof fn lemma_first_same_path_prefix(c: Seq<Option<String>>, canonical: Seq<char>, n: int)
    requires
        0 <= n <= c.len(),
        first_same_path(c.take(n), canonical) is Some,
    ensures
        first_same_path(c, canonical) == first_same_path(c.take(n), canonical),
    decreases c.len() - n,
{
    if n < c.len() {
        let t = c.take(n + 1);
        assert(t.drop_last() =~= c.take(n));
        lemma_first_same_path_prefix(c, canonical, n + 1);
    } else {
        assert(c.take(n) =~= c);
    }
}

/// Adds a pasted or dropped path to the shares, or finds the share already
/// made for it: `canonicals` are the canonical paths of `shares.list()`,
/// in order, and `canonical` that of the new path. A new share is named by
/// its file name (`share` when it has none) and keeps the canonical path
/// without its extended-length prefix.
pub fn resolve_share(
    shares: &mut Registry<ShareSession>,
    canonicals: &[Option<String>],
    canonical: &str,
    is_dir: bool,
    file_name: Option<&str>,
    size: u64,
    total_bytes: u64,
    id: String,
    created_at: i64,
) -> (r: ShareSession)
    requires
        canonicals@.len() == old(shares).records().len(),
    ensures
        match first_same_path(canonicals@, canonical@) {
            Some(i) => r == old(shares).records()[i] && final(shares).records() == old(
                shares,
            ).records(),
            None => {
                &&& r.id == id
                &&& r.name@ == name_or(opt_view(file_name), "share"@)
                &&& r.path@ == strip_extended_prefix_spec(canonical@)
                &&& r.kind == kind_of(is_dir)
                &&& r.size == size
                &&& r.total_bytes == total_bytes
                &&& r.created_at == created_at
                &&& final(shares).get_spec(id@) == Some(r)
                &&& forall|other: Seq<char>|
                    other != id@ ==> #[trigger] final(shares).get_spec(other) == old(
                        shares,
                    ).get_spec(other)
            },
        },
{
    if let Some(i) = find_same_path(canonicals, canonical) {
        proof {
            lemma_first_same_path_range(canonicals@, canonical@);
        }
        return shares.list()[i].duplicate();
    }
    let path = strip_extended_prefix(canonical);
    create_share(shares, path.as_str(), is_dir, file_name, size, total_bytes, id, created_at)
}

/// Checks the folder picked for a site: it must be a directory holding an
/// `index.html` or `index.htm` (`has_index`).
pub fn check_site_folder(is_dir: bool, has_index: bool) -> (r: Result<(), String>)
    ensures
        !is_dir ==> (r matches Err(e) && e@ == "必须是文件夹"@),
        is_dir && !has_index ==> (r matches Err(e) && e@ == "文件夹中未找到 index.html"@),
        is_dir && has_index ==> r is Ok,
{
    if !is_dir {
        return Err(String::from_str("必须是文件夹"));
    }
    if !has_index {
        return Err(String::from_str("文件夹中未找到 index.html"));
    }
    Ok(())
}

/// The record of a new site for the folder with canonical path `canonical`:
/// named by its file name (`site` when it has none), with the path without
/// its extended-length prefix and no port yet.
pub fn new_site(
    canonical: &str,
    file_name: Option<&str>,
    size: u64,
    total_bytes: u64,
    id: String,
    created_at: i64,
) -> (r: SiteSession)
    ensures
        r.id == id,
        r.name@ == name_or(opt_view(file_name), "site"@),
        r.path@ == strip_extended_prefix_spec(canonical@),
        r.size == size,
        r.total_bytes == total_bytes,
        r.created_at == created_at,
        r.port == 0,
{
    SiteSession {
        id,
        name: name_or_default(file_name, "site"),
        path: strip_extended_prefix(canonical),
        size,
        total_bytes,
        created_at,
        port: 0,
    }
}

/// What is reported about a pasted path.
#[derive(Debug)]
pub struct PathCheck {
    pub path: String,
    pub valid: bool,
    pub exists: bool,
    pub is_dir: bool,
    pub is_file: bool,
    pub size: u64,
    pub basename: String,
}

/// The report on the pasted path `path` (quotes and blanks already taken
/// off), from what reading its metadata gave: `(is_dir, is_file, size)`, or
/// `None` when it could not be read. The base name is the last component of
/// the path, empty when there is none.
pub fn check_one(path: String, meta: Option<(bool, bool, u64)>) -> (r: PathCheck)
    ensures
        r.path == path,
        crate::paths::simple_path(path@) ==> r.basename@ == crate::paths::file_name_spec(path@),
        r.valid == meta is Some,
        r.exists == meta is Some,
        match meta {
            Some((d, f, s)) => r.is_dir == d && r.is_file == f && r.size == s,
            None => !r.is_dir && !r.is_file && r.size == 0,
        },
{
    let basename = match crate::paths::path_file_name(path.as_str()) {
        Some(n) => n,
        None => String::new(),
    };
    let (exists, is_dir, is_file, size) = match meta {
        Some((d, f, s)) => (true, d, f, s),
        None => (false, false, false, 0),
    };
    PathCheck { basename, path, valid: exists, exists, is_dir, is_file, size }
}

/// Checks a folder chosen as the save directory (`exists` and `is_dir`
/// tell what is at the trimmed path `path`).
pub fn check_save_dir(path: &str, exists: bool, is_dir: bool) -> (r: Result<(), String>)
    ensures
        path@.len() == 0 ==> (r matches Err(e) && e@ == "路径不能为空"@),
        path@.len() > 0 && !exists ==> (r matches Err(e) && e@ == "路径不存在: "@ + path@),
        path@.len() > 0 && exists && !is_dir ==> (r matches Err(e) && e@ == "必须是文件夹"@),
        path@.len() > 0 && exists && is_dir ==> r is Ok,
{
    if path.is_empty() {
        return Err(String::from_str("路径不能为空"));
    }
    if !exists {
        return Err(missing_path_message(path));
    }
    if !is_dir {
        return Err(String::from_str("必须是文件夹"));
    }
    Ok(())
}

/// Checks a folder chosen as the receive directory, which is created when
/// missing (`exists` and `is_dir` tell what is at the trimmed path `path`).
pub fn check_receive_dir(path: &str, exists: bool, is_dir: bool) -> (r: Result<(), String>)
    ensures
        path@.len() == 0 ==> (r matches Err(e) && e@ == "路径不能为空"@),
        path@.len() > 0 && exists && !is_dir ==> (r matches Err(e) && e@ == "必须是文件夹"@),
        path@.len() > 0 && !(exists && !is_dir) ==> r is Ok,
{
    if path.is_empty() {
        return Err(String::from_str("路径不能为空"));
    }
    if exists && !is_dir {
        return Err(String::from_str("必须是文件夹"));
    }
    Ok(())
}

} // verus!
