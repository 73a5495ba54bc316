//! What the server does with a request for a share or a site once the route
//! is known: which path to look at, and what to answer for what is found
//! there. The caller looks at the file system and hands in what it saw.
use vstd::prelude::*;

use crate::http::{is_failure, Failure};
use crate::state::ShareKind;

verus! {

/// What a path on disk turned out to be.
#[derive(Clone, Copy, Debug, PartialEq, Eq, Structural)]
pub enum Resource {
    /// Nothing could be read at the path.
    Missing,
    Directory,
    RegularFile,
    /// Something that is neither a directory nor a regular file.
    Other,
}

/// Where serving a share starts, once its root path is resolved.
#[derive(Clone, Copy, Debug, PartialEq, Eq, Structural)]
pub enum ShareStart {
    /// Send the root itself, a shared file.
    SendRoot,
    /// Look at the root (`join` false) or at the requested path below it.
    Inspect { join: bool },
}

/// The answer to a request, decided from what is on disk.
#[derive(Debug)]
pub enum ServeAction {
    /// Render the listing of the directory.
    ListDirectory,
    /// Send the index file of the directory under the name `index.html`.
    SendIndex,
    /// Send the file under the name `display`; `attachment` asks the
    /// browser to download it, `record` adds it to the access history.
    SendFile { display: String, attachment: bool, record: bool },
    /// Answer with an error page.
    Fail(Failure),
}

/// A share's root path could not be resolved.
pub fn unresolved_root() -> (f: Failure)
    ensures
        is_failure(f, 500, "Internal Server Error"@, "无法解析分享路径"@),
{
    Failure { code: 500, reason: "Internal Server Error", message: "无法解析分享路径" }
}

/// The requested path leaves the share or is not a plain relative path.
pub fn invalid_path() -> (f: Failure)
    ensures
        is_failure(f, 400, "Bad Request"@, "路径无效"@),
{
    Failure { code: 400, reason: "Bad Request", message: "路径无效" }
}

/// A directory of a share could not be read.
pub fn listing_failed() -> (f: Failure)
    ensures
        is_failure(f, 500, "Internal Server Error"@, "目录读取失败"@),
{
    Failure { code: 500, reason: "Internal Server Error", message: "目录读取失败" }
}

/// A file to send could not be found.
pub fn file_missing() -> (f: Failure)
    ensures
        is_failure(f, 404, "Not Found"@, "文件不存在"@),
{
    Failure { code: 404, reason: "Not Found", message: "文件不存在" }
}

/// A file to send could not be opened.
pub fn open_failed() -> (f: Failure)
    ensures
        is_failure(f, 500, "Internal Server Error"@, "文件打开失败"@),
{
    Failure { code: 500, reason: "Internal Server Error", message: "文件打开失败" }
}

/// Where serving the share of kind `kind` at `subpath` starts: a file share
/// has no paths below it.
pub fn plan_share(kind: ShareKind, subpath: &str) -> (r: Result<ShareStart, Failure>)
    ensures
        match kind {
            ShareKind::File => if subpath@.len() == 0 {
                r == Ok::<ShareStart, Failure>(ShareStart::SendRoot)
            } else {
                r matches Err(f) && is_failure(f, 404, "Not Found"@, "文件分享不支持子路径"@)
            },
            ShareKind::Folder => r == Ok::<ShareStart, Failure>(
                ShareStart::Inspect { join: subpath@.len() > 0 },
            ),
        },
{
    match kind {
        ShareKind::File => {
            if subpath.is_empty() {
                Ok(ShareStart::SendRoot)
            } else {
                Err(
                    Failure {
                        code: 404,
                        reason: "Not Found",
                        message: "文件分享不支持子路径",
                    },
                )
            }
        },
        ShareKind::Folder => Ok(ShareStart::Inspect { join: !subpath.is_empty() }),
    }
}

/// The name a file is sent under: its own name, or `file` when it has none.
pub open spec fn display_name(file_name: Option<Seq<char>>) -> Seq<char> {
    match file_name {
        Some(n) => n,
        None => "file"@,
    }
}

fn display_of(file_name: Option<&str>) -> (r: String)
    ensures
        r@ == display_name(
            match file_name {
                Some(n) => Some(n@),
                None => None,
            },
        ),
{
    match file_name {
        Some(n) => String::from_str(n),
        None => String::from_str("file"),
    }
}

/// The view of an optional name.
pub open spec fn opt_name(file_name: Option<&str>) -> Option<Seq<char>> {
    match file_name {
        Some(n) => Some(n@),
        None => None,
    }
}

/// What to answer for the path of a folder share that turned out to be
/// `found`, whose file name is `file_name`: a directory is listed, a file
/// is downloaded and recorded.
pub fn share_resource_action(found: Resource, file_name: Option<&str>) -> (r: ServeAction)
    ensures
        match found {
            Resource::Missing => r matches ServeAction::Fail(f) && is_failure(
                f,
                404,
                "Not Found"@,
                "文件不存在"@,
            ),
            Resource::Directory => r is ListDirectory,
            Resource::RegularFile => r matches ServeAction::SendFile { display, attachment, record }
                && display@ == display_name(opt_name(file_name)) && attachment && record,
            Resource::Other => r matches ServeAction::Fail(f) && is_failure(
                f,
                404,
                "Not Found"@,
                "不支持的资源类型"@,
            ),
        },
{
    match found {
        Resource::Missing => ServeAction::Fail(file_missing()),
        Resource::Directory => ServeAction::ListDirectory,
        Resource::RegularFile => ServeAction::SendFile {
            display: display_of(file_name),
            attachment: true,
            record: true,
        },
        Resource::Other => ServeAction::Fail(
            Failure { code: 404, reason: "Not Found", message: "不支持的资源类型" },
        ),
    }
}

/// What to answer for the path of a site that turned out to be `found`: a
/// directory serves its index file (`has_index` tells whether it has one),
/// recorded in the history; a file is shown in the browser and not
/// recorded.
pub fn site_resource_action(found: Resource, has_index: bool, file_name: Option<&str>) -> (r:
    ServeAction)
    ensures
        match found {
            Resource::Missing => r matches ServeAction::Fail(f) && is_failure(
                f,
                404,
                "Not Found"@,
                "文件不存在"@,
            ),
            Resource::Directory => if has_index {
                r is SendIndex
            } else {
                r matches ServeAction::Fail(f) && is_failure(
                    f,
                    404,
                    "Not Found"@,
                    "未找到 index.html"@,
                )
            },
            Resource::RegularFile => r matches ServeAction::SendFile { display, attachment, record }
                && display@ == display_name(opt_name(file_name)) && !attachment && !record,
            Resource::Other => r matches ServeAction::Fail(f) && is_failure(
                f,
                404,
                "Not Found"@,
                "不支持的资源类型"@,
            ),
        },
{
    match found {
        Resource::Missing => ServeAction::Fail(file_missing()),
        Resource::Directory => {
            if has_index {
                ServeAction::SendIndex
            } else {
                ServeAction::Fail(
                    Failure { code: 404, reason: "Not Found", message: "未找到 index.html" },
                )
            }
        },
        Resource::RegularFile => ServeAction::SendFile {
            display: display_of(file_name),
            attachment: false,
            record: false,
        },
        Resource::Other => ServeAction::Fail(
            Failure { code: 404, reason: "Not Found", message: "不支持的资源类型" },
        ),
    }
}

/// The names a site's directory is searched for, in order.
pub fn index_candidates() -> (r: Vec<&'static str>)
    ensures
        r@.len() == 2,
        r@[0]@ == "index.html"@,
        r@[1]@ == "index.htm"@,
{
    let mut r: Vec<&'static str> = Vec::new();
    r.push("index.html");
    r.push("index.htm");
    r
}

} // verus!
