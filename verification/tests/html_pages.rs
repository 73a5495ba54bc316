use rv_netshare::html::{escape, render_error, render_folder_listing, render_index};
use rv_netshare::state::{ShareKind, ShareSession};

fn share(id: &str, name: &str, kind: ShareKind) -> ShareSession {
    ShareSession {
        id: id.to_string(),
        name: name.to_string(),
        path: format!("/data/{name}"),
        kind,
        size: 3,
        total_bytes: 300,
        created_at: 1,
    }
}

#[test]
fn escape_replaces_markup_characters() {
    assert_eq!(escape("<a href=\"x\">Tom & 'Jerry'</a>"), "&lt;a href=&quot;x&quot;&gt;Tom &amp; &#39;Jerry&#39;&lt;/a&gt;");
}

#[test]
fn escape_keeps_plain_text() {
    assert_eq!(escape("报告 2024.pdf"), "报告 2024.pdf");
    assert_eq!(escape(""), "");
}

#[test]
fn escaped_text_has_no_markup() {
    let out = escape("<script>alert('x')</script>\"&");
    assert!(!out.contains('<'));
    assert!(!out.contains('>'));
    assert!(!out.contains('"'));
    assert!(!out.contains('\''));
}

#[test]
fn error_page_shows_code_reason_and_message() {
    let page = render_error(404, "Not Found", "分享不存在或已停止");
    assert!(page.starts_with("<!doctype html>"));
    assert!(page.contains("<title>404 Not Found</title>"));
    assert!(page.contains("<h1>404 Not Found</h1>"));
    assert!(page.contains("<p>分享不存在或已停止</p>"));
}

#[test]
fn error_page_escapes_message() {
    let page = render_error(400, "Bad Request", "<b>");
    assert!(page.contains("<p>&lt;b&gt;</p>"));
}

#[test]
fn empty_index_says_no_shares() {
    let page = render_index(&[], &[]);
    assert!(page.contains("<title>暂无分享 - RV NetShare</title>"));
    assert!(page.contains("<p class=\"page-title\">暂无分享</p>"));
}

#[test]
fn index_lists_every_share_with_its_link() {
    let shares = vec![share("abc", "photos", ShareKind::Folder), share("def", "a<b>.txt", ShareKind::File)];
    let sizes = vec!["300 B".to_string(), "1.0 KB".to_string()];
    let page = render_index(&shares, &sizes);
    assert!(page.contains("<title>2 个分享 - RV NetShare</title>"));
    assert!(page.contains("当前 2 个分享"));
    assert!(page.contains("href=\"/s/abc/\""));
    assert!(page.contains("href=\"/s/def\""));
    assert!(page.contains("a&lt;b&gt;.txt"));
    assert!(page.contains("<span>文件夹</span><span>300 B</span>"));
    assert!(page.contains("<span>文件</span><span>1.0 KB</span>"));
}

#[test]
fn folder_listing_links_entries_below_the_subpath() {
    let s = share("share", "root", ShareKind::Folder);
    let entries = vec![
        ("docs".to_string(), true, 0u64),
        ("index.html".to_string(), false, 14u64),
    ];
    let sizes = vec![String::new(), "14 B".to_string()];
    let page = render_folder_listing(&s, "", &entries, &sizes);
    assert!(page.contains("index.html"));
    assert!(page.contains("/s/share/docs"));
    assert!(page.contains("/s/share/index.html"));
}

#[test]
fn nested_folder_listing_shows_breadcrumbs() {
    let s = share("share", "root", ShareKind::Folder);
    let entries = vec![("a.txt".to_string(), false, 5u64)];
    let sizes = vec!["5 B".to_string()];
    let page = render_folder_listing(&s, "docs/2024", &entries, &sizes);
    assert!(page.contains("/s/share/docs/2024/a.txt"));
    assert!(page.contains("2024"));
    assert!(page.contains("docs"));
}

#[test]
fn listing_escapes_subpath_in_links() {
    let s = ShareSession {
        id: "x".to_string(),
        name: "n".to_string(),
        path: "/p".to_string(),
        kind: ShareKind::Folder,
        size: 0,
        total_bytes: 0,
        created_at: 0,
    };
    let r = render_folder_listing(&s, "q\"x", &[], &[]);
    assert!(r.contains("<a href=\"/s/x/q&quot;x/\">q&quot;x</a>"));
    assert!(!r.contains("href=\"/s/x/q\"x"));
    let entries = vec![("f".to_string(), false, 1u64)];
    let r2 = render_folder_listing(&s, "a'b/c<d", &entries, &["1 B".to_string()]);
    assert!(r2.contains("href=\"/s/x/a&#39;b/c&lt;d/f/\""));
    assert!(r2.contains("href=\"/s/x/a&#39;b/\""));
}
