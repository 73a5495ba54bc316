use rv_netshare::html::{render_folder_listing, render_receive_page};
use rv_netshare::http::{build_file_header, mime_for_extension, route, route_site_root, RouteTarget};
use rv_netshare::serve::{
    file_missing, index_candidates, invalid_path, listing_failed, open_failed, plan_share,
    share_resource_action, site_resource_action, unresolved_root, Resource, ServeAction, ShareStart,
};
use rv_netshare::state::{random_id, ReceiveEncryption, ReceiveSession, Registry, ShareKind, ShareSession, SiteSession};
use rv_netshare::storage::sort_listing;

fn folder_session(id: &str) -> ShareSession {
    ShareSession {
        id: id.to_string(),
        name: "root".to_string(),
        path: "/tmp/root".to_string(),
        kind: ShareKind::Folder,
        size: 1,
        total_bytes: 1,
        created_at: 1,
    }
}

fn site_session(id: &str, port: u16) -> SiteSession {
    SiteSession {
        id: id.to_string(),
        name: "site".to_string(),
        path: "/tmp/site".to_string(),
        size: 1,
        total_bytes: 1,
        created_at: 1,
        port,
    }
}

fn header_text(bytes: Vec<u8>) -> String {
    String::from_utf8(bytes).unwrap()
}

#[test]
fn share_folder_with_index_still_shows_listing_and_attachment() {
    let share = folder_session("share");
    let shares = vec![share.clone()];
    let subpath = match route("GET", &format!("/s/{}/", share.id), &shares, &[], &[]) {
        Ok(RouteTarget::Share { subpath, .. }) => subpath,
        other => panic!("unexpected {other:?}"),
    };
    assert_eq!(plan_share(ShareKind::Folder, &subpath).unwrap(), ShareStart::Inspect { join: false });
    assert!(matches!(share_resource_action(Resource::Directory, Some("root")), ServeAction::ListDirectory));
    let entries = vec![("index.html".to_string(), false, 14u64)];
    let body = render_folder_listing(&share, &subpath, &entries, &["14 B".to_string()]);
    assert!(body.contains("index.html"));

    let subpath = match route("GET", &format!("/s/{}/index.html", share.id), &shares, &[], &[]) {
        Ok(RouteTarget::Share { subpath, .. }) => subpath,
        other => panic!("unexpected {other:?}"),
    };
    assert_eq!(plan_share(ShareKind::Folder, &subpath).unwrap(), ShareStart::Inspect { join: true });
    match share_resource_action(Resource::RegularFile, Some("index.html")) {
        ServeAction::SendFile { display, attachment, record } => {
            assert!(attachment && record);
            let header = header_text(build_file_header(mime_for_extension(Some("html")), 14, &display, attachment));
            assert!(header.contains("Content-Disposition: attachment"));
        }
        other => panic!("unexpected {other:?}"),
    }
}

#[test]
fn site_serves_index_and_assets_inline() {
    let site = site_session("site", 48800);
    let sites = vec![site.clone()];
    match route("GET", &format!("/w/{}/", site.id), &[], &sites, &[]) {
        Ok(RouteTarget::Site { subpath, .. }) => assert_eq!(subpath, ""),
        other => panic!("unexpected {other:?}"),
    }
    assert!(matches!(site_resource_action(Resource::Directory, true, None), ServeAction::SendIndex));
    let index_header = header_text(build_file_header(mime_for_extension(Some("html")), 13, "index.html", false));
    assert!(index_header.contains("200 OK"));
    assert!(index_header.contains("Content-Type: text/html; charset=utf-8"));
    assert!(!index_header.contains("Content-Disposition"));
    assert!(index_header.contains("Content-Length: 13"));

    match site_resource_action(Resource::RegularFile, true, Some("style.css")) {
        ServeAction::SendFile { display, attachment, record } => {
            assert_eq!(display, "style.css");
            assert!(!attachment && !record);
            let css = header_text(build_file_header(mime_for_extension(Some("css")), 15, &display, attachment));
            assert!(css.contains("Content-Type: text/css; charset=utf-8"));
            assert!(!css.contains("Content-Disposition"));
        }
        other => panic!("unexpected {other:?}"),
    }
}

#[test]
fn nested_site_index_is_served_inline() {
    let site = site_session("nested", 48801);
    match route("GET", "/w/nested/app/", &[], &[site], &[]) {
        Ok(RouteTarget::Site { subpath, .. }) => assert_eq!(subpath, "app/"),
        other => panic!("unexpected {other:?}"),
    }
    assert!(matches!(site_resource_action(Resource::Directory, true, Some("app")), ServeAction::SendIndex));
    let header = header_text(build_file_header(mime_for_extension(Some("html")), 10, "index.html", false));
    assert!(header.contains("Content-Type: text/html; charset=utf-8"));
    assert!(!header.contains("Content-Disposition"));
}

#[test]
fn site_root_server_serves_absolute_assets() {
    assert_eq!(route_site_root("GET", "/").unwrap(), "");
    let asset = route_site_root("GET", "/assets/app.js").unwrap();
    assert_eq!(asset, "assets/app.js");
    let header = header_text(build_file_header(mime_for_extension(Some("js")), 14, "app.js", false));
    assert!(header.contains("Content-Type: application/javascript"));
    assert!(!header.contains("Content-Disposition"));
}

#[test]
fn folder_without_index_keeps_listing_and_attachment() {
    let share = folder_session("plain");
    let entries = sort_listing(&vec![
        ("readme.txt".to_string(), false, 5u64),
        ("archive.zip".to_string(), false, 3u64),
    ]);
    assert_eq!(entries[0].0, "archive.zip");
    assert_eq!(entries[1].0, "readme.txt");
    let body = render_folder_listing(&share, "", &entries, &["3 B".to_string(), "5 B".to_string()]);
    assert!(body.contains("readme.txt"));
    assert!(body.contains("archive.zip"));
    match share_resource_action(Resource::RegularFile, Some("archive.zip")) {
        ServeAction::SendFile { display, attachment, .. } => {
            let header = header_text(build_file_header(mime_for_extension(Some("zip")), 3, &display, attachment));
            assert!(header.contains("Content-Disposition: attachment"));
        }
        other => panic!("unexpected {other:?}"),
    }
}

#[test]
fn file_share_refuses_subpaths() {
    assert_eq!(plan_share(ShareKind::File, "").unwrap(), ShareStart::SendRoot);
    let f = plan_share(ShareKind::File, "x").unwrap_err();
    assert_eq!((f.code, f.reason, f.message), (404, "Not Found", "文件分享不支持子路径"));
}

#[test]
fn missing_and_odd_resources_fail() {
    match share_resource_action(Resource::Missing, None) {
        ServeAction::Fail(f) => assert_eq!((f.code, f.message), (404, "文件不存在")),
        other => panic!("unexpected {other:?}"),
    }
    match share_resource_action(Resource::Other, None) {
        ServeAction::Fail(f) => assert_eq!((f.code, f.message), (404, "不支持的资源类型")),
        other => panic!("unexpected {other:?}"),
    }
    match site_resource_action(Resource::Directory, false, None) {
        ServeAction::Fail(f) => assert_eq!((f.code, f.message), (404, "未找到 index.html")),
        other => panic!("unexpected {other:?}"),
    }
}

#[test]
fn unnamed_file_is_sent_as_file() {
    match share_resource_action(Resource::RegularFile, None) {
        ServeAction::SendFile { display, .. } => assert_eq!(display, "file"),
        other => panic!("unexpected {other:?}"),
    }
}

#[test]
fn failure_messages() {
    assert_eq!(unresolved_root().code, 500);
    assert_eq!(unresolved_root().message, "无法解析分享路径");
    assert_eq!(invalid_path().code, 400);
    assert_eq!(invalid_path().message, "路径无效");
    assert_eq!(listing_failed().message, "目录读取失败");
    assert_eq!(file_missing().code, 404);
    assert_eq!(open_failed().message, "文件打开失败");
}

#[test]
fn index_files_are_searched_in_order() {
    assert_eq!(index_candidates(), vec!["index.html", "index.htm"]);
}

#[test]
fn listing_puts_directories_first() {
    let sorted = sort_listing(&vec![
        ("b.txt".to_string(), false, 1u64),
        ("Zeta".to_string(), true, 0u64),
        ("A.txt".to_string(), false, 2u64),
        ("alpha".to_string(), true, 0u64),
        ("a.txt".to_string(), false, 3u64),
    ]);
    let names: Vec<&str> = sorted.iter().map(|e| e.0.as_str()).collect();
    assert_eq!(names, vec!["alpha", "Zeta", "A.txt", "a.txt", "b.txt"]);
}

fn receive_session(id: &str, extensions: &[&str], encryption: ReceiveEncryption) -> ReceiveSession {
    ReceiveSession {
        id: id.to_string(),
        name: "测试接收".to_string(),
        extensions: extensions.iter().map(|s| s.to_string()).collect(),
        encryption,
        custom_password: None,
        created_at: 1,
        received_count: 0,
        received_bytes: 0,
    }
}

#[test]
fn receive_page_renders_upload_form_and_allowed_types() {
    let receiver = receive_session("recv1", &["jpg", "jpeg", "png"], ReceiveEncryption::Common);
    let receivers = vec![receiver];
    let (index, password_required) = match route("GET", &format!("/r/{}/", receivers[0].id), &[], &[], &receivers) {
        Ok(RouteTarget::ReceivePage { index, password_required }) => (index, password_required),
        other => panic!("expected receive page, got {other:?}"),
    };
    let body = render_receive_page(&receivers[index], password_required);
    assert!(body.contains("/r/recv1/upload"));
    assert!(body.contains(".jpg"));
    assert!(body.contains("通用加密"));
    assert!(body.contains("upload-password"));
    assert!(body.contains("selected-list"));
}

#[test]
fn open_receive_page_asks_no_password() {
    let receivers = vec![receive_session("open", &["*"], ReceiveEncryption::Unencrypted)];
    let body = render_receive_page(&receivers[0], false);
    assert!(body.contains("任意类型"));
    assert!(body.contains("无需密码"));
    assert!(!body.contains("id=\"upload-password\""));
    assert!(body.contains("<title>测试接收 - 文件接收</title>"));
}

#[test]
fn share_links_work_until_removed() {
    let mut shares: Registry<ShareSession> = Registry::new();
    let id = random_id(1_700_000_000_000_000_000, 4242);
    let mut s = folder_session("x");
    s.id = id.clone();
    shares.insert(s);
    match route("GET", &format!("/s/{id}"), shares.list(), &[], &[]) {
        Ok(RouteTarget::Share { index, subpath }) => {
            assert_eq!(shares.list()[index].id, id);
            assert_eq!(subpath, "");
        }
        other => panic!("unexpected {other:?}"),
    }
    shares.remove(&id);
    let f = route("GET", &format!("/s/{id}"), shares.list(), &[], &[]).unwrap_err();
    assert_eq!((f.code, f.message), (404, "分享不存在或已停止"));
}
