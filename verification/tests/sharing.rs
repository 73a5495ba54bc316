use rv_netshare::serve::Resource;
use rv_netshare::sharing::{
    check_one, check_receive_dir, check_save_dir, check_site_folder, create_share, find_same_path,
    folder_stats, missing_path_message, new_site, resolve_share,
};
use rv_netshare::state::{Registry, ShareKind, ShareSession};

#[test]
fn folder_stats_counts_direct_entries() {
    let entries = vec![
        (Resource::RegularFile, 10u64),
        (Resource::Directory, 4096u64),
        (Resource::Other, 7u64),
        (Resource::RegularFile, 5u64),
    ];
    assert_eq!(folder_stats(&entries), (3, 15));
    assert_eq!(folder_stats(&[]), (0, 0));
}

#[test]
fn create_share_names_and_stores_it() {
    let mut shares: Registry<ShareSession> = Registry::new();
    let s = create_share(&mut shares, "/data/photos", true, Some("photos"), 3, 300, "abcdefghij".to_string(), 7);
    assert_eq!(s.name, "photos");
    assert_eq!(s.kind, ShareKind::Folder);
    assert_eq!(s.path, "/data/photos");
    assert_eq!(shares.get("abcdefghij").unwrap().name, "photos");
    let t = create_share(&mut shares, "/", false, None, 1, 1, "k".to_string(), 8);
    assert_eq!(t.name, "share");
    assert_eq!(t.kind, ShareKind::File);
    assert_eq!(shares.len(), 2);
}

#[test]
fn find_same_path_skips_unresolved() {
    let c = vec![None, Some("/a".to_string()), Some("/b".to_string()), Some("/a".to_string())];
    assert_eq!(find_same_path(&c, "/a"), Some(1));
    assert_eq!(find_same_path(&c, "/c"), None);
}

#[test]
fn resolve_share_reuses_existing_record() {
    let mut shares: Registry<ShareSession> = Registry::new();
    let first = resolve_share(&mut shares, &[], "/data/a.txt", false, Some("a.txt"), 5, 5, "id1".to_string(), 1);
    assert_eq!(first.id, "id1");
    let canon = vec![Some("/data/a.txt".to_string())];
    let again = resolve_share(&mut shares, &canon, "/data/a.txt", false, Some("a.txt"), 5, 5, "id2".to_string(), 2);
    assert_eq!(again.id, "id1");
    assert_eq!(shares.len(), 1);
}

#[test]
fn resolve_share_strips_extended_prefix() {
    let mut shares: Registry<ShareSession> = Registry::new();
    let s = resolve_share(&mut shares, &[], "\\\\?\\C:\\data", true, Some("data"), 1, 1, "x".to_string(), 1);
    assert_eq!(s.path, "C:\\data");
    let u = resolve_share(&mut shares, &[None], "\\\\?\\UNC\\srv\\share", true, None, 1, 1, "y".to_string(), 1);
    assert_eq!(u.path, "\\\\srv\\share");
    assert_eq!(u.name, "share");
}

#[test]
fn site_folder_checks() {
    assert_eq!(check_site_folder(false, true), Err("必须是文件夹".to_string()));
    assert_eq!(check_site_folder(true, false), Err("文件夹中未找到 index.html".to_string()));
    assert_eq!(check_site_folder(true, true), Ok(()));
}

#[test]
fn new_site_has_no_port() {
    let s = new_site("/srv/www", Some("www"), 2, 20, "sid".to_string(), 9);
    assert_eq!(s.port, 0);
    assert_eq!(s.name, "www");
    let t = new_site("/", None, 0, 0, "t".to_string(), 9);
    assert_eq!(t.name, "site");
}

#[test]
fn path_check_reports_metadata() {
    let c = check_one("/data/a.txt".to_string(), Some((false, true, 12)));
    assert!(c.valid && c.exists && c.is_file && !c.is_dir);
    assert_eq!(c.size, 12);
    assert_eq!(c.basename, "a.txt");
    let m = check_one("/nope".to_string(), None);
    assert!(!m.valid && !m.exists && !m.is_file && !m.is_dir);
    assert_eq!(m.size, 0);
}

#[test]
fn directory_choices() {
    assert_eq!(check_save_dir("", false, false), Err("路径不能为空".to_string()));
    assert_eq!(check_save_dir("/x", false, false), Err("路径不存在: /x".to_string()));
    assert_eq!(check_save_dir("/x", true, false), Err("必须是文件夹".to_string()));
    assert_eq!(check_save_dir("/x", true, true), Ok(()));
    assert_eq!(check_receive_dir("/new", false, false), Ok(()));
    assert_eq!(check_receive_dir("/file", true, false), Err("必须是文件夹".to_string()));
    assert_eq!(missing_path_message("/a"), "路径不存在: /a");
}
