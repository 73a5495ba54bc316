use rv_netshare::receive::{
    authorize_upload, check_receiver_name, create_receiver, extension_allowed, normalize_receive_extensions,
    numbered_file_name, numbered_name, plan_receive_upload, receiver_allows_extension,
    receiver_password_matches, record_receive, update_receiver, upload_content_length,
    upload_filename, upload_saved_message, receive_candidate,
};
use rv_netshare::state::{ReceiveEncryption, ReceiveSession, Registry};

fn strings(v: &[&str]) -> Vec<String> {
    v.iter().map(|s| s.to_string()).collect()
}

fn receiver(id: &str, exts: &[&str], encryption: ReceiveEncryption, custom: Option<&str>) -> ReceiveSession {
    ReceiveSession {
        id: id.to_string(),
        name: "测试接收".to_string(),
        extensions: strings(exts),
        encryption,
        custom_password: custom.map(|s| s.to_string()),
        created_at: 1,
        received_count: 0,
        received_bytes: 0,
    }
}

fn headers(v: &[(&str, &str)]) -> Vec<(String, String)> {
    v.iter().map(|(k, x)| (k.to_string(), x.to_string())).collect()
}

#[test]
fn extensions_are_trimmed_lowered_and_deduplicated() {
    let r = normalize_receive_extensions(strings(&[" .JPG ", "png", "", "jpg", "..Png"])).unwrap();
    assert_eq!(r, strings(&["jpg", "png"]));
}

#[test]
fn star_accepts_everything() {
    assert_eq!(normalize_receive_extensions(strings(&["jpg", " * ", "png"])).unwrap(), strings(&["*"]));
}

#[test]
fn extension_errors() {
    assert_eq!(
        normalize_receive_extensions(strings(&["", "  "])),
        Err("请至少指定一种文件类型".to_string())
    );
    assert_eq!(
        normalize_receive_extensions(strings(&["abcdefghijklmnopq"])),
        Err("扩展名过长: abcdefghijklmnopq".to_string())
    );
    assert!(normalize_receive_extensions(strings(&["abcdefghijklmnop"])).is_ok());
}

#[test]
fn receiver_names() {
    assert_eq!(check_receiver_name("  照片  "), Ok("照片".to_string()));
    assert_eq!(check_receiver_name("   "), Err("名称不能为空".to_string()));
    let long: String = std::iter::repeat('名').take(41).collect();
    assert_eq!(check_receiver_name(&long), Err("名称不能超过 40 个字符".to_string()));
    let ok: String = std::iter::repeat('名').take(40).collect();
    assert!(check_receiver_name(&ok).is_ok());
}

#[test]
fn create_receiver_modes() {
    let mut reg: Registry<ReceiveSession> = Registry::new();
    let r = create_receiver(&mut reg, " 相册 ", strings(&["JPG"]), "none", None, false, "r1".to_string(), 5).unwrap();
    assert_eq!(r.name, "相册");
    assert_eq!(r.extensions, strings(&["jpg"]));
    assert_eq!(r.encryption, ReceiveEncryption::Unencrypted);
    assert_eq!(r.received_count, 0);
    assert!(reg.contains("r1"));

    assert_eq!(
        create_receiver(&mut reg, "a", strings(&["*"]), "common", None, false, "r2".to_string(), 5).unwrap_err(),
        "请先在设置中配置通用加密密码"
    );
    let c = create_receiver(&mut reg, "a", strings(&["*"]), "common", None, true, "r2".to_string(), 5).unwrap();
    assert_eq!(c.encryption, ReceiveEncryption::Common);
    assert_eq!(
        create_receiver(&mut reg, "a", strings(&["*"]), "custom", Some("  ".to_string()), true, "r3".to_string(), 5).unwrap_err(),
        "单独加密必须设置密码"
    );
    let d = create_receiver(&mut reg, "a", strings(&["*"]), "custom", Some(" pw ".to_string()), true, "r3".to_string(), 5).unwrap();
    assert_eq!(d.custom_password, Some("pw".to_string()));
    assert_eq!(
        create_receiver(&mut reg, "a", strings(&["*"]), "secret", None, true, "r4".to_string(), 5).unwrap_err(),
        "加密方式无效"
    );
    assert!(!reg.contains("r4"));
    assert_eq!(reg.len(), 3);
}

#[test]
fn update_receiver_keeps_counters_and_password() {
    let mut reg: Registry<ReceiveSession> = Registry::new();
    create_receiver(&mut reg, "a", strings(&["txt"]), "custom", Some("old".to_string()), false, "r1".to_string(), 5).unwrap();
    record_receive(&mut reg, "r1", 10).unwrap();
    let u = update_receiver(&mut reg, "r1", "b", strings(&["pdf"]), "custom", Some("".to_string()), false).unwrap();
    assert_eq!(u.name, "b");
    assert_eq!(u.custom_password, Some("old".to_string()));
    assert_eq!(u.received_count, 1);
    assert_eq!(u.received_bytes, 10);
    assert_eq!(u.created_at, 5);
    assert_eq!(
        update_receiver(&mut reg, "nope", "b", strings(&["pdf"]), "custom", None, false).unwrap_err(),
        "接收卡片不存在"
    );
    assert_eq!(
        update_receiver(&mut reg, "nope", "b", strings(&["pdf"]), "none", None, false).unwrap_err(),
        "接收卡片不存在"
    );
    assert_eq!(reg.get("r1").unwrap().extensions, strings(&["pdf"]));
}

#[test]
fn record_receive_counts_uploads() {
    let mut reg: Registry<ReceiveSession> = Registry::new();
    reg.insert(receiver("r1", &["*"], ReceiveEncryption::Unencrypted, None));
    let a = record_receive(&mut reg, "r1", 100).unwrap();
    let b = record_receive(&mut reg, "r1", 50).unwrap();
    assert_eq!((a.received_count, a.received_bytes), (1, 100));
    assert_eq!((b.received_count, b.received_bytes), (2, 150));
    assert!(record_receive(&mut reg, "none", 1).is_none());
}

#[test]
fn passwords() {
    let open = receiver("a", &["*"], ReceiveEncryption::Unencrypted, None);
    assert!(receiver_password_matches(&open, "", None));
    let common = receiver("b", &["*"], ReceiveEncryption::Common, None);
    assert!(receiver_password_matches(&common, "pw", Some("pw")));
    assert!(!receiver_password_matches(&common, "pw", None));
    assert!(!receiver_password_matches(&common, "x", Some("pw")));
    let custom = receiver("c", &["*"], ReceiveEncryption::Custom, Some("own"));
    assert!(receiver_password_matches(&custom, "own", Some("pw")));
    assert!(!receiver_password_matches(&custom, "pw", Some("pw")));
}

#[test]
fn allowed_extensions() {
    let photos = receiver("a", &["jpg", "png"], ReceiveEncryption::Unencrypted, None);
    assert!(receiver_allows_extension(&photos, "IMG_1.JPG"));
    assert!(receiver_allows_extension(&photos, "x.png"));
    assert!(!receiver_allows_extension(&photos, "x.exe"));
    assert!(!receiver_allows_extension(&photos, "noext"));
    assert!(extension_allowed(&photos, Some("PNG")));
    assert!(!extension_allowed(&photos, None));
    let any = receiver("b", &["*"], ReceiveEncryption::Unencrypted, None);
    assert!(receiver_allows_extension(&any, "noext"));
}

#[test]
fn upload_authorization() {
    let receivers = vec![
        receiver("open", &["*"], ReceiveEncryption::Unencrypted, None),
        receiver("secret", &["*"], ReceiveEncryption::Custom, Some("pw")),
    ];
    assert_eq!(authorize_upload("/r/open/upload", &[], &receivers, None).unwrap(), 0);
    let e = authorize_upload("/x/open/upload", &[], &receivers, None).unwrap_err();
    assert_eq!((e.code, e.message.as_str()), (404, "上传地址无效"));
    let e = authorize_upload("/r//upload", &[], &receivers, None).unwrap_err();
    assert_eq!((e.code, e.message.as_str()), (400, "缺少接收卡片 ID"));
    let e = authorize_upload("/r", &[], &receivers, None).unwrap_err();
    assert_eq!((e.code, e.message.as_str()), (400, "缺少接收卡片 ID"));
    let e = authorize_upload("/r/open/other", &[], &receivers, None).unwrap_err();
    assert_eq!((e.code, e.message.as_str()), (404, "上传地址无效"));
    let e = authorize_upload("/r/gone/upload", &[], &receivers, None).unwrap_err();
    assert_eq!((e.code, e.message.as_str()), (404, "接收卡片不存在或已删除"));
    let e = authorize_upload("/r/secret/upload", &[], &receivers, None).unwrap_err();
    assert_eq!((e.code, e.message.as_str()), (403, "密码错误"));
    let h = headers(&[("X-Upload-Password", "pw")]);
    assert_eq!(authorize_upload("/r/secret/upload?x=1", &h, &receivers, None).unwrap(), 1);
}

#[test]
fn upload_lengths() {
    assert_eq!(upload_content_length(&headers(&[("Content-Length", " 42 ")])).unwrap(), 42);
    let e = upload_content_length(&headers(&[])).unwrap_err();
    assert_eq!((e.code, e.message.as_str()), (411, "缺少 Content-Length"));
    let e = upload_content_length(&headers(&[("content-length", "abc")])).unwrap_err();
    assert_eq!(e.code, 411);
    let e = upload_content_length(&headers(&[("content-length", "0")])).unwrap_err();
    assert_eq!((e.code, e.message.as_str()), (400, "文件内容为空"));
}

#[test]
fn upload_names() {
    assert_eq!(upload_filename(&headers(&[("X-File-Name", "%E7%85%A7%E7%89%87.jpg")])), "照片.jpg");
    assert_eq!(upload_filename(&headers(&[("X-File-Name", "dir%2Fa.txt")])), "a.txt");
    assert_eq!(upload_filename(&headers(&[])), "upload.bin");
    assert_eq!(upload_filename(&headers(&[("X-File-Name", "%zz")])), "upload.bin");
    assert_eq!(upload_filename(&headers(&[("X-File-Name", "%20")])), "upload.bin");
}

#[test]
fn upload_plans() {
    let receivers = vec![receiver("p", &["jpg"], ReceiveEncryption::Unencrypted, None)];
    let ok = headers(&[("X-File-Name", "a.jpg"), ("Content-Length", "3")]);
    let plan = plan_receive_upload("/r/p/upload", &ok, &receivers, None).unwrap();
    assert_eq!((plan.index, plan.filename.as_str(), plan.content_length), (0, "a.jpg", 3));
    let bad_type = headers(&[("X-File-Name", "a.exe"), ("Content-Length", "3")]);
    let e = plan_receive_upload("/r/p/upload", &bad_type, &receivers, None).unwrap_err();
    assert_eq!((e.code, e.message.as_str()), (415, "不允许上传此文件类型: a.exe"));
    let empty = headers(&[("X-File-Name", "a.jpg"), ("Content-Length", "0")]);
    let e = plan_receive_upload("/r/p/upload", &empty, &receivers, None).unwrap_err();
    assert_eq!(e.code, 400);
}

#[test]
fn numbered_names() {
    assert_eq!(numbered_name("photo", "jpg", 2), "photo (2).jpg");
    assert_eq!(numbered_name("README", "", 1), "README (1)");
    assert_eq!(numbered_file_name("report.final.pdf", 3), "report.final (3).pdf");
    assert_eq!(numbered_file_name("Makefile", 1), "Makefile (1)");
    assert_eq!(upload_saved_message("a.jpg"), "a.jpg 已保存");
}

#[test]
fn extension_rules_follow_the_last_dot() {
    let r1 = receiver("r", &["jpg", "png"], ReceiveEncryption::Unencrypted, None);
    let r2 = receiver("r", &["*"], ReceiveEncryption::Unencrypted, None);
    assert!(receiver_allows_extension(&r1, "PHOTO.JPG"));
    assert!(receiver_allows_extension(&r1, "a.tar.png"));
    assert!(!receiver_allows_extension(&r1, "a.gif"));
    assert!(!receiver_allows_extension(&r1, "jpg"));
    assert!(!receiver_allows_extension(&r1, ".png"));
    assert!(receiver_allows_extension(&r2, "noext"));
    assert!(receiver_allows_extension(&r2, "x.exe"));
}

#[test]
fn numbered_names_use_stem_and_extension() {
    assert_eq!(numbered_file_name(".bashrc", 2), ".bashrc (2)");
    assert_eq!(numbered_file_name("a.", 1), "a (1)");
    assert_eq!(numbered_file_name("dir/x.tar.gz", 4), "x.tar (4).gz");
    assert_eq!(receive_candidate("a.txt", 0), "a.txt");
    assert_eq!(receive_candidate("a.txt", 1), "a (1).txt");
}

#[test]
fn any_type_card_plans_odd_names() {
    let receivers = vec![receiver("p", &["*"], ReceiveEncryption::Unencrypted, None)];
    let h = headers(&[("X-File-Name", "..%2Fx"), ("Content-Length", "7")]);
    let plan = plan_receive_upload("/r/p/upload", &h, &receivers, None).unwrap();
    assert_eq!(plan.content_length, 7);
    let no_len = headers(&[("X-File-Name", "a.bin")]);
    let e = plan_receive_upload("/r/p/upload", &no_len, &receivers, None).unwrap_err();
    assert_eq!(e.code, 411);
}
