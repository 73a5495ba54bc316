use rv_netshare::storage::{
    append_history, download_record, now_secs, remove_history_record, reveal_in_explorer,
    secs_to_timestamp, upload_record, AccessRecord, HISTORY_LIMIT,
};

fn record(id: &str) -> AccessRecord {
    let mut r = download_record(1, 0, 10, "share", "a.txt", "/a.txt", "10.0.0.2", None);
    r.id = id.to_string();
    r
}

#[test]
fn history_is_newest_first() {
    let mut h = Vec::new();
    append_history(&mut h, &record("1"));
    append_history(&mut h, &record("2"));
    let ids: Vec<&str> = h.iter().map(|r| r.id.as_str()).collect();
    assert_eq!(ids, vec!["2", "1"]);
}

#[test]
fn history_is_capped() {
    let mut h = Vec::new();
    for i in 0..(HISTORY_LIMIT + 3) {
        append_history(&mut h, &record(&i.to_string()));
    }
    assert_eq!(h.len(), 500);
    assert_eq!(h[0].id, (HISTORY_LIMIT + 2).to_string());
    assert_eq!(h[499].id, "3");
}

#[test]
fn removing_a_record_keeps_the_others() {
    let mut h = vec![record("a"), record("b"), record("a"), record("c")];
    remove_history_record(&mut h, "a");
    let ids: Vec<&str> = h.iter().map(|r| r.id.as_str()).collect();
    assert_eq!(ids, vec!["b", "c"]);
    remove_history_record(&mut h, "zz");
    assert_eq!(h.len(), 2);
}

#[test]
fn download_ids_are_hexadecimal() {
    let r = download_record(255, 16, 4096, "sid", "a.txt", "/p/a.txt", "10.0.0.2", Some("curl".to_string()));
    assert_eq!(r.id, "ff-10-1000");
    assert_eq!(r.share_id, "sid");
    assert_eq!(r.share_name, "a.txt");
    assert_eq!(r.bytes, 4096);
    assert_eq!(r.status, "success");
    assert_eq!(r.user_agent, Some("curl".to_string()));
}

#[test]
fn upload_ids_are_decimal() {
    let r = upload_record(1700000000, 42, "recv1", "a.jpg", "/in/a.jpg", "10.0.0.3", None);
    assert_eq!(r.id, "recv-1700000000-42-recv1");
    assert_eq!(r.share_id, "recv1");
    assert_eq!(r.share_name, "a.jpg");
    assert_eq!(r.bytes, 42);
}

#[test]
fn timestamps() {
    assert_eq!(secs_to_timestamp(None), 0);
    assert_eq!(secs_to_timestamp(Some(1700000000)), 1700000000);
    assert!(now_secs() > 1_600_000_000);
}

#[test]
fn reveal_targets() {
    assert_eq!(reveal_in_explorer("/home/u/docs", false), "/home/u/docs");
    assert_eq!(reveal_in_explorer("/home/u/docs/a.txt", true), "/home/u/docs");
    assert_eq!(reveal_in_explorer("/a.txt", true), "/");
    assert_eq!(reveal_in_explorer("a.txt", true), "");
}
