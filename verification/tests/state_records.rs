use rv_netshare::state::{
    insert_all, random_id, restore_shares, restore_sites, AppState, Registry, ShareKind,
    ShareSession, SiteSession,
};

fn share(id: &str, path: &str) -> ShareSession {
    ShareSession {
        id: id.to_string(),
        name: id.to_string(),
        path: path.to_string(),
        kind: ShareKind::File,
        size: 1,
        total_bytes: 1,
        created_at: 1,
    }
}

fn site(id: &str, created_at: i64, port: u16) -> SiteSession {
    SiteSession {
        id: id.to_string(),
        name: id.to_string(),
        path: format!("\\\\?\\C:\\sites\\{id}"),
        size: 1,
        total_bytes: 1,
        created_at,
        port,
    }
}

#[test]
fn new_state_is_empty() {
    let s = AppState::new("/base".to_string(), "/data".to_string(), 48721);
    assert_eq!(s.base_dir, "/base");
    assert_eq!(s.data_dir, "/data");
    assert_eq!(s.port, 48721);
    assert_eq!(s.shares.len(), 0);
    assert_eq!(s.sites.len(), 0);
    assert_eq!(s.receivers.len(), 0);
}

#[test]
fn registry_insert_replaces_same_token() {
    let mut r: Registry<ShareSession> = Registry::new();
    r.insert(share("a", "/1"));
    r.insert(share("b", "/2"));
    r.insert(share("a", "/3"));
    assert_eq!(r.len(), 2);
    assert_eq!(r.get("a").unwrap().path, "/3");
    assert_eq!(r.get("b").unwrap().path, "/2");
    assert!(r.get("c").is_none());
    assert_eq!(r.ids(), vec!["a".to_string(), "b".to_string()]);
}

#[test]
fn registry_remove_and_clear() {
    let mut r: Registry<ShareSession> = Registry::new();
    r.insert(share("a", "/1"));
    r.insert(share("b", "/2"));
    r.remove("a");
    assert!(!r.contains("a"));
    assert!(r.contains("b"));
    r.remove("zzz");
    assert_eq!(r.len(), 1);
    r.clear();
    assert_eq!(r.len(), 0);
}

#[test]
fn insert_all_keeps_the_last_of_each_token() {
    let mut r: Registry<ShareSession> = Registry::new();
    r.insert(share("old", "/0"));
    insert_all(&mut r, vec![share("a", "/1"), share("a", "/2"), share("b", "/3")]);
    assert_eq!(r.get("a").unwrap().path, "/2");
    assert_eq!(r.get("old").unwrap().path, "/0");
    assert_eq!(r.len(), 3);
}

#[test]
fn restored_shares_keep_links_and_lose_prefix() {
    let mut r: Registry<ShareSession> = Registry::new();
    restore_shares(&mut r, &vec![share("abc", "\\\\?\\C:\\data\\a.txt"), share("def", "/home/x")]);
    assert_eq!(r.get("abc").unwrap().path, "C:\\data\\a.txt");
    assert_eq!(r.get("def").unwrap().path, "/home/x");
}

#[test]
fn restored_sites_keep_ports() {
    let mut r: Registry<SiteSession> = Registry::new();
    restore_sites(&mut r, &vec![site("w1", 5, 48800)]);
    let w = r.get("w1").unwrap();
    assert_eq!(w.path, "C:\\sites\\w1");
    assert_eq!(w.port, 48800);
}

#[test]
fn tokens_are_ten_letters_or_digits() {
    for (nanos, pid) in [(0u64, 0u64), (1_700_000_000_123_456_789, 4242), (u64::MAX, u64::MAX)] {
        let id = random_id(nanos, pid);
        assert_eq!(id.len(), 10);
        assert!(id.chars().all(|c| c.is_ascii_lowercase() || c.is_ascii_digit()));
    }
}

#[test]
fn tokens_follow_the_clock_and_pid() {
    assert_eq!(random_id(12345, 678), random_id(12345, 678));
    assert_ne!(random_id(12345, 678), random_id(12346, 678));
    assert_ne!(random_id(12345, 678), random_id(12345, 679));
}

#[test]
fn token_matches_the_mixing_formula() {
    fn reference(nanos: u64, pid: u64) -> String {
        let alpha = b"abcdefghijklmnopqrstuvwxyz0123456789";
        let mut h: u64 = 0xcbf29ce484222325_u64 ^ nanos ^ pid.wrapping_mul(0x9E3779B97F4A7C15);
        h = h.wrapping_mul(0x100000001b3);
        h ^= nanos;
        h = h.wrapping_mul(0x100000001b3);
        let mut x = h | 1;
        let mut out = String::new();
        for _ in 0..10 {
            out.push(alpha[(x % 36) as usize] as char);
            x /= 36;
            x = x.wrapping_mul(0x100000001b3);
        }
        out
    }
    for (n, p) in [(1u64, 2u64), (99, 1), (1_712_345_678_000_000_000, 31337)] {
        assert_eq!(random_id(n, p), reference(n, p));
    }
}
