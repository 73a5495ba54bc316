use rv_netshare::state::{AppState, SiteSession};
use rv_netshare::tunnel::{
    failure_message, forward_url, local_target, receive_link, receive_tunnel_request, share_link,
    share_tunnel_request, site_tunnel_request, token_key, tunnel_metadata, StartStep, TunnelFailure,
    TunnelTable,
};

#[test]
fn tokens_are_trimmed() {
    assert_eq!(token_key(Some("  abc ")), "abc");
    assert_eq!(token_key(None), "");
}

#[test]
fn first_start_connects_from_environment() {
    let mut t = TunnelTable::new();
    match t.begin_start("share:a", None) {
        StartStep::Connect { close_previous, token } => {
            assert!(!close_previous);
            assert_eq!(token, "");
        }
        other => panic!("unexpected {other:?}"),
    }
}

#[test]
fn opened_tunnel_is_reused() {
    let mut t = TunnelTable::new();
    t.session_connected("tok".to_string());
    t.forwarder_opened("share:a".to_string(), "https://x.ngrok.app".to_string());
    match t.begin_start("share:a", Some("other")) {
        StartStep::Existing(url) => assert_eq!(url, "https://x.ngrok.app"),
        other => panic!("unexpected {other:?}"),
    }
    assert_eq!(t.session, Some("tok".to_string()));
}

#[test]
fn same_token_uses_live_session() {
    let mut t = TunnelTable::new();
    t.session_connected("tok".to_string());
    assert!(matches!(t.begin_start("site:b", Some(" tok ")), StartStep::Forward));
    assert_eq!(t.session, None);
}

#[test]
fn new_token_closes_everything_first() {
    let mut t = TunnelTable::new();
    t.session_connected("old".to_string());
    t.forwarder_opened("share:a".to_string(), "https://a".to_string());
    match t.begin_start("share:b", Some("new")) {
        StartStep::Connect { close_previous, token } => {
            assert!(close_previous);
            assert_eq!(token, "new");
        }
        other => panic!("unexpected {other:?}"),
    }
    assert_eq!(t.tunnels.len(), 0);
    assert_eq!(t.session, None);
}

#[test]
fn stop_and_reset() {
    let mut t = TunnelTable::new();
    t.session_connected("tok".to_string());
    t.forwarder_opened("a".to_string(), "https://a".to_string());
    t.forwarder_opened("b".to_string(), "https://b".to_string());
    assert!(t.stop("a"));
    assert!(!t.stop("a"));
    assert!(t.tunnels.contains("b"));
    t.reset();
    assert_eq!(t.tunnels.len(), 0);
    assert_eq!(t.session, None);
}

#[test]
fn keys_targets_and_links() {
    assert_eq!(local_target(48721), "http://127.0.0.1:48721");
    assert_eq!(share_link("https://x.app", "abc"), "https://x.app/s/abc");
    assert_eq!(receive_link("https://x.app", "r1"), "https://x.app/r/r1");
    assert_eq!(tunnel_metadata("share:abc"), "rv-netshare:share:abc");
    assert_eq!(failure_message(TunnelFailure::Connect, "boom"), "ngrok 连接失败: boom");
    assert_eq!(failure_message(TunnelFailure::Forward, "x"), "ngrok 隧道创建失败: x");
    assert_eq!(failure_message(TunnelFailure::Close, "y"), "关闭隧道失败: y");
}

#[test]
fn forward_urls_are_parsed() {
    assert!(forward_url("http://127.0.0.1:48721").is_ok());
    let e = forward_url("not a url").unwrap_err();
    assert_eq!(e, "转发地址无效: relative URL without a base");
}

#[test]
fn tunnel_requests_check_records() {
    let mut state = AppState::new("/b".to_string(), "/d".to_string(), 48721);
    assert_eq!(share_tunnel_request(&state, "abc").unwrap_err(), "分享不存在");
    assert_eq!(site_tunnel_request(&state, "w").unwrap_err(), "站点不存在");
    assert_eq!(receive_tunnel_request(&state, "r").unwrap_err(), "接收卡片不存在");
    state.sites.insert(SiteSession {
        id: "w".to_string(),
        name: "w".to_string(),
        path: "/w".to_string(),
        size: 0,
        total_bytes: 0,
        created_at: 0,
        port: 0,
    });
    assert_eq!(site_tunnel_request(&state, "w").unwrap_err(), "站点未启动");
    state.sites.insert(SiteSession {
        id: "w".to_string(),
        name: "w".to_string(),
        path: "/w".to_string(),
        size: 0,
        total_bytes: 0,
        created_at: 0,
        port: 48800,
    });
    assert_eq!(
        site_tunnel_request(&state, "w").unwrap(),
        ("site:w".to_string(), "http://127.0.0.1:48800".to_string())
    );
}
