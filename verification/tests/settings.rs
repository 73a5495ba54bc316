use rv_netshare::config::{
    bind_candidates, check_port, configured_share_port, configured_site_port, next_free_port,
    port_busy_message, ports_in_use, receive_common_password, receive_root_dir, resolve_data_dir,
    set_ngrok_authtoken, set_port_of_site, set_receive_common_password, share_path_input,
    site_ports, sites_by_age, strip_extended_prefix, strip_quotes, trimmed_input, AppConfig,
    DEFAULT_PORT, DEFAULT_SITE_PORT,
};
use rv_netshare::state::{Registry, SiteSession};

fn site(id: &str, created_at: i64, port: u16) -> SiteSession {
    SiteSession {
        id: id.to_string(),
        name: id.to_string(),
        path: "/www".to_string(),
        size: 0,
        total_bytes: 0,
        created_at,
        port,
    }
}

#[test]
fn default_ports() {
    let mut cfg = AppConfig::empty();
    assert_eq!(configured_share_port(&cfg), DEFAULT_PORT);
    assert_eq!(configured_site_port(&cfg), DEFAULT_SITE_PORT);
    cfg.share_port = Some(0);
    cfg.site_port = Some(9000);
    assert_eq!(configured_share_port(&cfg), 48721);
    assert_eq!(configured_site_port(&cfg), 9000);
}

#[test]
fn share_server_falls_back_up_to_48799() {
    let c = bind_candidates(DEFAULT_PORT);
    assert_eq!(c.first(), Some(&48721));
    assert_eq!(c.last(), Some(&48799));
    assert_eq!(c.len(), 79);
    let d = bind_candidates(8080);
    assert_eq!(d[0], 8080);
    assert_eq!(d[1], 48721);
    assert_eq!(d.len(), 80);
}

#[test]
fn free_ports_skip_used_ones() {
    assert_eq!(next_free_port(48800, &[48800, 48801, 48803]), 48802);
    assert_eq!(next_free_port(48800, &[]), 48800);
    assert_eq!(next_free_port(65535, &[65535]), 65535);
    let sites = vec![site("a", 1, 48800), site("b", 2, 0), site("c", 3, 48801)];
    assert_eq!(ports_in_use(&sites, "c"), vec![48800]);
}

#[test]
fn consecutive_site_ports() {
    assert_eq!(site_ports(9000, 3).unwrap(), vec![9000, 9001, 9002]);
    assert_eq!(site_ports(65534, 3), Err("端口超出范围".to_string()));
    assert_eq!(site_ports(65535, 1).unwrap(), vec![65535]);
    assert_eq!(check_port(0), Err("端口无效".to_string()));
    assert_eq!(check_port(80), Ok(80));
    assert_eq!(port_busy_message(8080), "端口 8080 被占用，无法使用");
}

#[test]
fn sites_are_ordered_by_age_then_token() {
    let sites = vec![site("c", 5, 0), site("a", 9, 0), site("b", 5, 0)];
    assert_eq!(sites_by_age(&sites), vec!["b".to_string(), "c".to_string(), "a".to_string()]);
}

#[test]
fn site_ports_are_assigned() {
    let mut reg: Registry<SiteSession> = Registry::new();
    reg.insert(site("a", 1, 48800));
    assert!(set_port_of_site(&mut reg, "a", 9000));
    assert_eq!(reg.get("a").unwrap().port, 9000);
    assert!(!set_port_of_site(&mut reg, "b", 9001));
    assert_eq!(reg.len(), 1);
}

#[test]
fn passwords_and_tokens_are_trimmed() {
    let mut cfg = AppConfig::empty();
    set_receive_common_password(&mut cfg, "  secret ");
    assert_eq!(receive_common_password(&cfg), Some("secret".to_string()));
    set_receive_common_password(&mut cfg, "   ");
    assert_eq!(receive_common_password(&cfg), None);
    assert!(set_ngrok_authtoken(&mut cfg, " tok "));
    assert_eq!(cfg.ngrok_authtoken, Some("tok".to_string()));
    assert!(!set_ngrok_authtoken(&mut cfg, "tok"));
    assert!(set_ngrok_authtoken(&mut cfg, ""));
    assert_eq!(cfg.ngrok_authtoken, None);
    assert_eq!(trimmed_input("  x "), Some("x".to_string()));
    assert_eq!(trimmed_input("  "), None);
}

#[test]
fn directories() {
    let mut cfg = AppConfig::empty();
    assert_eq!(resolve_data_dir(&cfg, true, "/data"), "/data");
    cfg.save_dir = Some("/custom".to_string());
    assert_eq!(resolve_data_dir(&cfg, true, "/data"), "/custom");
    assert_eq!(resolve_data_dir(&cfg, false, "/data"), "/data");
    assert_eq!(receive_root_dir(&AppConfig::empty(), "/data"), "/data/receive");
    cfg.receive_dir = Some("/inbox".to_string());
    assert_eq!(receive_root_dir(&cfg, "/data"), "/inbox");
}

#[test]
fn quotes_and_prefixes() {
    assert_eq!(strip_quotes("  \"C:\\a b\" "), "C:\\a b");
    assert_eq!(strip_quotes("'/x'"), "/x");
    assert_eq!(strip_quotes("\"x'"), "\"x'");
    assert_eq!(strip_quotes("\""), "\"");
    assert_eq!(share_path_input("   "), None);
    assert_eq!(share_path_input(" ' /a ' "), Some("/a".to_string()));
    assert_eq!(strip_extended_prefix("\\\\?\\D:\\x"), "D:\\x");
    assert_eq!(strip_extended_prefix("\\\\?\\UNC\\h\\s"), "\\\\h\\s");
    assert_eq!(strip_extended_prefix("/plain"), "/plain");
}
