use tianshu_bridge::profile::{
    autostart_indices, bridge_args, command_from_env, find_profile, format_profile_id,
    migrate_legacy, resolve_config, spawn_args, status_list, BridgeProfile, LegacyConfig,
    MultiConfig,
};
use tianshu_bridge::{
    default_engine, default_name, default_server, default_true, gen_id, node_bin_name,
};

fn profile(id: &str) -> BridgeProfile {
    BridgeProfile {
        id: id.to_string(),
        name: format!("name-{}", id),
        server: "wss://example.test/ws".to_string(),
        token: String::new(),
        device: String::new(),
        auto_start: true,
        browser: true,
        engine: "own".to_string(),
        headless: false,
        shell: false,
    }
}

fn legacy_with_server(server: Option<&str>) -> LegacyConfig {
    LegacyConfig {
        server: server.map(|s| s.to_string()),
        token: None,
        browser: None,
        engine: None,
        headless: None,
        shell: None,
        device: None,
    }
}

#[test]
fn defaults() {
    assert_eq!(default_name(), "Default");
    assert_eq!(default_server(), "ws://localhost:3110/ws");
    assert!(default_true());
    assert_eq!(default_engine(), "own");
}

#[test]
fn profile_id_format() {
    assert_eq!(format_profile_id(255, 16), "p_ff_10");
    assert_eq!(format_profile_id(0, 0), "p_0_0");
    assert_eq!(format_profile_id(1_700_000_000_000, 0xdeadbeef), "p_18bcfe56800_deadbeef");
    assert_eq!(
        format_profile_id(u128::MAX, u32::MAX),
        format!("p_{:x}_{:x}", u128::MAX, u32::MAX)
    );
}

#[test]
fn gen_id_uses_clock_and_salt() {
    let id = gen_id(0xabc);
    assert!(id.starts_with("p_"));
    assert!(id.ends_with("_abc"));
    let millis = &id[2..id.len() - 4];
    let value = u128::from_str_radix(millis, 16).unwrap();
    assert!(value > 1_600_000_000_000);
    // Different salts give different identifiers.
    assert_ne!(gen_id(1), gen_id(2));
}

#[test]
fn new_default_profile() {
    let p = BridgeProfile::new_default(5);
    assert!(p.id.starts_with("p_") && p.id.ends_with("_5"));
    assert_eq!(p.name, "Default");
    assert_eq!(p.server, "ws://localhost:3110/ws");
    assert_eq!(p.token, "");
    assert_eq!(p.device, "");
    assert!(p.auto_start && p.browser);
    assert_eq!(p.engine, "own");
    assert!(!p.headless && !p.shell);
}

#[test]
fn migrate_legacy_fills_defaults() {
    let p = migrate_legacy(legacy_with_server(Some("wss://old/ws")), "p_1_2".to_string()).unwrap();
    assert_eq!(p.id, "p_1_2");
    assert_eq!(p.name, "Default");
    assert_eq!(p.server, "wss://old/ws");
    assert_eq!(p.token, "");
    assert_eq!(p.device, "");
    assert!(p.auto_start);
    assert!(p.browser);
    assert_eq!(p.engine, "own");
    assert!(!p.headless);
    assert!(!p.shell);
}

#[test]
fn migrate_legacy_keeps_values() {
    let legacy = LegacyConfig {
        server: Some("wss://s".to_string()),
        token: Some("SECRET-REDACTED".to_string()),
        browser: Some(false),
        engine: Some("stealth".to_string()),
        headless: Some(true),
        shell: Some(true),
        device: Some("laptop".to_string()),
    };
    let p = migrate_legacy(legacy, "id".to_string()).unwrap();
    assert_eq!(p.token, "SECRET-REDACTED");
    assert!(!p.browser);
    assert_eq!(p.engine, "stealth");
    assert!(p.headless && p.shell);
    assert_eq!(p.device, "laptop");
}

#[test]
fn migrate_legacy_without_server() {
    assert!(migrate_legacy(legacy_with_server(None), "id".to_string()).is_none());
}

#[test]
fn resolve_config_prefers_current_format() {
    let multi = MultiConfig { profiles: vec![profile("a"), profile("b")] };
    let (cfg, save) =
        resolve_config(Some(multi), Some(legacy_with_server(Some("x"))), "new".to_string());
    assert!(!save);
    assert_eq!(cfg.profiles.iter().map(|p| p.id.clone()).collect::<Vec<_>>(), vec!["a", "b"]);
}

#[test]
fn resolve_config_migrates_legacy() {
    let empty = MultiConfig { profiles: vec![] };
    let (cfg, save) =
        resolve_config(Some(empty), Some(legacy_with_server(Some("wss://l"))), "new".to_string());
    assert!(save);
    assert_eq!(cfg.profiles.len(), 1);
    assert_eq!(cfg.profiles[0].id, "new");
    assert_eq!(cfg.profiles[0].server, "wss://l");
    assert_eq!(cfg.profiles[0].name, "Default");
}

#[test]
fn resolve_config_empty_cases() {
    let (cfg, save) = resolve_config(None, None, "n".to_string());
    assert!(cfg.profiles.is_empty() && !save);
    let (cfg, save) = resolve_config(None, Some(legacy_with_server(None)), "n".to_string());
    assert!(cfg.profiles.is_empty() && !save);
    let (cfg, save) =
        resolve_config(Some(MultiConfig { profiles: vec![] }), None, "n".to_string());
    assert!(cfg.profiles.is_empty() && !save);
}

#[test]
fn find_profile_by_id() {
    let mut second = profile("b");
    second.name = "second".to_string();
    let mut dup = profile("b");
    dup.name = "duplicate".to_string();
    let cfg = MultiConfig { profiles: vec![profile("a"), second, dup] };
    assert_eq!(find_profile(&cfg, "b").unwrap().name, "second");
    assert_eq!(find_profile(&cfg, "a").unwrap().id, "a");
    match find_profile(&cfg, "zz") {
        Err(msg) => assert_eq!(msg, "profile not found: zz"),
        Ok(_) => panic!("found a profile that does not exist"),
    }
}

#[test]
fn autostart_selection() {
    let mut b = profile("b");
    b.auto_start = false;
    let cfg = MultiConfig { profiles: vec![profile("a"), b, profile("c")] };
    assert_eq!(autostart_indices(&cfg), vec![0, 2]);
    assert!(autostart_indices(&MultiConfig { profiles: vec![] }).is_empty());
}

#[test]
fn status_lines() {
    let profiles = vec![profile("a"), profile("b")];
    let rows = status_list(&profiles, &vec![true, false]);
    assert_eq!(rows.len(), 2);
    assert_eq!(rows[0].id, "a");
    assert_eq!(rows[0].name, "name-a");
    assert_eq!(rows[0].server, "wss://example.test/ws");
    assert!(rows[0].running);
    assert_eq!(rows[1].id, "b");
    assert!(!rows[1].running);
}

#[test]
fn bridge_args_minimal() {
    assert_eq!(bridge_args(&profile("a")), vec!["--server", "wss://example.test/ws"]);
}

#[test]
fn bridge_args_everything() {
    let mut p = profile("a");
    p.token = "tok".to_string();
    p.engine = "stealth".to_string();
    p.headless = true;
    p.shell = true;
    p.device = "dev1".to_string();
    assert_eq!(
        bridge_args(&p),
        vec![
            "--server",
            "wss://example.test/ws",
            "--token",
            "tok",
            "--browser-engine",
            "stealth",
            "--headless",
            "--shell",
            "--device",
            "dev1"
        ]
    );
}

#[test]
fn bridge_args_without_browser() {
    let mut p = profile("a");
    p.browser = false;
    p.engine = "stealth".to_string();
    p.headless = true;
    assert_eq!(bridge_args(&p), vec!["--server", "wss://example.test/ws", "--no-browser"]);
}

#[test]
fn bridge_command_from_environment() {
    assert!(command_from_env(None, Some("n".to_string())).is_none());
    let (prog, pre) = command_from_env(Some("/x/index.js".to_string()), None).unwrap();
    assert_eq!(prog, "node");
    assert_eq!(pre, vec!["/x/index.js"]);
    let (prog, _) =
        command_from_env(Some("/x/index.js".to_string()), Some("/opt/node".to_string())).unwrap();
    assert_eq!(prog, "/opt/node");
}

#[test]
fn spawn_args_prepend_entry() {
    let all = spawn_args(vec!["/x/index.js".to_string()], &profile("a"));
    assert_eq!(all, vec!["/x/index.js", "--server", "wss://example.test/ws"]);
}

#[test]
fn node_binary_names() {
    assert_eq!(node_bin_name(true), "node.exe");
    assert_eq!(node_bin_name(false), "node");
}
