use tianshu_bridge::activity::{activity_level, activity_level_from, classify_pipe_line, PipeLine};
use tianshu_bridge::clock::now_unix_millis;
use tianshu_bridge::paths::{join_path, trace_log_path};
use tianshu_bridge::registry::{after_wait, Registry, WaitStatus};
use tianshu_bridge::tray::{
    activity_stamp, menu_action, poll_step, status_label, tray_tooltip, MenuAction, PollState,
    TrayIcon, ACTIVITY_TIMEOUT_MS,
};
use tianshu_bridge::{config_dir, config_path, icon_active, icon_for_count, log_path, log_path_for};

#[test]
fn idle_icons_by_count() {
    assert_eq!(icon_for_count(0), TrayIcon::Stopped);
    assert_eq!(icon_for_count(1), TrayIcon::Running { badge: 1 });
    assert_eq!(icon_for_count(2), TrayIcon::Running { badge: 2 });
    assert_eq!(icon_for_count(3), TrayIcon::Running { badge: 3 });
    assert_eq!(icon_for_count(4), TrayIcon::Running { badge: 4 });
    assert_eq!(icon_for_count(5), TrayIcon::Running { badge: 5 });
    assert_eq!(icon_for_count(17), TrayIcon::Running { badge: 5 });
}

#[test]
fn active_icons_cycle() {
    assert_eq!(icon_active(0, 0), TrayIcon::Active { frame: 0, badge: 1 });
    assert_eq!(icon_active(1, 1), TrayIcon::Active { frame: 1, badge: 1 });
    assert_eq!(icon_active(2, 2), TrayIcon::Active { frame: 2, badge: 2 });
    assert_eq!(icon_active(3, 4), TrayIcon::Active { frame: 0, badge: 4 });
    assert_eq!(icon_active(7, 9), TrayIcon::Active { frame: 1, badge: 5 });
    for f in 0..10 {
        assert_eq!(icon_active(f + 3, 2), icon_active(f, 2));
    }
}

#[test]
fn tooltip_and_labels() {
    assert_eq!(tray_tooltip(0), "Tianshu Bridge: stopped");
    assert_eq!(tray_tooltip(1), "Tianshu Bridge: 1 connected");
    assert_eq!(tray_tooltip(12), "Tianshu Bridge: 12 connected");
    assert_eq!(status_label(0), "0 profile(s) configured");
    assert_eq!(status_label(3), "3 profile(s) configured");
}

#[test]
fn menu_actions() {
    assert_eq!(menu_action("settings"), MenuAction::ShowSettings);
    assert_eq!(menu_action("logs"), MenuAction::ShowLogs);
    assert_eq!(menu_action("start_all"), MenuAction::StartAll);
    assert_eq!(menu_action("stop_all"), MenuAction::StopAll);
    assert_eq!(menu_action("quit"), MenuAction::Quit);
    assert_eq!(menu_action("status"), MenuAction::Ignore);
    assert_eq!(menu_action(""), MenuAction::Ignore);
}

#[test]
fn activity_heartbeat_stamp() {
    assert_eq!(activity_stamp(1, 1000), 1000);
    assert_eq!(activity_stamp(3, 5), 5);
    assert_eq!(activity_stamp(0, 1000), 0);
    assert_eq!(activity_stamp(-1, 1000), 0);
}

#[test]
fn poll_animation_cycle() {
    assert_eq!(ACTIVITY_TIMEOUT_MS, 4000);
    let s0 = PollState::new();
    // Idle and never active: nothing to do.
    let (s, icon) = poll_step(s0, 0, 10_000, 2);
    assert_eq!(s, s0);
    assert_eq!(icon, None);
    // Recent heartbeat: animate.
    let (s1, icon) = poll_step(s0, 9_000, 10_000, 2);
    assert_eq!(s1, PollState { frame: 1, was_active: true });
    assert_eq!(icon, Some(TrayIcon::Active { frame: 0, badge: 2 }));
    let (s2, icon) = poll_step(s1, 9_000, 10_500, 2);
    assert_eq!(s2, PollState { frame: 2, was_active: true });
    assert_eq!(icon, Some(TrayIcon::Active { frame: 1, badge: 2 }));
    // Heartbeat exactly at the timeout is stale: back to the idle icon.
    let (s3, icon) = poll_step(s2, 9_000, 13_000, 2);
    assert_eq!(s3, PollState { frame: 0, was_active: false });
    assert_eq!(icon, Some(TrayIcon::Running { badge: 2 }));
    // Still idle: leave the icon alone.
    let (s4, icon) = poll_step(s3, 9_000, 20_000, 2);
    assert_eq!(s4, s3);
    assert_eq!(icon, None);
    // A cleared heartbeat (0) stops the animation too.
    let (s5, icon) = poll_step(PollState { frame: 4, was_active: true }, 0, 20_000, 0);
    assert_eq!(s5, PollState { frame: 0, was_active: false });
    assert_eq!(icon, Some(TrayIcon::Stopped));
    // A heartbeat stamped after the current time (the clock went back) is not activity.
    let (s6, icon) = poll_step(PollState { frame: 2, was_active: true }, 30_000, 20_000, 1);
    assert_eq!(s6, PollState { frame: 0, was_active: false });
    assert_eq!(icon, Some(TrayIcon::Running { badge: 1 }));
    let (s7, icon) = poll_step(s0, 30_000, 20_000, 1);
    assert_eq!(s7, s0);
    assert_eq!(icon, None);
    // The frame counter wraps around.
    let (s8, icon) = poll_step(PollState { frame: usize::MAX, was_active: true }, 9_000, 10_000, 3);
    assert_eq!(s8, PollState { frame: 0, was_active: true });
    assert_eq!(icon, Some(icon_active(usize::MAX, 3)));
}

#[test]
fn pipe_line_kinds() {
    assert_eq!(classify_pipe_line(""), PipeLine::Skip);
    assert_eq!(
        classify_pipe_line("{\"type\":\"tool_activity\",\"active\":1}"),
        PipeLine::Activity
    );
    assert_eq!(classify_pipe_line("{\"type\":\"tool_activityX"), PipeLine::Activity);
    assert_eq!(classify_pipe_line("{\"type\": \"tool_activity\"}"), PipeLine::Record);
    assert_eq!(classify_pipe_line("connected to server"), PipeLine::Record);
    assert_eq!(classify_pipe_line(" "), PipeLine::Record);
}

#[test]
fn activity_levels_from_json() {
    assert_eq!(activity_level("{\"type\":\"tool_activity\",\"active\":1}"), Some(1));
    assert_eq!(activity_level("{\"type\":\"tool_activity\",\"active\":0}"), Some(0));
    assert_eq!(activity_level("{\"type\":\"tool_activity\",\"active\":-2}"), Some(-2));
    assert_eq!(activity_level("{\"type\":\"tool_activity\",\"active\":4294967297}"), Some(1));
    assert_eq!(activity_level("{\"type\":\"tool_activity\",\"active\":1.5}"), None);
    assert_eq!(activity_level("{\"type\":\"tool_activity\",\"active\":\"1\"}"), None);
    assert_eq!(activity_level("{\"type\":\"tool_activity\"}"), None);
    assert_eq!(activity_level("[1,2]"), None);
    assert_eq!(activity_level("{\"type\":\"tool_activity\""), None);
    assert_eq!(activity_level("not json"), None);
}

#[test]
fn activity_level_from_integer() {
    assert_eq!(activity_level_from(Some(3)), Some(3));
    assert_eq!(activity_level_from(Some(-1)), Some(-1));
    assert_eq!(activity_level_from(Some(1 << 32)), Some(0));
    assert_eq!(activity_level_from(None), None);
}

#[test]
fn registry_map_operations() {
    let mut reg: Registry<u32> = Registry::new();
    assert!(reg.is_empty());
    assert_eq!(reg.len(), 0);
    assert_eq!(reg.insert("a".to_string(), 1), None);
    assert_eq!(reg.insert("b".to_string(), 2), None);
    assert_eq!(reg.insert("a".to_string(), 3), Some(1));
    assert_eq!(reg.len(), 2);
    assert!(reg.contains("a"));
    assert!(reg.contains("b"));
    assert!(!reg.contains("c"));
    let mut ids = reg.ids();
    ids.sort();
    assert_eq!(ids, vec!["a", "b"]);
    assert_eq!(reg.remove("a"), Some(3));
    assert_eq!(reg.remove("a"), None);
    assert!(!reg.contains("a"));
    assert_eq!(reg.len(), 1);
    assert_eq!(reg.remove("b"), Some(2));
    assert!(reg.is_empty());
}

#[test]
fn registry_drain_and_keep_marked() {
    let mut reg: Registry<u32> = Registry::new();
    reg.insert("a".to_string(), 1);
    reg.insert("b".to_string(), 2);
    reg.insert("c".to_string(), 3);
    let entries = reg.drain();
    assert!(reg.is_empty());
    assert_eq!(entries.len(), 3);
    let keep: Vec<bool> = entries.iter().map(|(id, _)| id != "b").collect();
    let mut kept = Registry::keep_marked(entries, &keep);
    assert_eq!(kept.len(), 2);
    assert!(!kept.contains("b"));
    assert_eq!(kept.remove("a"), Some(1));
    assert_eq!(kept.remove("c"), Some(3));
    assert!(kept.is_empty());
}

#[test]
fn application_paths_unix() {
    assert_eq!(config_dir("/home/u", false), "/home/u/.tianshu-bridge");
    assert_eq!(config_path("/home/u", false), "/home/u/.tianshu-bridge/config.json");
    assert_eq!(
        log_path_for("/home/u", "p_1_2", false),
        "/home/u/.tianshu-bridge/bridge-p_1_2.log"
    );
    assert_eq!(log_path("/home/u", false), "/home/u/.tianshu-bridge/bridge.log");
    assert_eq!(trace_log_path("/home/u", false), "/home/u/.tianshu-bridge/tray.log");
    assert_eq!(config_dir("/home/u/", false), "/home/u/.tianshu-bridge");
    assert_eq!(config_dir(".", false), "./.tianshu-bridge");
    assert_eq!(config_dir("", false), ".tianshu-bridge");
    assert_eq!(config_dir("C:", false), "C:/.tianshu-bridge");
}

#[test]
fn application_paths_windows() {
    assert_eq!(config_dir("C:\\Users\\me", true), "C:\\Users\\me\\.tianshu-bridge");
    assert_eq!(
        config_path("C:\\Users\\me", true),
        "C:\\Users\\me\\.tianshu-bridge\\config.json"
    );
    assert_eq!(
        log_path_for("C:\\Users\\me", "p_1", true),
        "C:\\Users\\me\\.tianshu-bridge\\bridge-p_1.log"
    );
    assert_eq!(config_dir("C:\\Users\\me\\", true), "C:\\Users\\me\\.tianshu-bridge");
    assert_eq!(config_dir("C:/Users/me/", true), "C:/Users/me/.tianshu-bridge");
    assert_eq!(config_dir("C:", true), "C:.tianshu-bridge");
}

#[test]
fn application_paths_windows_verbatim() {
    assert_eq!(
        config_dir("\\\\?\\C:\\Users\\me", true),
        "\\\\?\\C:\\Users\\me\\.tianshu-bridge"
    );
    assert_eq!(
        log_path_for("\\\\?\\C:\\Users\\me", "p_1", true),
        "\\\\?\\C:\\Users\\me\\.tianshu-bridge\\bridge-p_1.log"
    );
    assert_eq!(
        config_path("\\\\?\\UNC\\server\\share\\me", true),
        "\\\\?\\UNC\\server\\share\\me\\.tianshu-bridge\\config.json"
    );
    assert_eq!(config_dir("\\\\?\\C:\\", true), "\\\\?\\C:\\.tianshu-bridge");
    assert_eq!(config_dir("\\\\?\\C:", true), "\\\\?\\C:\\.tianshu-bridge");
}

#[test]
fn join_path_windows_rules() {
    assert_eq!(join_path("C:\\Users\\me", "D:\\data", true), "D:\\data");
    assert_eq!(join_path("C:\\Users\\me", "D:rel", true), "D:rel");
    assert_eq!(join_path("\\\\?\\C:\\x", "d:y", true), "d:y");
    assert_eq!(join_path("C:\\Users\\me", "\\Windows", true), "C:\\Windows");
    assert_eq!(join_path("C:", "/tmp", true), "C:/tmp");
    assert_eq!(join_path("Users\\me", "\\Windows", true), "\\Windows");
    assert_eq!(join_path("", "/x", true), "/x");
    assert_eq!(join_path("a", "b", true), "a\\b");
    assert_eq!(join_path("a/", "b", true), "a/b");
    assert_eq!(join_path("\\\\?\\C:\\x\\", "y", true), "\\\\?\\C:\\x\\y");
}

#[test]
fn join_path_unix_rules() {
    assert_eq!(join_path("/home/u", "/etc/passwd", false), "/etc/passwd");
    assert_eq!(join_path("/etc", "passwd", false), "/etc/passwd");
    assert_eq!(join_path("/etc/", "passwd", false), "/etc/passwd");
    assert_eq!(join_path("", "x", false), "x");
    assert_eq!(join_path("a", "", false), "a/");
    assert_eq!(join_path("a\\", "x", false), "a\\/x");
}

#[test]
fn join_path_matches_std_on_this_platform() {
    let windows = std::path::MAIN_SEPARATOR == '\\';
    let bases = ["/home/u", "/home/u/", "", ".", "/", "a\\b", "C:", "rel/dir"];
    let segments = ["x", "bridge-a/b.log", "..", ".", "", "/abs", "sub/", "a\\b"];
    for base in bases {
        for seg in segments {
            let expected = std::path::Path::new(base).join(seg).to_string_lossy().into_owned();
            assert_eq!(join_path(base, seg, windows), expected, "{:?} + {:?}", base, seg);
        }
    }
}

#[test]
fn clock_reads_current_time() {
    let now = now_unix_millis();
    assert!(now > 1_600_000_000_000);
    assert!(now_unix_millis() >= now);
}

#[test]
fn wait_outcomes() {
    assert_eq!(after_wait(WaitStatus::Exited), (false, false));
    assert_eq!(after_wait(WaitStatus::Running), (true, true));
    assert_eq!(after_wait(WaitStatus::Failed), (false, true));
}
