use tianshu_bridge::logs::{
    is_log_file_name, log_entries_from_text, log_limit, log_source_name, newest_first,
    parse_log_line, sort_newest_first, stamped_line, LogEntry, DEFAULT_LOG_LIMIT,
};
use tianshu_bridge::text::{lines_of, trim_start_str};

fn entry(ts: u64, source: &str, text: &str) -> LogEntry {
    LogEntry { ts, source: source.to_string(), text: text.to_string() }
}

fn summary(v: &[LogEntry]) -> Vec<(u64, String, String)> {
    v.iter().map(|e| (e.ts, e.source.clone(), e.text.clone())).collect()
}

#[test]
fn parse_log_line_reads_stamp_and_text() {
    assert_eq!(parse_log_line("[1700000000] bridge started"), (1700000000, "bridge started"));
    assert_eq!(parse_log_line("[5]no space"), (5, "no space"));
    assert_eq!(parse_log_line("[7]   \t padded"), (7, "padded"));
    assert_eq!(parse_log_line("[+9] plus sign"), (9, "plus sign"));
    assert_eq!(parse_log_line("[0] zero"), (0, "zero"));
}

#[test]
fn parse_log_line_keeps_unstamped_lines_whole() {
    assert_eq!(parse_log_line("plain text"), (0, "plain text"));
    assert_eq!(parse_log_line(""), (0, ""));
    assert_eq!(parse_log_line("[abc] x"), (0, "[abc] x"));
    assert_eq!(parse_log_line("[] empty"), (0, "[] empty"));
    assert_eq!(parse_log_line("[12 no close"), (0, "[12 no close"));
    assert_eq!(parse_log_line("[-3] negative"), (0, "[-3] negative"));
    assert_eq!(parse_log_line("[+] sign only"), (0, "[+] sign only"));
    assert_eq!(parse_log_line(" [4] leading space"), (0, " [4] leading space"));
}

#[test]
fn parse_log_line_u64_limits() {
    assert_eq!(
        parse_log_line("[18446744073709551615] max"),
        (18446744073709551615, "max")
    );
    assert_eq!(
        parse_log_line("[18446744073709551616] over"),
        (0, "[18446744073709551616] over")
    );
    assert_eq!(
        parse_log_line("[99999999999999999999] over"),
        (0, "[99999999999999999999] over")
    );
}

#[test]
fn parse_log_line_first_closing_bracket_counts() {
    assert_eq!(parse_log_line("[3]] odd"), (3, "] odd"));
    assert_eq!(parse_log_line("[1[2] odd"), (0, "[1[2] odd"));
}

#[test]
fn stamped_line_format() {
    assert_eq!(stamped_line(42, "hello"), "[42] hello");
    assert_eq!(stamped_line(0, ""), "[0] ");
    assert_eq!(stamped_line(u64::MAX, "x"), "[18446744073709551615] x");
}

#[test]
fn stamped_line_round_trip() {
    for (ts, text) in [(1u64, "a"), (1700000123, "tool done"), (0, "zero"), (u64::MAX, "max")] {
        let line = stamped_line(ts, text);
        assert_eq!(parse_log_line(&line), (ts, text));
    }
    // Leading white space of the text is dropped on reading.
    let line = stamped_line(8, "  indented");
    assert_eq!(parse_log_line(&line), (8, "indented"));
}

#[test]
fn trim_start_matches_std() {
    for s in ["  a b ", "\u{3000}\u{2028}x", "\t\n\r y", "none", "", "\u{a0}\u{85}z", "\u{200b}kept"] {
        assert_eq!(trim_start_str(s), s.trim_start());
    }
}

#[test]
fn lines_of_matches_std_lines() {
    let samples = [
        "foo\r\nbar\n\nbaz\r",
        "",
        "\n",
        "a\n",
        "a\nb",
        "\r\n\r\n",
        "x\ry\n",
        "one line",
        "\r",
        "trailing\r\n",
    ];
    for s in samples {
        let expected: Vec<String> = s.lines().map(|l| l.to_string()).collect();
        assert_eq!(lines_of(s), expected, "text {:?}", s);
    }
}

#[test]
fn log_file_names() {
    assert!(is_log_file_name("tray.log"));
    assert!(is_log_file_name(".log"));
    assert!(!is_log_file_name("config.json"));
    assert!(!is_log_file_name("bridge.log.bak"));
    assert_eq!(log_source_name("tray.log"), Some("tray".to_string()));
    assert_eq!(log_source_name("bridge-p_1.log"), Some("bridge-p_1".to_string()));
    assert_eq!(log_source_name("a.log.log"), Some("a".to_string()));
    assert_eq!(log_source_name(".log"), Some("".to_string()));
    assert_eq!(log_source_name("config.json"), None);
    assert_eq!(log_source_name("log"), None);
}

#[test]
fn log_entries_from_text_one_per_line() {
    let content = "[10] first\nunstamped\r\n[12] third\n";
    let entries = log_entries_from_text("tray", content);
    assert_eq!(
        summary(&entries),
        vec![
            (10, "tray".to_string(), "first".to_string()),
            (0, "tray".to_string(), "unstamped".to_string()),
            (12, "tray".to_string(), "third".to_string()),
        ]
    );
    assert!(log_entries_from_text("tray", "").is_empty());
}

#[test]
fn newest_first_is_stable_and_descending() {
    let entries = vec![
        entry(1, "a", "one"),
        entry(3, "b", "three-first"),
        entry(2, "c", "two"),
        entry(3, "d", "three-second"),
        entry(0, "e", "unstamped"),
    ];
    let sorted = sort_newest_first(entries);
    assert_eq!(
        summary(&sorted).iter().map(|e| e.2.as_str()).collect::<Vec<_>>(),
        vec!["three-first", "three-second", "two", "one", "unstamped"]
    );
}

#[test]
fn newest_first_truncates_to_limit() {
    let make = || {
        vec![
            entry(5, "x", "e5"),
            entry(9, "x", "e9"),
            entry(7, "y", "e7"),
            entry(9, "y", "e9b"),
        ]
    };
    let two = newest_first(make(), 2);
    assert_eq!(summary(&two).iter().map(|e| e.2.clone()).collect::<Vec<_>>(), vec!["e9", "e9b"]);
    let all = newest_first(make(), 100);
    assert_eq!(
        summary(&all).iter().map(|e| e.2.clone()).collect::<Vec<_>>(),
        vec!["e9", "e9b", "e7", "e5"]
    );
    assert!(newest_first(make(), 0).is_empty());
    assert!(newest_first(Vec::new(), 3).is_empty());
}

#[test]
fn newest_first_agrees_with_std_stable_sort() {
    let mut entries = Vec::new();
    let mut x: u64 = 12345;
    for i in 0..200 {
        x = x.wrapping_mul(6364136223846793005).wrapping_add(1442695040888963407);
        entries.push(entry((x >> 60) % 7, "s", &format!("{}", i)));
    }
    let mut expected = summary(&entries);
    expected.sort_by(|a, b| b.0.cmp(&a.0));
    expected.truncate(150);
    let got = newest_first(entries, 150);
    assert_eq!(summary(&got), expected);
}

#[test]
fn log_limit_defaults_to_500() {
    assert_eq!(DEFAULT_LOG_LIMIT, 500);
    assert_eq!(log_limit(None), 500);
    assert_eq!(log_limit(Some(20)), 20);
    assert_eq!(log_limit(Some(0)), 0);
}

#[test]
fn profile_log_files_are_labelled_by_profile() {
    let id = tianshu_bridge::gen_id(0x2a);
    let path = tianshu_bridge::log_path_for("/home/u", &id, false);
    let name = path.rsplit('/').next().unwrap().to_string();
    assert!(is_log_file_name(&name));
    assert_eq!(log_source_name(&name), Some(format!("bridge-{}", id)));
}
