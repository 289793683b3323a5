use quiet_tui::compact_tool_group_item::{
    dynamic_tool_summary, mcp_summary, read_summary, truncate_label, ToolGroupSummary,
};
use quiet_tui::json::parse_json;
use quiet_tui::output_scan::{
    file_name, has_unquoted_shell_control, json_output_urls_are_metadata,
    json_value_urls_are_metadata, nonblank_lines, output_is_tsv_metadata,
    parsed_output_urls_are_metadata, scan_output, scan_requires_user_action,
    successful_output_requires_user_action,
    words_call_yt_dlp_for_metadata, yt_dlp_tsv_urls_are_metadata, ActionScan,
};
use quiet_tui::text::{collapse_whitespace, decimal_string, join, lines, split_char, words};
use quiet_tui::tool_classification::{
    add_command, add_parsed_command, is_build_command, is_check_command,
    is_dependency_install_command, is_test_command, read_label,
};
use quiet_tui::history_cell::{CommandOutput, ParsedCommand};
use quiet_tui::web_url::{
    all_web_urls_are_assignment_values, contains_web_url, is_plain_web_url, next_web_url,
    safe_metadata_url_key, strip_web_urls, web_urls_have_action_markers,
};

fn chars(text: &str) -> Vec<char> {
    text.chars().collect()
}

fn strings(texts: &[&str]) -> Vec<String> {
    texts.iter().map(|text| text.to_string()).collect()
}

#[test]
fn shell_control_counts_only_outside_quotes() {
    assert!(has_unquoted_shell_control("a; b"));
    assert!(has_unquoted_shell_control("a | b"));
    assert!(has_unquoted_shell_control("a\nb"));
    assert!(has_unquoted_shell_control("a & b"));
    assert!(!has_unquoted_shell_control("a 'x;y' \"p|q\""));
    assert!(!has_unquoted_shell_control("a \\; b"));
    assert!(!has_unquoted_shell_control("plain words"));
}

#[test]
fn words_are_split_as_a_shell_does() {
    let output = chars("id\thttps://www.youtube.com/watch?v=1");
    assert!(yt_dlp_tsv_urls_are_metadata(&output, "yt-dlp --print '%(id)s %(url)s' URL"));
    assert!(!yt_dlp_tsv_urls_are_metadata(&output, "yt-dlp '--print %(id)s' URL"));
    assert!(!yt_dlp_tsv_urls_are_metadata(&output, "yt-dlp --print 'unclosed"));
    assert!(words_call_yt_dlp_for_metadata(&strings(&["/usr/bin/yt-dlp", "--dump-json", "x"])));
    assert!(!words_call_yt_dlp_for_metadata(&strings(&["echo", "yt-dlp", "--dump-json"])));
}

#[test]
fn file_names_are_the_last_part_of_a_path() {
    assert_eq!(file_name("/usr/bin/yt-dlp").as_deref(), Some("yt-dlp"));
    assert_eq!(file_name("yt-dlp").as_deref(), Some("yt-dlp"));
    assert_eq!(file_name("/usr/bin/").as_deref(), Some("bin"));
    assert_eq!(file_name("/usr/.."), None);
    assert_eq!(file_name("/"), None);
}

#[test]
fn table_rows_hold_links_as_fields() {
    assert!(output_is_tsv_metadata(&chars("a\thttps://example.com/1\nb\thttps://example.com/2")));
    assert!(!output_is_tsv_metadata(&chars("see https://example.com/1")));
    assert_eq!(nonblank_lines(&chars("a\n\n  \nb")), vec!["a", "b"]);
}

#[test]
fn links_in_documents_are_metadata_under_known_keys() {
    let value = parse_json("{\"webpage_url\":\"https://example.com/1\"}").expect("a document");
    assert_eq!(json_value_urls_are_metadata(&value), Some(true));
    let value = parse_json("{\"message\":\"https://example.com/1\"}").expect("a document");
    assert_eq!(json_value_urls_are_metadata(&value), None);
    let value = parse_json("{\"message\":\"nothing\"}").expect("a document");
    assert_eq!(json_value_urls_are_metadata(&value), Some(false));
    assert!(json_output_urls_are_metadata(&chars(
        "{\"thumbnail\":\"https://example.com/1\"}\n{\"thumbnail\":\"https://example.com/2\"}"
    )));
    assert!(!json_output_urls_are_metadata(&chars("not json https://example.com")));
    assert!(!parsed_output_urls_are_metadata(&None, &vec![None]));
    assert!(safe_metadata_url_key("webpage_url"));
    assert!(!safe_metadata_url_key("message"));
}

#[test]
fn links_are_found_and_cut_out() {
    let text = chars("see HTTPS://example.com/a and http://b.org.");
    assert!(contains_web_url(&text));
    assert_eq!(next_web_url(&text, 0).map(|found| found.0), Some(4));
    assert!(next_web_url(&text, 5).is_some());
    assert_eq!(strip_web_urls(&chars("a https://example.com/x b")), "a [url] b");
    assert_eq!(strip_web_urls(&chars("plain")), "plain");
    assert!(is_plain_web_url(&chars(" https://example.com/x ")));
    assert!(!is_plain_web_url(&chars("open https://example.com/x")));
    assert!(all_web_urls_are_assignment_values(&chars("webpage_url=https://example.com/x")));
    assert!(!all_web_urls_are_assignment_values(&chars("open https://example.com/x")));
    assert!(web_urls_have_action_markers(&chars("https://example.com/login")));
    assert!(!web_urls_have_action_markers(&chars("https://example.com/watch")));
}

#[test]
fn outputs_that_ask_for_action_are_kept_visible() {
    let quiet = ActionScan { verbatim: false, without_urls: false };
    let linked = ActionScan { verbatim: true, without_urls: false };
    let asking = ActionScan { verbatim: true, without_urls: true };
    assert!(!scan_requires_user_action("all done", "make", quiet));
    let metadata = "webpage_url=https://example.com/watch";
    assert!(!scan_requires_user_action(metadata, "fetch", linked));
    assert!(scan_requires_user_action(metadata, "fetch", asking));
    assert!(scan_requires_user_action("see https://example.com", "make", linked));
}

#[test]
fn addresses_are_left_out_of_the_scan_where_they_are_metadata() {
    let asks = |text: &str| text.contains("http") || text.contains("sign in");
    let metadata = "webpage_url=https://example.com/watch";
    assert!(!successful_output_requires_user_action(metadata, "fetch", asks));
    assert!(successful_output_requires_user_action("see https://example.com", "make", asks));
    assert!(successful_output_requires_user_action("please sign in", "make", asks));
    assert!(!successful_output_requires_user_action("all done", "make", asks));
    let scan = scan_output(metadata, asks);
    assert!(scan.verbatim && !scan.without_urls);
    let output = CommandOutput::new(0, vec!["one".to_string(), metadata.to_string()], asks);
    assert!(output.scan.verbatim && !output.scan.without_urls);
    assert_eq!(output.lines.len(), 2);
}

#[test]
fn commands_are_told_apart() {
    assert!(is_test_command("cargo test -p core"));
    assert!(is_test_command("  just test"));
    assert!(!is_test_command("cargo tester"));
    assert!(is_build_command("cargo build"));
    assert!(is_check_command("cargo clippy --all"));
    assert!(is_dependency_install_command("npm install"));
    assert!(!is_dependency_install_command("npm run install-hooks"));
    let mut summary = ToolGroupSummary::default();
    add_command(&mut summary, "cargo test");
    add_command(&mut summary, "cargo build");
    add_command(&mut summary, "ls");
    add_parsed_command(
        &mut summary,
        &ParsedCommand::Read {
            cmd: "cat a".to_string(),
            name: String::new(),
            path: "/src/a.rs".to_string(),
        },
    );
    assert_eq!(
        summary.parts(),
        vec!["read a.rs", "tests passed", "build passed", "ran command"]
    );
}

#[test]
fn summaries_count_and_name() {
    assert_eq!(read_label(&"a.rs".to_string(), &"/src/a.rs".to_string()), "a.rs");
    assert_eq!(read_summary(&strings(&["a.rs"])), "read a.rs");
    assert_eq!(read_summary(&strings(&["a.rs", "b.rs"])), "read 2 files");
    assert_eq!(mcp_summary(&vec![("a.b".to_string(), 1)]), "called a.b");
    assert_eq!(mcp_summary(&vec![("a.b".to_string(), 3)]), "called a.b x3");
    assert_eq!(
        dynamic_tool_summary(&vec![("a".to_string(), 1), ("b".to_string(), 2)]),
        "called 3 tools"
    );
    assert_eq!(truncate_label("short"), "short");
    assert!(truncate_label(&"x".repeat(400)).chars().count() < 400);
    let mut whole = ToolGroupSummary::default();
    let mut part = ToolGroupSummary::default();
    add_command(&mut part, "cargo test");
    whole.merge(&part);
    whole.merge(&part);
    assert_eq!(whole.parts(), vec!["2 test runs passed"]);
}

#[test]
fn texts_are_split_and_joined() {
    assert_eq!(lines(&chars("a\r\nb\n\nc")), vec!["a", "b", "", "c"]);
    assert_eq!(words(&chars("  a\t b ")), vec!["a", "b"]);
    assert_eq!(split_char(&chars("a\t\tb"), '\t'), vec!["a", "", "b"]);
    assert_eq!(join(&strings(&["a", "b"]), " · "), "a · b");
    assert_eq!(collapse_whitespace("  a \n b  "), "a b");
    assert_eq!(decimal_string(0), "0");
    assert_eq!(decimal_string(1203), "1203");
}
