//! Text helpers, detectors, version comparison, and prompt assembly.

use sabi::ai_client::AIClient;
use sabi::config::{Config, Provider};
use sabi::context::{build_system_prompt, parse_os_release, system_context};
use sabi::executor::{
    combined_output, safe_mode_desc, tool_desc, DangerousCommandDetector, ExecutionResult,
    InteractiveCommandDetector,
};
use sabi::json::Json;
use sabi::text::{
    chars_of, contains_str, find_char, i64_to_string, str_eq, starts_with_str,
    string_from_chars, trim_str, u64_to_string,
};
use sabi::tool_call::ToolCall;
use sabi::update::{is_newer, parse_version};

#[test]
fn trimming_and_comparison() {
    assert_eq!(trim_str("  a b \t\n"), "a b");
    assert_eq!(trim_str(""), "");
    assert_eq!(trim_str(" \t "), "");
    assert!(str_eq("abc", "abc"));
    assert!(!str_eq("abc", "abd"));
    assert!(starts_with_str("notifications/initialized", "notifications/"));
    assert!(!starts_with_str("tools/list", "notifications/"));
}

#[test]
fn substring_search() {
    assert!(contains_str("run rm -rf / now", "rm -rf /"));
    assert!(!contains_str("harmless", "rm -rf /"));
    assert!(contains_str("anything", ""));
    assert_eq!(find_char("a=b", '='), Some(1));
    assert_eq!(find_char("ab", '='), None);
}

#[test]
fn numbers_render_in_decimal() {
    assert_eq!(u64_to_string(0), "0");
    assert_eq!(u64_to_string(9), "9");
    assert_eq!(u64_to_string(1234567890), "1234567890");
    assert_eq!(i64_to_string(-1), "-1");
    assert_eq!(i64_to_string(0), "0");
    assert_eq!(i64_to_string(42), "42");
}

#[test]
fn chars_round_trip() {
    let v = chars_of("héllo");
    assert_eq!(v.len(), 5);
    assert_eq!(string_from_chars(&v), "héllo");
}

#[test]
fn version_comparison() {
    assert!(is_newer("1.2.4", "1.2.3"));
    assert!(!is_newer("1.2.3", "1.2.3"));
    assert!(!is_newer("1.2.2", "1.2.3"));
    assert!(is_newer("2.0", "1.9.9"));
    assert!(is_newer("1.2.3.1", "1.2.3"));
    assert!(is_newer("0.2.0", "0.1.9-beta"));
    assert_eq!(parse_version("1.2.3"), vec![1, 2, 3]);
    assert_eq!(parse_version("v1.x.3"), vec![3]);
    assert_eq!(parse_version(""), Vec::<u32>::new());
}

#[test]
fn dangerous_detector_matches_substrings() {
    let cfg = Config::default();
    let detector = DangerousCommandDetector::new(&cfg.dangerous_patterns);
    assert!(detector.is_dangerous("sudo rm -rf / please"));
    assert!(detector.is_dangerous("dd if=/dev/zero of=/dev/sda"));
    assert!(!detector.is_dangerous("ls -la"));
    let none = DangerousCommandDetector::new(&Vec::new());
    assert!(!none.is_dangerous("rm -rf /"));
}

#[test]
fn interactive_detector_and_suggestions() {
    let d = InteractiveCommandDetector::new();
    assert!(d.is_interactive("vim notes.txt"));
    assert!(d.is_interactive("  htop"));
    assert!(d.is_interactive("ssh host"));
    assert!(!d.is_interactive("ssh -T git@example.test true"));
    assert!(d.is_interactive("python"));
    assert!(!d.is_interactive("python3 -c 'print(1)'"));
    assert!(!d.is_interactive("ls"));
    assert!(d.suggestion("vim x").is_some());
    assert!(d.suggestion("less x").is_some());
    assert!(d.suggestion("ls").is_none());
}

#[test]
fn execution_results_and_observations() {
    let ok = ExecutionResult::new("out".to_string(), "".to_string(), 0, 12);
    assert!(ok.success);
    assert_eq!(combined_output(&ok), "out");
    let bad = ExecutionResult::new("partial".to_string(), "err".to_string(), 3, 1);
    assert!(!bad.success);
    assert_eq!(combined_output(&bad), "partial\nerr");
    let cancelled = ExecutionResult::cancelled();
    assert_eq!(cancelled.exit_code, -1);
    assert_eq!(cancelled.stderr, "cancelled");

    let mut tc = ToolCall {
        tool: "run_cmd".to_string(),
        command: "ls".to_string(),
        code: String::new(),
        path: String::new(),
        content: String::new(),
        pattern: String::new(),
        directory: String::new(),
        server: String::new(),
        name: String::new(),
        arguments: Json::Null,
    };
    assert_eq!(tool_desc(&tc), "run_cmd: ls");
    assert_eq!(safe_mode_desc(&tc), "Would run: ls");
    tc.tool = "write_file".to_string();
    tc.path = "/tmp/x".to_string();
    tc.content = "abcd".to_string();
    assert_eq!(safe_mode_desc(&tc), "Would write 4 characters to: /tmp/x");
    assert_eq!(
        sabi::executor::observation("run_cmd: ls", -1, "cancelled"),
        "Tool: run_cmd: ls\nExit code: -1\nOutput:\ncancelled"
    );
    assert_eq!(
        sabi::executor::mcp_observation("fs", "read", "{}"),
        "Tool: mcp/fs/read\nOutput:\n{}"
    );
}

#[test]
fn os_release_and_context() {
    let content = "NAME=\"Debian GNU/Linux\"\nPRETTY_NAME=\"Debian GNU/Linux 12 (bookworm)\"\nID=debian\n";
    assert_eq!(
        parse_os_release(content).as_deref(),
        Some("Debian GNU/Linux 12 (bookworm)")
    );
    assert_eq!(parse_os_release("ID=debian\n"), None);

    let ctx = system_context("2025-01-01 00:00:00", "ada", "/bin/bash", "/home/ada", "Linux", "Debian 12");
    assert_eq!(
        ctx,
        "SYSTEM CONTEXT:\n- Current time: 2025-01-01 00:00:00\n- User: ada\n- Shell: /bin/bash\n- Working directory: /home/ada\n- OS: Linux Debian 12"
    );

    let prompt = build_system_prompt(true, &ctx, "");
    assert!(prompt.contains("run_python"));
    let prompt_no_py = build_system_prompt(false, &ctx, "");
    assert!(!prompt_no_py.contains("run_python"));
    assert!(prompt_no_py.ends_with(&ctx));
}

#[test]
fn ai_client_selects_provider_and_model() {
    let mut cfg = Config::default();
    assert!(AIClient::new(&cfg).is_err());
    cfg.api_key = "SECRET-REDACTED".to_string();
    let mut client = AIClient::new(&cfg).unwrap();
    assert!(matches!(client, AIClient::Gemini(_)));
    assert_eq!(client.model(), "gemini-2.0-flash");
    client.set_model("gemini-exp".to_string());
    assert_eq!(client.model(), "gemini-exp");
    cfg.provider = Provider::OpenAI;
    cfg.model = "gpt-4o-mini".to_string();
    let client2 = AIClient::new(&cfg).unwrap();
    assert!(matches!(client2, AIClient::OpenAI(_)));
    assert_eq!(client2.model(), "gpt-4o-mini");
}
