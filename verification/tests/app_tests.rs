//! Session behavior: input submission, the state machine, screens, and the
//! step functions of the event loop.

use sabi::app::{quick_decision, App, Directive, QuickDirective, SlashCommand};
use sabi::config::Config;
use sabi::executor::{DangerousCommandDetector, ExecutionResult, InteractiveCommandDetector};
use sabi::json::Json;
use sabi::message::MessageRole;
use sabi::state::{transition, AppState, StateEvent, TransitionResult};
use sabi::tool_call::ToolCall;

fn test_app() -> App {
    App::new(Config::default())
}

fn plain_tool(tool: &str) -> ToolCall {
    ToolCall {
        tool: tool.to_string(),
        command: String::new(),
        code: String::new(),
        path: String::new(),
        content: String::new(),
        pattern: String::new(),
        directory: String::new(),
        server: String::new(),
        name: String::new(),
        arguments: Json::Null,
    }
}

#[test]
fn test_is_input_empty_with_whitespace() {
    let mut app = test_app();

    assert!(app.is_input_empty());

    app.input_buffer = "   ".to_string();
    assert!(app.is_input_empty());

    app.clear_input();
    app.input_buffer = "\t\t".to_string();
    assert!(app.is_input_empty());

    app.clear_input();
    app.input_buffer = "\n\n".to_string();
    assert!(app.is_input_empty());

    app.clear_input();
    app.input_buffer = "hello".to_string();
    assert!(!app.is_input_empty());
}

#[test]
fn test_valid_input_submission() {
    let mut app = test_app();

    app.input_buffer = "list files".to_string();

    let submitted = app.submit_input();

    assert!(submitted);
    assert_eq!(app.state, AppState::Thinking);
    assert_eq!(app.messages.len(), 1);
    assert_eq!(app.messages[0].content, "list files");
}

#[test]
fn test_api_error_recovery() {
    let mut app = test_app();

    app.input_buffer = "test".to_string();
    app.submit_input();
    assert_eq!(app.state, AppState::Thinking);

    app.set_error("Network error");
    app.transition(StateEvent::ApiError);

    assert_eq!(app.state, AppState::Input);
    assert!(app.error_message.is_some());
    assert_eq!(app.error_message.unwrap(), "Network error");
}

#[test]
fn empty_input_rejected_without_any_change() {
    let mut app = test_app();
    app.input_buffer = " \t\r\n ".to_string();
    let submitted = app.submit_input();
    assert!(!submitted);
    assert_eq!(app.state, AppState::Input);
    assert_eq!(app.messages.len(), 0);
    assert_eq!(app.input_buffer, " \t\r\n ");
}

#[test]
fn submission_trims_and_clears_the_buffer() {
    let mut app = test_app();
    app.input_buffer = "  hi there \n".to_string();
    assert!(app.submit_input());
    assert_eq!(app.messages[0].content, "hi there");
    assert_eq!(app.messages[0].role, MessageRole::User);
    assert!(app.input_buffer.is_empty());
}

#[test]
fn api_error_from_finalizing_returns_to_input() {
    let mut app = test_app();
    app.state = AppState::Finalizing;
    app.handle_api_error("boom");
    assert_eq!(app.state, AppState::Input);
    assert_eq!(app.error_message.as_deref(), Some("boom"));
    assert_eq!(app.messages.len(), 0);
}

#[test]
fn transition_table_rows() {
    let rows = [
        (AppState::Input, StateEvent::SubmitInput { is_empty: false }, AppState::Thinking),
        (AppState::Thinking, StateEvent::ToolCallReceived, AppState::ReviewAction),
        (AppState::Thinking, StateEvent::TextResponseReceived, AppState::Input),
        (AppState::Thinking, StateEvent::ApiError, AppState::Input),
        (AppState::ReviewAction, StateEvent::ExecuteConfirmed, AppState::Executing),
        (AppState::ReviewAction, StateEvent::ExecuteCancelled, AppState::Input),
        (AppState::Executing, StateEvent::CommandComplete, AppState::Finalizing),
        (AppState::Finalizing, StateEvent::ApiError, AppState::Input),
        (AppState::Finalizing, StateEvent::AnalysisComplete, AppState::Input),
        (AppState::Finalizing, StateEvent::TextResponseReceived, AppState::Input),
        (AppState::Finalizing, StateEvent::ToolCallReceived, AppState::ReviewAction),
    ];
    for (from, ev, to) in rows {
        match transition(from, ev) {
            TransitionResult::Success(next) => assert_eq!(next, to),
            _ => panic!("expected a legal transition"),
        }
    }
    // illegal combinations are ignored
    assert!(matches!(
        transition(AppState::Input, StateEvent::SubmitInput { is_empty: true }),
        TransitionResult::Ignored
    ));
    assert!(matches!(
        transition(AppState::Executing, StateEvent::ApiError),
        TransitionResult::Ignored
    ));
}

#[test]
fn text_reply_returns_to_input() {
    let mut app = test_app();
    app.input_buffer = "hi".to_string();
    app.submit_input();
    let detector = DangerousCommandDetector::new(&app.config.dangerous_patterns.clone());
    let interactive = InteractiveCommandDetector::new();
    app.handle_model_reply("hello", &detector, &interactive);
    assert_eq!(app.state, AppState::Input);
    assert_eq!(app.messages.len(), 2);
    assert_eq!(app.messages[1].role, MessageRole::Model);
    assert_eq!(app.messages[1].content, "hello");
}

#[test]
fn interactive_command_is_refused_with_a_suggestion() {
    let mut app = test_app();
    app.input_buffer = "edit it".to_string();
    app.submit_input();
    let detector = DangerousCommandDetector::new(&app.config.dangerous_patterns.clone());
    let interactive = InteractiveCommandDetector::new();
    app.handle_model_reply(
        "{\"tool\":\"run_cmd\",\"command\":\"vim foo.txt\"}",
        &detector,
        &interactive,
    );
    assert_eq!(app.state, AppState::Input);
    let last = app.messages.last().unwrap();
    assert_eq!(last.role, MessageRole::Model);
    assert!(last.content.contains("Cannot run interactive command"));
    assert!(last.content.contains("vim foo.txt"));
    assert!(app.current_tool.is_none());
}

#[test]
fn unknown_tool_is_blocked_with_a_notice() {
    let mut app = test_app();
    app.input_buffer = "do something".to_string();
    app.submit_input();
    let detector = DangerousCommandDetector::new(&app.config.dangerous_patterns.clone());
    let interactive = InteractiveCommandDetector::new();
    app.handle_model_reply("{\"tool\":\"launch\",\"command\":\"x\"}", &detector, &interactive);
    assert_eq!(app.state, AppState::Input);
    let last = app.messages.last().unwrap();
    assert_eq!(last.role, MessageRole::System);
    assert!(last.content.contains("Blocked unknown tool: 'launch'"));
}

#[test]
fn dangerous_command_is_flagged_but_not_blocked() {
    let mut app = test_app();
    app.input_buffer = "delete everything".to_string();
    app.submit_input();
    let detector = DangerousCommandDetector::new(&app.config.dangerous_patterns.clone());
    let interactive = InteractiveCommandDetector::new();
    app.handle_model_reply(
        "{\"tool\":\"run_cmd\",\"command\":\"rm -rf /\"}",
        &detector,
        &interactive,
    );
    assert_eq!(app.state, AppState::ReviewAction);
    assert!(app.dangerous_command_detected);
    assert!(app.current_tool.is_some());
}

#[test]
fn safe_mode_previews_and_never_runs() {
    let mut app = test_app();
    app.config.safe_mode = true;
    app.state = AppState::ReviewAction;
    let mut tc = plain_tool("run_cmd");
    tc.command = "ls".to_string();
    app.current_tool = Some(tc);
    let before = app.messages.len();
    let d = app.confirm_execute(false);
    assert!(matches!(d, Directive::Stay));
    assert_eq!(app.state, AppState::Input);
    assert_eq!(app.messages.len(), before + 1);
    let last = app.messages.last().unwrap();
    assert_eq!(last.role, MessageRole::System);
    assert_eq!(last.content, "[SAFE MODE] Would run: ls");
}

#[test]
fn confirmed_command_is_dispatched() {
    let mut app = test_app();
    app.state = AppState::ReviewAction;
    let mut tc = plain_tool("run_cmd");
    tc.command = "ls".to_string();
    app.current_tool = Some(tc);
    let d = app.confirm_execute(false);
    match d {
        Directive::RunTool(t) => assert_eq!(t.command, "ls"),
        _ => panic!("expected a run directive"),
    }
    assert_eq!(app.state, AppState::Executing);
}

#[test]
fn mcp_call_needs_a_client() {
    let mut app = test_app();
    app.state = AppState::ReviewAction;
    let mut tc = plain_tool("mcp");
    tc.server = "fs".to_string();
    tc.name = "read".to_string();
    app.current_tool = Some(tc);
    let d = app.confirm_execute(false);
    assert!(matches!(d, Directive::Stay));
    assert_eq!(app.state, AppState::Input);
    assert!(app.messages.last().unwrap().content.contains("MCP client not available"));
}

#[test]
fn command_completion_builds_the_observation() {
    let mut app = test_app();
    app.state = AppState::Executing;
    let mut tc = plain_tool("run_cmd");
    tc.command = "ls".to_string();
    app.current_tool = Some(tc);
    let result = ExecutionResult::new("a\nb\n".to_string(), String::new(), 0, 5);
    let d = app.handle_command_complete(&result, true);
    assert!(matches!(d, Directive::StartChat));
    assert_eq!(app.state, AppState::Finalizing);
    let last = app.messages.last().unwrap();
    assert_eq!(last.role, MessageRole::User);
    assert_eq!(last.content, "Tool: run_cmd: ls\nExit code: 0\nOutput:\na\nb\n");
    assert_eq!(app.execution_output, "a\nb\n");
}

#[test]
fn failed_command_shows_both_streams() {
    let mut app = test_app();
    app.state = AppState::Executing;
    app.current_tool = Some(plain_tool("read_file"));
    let result = ExecutionResult::new("".to_string(), "no such file".to_string(), 2, 1);
    assert!(!result.success);
    let _d = app.handle_command_complete(&result, false);
    assert_eq!(app.state, AppState::Input);
    assert_eq!(app.execution_output, "\nno such file");
}

#[test]
fn cancel_during_execution_returns_to_input() {
    let mut app = test_app();
    app.state = AppState::Executing;
    let before = app.messages.len();
    app.cancel_execution();
    assert_eq!(app.state, AppState::Input);
    assert_eq!(app.messages.len(), before + 1);
    assert_eq!(app.messages.last().unwrap().content, "Command cancelled");
}

#[test]
fn mcp_result_becomes_an_observation() {
    let mut app = test_app();
    app.state = AppState::Executing;
    let value = Json::Obj(vec![(
        "content".to_string(),
        Json::Arr(vec![Json::Str("ok".to_string())]),
    )]);
    let d = app.handle_mcp_result(Ok(value), "fs", "read", false);
    assert!(matches!(d, Directive::Stay));
    assert_eq!(app.state, AppState::Input);
    let last = app.messages.last().unwrap();
    assert_eq!(last.role, MessageRole::User);
    assert_eq!(
        last.content,
        "Tool: mcp/fs/read\nOutput:\n{\"content\":[\"ok\"]}"
    );
}

#[test]
fn mcp_error_is_reported() {
    let mut app = test_app();
    app.state = AppState::Executing;
    let d = app.handle_mcp_result(Err("timed out".to_string()), "fs", "read", true);
    assert!(matches!(d, Directive::Stay));
    assert_eq!(app.state, AppState::Input);
    assert_eq!(app.messages.last().unwrap().content, "MCP error: timed out");
}

#[test]
fn submit_without_client_reports_missing_key() {
    let mut app = test_app();
    app.input_buffer = "hello".to_string();
    let d = app.on_submit(false);
    assert!(matches!(d, Directive::Stay));
    assert_eq!(app.state, AppState::Input);
    assert_eq!(app.error_message.as_deref(), Some("API key not configured"));
    assert_eq!(app.messages.len(), 1);
}

#[test]
fn submit_with_client_starts_a_chat() {
    let mut app = test_app();
    app.input_buffer = "hello".to_string();
    let d = app.on_submit(true);
    assert!(matches!(d, Directive::StartChat));
    assert_eq!(app.state, AppState::Thinking);
}

#[test]
fn spinner_wraps_after_ten_frames() {
    let mut app = test_app();
    for _ in 0..10 {
        app.tick_spinner();
    }
    assert_eq!(app.spinner_frame, 0);
    app.tick_spinner();
    assert_eq!(app.spinner_frame, 1);
    let _c = app.spinner_char();
}

#[test]
fn slash_commands_are_recognized() {
    assert!(matches!(
        sabi::app::parse_slash_command("  /quit "),
        SlashCommand::Quit
    ));
    assert!(matches!(
        sabi::app::parse_slash_command("/model"),
        SlashCommand::FetchModels(None)
    ));
    match sabi::app::parse_slash_command("/model gemini-pro") {
        SlashCommand::FetchModels(Some(arg)) => assert_eq!(arg, "gemini-pro"),
        _ => panic!("expected a model switch"),
    }
    assert!(matches!(
        sabi::app::parse_slash_command("hello"),
        SlashCommand::NotACommand
    ));
}

#[test]
fn models_listing_and_switching() {
    let mut app = test_app();
    let models = vec!["gemini-2.0-flash".to_string(), "gemini-2.0-pro".to_string()];
    let switched = app.apply_models_response("gemini-2.0-flash", Ok(models.clone()), Some("pro".to_string()));
    assert_eq!(switched.as_deref(), Some("gemini-2.0-pro"));
    assert_eq!(app.messages.last().unwrap().content, "Switched to: gemini-2.0-pro");

    let none = app.apply_models_response("gemini-2.0-flash", Ok(models.clone()), Some("grok9000".to_string()));
    assert!(none.is_none());
    assert_eq!(app.messages.last().unwrap().content, "Model 'grok9000' not found");

    let listing = app.apply_models_response("gemini-2.0-flash", Ok(models), None);
    assert!(listing.is_none());
    let text = &app.messages.last().unwrap().content;
    assert!(text.starts_with("Available models:\n-> gemini-2.0-flash\n   gemini-2.0-pro\n"));

    app.apply_models_response("m", Err("401".to_string()), None);
    assert_eq!(app.messages.last().unwrap().content, "Failed to fetch models: 401");
}

#[test]
fn quick_mode_safe_never_hands_out_work() {
    let reply = "{\"tool\":\"run_cmd\",\"command\":\"rm -rf /\"}";
    let parsed = sabi::tool_call::ParsedResponse::parse(reply);
    match quick_decision(parsed, true, true) {
        QuickDirective::SafeNotice(s) => assert_eq!(s, "[SAFE MODE] Would run: rm -rf /"),
        _ => panic!("safe mode must only produce the notice"),
    }
    let parsed = sabi::tool_call::ParsedResponse::parse(
        "{\"tool\":\"mcp\",\"server\":\"fs\",\"name\":\"read\"}",
    );
    match quick_decision(parsed, true, true) {
        QuickDirective::SafeNotice(s) => assert_eq!(s, "[SAFE MODE] Would call MCP: fs/read"),
        _ => panic!("safe mode must gate MCP calls too"),
    }
}

#[test]
fn quick_mode_routes_each_reply() {
    let text = sabi::tool_call::ParsedResponse::parse("the answer is 4");
    assert!(matches!(quick_decision(text, false, true), QuickDirective::PrintText(_)));

    let call = sabi::tool_call::ParsedResponse::parse("{\"tool\":\"run_cmd\",\"command\":\"ls\"}");
    match quick_decision(call, false, false) {
        QuickDirective::PrintCommand(c) => assert_eq!(c, "ls"),
        _ => panic!("query mode prints the command"),
    }

    let call = sabi::tool_call::ParsedResponse::parse("{\"tool\":\"run_cmd\",\"command\":\"ls\"}");
    match quick_decision(call, false, true) {
        QuickDirective::ConfirmAndRun(t) => assert_eq!(t.command, "ls"),
        _ => panic!("execute mode confirms and runs"),
    }

    let call = sabi::tool_call::ParsedResponse::parse(
        "{\"tool\":\"mcp\",\"server\":\"fs\",\"name\":\"read\",\"arguments\":{}}",
    );
    match quick_decision(call, false, false) {
        QuickDirective::CallMcp { server, name, .. } => {
            assert_eq!((server.as_str(), name.as_str()), ("fs", "read"));
        },
        _ => panic!("mcp calls are dispatched"),
    }
}
