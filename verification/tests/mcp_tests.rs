//! The MCP subclient core: configuration, framing, ids, retry, and the
//! tool catalog.

use sabi::json::{parse_json, Json};
use sabi::mcp::{
    build_request, call_params, decode_tools, initialize_params, is_notification,
    parse_mcp_command, parse_response_line, request_line, resolve_retry, retry_after_failure,
    tools_prompt, McpCliCommand, McpConfig, McpError, McpSession, McpTool, McpTransport,
};

#[test]
fn test_empty_config() {
    let config = McpConfig::default();
    assert!(!config.has_servers());
}

#[test]
fn config_add_and_remove_servers() {
    let mut config = McpConfig::default();
    assert!(config
        .add_server("filesystem", "npx", vec!["-y".to_string(), "server-fs".to_string()])
        .is_ok());
    assert!(config.has_servers());
    assert!(matches!(
        config.add_server("filesystem", "other", vec![]),
        Err(McpError::ServerExists(_))
    ));
    assert!(config.add_http_server("ctx", "https://example.test/mcp", vec![]).is_ok());
    assert_eq!(config.server_names(), vec!["filesystem".to_string(), "ctx".to_string()]);

    let listed = config.list_servers();
    assert_eq!(listed.len(), 2);
    assert_eq!(listed[0].0, "filesystem");
    assert_eq!(listed[0].1.transport, McpTransport::Stdio);
    assert_eq!(listed[1].1.transport, McpTransport::Http);
    assert_eq!(listed[1].1.url.as_deref(), Some("https://example.test/mcp"));

    assert!(matches!(
        config.remove_server("absent"),
        Err(McpError::ServerNotFound(_))
    ));
    assert!(config.remove_server("filesystem").is_ok());
    assert_eq!(config.server_names(), vec!["ctx".to_string()]);
}

#[test]
fn config_env_and_headers() {
    let mut config = McpConfig::default();
    config.add_server("git", "npx", vec![]).unwrap();
    assert!(matches!(
        config.set_env("absent", "A", "1"),
        Err(McpError::ServerNotFound(_))
    ));
    config.set_env("git", "GIT_DIR", "/repo").unwrap();
    config.set_env("git", "TOKEN", "SECRET-REDACTED").unwrap();
    config.set_env("git", "GIT_DIR", "/repo2").unwrap();
    let server = config.get_server("git").unwrap();
    assert_eq!(
        server.env,
        vec![
            ("GIT_DIR".to_string(), "/repo2".to_string()),
            ("TOKEN".to_string(), "SECRET-REDACTED".to_string())
        ]
    );
    config.remove_env("git", "TOKEN").unwrap();
    let server = config.get_server("git").unwrap();
    assert_eq!(server.env, vec![("GIT_DIR".to_string(), "/repo2".to_string())]);

    config.add_http_server("ctx", "https://example.test", vec![]).unwrap();
    config.set_header("ctx", "API-KEY", "SECRET-REDACTED").unwrap();
    let server = config.get_server("ctx").unwrap();
    assert_eq!(server.headers.len(), 1);
    assert_eq!(server.headers[0].0, "API-KEY");
}

#[test]
fn request_lines_are_canonical() {
    assert_eq!(
        request_line(1, "initialize", None),
        "{\"jsonrpc\":\"2.0\",\"id\":1,\"method\":\"initialize\"}"
    );
    let params = call_params("read", Json::Obj(vec![]));
    assert_eq!(
        request_line(7, "tools/call", Some(params)),
        "{\"jsonrpc\":\"2.0\",\"id\":7,\"method\":\"tools/call\",\"params\":{\"name\":\"read\",\"arguments\":{}}}"
    );
    let req = build_request(2, "tools/list", None);
    match req {
        Json::Obj(fields) => assert_eq!(fields.len(), 3),
        _ => panic!("expected an object"),
    }
}

#[test]
fn initialize_params_carry_the_protocol_version() {
    let p = initialize_params();
    let text = sabi::json::serialize_json(&p);
    assert!(text.contains("\"protocolVersion\":\"2024-11-05\""));
    assert!(text.contains("\"clientInfo\""));
}

#[test]
fn notifications_are_write_only() {
    assert!(is_notification("notifications/initialized"));
    assert!(!is_notification("tools/list"));
}

#[test]
fn response_lines_decode() {
    match parse_response_line("{\"jsonrpc\":\"2.0\",\"id\":1,\"result\":{\"ok\":true}}") {
        Ok(Some(Json::Obj(fields))) => assert_eq!(fields[0].0, "ok"),
        _ => panic!("expected a result"),
    }
    match parse_response_line("{\"jsonrpc\":\"2.0\",\"id\":1}") {
        Ok(None) => {},
        _ => panic!("expected an empty result"),
    }
    match parse_response_line(
        "{\"jsonrpc\":\"2.0\",\"id\":1,\"error\":{\"code\":-32601,\"message\":\"no such method\"}}",
    ) {
        Err(McpError::ServerError(m)) => assert_eq!(m, "no such method"),
        _ => panic!("expected the error message"),
    }
    assert!(parse_response_line("not json").is_err());
}

#[test]
fn request_ids_are_strictly_monotonic() {
    let mut session = McpSession::new();
    let a = session.next_request_id();
    let b = session.next_request_id();
    let c = session.next_request_id();
    assert_eq!((a, b, c), (1, 2, 3));
    assert!(a < b && b < c);
}

#[test]
fn retry_fails_once_then_succeeds() {
    let first: Result<Option<Json>, McpError> = Err(McpError::Timeout(30));
    assert!(retry_after_failure(&first));
    let second: Result<Option<Json>, McpError> = Ok(Some(Json::Str("ok".to_string())));
    match resolve_retry(first, false, second) {
        Ok(Some(Json::Str(s))) => assert_eq!(s, "ok"),
        _ => panic!("expected the second result"),
    }
}

#[test]
fn retry_fails_twice_returns_second_error() {
    let first: Result<Option<Json>, McpError> = Err(McpError::Timeout(30));
    let second: Result<Option<Json>, McpError> =
        Err(McpError::ServerError("still broken".to_string()));
    match resolve_retry(first, false, second) {
        Err(McpError::ServerError(m)) => assert_eq!(m, "still broken"),
        _ => panic!("expected the second error"),
    }
}

#[test]
fn failed_restart_keeps_first_error() {
    let first: Result<Option<Json>, McpError> = Err(McpError::Timeout(30));
    let second: Result<Option<Json>, McpError> = Ok(None);
    match resolve_retry(first, true, second) {
        Err(McpError::Timeout(30)) => {},
        _ => panic!("expected the first error"),
    }
    let ok_first: Result<Option<Json>, McpError> = Ok(None);
    assert!(!retry_after_failure(&ok_first));
    assert!(matches!(resolve_retry(ok_first, false, Ok(Some(Json::Null))), Ok(None)));
}

#[test]
fn tool_catalog_decodes() {
    let result = parse_json(
        "{\"tools\":[{\"name\":\"read\",\"description\":\"Reads a file.\\nMore.\",\"inputSchema\":{}},{\"name\":\"write\"}]}",
    )
    .unwrap();
    let tools = decode_tools(&result).unwrap();
    assert_eq!(tools.len(), 2);
    assert_eq!(tools[0].name, "read");
    assert_eq!(tools[0].description.as_deref(), Some("Reads a file.\nMore."));
    assert!(tools[1].description.is_none());

    let empty = parse_json("{}").unwrap();
    assert!(decode_tools(&empty).unwrap().is_empty());

    let bad = parse_json("{\"tools\":[{\"description\":\"no name\"}]}").unwrap();
    assert!(decode_tools(&bad).is_err());
}

#[test]
fn tools_prompt_lists_first_lines() {
    let catalog = vec![(
        "fs".to_string(),
        vec![McpTool {
            name: "read".to_string(),
            description: Some("Reads a file.\nLong form.".to_string()),
            input_schema: None,
        }],
    )];
    let prompt = tools_prompt(&catalog);
    assert!(prompt.contains("Available MCP tools:\n"));
    assert!(prompt.contains("- fs/read: Reads a file.\n"));
    assert!(!prompt.contains("Long form"));
    assert_eq!(tools_prompt(&vec![]), "");
}

#[test]
fn mcp_cli_commands_parse() {
    let args: Vec<String> = vec![
        "add", "-t", "http", "-H", "API-KEY: SECRET-REDACTED", "ctx", "https://example.test/mcp",
    ]
    .into_iter()
    .map(|s| s.to_string())
    .collect();
    match parse_mcp_command(&args) {
        McpCliCommand::Add { transport, headers, name, target, args } => {
            assert_eq!(transport, "http");
            assert_eq!(headers, vec![("API-KEY".to_string(), "SECRET-REDACTED".to_string())]);
            assert_eq!(name, "ctx");
            assert_eq!(target, "https://example.test/mcp");
            assert!(args.is_empty());
        },
        _ => panic!("expected an add command"),
    }

    let args: Vec<String> = vec!["add", "fs", "npx", "-y", "server-fs"]
        .into_iter()
        .map(|s| s.to_string())
        .collect();
    match parse_mcp_command(&args) {
        McpCliCommand::Add { transport, name, target, args, .. } => {
            assert_eq!(transport, "stdio");
            assert_eq!(name, "fs");
            assert_eq!(target, "npx");
            assert_eq!(args, vec!["-y".to_string(), "server-fs".to_string()]);
        },
        _ => panic!("expected an add command"),
    }

    assert!(matches!(
        parse_mcp_command(&vec!["add".to_string(), "onlyname".to_string()]),
        McpCliCommand::AddUsage
    ));
    assert!(matches!(
        parse_mcp_command(&vec!["rm".to_string(), "fs".to_string()]),
        McpCliCommand::Remove { .. }
    ));
    match parse_mcp_command(&vec![
        "env".to_string(),
        "brave".to_string(),
        "KEY=VALUE".to_string(),
    ]) {
        McpCliCommand::SetEnv { name, key, value } => {
            assert_eq!((name.as_str(), key.as_str(), value.as_str()), ("brave", "KEY", "VALUE"));
        },
        _ => panic!("expected a set-env command"),
    }
    assert!(matches!(
        parse_mcp_command(&vec![
            "env".to_string(),
            "brave".to_string(),
            "-d".to_string(),
            "KEY".to_string()
        ]),
        McpCliCommand::DeleteEnv { .. }
    ));
    assert!(matches!(parse_mcp_command(&vec!["list".to_string()]), McpCliCommand::List));
    assert!(matches!(parse_mcp_command(&vec![]), McpCliCommand::Help));
    assert!(matches!(
        parse_mcp_command(&vec!["frobnicate".to_string()]),
        McpCliCommand::Unknown(_)
    ));
}

#[test]
fn error_messages_render() {
    assert_eq!(McpError::ConfigNotFound.message(), "Config not found");
    assert_eq!(McpError::Timeout(30).message(), "Timeout after 30 seconds");
    assert_eq!(
        McpError::ServerNotFound("fs".to_string()).message(),
        "Server not found: fs"
    );
}

#[test]
fn response_lines_tolerate_surrounding_whitespace() {
    match parse_response_line("  {\"jsonrpc\":\"2.0\",\"id\":3,\"result\":[1,2]}\n") {
        Ok(Some(Json::Arr(items))) => assert_eq!(items.len(), 2),
        _ => panic!("expected the result back"),
    }
}
