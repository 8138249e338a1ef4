//! The JSON codec and the tool-call protocol, including the round trip.

use sabi::json::{parse_json, serialize_json, Json};
use sabi::tool_call::{serialize_tool_call, ParsedResponse, ToolCall};

fn tc_run_cmd(cmd: &str) -> ToolCall {
    ToolCall {
        tool: "run_cmd".to_string(),
        command: cmd.to_string(),
        code: String::new(),
        path: String::new(),
        content: String::new(),
        pattern: String::new(),
        directory: String::new(),
        server: String::new(),
        name: String::new(),
        arguments: Json::Null,
    }
}

fn assert_round_trip(j: &Json) {
    let text = serialize_json(j);
    let back = parse_json(&text).expect("canonical text must parse");
    let again = serialize_json(&back);
    assert_eq!(text, again);
}

#[test]
fn atoms_round_trip() {
    assert_eq!(serialize_json(&Json::Null), "null");
    assert_eq!(serialize_json(&Json::Bool(true)), "true");
    assert_eq!(serialize_json(&Json::Bool(false)), "false");
    assert_eq!(serialize_json(&Json::Num("-1.5e3".to_string())), "-1.5e3");
    assert_round_trip(&Json::Null);
    assert_round_trip(&Json::Num("42".to_string()));
}

#[test]
fn strings_escape_and_round_trip() {
    let s = Json::Str("a \"b\"\\\n\t\r\u{1}ü".to_string());
    let text = serialize_json(&s);
    assert_eq!(text, "\"a \\\"b\\\"\\\\\\n\\t\\r\\u0001ü\"");
    match parse_json(&text) {
        Some(Json::Str(back)) => assert_eq!(back, "a \"b\"\\\n\t\r\u{1}ü"),
        _ => panic!("expected the string back"),
    }
}

#[test]
fn nested_values_round_trip() {
    let v = Json::Obj(vec![
        ("a".to_string(), Json::Arr(vec![Json::Num("1".to_string()), Json::Bool(false)])),
        ("b".to_string(), Json::Obj(vec![("c".to_string(), Json::Null)])),
        ("d".to_string(), Json::Str("x".to_string())),
    ]);
    let text = serialize_json(&v);
    assert_eq!(text, "{\"a\":[1,false],\"b\":{\"c\":null},\"d\":\"x\"}");
    assert_round_trip(&v);
}

#[test]
fn parser_accepts_whitespace_and_unicode_escapes() {
    let text = " { \"a\" : [ 1 , 2 ] , \"b\" : \"\\u0041\\/\" } ";
    match parse_json(text) {
        Some(Json::Obj(fields)) => {
            assert_eq!(fields.len(), 2);
            assert_eq!(fields[0].0, "a");
            match &fields[1].1 {
                Json::Str(s) => assert_eq!(s, "A/"),
                _ => panic!("expected a string"),
            }
        },
        _ => panic!("expected an object"),
    }
}

#[test]
fn parser_rejects_garbage() {
    assert!(parse_json("").is_none());
    assert!(parse_json("{").is_none());
    assert!(parse_json("[1,]").is_none());
    assert!(parse_json("{\"a\" 1}").is_none());
    assert!(parse_json("nul").is_none());
    assert!(parse_json("\"unterminated").is_none());
    assert!(parse_json("{} trailing").is_none());
}

#[test]
fn serializer_output_is_valid_for_serde() {
    let v = Json::Obj(vec![
        ("tool".to_string(), Json::Str("run_cmd".to_string())),
        ("n".to_string(), Json::Num("3".to_string())),
        ("s".to_string(), Json::Str("line\nbreak \"q\"".to_string())),
    ]);
    let text = serialize_json(&v);
    let parsed: serde_json::Value = serde_json::from_str(&text).expect("serde must accept it");
    assert_eq!(parsed["tool"], "run_cmd");
    assert_eq!(parsed["n"], 3);
    assert_eq!(parsed["s"], "line\nbreak \"q\"");
}

#[test]
fn tool_call_round_trip() {
    let tc = tc_run_cmd("ls -la");
    let wire = serialize_tool_call(&tc);
    assert_eq!(wire, "{\"tool\":\"run_cmd\",\"command\":\"ls -la\"}");
    match ParsedResponse::parse(&wire) {
        ParsedResponse::ToolCall(back) => {
            assert_eq!(back.tool, "run_cmd");
            assert_eq!(back.command, "ls -la");
            assert_eq!(back.path, "");
        },
        _ => panic!("expected the call back"),
    }
}

#[test]
fn mcp_tool_call_round_trip() {
    let tc = ToolCall {
        tool: "mcp".to_string(),
        command: String::new(),
        code: String::new(),
        path: String::new(),
        content: String::new(),
        pattern: String::new(),
        directory: String::new(),
        server: "fs".to_string(),
        name: "read_file".to_string(),
        arguments: Json::Obj(vec![("path".to_string(), Json::Str("/tmp/x".to_string()))]),
    };
    let wire = serialize_tool_call(&tc);
    match ParsedResponse::parse(&wire) {
        ParsedResponse::ToolCall(back) => {
            assert_eq!(back.tool, "mcp");
            assert_eq!(back.server, "fs");
            assert_eq!(back.name, "read_file");
            assert_eq!(serialize_json(&back.arguments), "{\"path\":\"/tmp/x\"}");
        },
        _ => panic!("expected the call back"),
    }
}

#[test]
fn parse_ignores_fences_and_prose() {
    let reply = "Sure, let me list the files:\n```json\n{\"tool\": \"run_cmd\", \"command\": \"ls\"}\n```\nThat should do it.";
    match ParsedResponse::parse(reply) {
        ParsedResponse::ToolCall(tc) => assert_eq!(tc.command, "ls"),
        _ => panic!("expected a tool call"),
    }
}

#[test]
fn plain_text_stays_plain_text() {
    let reply = "No tools needed, the answer is 4.";
    match ParsedResponse::parse(reply) {
        ParsedResponse::TextResponse(t) => assert_eq!(t, reply),
        _ => panic!("expected plain text"),
    }
}

#[test]
fn object_without_tool_field_is_text() {
    let reply = "here {\"a\": 1} there";
    match ParsedResponse::parse(reply) {
        ParsedResponse::TextResponse(t) => assert_eq!(t, reply),
        _ => panic!("expected plain text"),
    }
}

#[test]
fn bad_tool_field_type_falls_back_to_text() {
    let reply = "{\"tool\": \"run_cmd\", \"command\": 3}";
    match ParsedResponse::parse(reply) {
        ParsedResponse::TextResponse(t) => assert_eq!(t, reply),
        _ => panic!("expected plain text on a decode failure"),
    }
}

#[test]
fn first_tool_object_wins() {
    let reply = "{\"x\":1} {\"tool\":\"read_file\",\"path\":\"/a\"} {\"tool\":\"run_cmd\",\"command\":\"rm\"}";
    match ParsedResponse::parse(reply) {
        ParsedResponse::ToolCall(tc) => {
            assert_eq!(tc.tool, "read_file");
            assert_eq!(tc.path, "/a");
        },
        _ => panic!("expected the first tool call"),
    }
}

#[test]
fn allow_list_and_screens_on_calls() {
    let tc = tc_run_cmd("rm -rf / --no-preserve-root");
    assert!(tc.is_allowed_tool());
    assert!(tc.is_run_cmd());
    assert!(!tc.is_mcp());
    assert!(tc.is_destructive());
    let benign = tc_run_cmd("ls");
    assert!(!benign.is_destructive());
    let mut unknown = tc_run_cmd("x");
    unknown.tool = "format_disk".to_string();
    assert!(!unknown.is_allowed_tool());
}

#[test]
fn unknown_tool_object_still_parses_as_a_call() {
    match ParsedResponse::parse("{\"tool\":\"launch\"}") {
        ParsedResponse::ToolCall(tc) => {
            assert_eq!(tc.tool, "launch");
            assert_eq!(tc.command, "");
            assert!(!tc.is_allowed_tool());
        },
        _ => panic!("the allow-list is enforced downstream, not in the parser"),
    }
}

#[test]
fn embedded_call_with_braces_after_it() {
    let reply = "plan: {\"tool\":\"read_file\",\"path\":\"/a\"} then {\"tool\":\"run_cmd\",\"command\":\"rm\"}";
    match ParsedResponse::parse(reply) {
        ParsedResponse::ToolCall(tc) => {
            assert_eq!(tc.tool, "read_file");
            assert_eq!(tc.path, "/a");
        },
        _ => panic!("the first embedded call wins"),
    }
}
