use agent_orchestrator::backend::{backend_input_line, parse_backend_line, AgentOutput, AssistantBackend};

#[test]
fn unknown_type_maps_to_empty_text_and_is_not_terminal() {
    let ev = parse_backend_line("{\"type\":\"telemetry\",\"weird\":123}")
        .expect("unknown types are normalized, not dropped");
    match &ev {
        AgentOutput::Text(t) => assert_eq!(t, ""),
        _ => panic!("expected empty text"),
    }
    assert!(!ev.is_final());
}

#[test]
fn malformed_line_is_skipped() {
    assert!(parse_backend_line("not json").is_none());
    assert!(parse_backend_line("{\"type\":").is_none());
    assert!(parse_backend_line("[1,2,3]").is_none());
    assert!(parse_backend_line("{\"no_type\":true}").is_none());
}

#[test]
fn assistant_line_yields_first_text_block() {
    let line = "{\"type\":\"assistant\",\"message\":{\"role\":\"assistant\",\
                \"content\":[{\"type\":\"thinking\",\"thinking\":\"hmm\"},\
                {\"type\":\"text\",\"text\":\"TASK: do the thing\"},\
                {\"type\":\"text\",\"text\":\"second\"}]}}";
    let ev = parse_backend_line(line).expect("assistant line parses");
    match ev {
        AgentOutput::Text(t) => assert_eq!(t, "TASK: do the thing"),
        _ => panic!("expected text"),
    }
}

#[test]
fn assistant_without_text_block_yields_empty_text() {
    let line = "{\"type\":\"assistant\",\"message\":{\"content\":[]}}";
    let ev = parse_backend_line(line).expect("parses");
    match ev {
        AgentOutput::Text(t) => assert_eq!(t, ""),
        _ => panic!("expected text"),
    }
}

#[test]
fn result_line_is_terminal() {
    let line = "{\"type\":\"result\",\"is_error\":false,\"result\":\"all done\",\
                \"session_id\":\"abc\"}";
    let ev = parse_backend_line(line).expect("parses");
    assert!(ev.is_final());
    match ev {
        AgentOutput::Done { text, is_error, session_id } => {
            assert_eq!(text.as_deref(), Some("all done"));
            assert!(!is_error);
            assert_eq!(session_id.as_deref(), Some("abc"));
        }
        _ => panic!("expected a terminal result"),
    }
}

#[test]
fn error_line_is_terminal() {
    let ev = parse_backend_line("{\"type\":\"error\",\"error\":\"boom\"}").expect("parses");
    assert!(ev.is_final());
    match ev {
        AgentOutput::Error(e) => assert_eq!(e, "boom"),
        _ => panic!("expected an error event"),
    }
    let ev = parse_backend_line("{\"type\":\"error\",\"message\":\"softer boom\"}").expect("parses");
    match ev {
        AgentOutput::Error(e) => assert_eq!(e, "softer boom"),
        _ => panic!("expected an error event"),
    }
}

#[test]
fn error_line_with_malformed_message_is_skipped() {
    assert!(parse_backend_line("{\"type\":\"error\",\"message\":123}").is_none());
    assert!(parse_backend_line("{\"type\":\"error\",\"error\":[1]}").is_none());
    // a null field is an absent one, as for an optional string
    let ev = parse_backend_line("{\"type\":\"error\",\"error\":null,\"message\":null}")
        .expect("parses");
    match ev {
        AgentOutput::Error(e) => assert_eq!(e, ""),
        _ => panic!("expected an error event"),
    }
}

#[test]
fn result_line_with_malformed_is_error_is_skipped() {
    assert!(parse_backend_line("{\"type\":\"result\",\"is_error\":null}").is_none());
    assert!(parse_backend_line("{\"type\":\"result\",\"is_error\":\"yes\"}").is_none());
    let ev = parse_backend_line("{\"type\":\"result\"}").expect("defaults apply");
    match ev {
        AgentOutput::Done { text, is_error, session_id } => {
            assert!(text.is_none());
            assert!(!is_error);
            assert!(session_id.is_none());
        }
        _ => panic!("expected a terminal result"),
    }
}

#[test]
fn unknown_type_ignores_all_fields() {
    let ev = parse_backend_line("{\"type\":\"future\",\"message\":123,\"error\":[]}")
        .expect("unknown types check no fields");
    match ev {
        AgentOutput::Text(t) => assert_eq!(t, ""),
        _ => panic!("expected empty text"),
    }
}

#[test]
fn system_line_carries_session_id() {
    let ev = parse_backend_line("{\"type\":\"system\",\"session_id\":\"s-1\"}").expect("parses");
    match &ev {
        AgentOutput::System { session_id } => assert_eq!(session_id.as_deref(), Some("s-1")),
        _ => panic!("expected a system event"),
    }
    assert!(!ev.is_final());
    let ev = parse_backend_line("{\"type\":\"system\"}").expect("parses");
    match ev {
        AgentOutput::System { session_id } => assert!(session_id.is_none()),
        _ => panic!("expected a system event"),
    }
}

#[test]
fn tool_lines_are_informational() {
    let line = "{\"type\":\"tool_use\",\"tool_use_id\":\"t1\",\"tool_name\":\"bash\",\
                \"input\":{\"cmd\":\"ls\"}}";
    let ev = parse_backend_line(line).expect("parses");
    match &ev {
        AgentOutput::ToolUse { id, name, input } => {
            assert_eq!(id, "t1");
            assert_eq!(name, "bash");
            assert_eq!(input, "{\"cmd\":\"ls\"}");
        }
        _ => panic!("expected tool use"),
    }
    assert!(!ev.is_final());

    let line = "{\"type\":\"tool_result\",\"tool_use_id\":\"t1\",\"output\":\"ok\"}";
    let ev = parse_backend_line(line).expect("parses");
    match ev {
        AgentOutput::ToolResult { id, output, is_error } => {
            assert_eq!(id, "t1");
            assert_eq!(output, "ok");
            assert!(!is_error);
        }
        _ => panic!("expected tool result"),
    }
}

#[test]
fn text_accessor_matches_variants() {
    let t = AgentOutput::Text("abc".to_string());
    assert_eq!(t.text(), Some("abc"));
    let d = AgentOutput::Done { text: Some("xyz".to_string()), is_error: false, session_id: None };
    assert_eq!(d.text(), Some("xyz"));
    let s = AgentOutput::System { session_id: None };
    assert_eq!(s.text(), None);
}

#[test]
fn input_line_is_exact_json() {
    let line = backend_input_line("say \"hi\"\nplease");
    assert_eq!(
        line,
        "{\"type\":\"user\",\"message\":{\"role\":\"user\",\
         \"content\":\"say \\\"hi\\\"\\nplease\"}}"
    );
}

#[test]
fn argument_list_shape() {
    let b = AssistantBackend::new();
    let args = b.backend_args(&None);
    assert_eq!(
        args,
        vec![
            "-p",
            "--input-format",
            "stream-json",
            "--output-format",
            "stream-json",
            "--verbose"
        ]
    );
    let b = AssistantBackend::new().with_args(vec!["--model".to_string(), "fast".to_string()]);
    let args = b.backend_args(&Some("sess-9".to_string()));
    assert_eq!(args.len(), 10);
    assert_eq!(args[6], "--model");
    assert_eq!(args[7], "fast");
    assert_eq!(args[8], "--session-id");
    assert_eq!(args[9], "sess-9");
    assert_eq!(b.name(), "assistant");
}
