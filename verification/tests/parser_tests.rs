use mcp_agent::agent::{resolve_directive, resolve_directives, PlannedAction};
use mcp_agent::errors::{AgentError, ErrorKind};
use mcp_agent::json::JsonValue;
use mcp_agent::parser::parse_reply;

fn reply(s: &str) -> Result<mcp_agent::agent::ModelResponse, AgentError> {
    parse_reply(s.as_bytes().to_vec())
}

#[test]
fn decodes_a_pure_json_reply() {
    let m = reply(
        r#"{"mcp_requests":[{"action":"write_file","args":{"path":"out/a.txt","content":"hi"}}]}"#,
    )
    .unwrap();
    assert_eq!(m.mcp_requests.len(), 1);
    assert_eq!(m.mcp_requests[0].action, b"write_file".to_vec());
    assert_eq!(m.mcp_requests[0].args.len(), 2);
    assert_eq!(m.mcp_requests[0].args[0].0, b"path".to_vec());
}

#[test]
fn a_valid_write_file_reply_resolves_to_the_exact_file_state() {
    let m = reply(
        r#"{"mcp_requests":[{"action":"write_file","args":{"path":"out/a.txt","content":"hi"}}]}"#,
    )
    .unwrap();
    match resolve_directive(&m.mcp_requests[0]).unwrap() {
        PlannedAction::WriteFile(a) => {
            assert_eq!(a.path, "out/a.txt");
            assert_eq!(a.content, "hi");
        }
        PlannedAction::Remote => panic!("write_file must resolve locally"),
    }
}

#[test]
fn salvages_one_object_wrapped_in_commentary() {
    let m = reply(
        "Sure, here is the JSON you asked for: {\"mcp_requests\":[{\"action\":\"write_file\",\"args\":{\"path\":\"p\",\"content\":\"c\"}}]} hope it helps!",
    )
    .unwrap();
    assert_eq!(m.mcp_requests.len(), 1);
    assert_eq!(m.mcp_requests[0].action, b"write_file".to_vec());
}

#[test]
fn prose_without_json_fails_with_parse_error_carrying_the_raw_text() {
    let raw = "I think the best approach would be to write a haiku first.";
    match reply(raw) {
        Err(AgentError::ParseError(carried)) => {
            assert_eq!(carried, raw.as_bytes().to_vec());
        }
        other => panic!("expected ParseError, got {other:?}"),
    }
}

#[test]
fn valid_json_of_the_wrong_shape_is_a_parse_error() {
    assert!(matches!(
        reply(r#"{"answer": 42}"#),
        Err(AgentError::ParseError(_))
    ));
    assert!(matches!(
        reply(r#"{"mcp_requests": "not an array"}"#),
        Err(AgentError::ParseError(_))
    ));
    assert!(matches!(
        reply(r#"{"mcp_requests": [{"action": 7, "args": {}}]}"#),
        Err(AgentError::ParseError(_))
    ));
    assert!(matches!(reply(r#"[1,2,3]"#), Err(AgentError::ParseError(_))));
}

#[test]
fn an_empty_directive_list_is_a_valid_reply() {
    let m = reply(r#"{"mcp_requests":[]}"#).unwrap();
    assert!(m.mcp_requests.is_empty());
}

#[test]
fn unknown_actions_resolve_to_remote_calls() {
    let m = reply(r#"{"mcp_requests":[{"action":"read_file","args":{"path":"x"}}]}"#).unwrap();
    assert!(matches!(
        resolve_directive(&m.mcp_requests[0]),
        Ok(PlannedAction::Remote)
    ));
}

#[test]
fn write_file_without_its_arguments_is_an_argument_error() {
    let m = reply(r#"{"mcp_requests":[{"action":"write_file","args":{"path":"only"}}]}"#).unwrap();
    let e = resolve_directive(&m.mcp_requests[0]).unwrap_err();
    assert_eq!(e.kind(), ErrorKind::Argument);

    let m = reply(r#"{"mcp_requests":[{"action":"write_file","args":{"path":1,"content":"c"}}]}"#)
        .unwrap();
    assert!(matches!(
        resolve_directive(&m.mcp_requests[0]),
        Err(AgentError::ArgumentError)
    ));
}

#[test]
fn dispatch_aborts_at_the_first_failing_directive() {
    let m = reply(
        r#"{"mcp_requests":[
            {"action":"write_file","args":{"path":"a","content":"1"}},
            {"action":"write_file","args":{}},
            {"action":"write_file","args":{"path":"b","content":"2"}}
        ]}"#,
    )
    .unwrap();
    assert!(matches!(
        resolve_directives(&m.mcp_requests),
        Err(AgentError::ArgumentError)
    ));
}

#[test]
fn a_clean_reply_resolves_every_directive_in_order() {
    let m = reply(
        r#"{"mcp_requests":[
            {"action":"write_file","args":{"path":"a","content":"1"}},
            {"action":"list_dir","args":{"path":"."}}
        ]}"#,
    )
    .unwrap();
    let acts = resolve_directives(&m.mcp_requests).unwrap();
    assert_eq!(acts.len(), 2);
    assert!(matches!(&acts[0], PlannedAction::WriteFile(a) if a.path == "a" && a.content == "1"));
    assert!(matches!(&acts[1], PlannedAction::Remote));
}

#[test]
fn directive_args_keep_order_and_extra_values() {
    let m = reply(
        r#"{"mcp_requests":[{"action":"custom","args":{"z":1,"a":[true],"path":"p"}}]}"#,
    )
    .unwrap();
    let args = &m.mcp_requests[0].args;
    assert_eq!(args[0].0, b"z".to_vec());
    assert_eq!(args[0].1, JsonValue::Num(b"1".to_vec()));
    assert_eq!(args[1].0, b"a".to_vec());
    assert_eq!(args[2].0, b"path".to_vec());
}
