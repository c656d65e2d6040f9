use mcp_agent::agent::MCPRequest;
use mcp_agent::errors::AgentError;
use mcp_agent::json::JsonValue;
use mcp_agent::mcp_client::{MCPClient, ResponseEvent, TransportState};

fn write_file_directive(path: &str, content: &str) -> MCPRequest {
    MCPRequest {
        action: b"write_file".to_vec(),
        args: vec![
            (b"path".to_vec(), JsonValue::Str(path.as_bytes().to_vec())),
            (
                b"content".to_vec(),
                JsonValue::Str(content.as_bytes().to_vec()),
            ),
        ],
    }
}

fn ready_client() -> MCPClient {
    let mut c = MCPClient::new();
    c.init();
    c.mark_ready();
    c
}

#[test]
fn calling_before_init_fails_with_not_ready_and_no_side_effects() {
    let mut c = MCPClient::new();
    assert_eq!(c.state, TransportState::Uninitialized);
    let r = c.do_request(write_file_directive("p", "c"));
    assert!(matches!(r, Err(AgentError::NotReady)));
    // Nothing changed and no request line exists, so no I/O can have happened.
    assert_eq!(c.state, TransportState::Uninitialized);
    assert_eq!(c.next_id, 1);
    let r = c.write_file("p", "c");
    assert!(matches!(r, Err(AgentError::NotReady)));
    assert_eq!(c.state, TransportState::Uninitialized);
}

#[test]
fn init_walks_the_lifecycle_to_ready() {
    let mut c = MCPClient::new();
    c.init();
    assert_eq!(c.state, TransportState::Starting);
    c.mark_ready();
    assert_eq!(c.state, TransportState::Ready);
}

#[test]
fn a_failed_spawn_leaves_the_transport_failed() {
    let mut c = MCPClient::new();
    c.init();
    let e = c.mark_spawn_failed();
    assert!(matches!(e, AgentError::SpawnError));
    assert_eq!(c.state, TransportState::Failed);
    assert!(matches!(
        c.do_request(write_file_directive("p", "c")),
        Err(AgentError::NotReady)
    ));
}

#[test]
fn do_request_frames_one_json_rpc_line() {
    let mut c = ready_client();
    let line = c.do_request(write_file_directive("./f.txt", "hello")).unwrap();
    assert_eq!(
        String::from_utf8(line).unwrap(),
        r#"{"method":"tools/call","params":{"name":"write_file","arguments":{"path":"./f.txt","content":"hello"}},"id":1}"#
    );
    assert_eq!(c.state, TransportState::AwaitingResponse);
    assert_eq!(c.next_id, 2);
}

#[test]
fn write_file_frames_the_same_envelope() {
    let mut c = ready_client();
    let line = c.write_file("./f.txt", "hello").unwrap();
    assert_eq!(
        String::from_utf8(line).unwrap(),
        r#"{"method":"tools/call","params":{"name":"write_file","arguments":{"path":"./f.txt","content":"hello"}},"id":1}"#
    );
}

#[test]
fn ids_count_up_across_exchanges() {
    let mut c = ready_client();
    let first = c.do_request(write_file_directive("a", "1")).unwrap();
    assert!(String::from_utf8(first).unwrap().ends_with(r#""id":1}"#));
    c.handle_response(ResponseEvent::Line(b"{\"result\":{}}".to_vec()))
        .unwrap();
    let second = c.do_request(write_file_directive("b", "2")).unwrap();
    assert!(String::from_utf8(second).unwrap().ends_with(r#""id":2}"#));
}

#[test]
fn a_timeout_fails_the_call_and_the_transport() {
    let mut c = ready_client();
    c.do_request(write_file_directive("p", "c")).unwrap();
    let r = c.handle_response(ResponseEvent::TimedOut);
    assert!(matches!(r, Err(AgentError::Timeout)));
    assert_eq!(c.state, TransportState::Failed);
    // The transport is unusable from here on.
    assert!(matches!(
        c.do_request(write_file_directive("p", "c")),
        Err(AgentError::NotReady)
    ));
}

#[test]
fn a_closed_stream_or_empty_line_is_an_empty_response() {
    let mut c = ready_client();
    c.do_request(write_file_directive("p", "c")).unwrap();
    assert!(matches!(
        c.handle_response(ResponseEvent::Closed),
        Err(AgentError::EmptyResponse)
    ));
    assert_eq!(c.state, TransportState::Failed);

    let mut c = ready_client();
    c.do_request(write_file_directive("p", "c")).unwrap();
    assert!(matches!(
        c.handle_response(ResponseEvent::Line(Vec::new())),
        Err(AgentError::EmptyResponse)
    ));
    assert_eq!(c.state, TransportState::Failed);
}

#[test]
fn an_undecodable_line_is_a_malformed_tool_response() {
    let mut c = ready_client();
    c.do_request(write_file_directive("p", "c")).unwrap();
    let r = c.handle_response(ResponseEvent::Line(b"not json at all".to_vec()));
    assert!(matches!(r, Err(AgentError::MalformedToolResponse)));
    assert_eq!(c.state, TransportState::Failed);
}

#[test]
fn an_error_field_surfaces_as_tool_error_with_its_payload() {
    let mut c = ready_client();
    c.do_request(write_file_directive("p", "c")).unwrap();
    let r = c.handle_response(ResponseEvent::Line(
        br#"{"jsonrpc":"2.0","id":1,"error":{"code":-32600,"message":"bad"}}"#.to_vec(),
    ));
    match r {
        Err(AgentError::ToolError(payload)) => {
            assert_eq!(
                String::from_utf8(payload).unwrap(),
                r#"{"code":-32600,"message":"bad"}"#
            );
        }
        other => panic!("expected ToolError, got {other:?}"),
    }
    // A tool-level error does not unsettle the transport itself.
    assert_eq!(c.state, TransportState::Ready);
}

#[test]
fn a_clean_response_returns_the_transport_to_ready() {
    let mut c = ready_client();
    c.do_request(write_file_directive("p", "c")).unwrap();
    let r = c.handle_response(ResponseEvent::Line(
        br#"{"jsonrpc":"2.0","id":1,"result":{"ok":true}}"#.to_vec(),
    ));
    assert!(r.is_ok());
    assert_eq!(c.state, TransportState::Ready);
}

#[test]
fn a_response_without_a_pending_call_is_refused() {
    let mut c = ready_client();
    let r = c.handle_response(ResponseEvent::Line(b"{}".to_vec()));
    assert!(matches!(r, Err(AgentError::NotReady)));
    assert_eq!(c.state, TransportState::Ready);
}
