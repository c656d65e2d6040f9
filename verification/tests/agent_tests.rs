use mcp_agent::agent::{Agent, Arguments, Params};
use mcp_agent::errors::AgentError;
use mcp_agent::haiku::{Haiku, HaikuGenerator};
use mcp_agent::json::JsonValue;
use mcp_agent::mcp_client::{MCPClient, ResponseEvent, TransportState};
use mcp_agent::parser::parse_reply;

#[test]
fn the_agent_keeps_its_context_and_transport() {
    let agent = Agent::new(MCPClient::new(), "initial prompt".to_string());
    assert_eq!(agent.context().as_str(), "initial prompt");
    assert_eq!(agent.mcp_client.state, TransportState::Uninitialized);
}

#[test]
fn context_grows_by_appending() {
    let mut agent = Agent::new(MCPClient::new(), "a".to_string());
    agent.append_context("b");
    agent.append_context("c");
    assert_eq!(agent.context().as_str(), "abc");
}

#[test]
fn params_become_a_write_file_directive() {
    let p = Params {
        name: "write_file".to_string(),
        arguments: Arguments {
            path: "out/a.txt".to_string(),
            content: "hi".to_string(),
        },
    };
    let d = p.into_directive();
    assert_eq!(d.action, b"write_file".to_vec());
    assert_eq!(
        d.args,
        vec![
            (b"path".to_vec(), JsonValue::Str(b"out/a.txt".to_vec())),
            (b"content".to_vec(), JsonValue::Str(b"hi".to_vec())),
        ]
    );
}

#[test]
fn one_full_iteration_against_a_scripted_tool_server() {
    // The model answers with one remote directive; the tool server answers
    // with one clean line. Everything between is the library's decision.
    let mut agent = Agent::new(MCPClient::new(), "write something".to_string());
    agent.mcp_client.init();
    agent.mcp_client.mark_ready();

    let m = parse_reply(
        br#"{"mcp_requests":[{"action":"read_file","args":{"path":"notes.txt"}}]}"#.to_vec(),
    )
    .unwrap();
    let mut req = m.mcp_requests;
    let line = agent.mcp_client.do_request(req.remove(0)).unwrap();
    assert_eq!(
        String::from_utf8(line).unwrap(),
        r#"{"method":"tools/call","params":{"name":"read_file","arguments":{"path":"notes.txt"}},"id":1}"#
    );
    let scripted = br#"{"jsonrpc":"2.0","id":1,"result":{"content":"..."}}"#.to_vec();
    agent
        .mcp_client
        .handle_response(ResponseEvent::Line(scripted))
        .unwrap();
    assert_eq!(agent.mcp_client.state, TransportState::Ready);
}

struct FixedGenerator {
    text: String,
}

impl HaikuGenerator for FixedGenerator {
    fn generate(&self) -> Result<Haiku, AgentError> {
        Ok(Haiku {
            content: self.text.clone(),
        })
    }
}

#[test]
fn test_haiku_generator_produces_content() {
    let mock_content = "Autumn moonlight falls\nA worm digs silently through\nThe chestnut flower";
    let generator = FixedGenerator {
        text: mock_content.to_string(),
    };
    let haiku = generator.generate().unwrap();
    assert_eq!(haiku.content, mock_content);
}
