use mcp_agent::errors::AgentError;
use mcp_agent::model_client::{parse_completion, LocalOllamaClient};

#[test]
fn new_stores_the_model_name() {
    let c = LocalOllamaClient::new("qwen3".to_string());
    assert_eq!(c.model, "qwen3");
}

#[test]
fn frames_the_completion_request_body() {
    let c = LocalOllamaClient::new("qwen3".to_string());
    let body = c.completion_request_body("Say hello");
    assert_eq!(
        String::from_utf8(body).unwrap(),
        r#"{"model":"qwen3","prompt":"Say hello","stream":false}"#
    );
}

#[test]
fn the_request_body_is_valid_json_for_the_endpoint() {
    let c = LocalOllamaClient::new("qwen3".to_string());
    let body = c.completion_request_body("a \"quoted\" prompt\nwith lines");
    let v: serde_json::Value = serde_json::from_slice(&body).unwrap();
    assert_eq!(v["model"], "qwen3");
    assert_eq!(v["prompt"], "a \"quoted\" prompt\nwith lines");
    assert_eq!(v["stream"], false);
}

#[test]
fn reads_the_text_field_out_of_a_completion_response() {
    let m = parse_completion(&br#"{"response":"a haiku","done":true}"#.to_vec()).unwrap();
    assert_eq!(m.response, "a haiku");
}

#[test]
fn any_other_shape_is_malformed_model_output() {
    assert!(matches!(
        parse_completion(&br#"{"done":true}"#.to_vec()),
        Err(AgentError::MalformedModelOutput)
    ));
    assert!(matches!(
        parse_completion(&br#"{"response":42}"#.to_vec()),
        Err(AgentError::MalformedModelOutput)
    ));
    assert!(matches!(
        parse_completion(&b"not json".to_vec()),
        Err(AgentError::MalformedModelOutput)
    ));
    assert!(matches!(
        parse_completion(&br#"["response"]"#.to_vec()),
        Err(AgentError::MalformedModelOutput)
    ));
}
