use chat_request::chat::ChatRequestBuilder;
use chat_request::models::{
    ContentItem, FunctionCallOutputBody, FunctionCallOutputContentItem, FunctionCallOutputPayload,
    ReasoningItemContent, ResponseItem,
};
use chat_request::provider::Provider;
use serde_json::Value;

fn provider() -> Provider {
    Provider {
        name: "test".to_string(),
        base_url: "https://example.com/v1".to_string(),
    }
}

fn build(input: &[ResponseItem]) -> Value {
    let builder = ChatRequestBuilder::new("m", "sys-instructions", input, &[]);
    builder
        .build(&provider())
        .expect("build should succeed")
        .body
}

fn messages_from(body: &Value) -> &Vec<Value> {
    body["messages"]
        .as_array()
        .unwrap_or_else(|| panic!("messages array missing: {body}"))
}

fn user_message(text: &str) -> ResponseItem {
    ResponseItem::Message {
        role: "user".to_string(),
        content: vec![ContentItem::InputText {
            text: text.to_string(),
        }],
    }
}

fn assistant_message(text: &str) -> ResponseItem {
    ResponseItem::Message {
        role: "assistant".to_string(),
        content: vec![ContentItem::OutputText {
            text: text.to_string(),
        }],
    }
}

fn reasoning_item(text: &str) -> ResponseItem {
    ResponseItem::Reasoning {
        content: Some(vec![ReasoningItemContent::ReasoningText {
            text: text.to_string(),
        }]),
    }
}

fn function_call(name: &str, call_id: &str, arguments: &str) -> ResponseItem {
    ResponseItem::FunctionCall {
        name: name.to_string(),
        arguments: arguments.to_string(),
        call_id: call_id.to_string(),
    }
}

fn function_call_output(call_id: &str, text: &str) -> ResponseItem {
    ResponseItem::FunctionCallOutput {
        call_id: call_id.to_string(),
        output: FunctionCallOutputPayload {
            body: FunctionCallOutputBody::ContentItems(vec![
                FunctionCallOutputContentItem::InputText {
                    text: text.to_string(),
                },
            ]),
        },
    }
}

fn exec_action() -> Value {
    let mut action = serde_json::Map::new();
    action.insert("type".to_string(), Value::from("exec"));
    action.insert("command".to_string(), Value::from(vec!["echo"]));
    action.insert("timeout_ms".to_string(), Value::from(1_000));
    action.insert("working_directory".to_string(), Value::Null);
    action.insert("env".to_string(), Value::Null);
    action.insert("user".to_string(), Value::Null);
    Value::Object(action)
}

fn local_shell_call(call_id: Option<&str>) -> ResponseItem {
    ResponseItem::LocalShellCall {
        call_id: call_id.map(str::to_string),
        action: exec_action(),
    }
}

fn first_assistant(messages: &[Value]) -> &Value {
    messages
        .iter()
        .find(|msg| msg["role"] == "assistant")
        .unwrap_or_else(|| panic!("assistant message not present"))
}

#[test]
fn chat_prepends_system_message_with_instructions() {
    let body = build(&[user_message("hi")]);
    let messages = messages_from(&body);
    assert_eq!(messages[0]["role"], Value::String("system".into()));
    assert_eq!(
        messages[0]["content"],
        Value::String("sys-instructions".into())
    );
    assert_eq!(messages[1]["role"], Value::String("user".into()));
}

#[test]
fn maps_user_and_assistant_messages() {
    let body = build(&[user_message("u1"), assistant_message("a1")]);
    let messages = messages_from(&body);
    // system, user, assistant
    assert_eq!(messages.len(), 3);
    assert_eq!(messages[1]["role"], Value::String("user".into()));
    assert_eq!(messages[1]["content"], Value::String("u1".into()));
    assert_eq!(messages[2]["role"], Value::String("assistant".into()));
    assert_eq!(messages[2]["content"], Value::String("a1".into()));
}

#[test]
fn chat_omits_reasoning_when_none_present() {
    let body = build(&[user_message("u1"), assistant_message("a1")]);
    let messages = messages_from(&body);
    let assistant = messages
        .iter()
        .find(|m| m["role"] == "assistant")
        .expect("assistant message present");
    assert!(assistant.get("reasoning").is_none());
}

#[test]
fn chat_attaches_reasoning_to_previous_assistant() {
    let body = build(&[
        user_message("u1"),
        assistant_message("a1"),
        reasoning_item("rA"),
    ]);
    let messages = messages_from(&body);
    let assistant = messages
        .iter()
        .find(|m| m["role"] == "assistant")
        .expect("assistant message present");
    assert_eq!(assistant["content"], Value::String("a1".into()));
    assert_eq!(assistant["reasoning"], Value::String("rA".into()));
}

#[test]
fn chat_attaches_reasoning_to_function_call_anchor() {
    let body = build(&[
        user_message("u1"),
        reasoning_item("rFunc"),
        function_call("f", "c1", "{}"),
    ]);
    let messages = messages_from(&body);
    let assistant = messages
        .iter()
        .find(|m| m["role"] == "assistant" && m.get("tool_calls").is_some())
        .expect("tool-call assistant message present");
    assert_eq!(assistant["reasoning"], Value::String("rFunc".into()));
    let tool_calls = assistant["tool_calls"]
        .as_array()
        .expect("tool_calls array");
    assert_eq!(tool_calls.len(), 1);
    assert_eq!(tool_calls[0]["type"], Value::String("function".into()));
    assert_eq!(tool_calls[0]["function"]["name"], Value::String("f".into()));
}

#[test]
fn chat_attaches_reasoning_to_local_shell_call() {
    let body = build(&[
        user_message("u1"),
        reasoning_item("rShell"),
        local_shell_call(Some("shell-c1")),
    ]);
    let messages = messages_from(&body);
    let assistant = messages
        .iter()
        .find(|m| m["role"] == "assistant" && m.get("tool_calls").is_some())
        .expect("tool-call assistant message present");
    assert_eq!(assistant["reasoning"], Value::String("rShell".into()));
    assert_eq!(
        assistant["tool_calls"][0]["type"],
        Value::String("local_shell_call".into())
    );
}

#[test]
fn chat_drops_reasoning_when_last_role_is_user() {
    let body = build(&[
        assistant_message("aPrev"),
        reasoning_item("rHist"),
        user_message("uNew"),
    ]);
    let messages = messages_from(&body);
    assert!(messages.iter().all(|msg| msg.get("reasoning").is_none()));
}

#[test]
fn chat_ignores_reasoning_before_last_user() {
    let body = build(&[
        user_message("u1"),
        assistant_message("a1"),
        user_message("u2"),
        reasoning_item("rAfterU1"),
    ]);
    let messages = messages_from(&body);
    assert!(messages.iter().all(|msg| msg.get("reasoning").is_none()));
}

#[test]
fn chat_skips_empty_reasoning_segments() {
    let body = build(&[
        user_message("u1"),
        assistant_message("a1"),
        reasoning_item(""),
        reasoning_item("   "),
    ]);
    let messages = messages_from(&body);
    let assistant = messages
        .iter()
        .find(|m| m["role"] == "assistant")
        .expect("assistant message present");
    assert!(assistant.get("reasoning").is_none());
}

#[test]
fn chat_suppresses_duplicate_assistant_messages() {
    let body = build(&[assistant_message("dup"), assistant_message("dup")]);
    let messages = messages_from(&body);
    let assistant_count = messages
        .iter()
        .filter(|m| m["role"] == "assistant" && m.get("tool_calls").is_none())
        .count();
    assert_eq!(assistant_count, 1);
}

#[test]
fn groups_multiple_function_calls_into_one_assistant_message() {
    let body = build(&[
        user_message("u1"),
        function_call("f1", "c1", "{}"),
        function_call("f2", "c2", "{}"),
    ]);
    let messages = messages_from(&body);
    let tool_call_messages: Vec<_> = messages
        .iter()
        .filter(|m| m["role"] == "assistant" && m.get("tool_calls").is_some())
        .collect();
    assert_eq!(tool_call_messages.len(), 1);
    let tool_calls = tool_call_messages[0]["tool_calls"]
        .as_array()
        .expect("tool_calls array");
    assert_eq!(tool_calls.len(), 2);
    assert_eq!(
        tool_calls[0]["function"]["name"],
        Value::String("f1".into())
    );
    assert_eq!(
        tool_calls[1]["function"]["name"],
        Value::String("f2".into())
    );
}

#[test]
fn emits_tool_role_for_function_call_output() {
    let body = build(&[
        user_message("u1"),
        function_call("f", "c1", "{}"),
        function_call_output("c1", "result-text"),
    ]);
    let messages = messages_from(&body);
    let tool_messages: Vec<_> = messages.iter().filter(|m| m["role"] == "tool").collect();
    assert_eq!(tool_messages.len(), 1);
    assert_eq!(tool_messages[0]["tool_call_id"], Value::String("c1".into()));
    let content = tool_messages[0]["content"]
        .as_array()
        .expect("content as array (content_items path)");
    assert_eq!(content[0]["type"], Value::String("text".into()));
    assert_eq!(content[0]["text"], Value::String("result-text".into()));
}

#[test]
fn chat_sets_stream_and_model_in_payload() {
    let body = build(&[user_message("hi")]);
    assert_eq!(body["model"], Value::String("m".into()));
    assert_eq!(body["stream"], Value::Bool(true));
    assert!(body["tools"].as_array().is_some_and(std::vec::Vec::is_empty));
}

#[test]
fn includes_session_and_thread_headers() {
    let input = [user_message("hi")];
    let builder = ChatRequestBuilder::new("m", "sys", &input, &[])
        .session_id(Some("sess-1".to_string()))
        .thread_id(Some("thr-1".to_string()));
    let request = builder.build(&provider()).expect("build succeeds");
    assert!(
        request
            .headers
            .get("session-id")
            .is_some_and(|v| v == "sess-1")
    );
    assert!(
        request
            .headers
            .get("thread-id")
            .is_some_and(|v| v == "thr-1")
    );
}

#[test]
fn maps_image_input_to_content_array() {
    let msg = ResponseItem::Message {
        role: "user".to_string(),
        content: vec![
            ContentItem::InputText {
                text: "look at this".to_string(),
            },
            ContentItem::InputImage {
                image_url: "https://img.example.com/x.png".to_string(),
            },
        ],
    };
    let body = build(&[msg]);
    let messages = messages_from(&body);
    let user = messages
        .iter()
        .find(|m| m["role"] == "user")
        .expect("user message present");
    let content = user["content"].as_array().expect("content as array");
    assert_eq!(content.len(), 2);
    assert_eq!(content[0]["type"], Value::String("text".into()));
    assert_eq!(content[1]["type"], Value::String("image_url".into()));
    assert_eq!(
        content[1]["image_url"]["url"],
        Value::String("https://img.example.com/x.png".into())
    );
}

#[test]
fn skips_responses_only_item_variants() {
    let input = vec![
        user_message("u1"),
        ResponseItem::WebSearchCall,
        assistant_message("a1"),
    ];
    let body = build(&input);
    let messages = messages_from(&body);
    // system, user, assistant: no web_search entry
    assert_eq!(messages.len(), 3);
    assert!(messages.iter().all(|m| m.get("type").is_none()));
}

#[test]
fn chat_completions_payload_omits_reasoning_when_none_present() {
    let body = build(&[user_message("u1"), assistant_message("a1")]);
    let assistant = first_assistant(messages_from(&body));
    assert_eq!(assistant["content"], Value::String("a1".into()));
    assert!(assistant.get("reasoning").is_none());
}

#[test]
fn chat_completions_payload_attaches_reasoning_to_previous_assistant() {
    let body = build(&[
        user_message("u1"),
        assistant_message("a1"),
        reasoning_item("rA"),
    ]);
    let assistant = first_assistant(messages_from(&body));
    assert_eq!(assistant["content"], Value::String("a1".into()));
    assert_eq!(assistant["reasoning"], Value::String("rA".into()));
}

#[test]
fn chat_completions_payload_attaches_reasoning_to_function_call_anchor() {
    let body = build(&[
        user_message("u1"),
        reasoning_item("rFunc"),
        function_call("f", "c1", "{}"),
    ]);
    let assistant = first_assistant(messages_from(&body));
    assert_eq!(assistant["reasoning"], Value::String("rFunc".into()));
    let tool_calls = assistant["tool_calls"]
        .as_array()
        .unwrap_or_else(|| panic!("tool call list missing"));
    assert_eq!(tool_calls.len(), 1);
    assert_eq!(tool_calls[0]["type"], Value::String("function".into()));
}

#[test]
fn chat_completions_payload_attaches_reasoning_to_local_shell_call() {
    let body = build(&[
        user_message("u1"),
        reasoning_item("rShell"),
        local_shell_call(None),
    ]);
    let assistant = first_assistant(messages_from(&body));
    assert_eq!(assistant["reasoning"], Value::String("rShell".into()));
    assert_eq!(
        assistant["tool_calls"][0]["type"],
        Value::String("local_shell_call".into())
    );
}

#[test]
fn chat_completions_payload_drops_reasoning_when_last_role_is_user() {
    let body = build(&[
        assistant_message("aPrev"),
        reasoning_item("rHist"),
        user_message("uNew"),
    ]);
    let messages = messages_from(&body);
    assert!(messages.iter().all(|msg| msg.get("reasoning").is_none()));
}

#[test]
fn chat_completions_payload_ignores_reasoning_before_last_user() {
    let body = build(&[
        user_message("u1"),
        assistant_message("a1"),
        user_message("u2"),
        reasoning_item("rAfterU1"),
    ]);
    let messages = messages_from(&body);
    assert!(messages.iter().all(|msg| msg.get("reasoning").is_none()));
}

#[test]
fn chat_completions_payload_skips_empty_reasoning_segments() {
    let body = build(&[
        user_message("u1"),
        assistant_message("a1"),
        reasoning_item(""),
        reasoning_item("   "),
    ]);
    let assistant = first_assistant(messages_from(&body));
    assert!(assistant.get("reasoning").is_none());
}

#[test]
fn chat_completions_payload_suppresses_duplicate_assistant_messages() {
    let body = build(&[assistant_message("dup"), assistant_message("dup")]);
    let messages = messages_from(&body);
    let assistant_messages: Vec<_> = messages
        .iter()
        .filter(|msg| msg["role"] == "assistant")
        .collect();
    assert_eq!(assistant_messages.len(), 1);
    assert_eq!(
        assistant_messages[0]["content"],
        Value::String("dup".into())
    );
}

#[test]
fn chat_completions_payload_prepends_system_message_with_instructions() {
    let body = build(&[user_message("hi")]);
    let messages = messages_from(&body);
    assert_eq!(messages[0]["role"], Value::String("system".into()));
    assert!(
        messages[0]["content"]
            .as_str()
            .is_some_and(|s| !s.is_empty())
    );
    assert_eq!(messages[1]["role"], Value::String("user".into()));
}

#[test]
fn chat_completions_payload_sets_stream_and_model_in_payload() {
    let body = build(&[user_message("hi")]);
    assert_eq!(body["stream"], Value::Bool(true));
    assert!(body["model"].as_str().is_some());
}
