use chat_request::chat::ChatRequestBuilder;
use chat_request::headers::{build_session_headers, subagent_header};
use chat_request::messages::{
    build_messages, join_content, system_message_value, tool_call_value, tool_message_value,
};
use chat_request::models::{
    ContentItem, FunctionCallOutputBody, FunctionCallOutputContentItem, FunctionCallOutputPayload,
    ReasoningItemContent, ResponseItem, SessionSource,
};
use chat_request::provider::Provider;
use chat_request::reasoning::{
    collect_reasoning, join_segments, last_emitted_role, last_user_index,
};
use chat_request::text::is_blank;
use chat_request::tool_calls::push_tool_call_message;
use serde_json::Value;

fn parse(text: &str) -> Value {
    serde_json::from_str(text).expect("valid JSON")
}

fn message(role: &str, text: &str) -> ResponseItem {
    ResponseItem::Message {
        role: role.to_string(),
        content: vec![ContentItem::InputText {
            text: text.to_string(),
        }],
    }
}

fn reasoning(text: &str) -> ResponseItem {
    ResponseItem::Reasoning {
        content: Some(vec![ReasoningItemContent::Text {
            text: text.to_string(),
        }]),
    }
}

fn call(id: &str) -> ResponseItem {
    ResponseItem::FunctionCall {
        name: "f".to_string(),
        arguments: "{}".to_string(),
        call_id: id.to_string(),
    }
}

fn custom_call(id: &str) -> ResponseItem {
    ResponseItem::CustomToolCall {
        call_id: id.to_string(),
        name: "patch".to_string(),
        input: "diff".to_string(),
    }
}

fn text_output(id: &str, text: &str) -> ResponseItem {
    ResponseItem::FunctionCallOutput {
        call_id: id.to_string(),
        output: FunctionCallOutputPayload {
            body: FunctionCallOutputBody::Text(text.to_string()),
        },
    }
}

fn messages(input: &[ResponseItem]) -> Value {
    Value::Array(build_messages("i", input))
}

#[test]
fn empty_history_gives_instructions_alone() {
    assert_eq!(messages(&[]), parse(r#"[{"role":"system","content":"i"}]"#));
    assert_eq!(
        system_message_value("x"),
        parse(r#"{"role":"system","content":"x"}"#)
    );
}

#[test]
fn whole_body_is_exact() {
    let provider = Provider {
        name: "p".to_string(),
        base_url: "https://example.com".to_string(),
    };
    let tools = [parse(r#"{"type":"function","limits":[1,2.5,true,null]}"#)];
    let input = [message("developer", "d"), message("user", "u")];
    let request = ChatRequestBuilder::new("m", "i", &input, &tools)
        .build(&provider)
        .expect("build succeeds");
    assert_eq!(
        request.body,
        parse(
            r#"{"model":"m","stream":true,
                "tools":[{"type":"function","limits":[1,2.5,true,null]}],
                "messages":[{"role":"system","content":"i"},
                            {"role":"developer","content":"d"},
                            {"role":"user","content":"u"}]}"#
        )
    );
    assert!(request.headers.is_empty());
}

#[test]
fn tool_calls_of_every_kind_share_a_message() {
    let input = [
        call("c1"),
        ResponseItem::LocalShellCall {
            call_id: None,
            action: parse(r#"{"type":"exec","command":["ls"]}"#),
        },
        ResponseItem::WebSearchCall,
        custom_call("c3"),
    ];
    assert_eq!(
        messages(&input),
        parse(
            r#"[{"role":"system","content":"i"},
                {"role":"assistant","content":null,"tool_calls":[
                  {"id":"c1","type":"function","function":{"name":"f","arguments":"{}"}},
                  {"id":"","type":"local_shell_call","action":{"type":"exec","command":["ls"]}},
                  {"id":"c3","type":"custom","custom":{"name":"patch","input":"diff"}}]}]"#
        )
    );
}

#[test]
fn output_ends_a_group_of_tool_calls() {
    let input = [call("c1"), text_output("c1", "ok"), call("c2")];
    assert_eq!(
        messages(&input),
        parse(
            r#"[{"role":"system","content":"i"},
                {"role":"assistant","content":null,"tool_calls":[
                  {"id":"c1","type":"function","function":{"name":"f","arguments":"{}"}}]},
                {"role":"tool","tool_call_id":"c1","content":"ok"},
                {"role":"assistant","content":null,"tool_calls":[
                  {"id":"c2","type":"function","function":{"name":"f","arguments":"{}"}}]}]"#
        )
    );
}

#[test]
fn assistant_message_does_not_take_tool_calls() {
    let built = build_messages("i", &[message("assistant", "a"), call("c1")]);
    assert_eq!(built.len(), 3);
    assert_eq!(built[1], parse(r#"{"role":"assistant","content":"a"}"#));
    assert_eq!(built[2]["content"], Value::Null);
}

#[test]
fn parts_of_a_tool_output_are_mapped() {
    let output = FunctionCallOutputPayload {
        body: FunctionCallOutputBody::ContentItems(vec![
            FunctionCallOutputContentItem::InputText {
                text: "t".to_string(),
            },
            FunctionCallOutputContentItem::InputImage {
                image_url: "https://x/y.png".to_string(),
            },
            FunctionCallOutputContentItem::EncryptedContent,
        ]),
    };
    let expected = parse(
        r#"{"role":"tool","tool_call_id":"c1","content":[
             {"type":"text","text":"t"},
             {"type":"image_url","image_url":{"url":"https://x/y.png"}},
             {"type":"text","text":"[encrypted]"}]}"#,
    );
    assert_eq!(tool_message_value("c1", &output), expected);
    let built = build_messages(
        "i",
        &[ResponseItem::CustomToolCallOutput {
            call_id: "c1".to_string(),
            output,
        }],
    );
    assert_eq!(built[1], expected);
}

#[test]
fn assistant_content_is_text_even_with_an_image() {
    let content = || {
        vec![
            ContentItem::OutputText {
                text: "a".to_string(),
            },
            ContentItem::InputImage {
                image_url: "https://x/y.png".to_string(),
            },
            ContentItem::InputText {
                text: "b".to_string(),
            },
        ]
    };
    assert_eq!(join_content(&content()), "ab");
    let built = build_messages(
        "i",
        &[
            ResponseItem::Message {
                role: "assistant".to_string(),
                content: content(),
            },
            ResponseItem::Message {
                role: "user".to_string(),
                content: content(),
            },
        ],
    );
    assert_eq!(built[1], parse(r#"{"role":"assistant","content":"ab"}"#));
    assert_eq!(
        built[2],
        parse(
            r#"{"role":"user","content":[
                 {"type":"text","text":"a"},
                 {"type":"image_url","image_url":{"url":"https://x/y.png"}},
                 {"type":"text","text":"b"}]}"#
        )
    );
}

#[test]
fn repetition_is_suppressed_across_other_items() {
    let input = [
        message("assistant", "a"),
        message("user", "u"),
        message("assistant", "a"),
        message("user", "u"),
        message("assistant", "b"),
        message("assistant", "a"),
    ];
    let built = build_messages("i", &input);
    let texts: Vec<&str> = built.iter().filter_map(|m| m["content"].as_str()).collect();
    assert_eq!(texts, vec!["i", "a", "u", "u", "b", "a"]);
}

#[test]
fn reasoning_of_a_suppressed_repetition_is_not_sent() {
    let input = [
        message("assistant", "a"),
        message("user", "u"),
        message("assistant", "a"),
        reasoning("r"),
    ];
    let built = build_messages("i", &input);
    assert!(built.iter().all(|m| m.get("reasoning").is_none()));
}

#[test]
fn reasoning_before_and_after_a_message_is_joined() {
    let input = [reasoning("one "), message("assistant", "a"), reasoning("two")];
    let texts = collect_reasoning(&input);
    assert_eq!(texts.len(), 1);
    assert_eq!(texts[&1], "one two");
    let built = build_messages("i", &input);
    assert_eq!(built[1]["reasoning"], Value::from("one two"));
}

#[test]
fn reasoning_of_grouped_calls_is_on_lines_of_its_own() {
    let input = [reasoning("r1"), call("c1"), call("c2"), reasoning("r2"), call("c3")];
    let built = build_messages("i", &input);
    assert_eq!(built.len(), 2);
    assert_eq!(built[1]["reasoning"], Value::from("r1\nr2"));
    assert_eq!(built[1]["tool_calls"].as_array().map(Vec::len), Some(3));
}

#[test]
fn reasoning_next_to_other_items_is_not_sent() {
    for input in [
        [reasoning("r"), custom_call("c1")],
        [custom_call("c1"), reasoning("r")],
        [call("c1"), reasoning("r")],
        [reasoning("r"), ResponseItem::Other],
        [reasoning("r"), text_output("c1", "o")],
    ] {
        assert!(collect_reasoning(&input).is_empty());
        let built = build_messages("i", &input);
        assert!(built.iter().all(|m| m.get("reasoning").is_none()));
    }
}

#[test]
fn reasoning_after_the_last_user_is_kept_when_others_follow() {
    let input = [
        message("user", "u"),
        reasoning("r"),
        call("c1"),
        text_output("c1", "o"),
    ];
    let built = build_messages("i", &input);
    assert_eq!(built[2]["reasoning"], Value::from("r"));
    assert_eq!(last_emitted_role(&input), Some("tool"));
    assert_eq!(last_user_index(&input), Some(0));
}

#[test]
fn earlier_reasoning_makes_no_difference() {
    let history = |text: &str| {
        [
            message("assistant", "a"),
            reasoning(text),
            message("user", "u"),
            call("c1"),
        ]
    };
    assert_eq!(messages(&history("x")), messages(&history("y")));
}

#[test]
fn custom_calls_do_not_count_as_the_last_role() {
    let input = [message("user", "u"), custom_call("c1")];
    assert_eq!(last_emitted_role(&input), Some("user"));
    assert_eq!(last_emitted_role(&input[1..]), None);
    assert_eq!(last_user_index(&input[1..]), None);
    assert_eq!(last_emitted_role(&[call("c1")]), Some("assistant"));
    assert_eq!(last_emitted_role(&[message("developer", "d")]), Some("developer"));
}

#[test]
fn segments_are_joined_without_a_separator() {
    let segments = vec![
        ReasoningItemContent::ReasoningText {
            text: "a".to_string(),
        },
        ReasoningItemContent::Text {
            text: "b".to_string(),
        },
    ];
    assert_eq!(join_segments(&segments), "ab");
    assert!(collect_reasoning(&[ResponseItem::Reasoning { content: None }, call("c")]).is_empty());
}

#[test]
fn items_without_an_equivalent_are_skipped() {
    let input = [
        ResponseItem::AdditionalTools,
        ResponseItem::AgentMessage,
        ResponseItem::ToolSearchCall,
        ResponseItem::ToolSearchOutput,
        reasoning("r"),
        ResponseItem::WebSearchCall,
        ResponseItem::ImageGenerationCall,
        ResponseItem::Compaction,
        ResponseItem::CompactionTrigger,
        ResponseItem::ContextCompaction,
        ResponseItem::Other,
    ];
    assert_eq!(build_messages("i", &input).len(), 1);
    assert!(input.iter().all(|item| tool_call_value(item).is_none()));
}

#[test]
fn tool_call_joins_only_a_tool_call_message() {
    let joined = |last: &str| {
        let mut list = vec![parse(last)];
        push_tool_call_message(&mut list, Value::from("new"), Some("r"));
        Value::Array(list)
    };
    assert_eq!(
        joined(r#"{"role":"assistant","content":null,"tool_calls":["old"]}"#),
        parse(
            r#"[{"role":"assistant","content":null,"tool_calls":["old","new"],"reasoning":"r"}]"#
        )
    );
    assert_eq!(
        joined(r#"{"role":"assistant","content":null,"tool_calls":[],"reasoning":""}"#),
        parse(r#"[{"role":"assistant","content":null,"tool_calls":["new"],"reasoning":"r"}]"#)
    );
    assert_eq!(
        joined(r#"{"role":"assistant","content":null,"tool_calls":[],"reasoning":"q"}"#),
        parse(r#"[{"role":"assistant","content":null,"tool_calls":["new"],"reasoning":"q\nr"}]"#)
    );
    assert_eq!(
        joined(r#"{"role":"assistant","content":null,"tool_calls":[],"reasoning":7}"#),
        parse(r#"[{"role":"assistant","content":null,"tool_calls":["new"],"reasoning":"r"}]"#)
    );
    for last in [
        r#"{"role":"user","content":null,"tool_calls":[]}"#,
        r#"{"role":"assistant","content":"","tool_calls":[]}"#,
        r#"{"role":"assistant","tool_calls":[]}"#,
        r#"{"role":"assistant","content":null,"tool_calls":{}}"#,
        r#"{"role":"assistant","content":null}"#,
        r#"["assistant"]"#,
    ] {
        let list = joined(last);
        assert_eq!(list[0], parse(last));
        assert_eq!(
            list[1],
            parse(r#"{"role":"assistant","content":null,"tool_calls":["new"],"reasoning":"r"}"#)
        );
    }
    let mut list = Vec::new();
    push_tool_call_message(&mut list, Value::from("new"), None);
    assert_eq!(
        list,
        vec![parse(r#"{"role":"assistant","content":null,"tool_calls":["new"]}"#)]
    );
}

#[test]
fn blank_means_white_space_only() {
    let listed = |c: char| {
        matches!(
            c as u32,
            0x09..=0x0d | 0x20 | 0x85 | 0xa0 | 0x1680 | 0x2000..=0x200a | 0x2028 | 0x2029
                | 0x202f | 0x205f | 0x3000
        )
    };
    for c in '\0'..=char::MAX {
        assert_eq!(is_blank(&c.to_string()), listed(c), "{c:?}");
    }
    assert!(is_blank(""));
    assert!(is_blank(" \t\n\u{3000}"));
    assert!(!is_blank("  x  "));
    assert!(!is_blank("x"));
}

#[test]
fn headers_hold_what_was_given() {
    let headers = build_session_headers(Some("s".to_string()), None);
    assert_eq!(headers.len(), 1);
    assert_eq!(headers["session-id"], "s");
    let headers = build_session_headers(None, Some("t".to_string()));
    assert_eq!(headers.len(), 1);
    assert_eq!(headers["thread-id"], "t");
    assert!(build_session_headers(None, None).is_empty());
}

#[test]
fn values_that_no_header_can_have_are_left_out() {
    for value in ["a\nb", "\u{7f}", "\0", "a\r"] {
        assert!(build_session_headers(Some(value.to_string()), None).is_empty());
    }
    for value in ["", "a\tb", "\u{e9}\u{1f600}", "~ "] {
        let headers = build_session_headers(Some(value.to_string()), None);
        assert_eq!(headers["session-id"].as_bytes(), value.as_bytes());
    }
}

#[test]
fn subagent_is_reported() {
    let provider = Provider {
        name: "p".to_string(),
        base_url: String::new(),
    };
    let source = || {
        Some(SessionSource {
            subagent: Some("review".to_string()),
        })
    };
    let request = ChatRequestBuilder::new("m", "i", &[], &[])
        .session_source(source())
        .session_id(Some("s1".to_string()))
        .session_id(Some("s2".to_string()))
        .build(&provider)
        .expect("build succeeds");
    assert_eq!(request.headers.len(), 2);
    assert_eq!(request.headers["x-openai-subagent"], "review");
    assert_eq!(request.headers["session-id"], "s2");
    assert_eq!(subagent_header(&source()), Some("review".to_string()));
    assert_eq!(subagent_header(&Some(SessionSource { subagent: None })), None);
    assert_eq!(subagent_header(&None), None);
}
