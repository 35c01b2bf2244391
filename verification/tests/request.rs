use nine_rai::error::Error;
use nine_rai::json::JsonValue;
use nine_rai::translate::request::{
    arguments_string, convert_assistant_message, convert_user_message, image_mime, to_chat_request,
};
use nine_rai::types::cw;
use nine_rai::types::openai;
use serde_json::Value;

fn text(v: &Value) -> Option<String> {
    v.as_str().map(str::to_string)
}

fn items(v: &Value) -> &[Value] {
    v.as_array().map(Vec::as_slice).unwrap_or(&[])
}

fn json(v: &Value) -> JsonValue {
    match v {
        Value::Null => JsonValue::Null,
        Value::Bool(b) => JsonValue::Bool(*b),
        Value::Number(n) => JsonValue::Number(n.to_string()),
        Value::String(s) => JsonValue::Text(s.clone()),
        Value::Array(a) => JsonValue::Array(a.iter().map(json).collect()),
        Value::Object(m) => {
            JsonValue::Object(m.iter().map(|(k, v)| (k.clone(), json(v))).collect())
        }
    }
}

fn spec(v: &Value) -> Option<cw::ToolSpecification> {
    v.is_object().then(|| cw::ToolSpecification {
        name: text(&v["name"]),
        description: text(&v["description"]),
        input_schema: v["inputSchema"].is_object().then(|| cw::InputSchema {
            json: v["inputSchema"].get("json").map(json),
        }),
    })
}

fn user(v: &Value) -> Option<cw::UserInputMessage> {
    let ctx = &v["userInputMessageContext"];
    v.is_object().then(|| cw::UserInputMessage {
        content: text(&v["content"]),
        model_id: text(&v["modelId"]),
        images: items(&v["images"])
            .iter()
            .map(|i| cw::Image {
                format: text(&i["format"]),
                source: i["source"].is_object().then(|| cw::ImageSource {
                    bytes: text(&i["source"]["bytes"]),
                }),
            })
            .collect(),
        user_input_message_context: ctx.is_object().then(|| cw::UserInputMessageContext {
            tool_results: items(&ctx["toolResults"])
                .iter()
                .map(|r| cw::ToolResult {
                    tool_use_id: text(&r["toolUseId"]),
                    content: items(&r["content"])
                        .iter()
                        .map(|b| cw::ToolResultBlock { text: text(&b["text"]) })
                        .collect(),
                    status: text(&r["status"]),
                })
                .collect(),
            tools: items(&ctx["tools"])
                .iter()
                .map(|t| cw::ToolSlot {
                    tool_specification: spec(&t["toolSpecification"]),
                    bare: None,
                })
                .collect(),
        }),
    })
}

fn assistant(v: &Value) -> Option<cw::AssistantResponseMessage> {
    v.is_object().then(|| cw::AssistantResponseMessage {
        content: text(&v["content"]),
        tool_uses: items(&v["toolUses"])
            .iter()
            .map(|t| cw::ToolUse {
                tool_use_id: text(&t["toolUseId"]),
                name: text(&t["name"]),
                input: t.get("input").map(json),
            })
            .collect(),
    })
}

fn message(v: &Value) -> cw::Message {
    cw::Message {
        user_input_message: user(&v["userInputMessage"]),
        assistant_response_message: assistant(&v["assistantResponseMessage"]),
    }
}

fn parse(source: &str) -> cw::Request {
    let v: Value = serde_json::from_str(source).expect("fixture must parse");
    let state = &v["conversationState"];
    cw::Request {
        conversation_state: cw::ConversationState {
            conversation_id: text(&state["conversationId"]),
            current_message: state
                .get("currentMessage")
                .map(message),
            history: items(&state["history"]).iter().map(message).collect(),
        },
    }
}

#[test]
fn plain_turn_becomes_a_single_user_message() {
    let req = parse(
        r#"{
            "conversationState": {
                "currentMessage": { "userInputMessage": { "content": "hello", "modelId": "auto" } },
                "history": []
            }
        }"#,
    );
    let out = to_chat_request(&req, "gpt-4").unwrap();
    assert_eq!(out.messages.len(), 1);
    assert_eq!(out.messages[0].role, openai::Role::User);
    assert_eq!(out.model, "gpt-4");
    assert!(out.tools.is_empty());
    assert!(out.tool_choice.is_none());
}

#[test]
fn tool_use_input_object_is_serialized_to_a_string() {
    let req = parse(
        r#"{
            "conversationState": {
                "currentMessage": { "userInputMessage": { "content": "go" } },
                "history": [{
                    "assistantResponseMessage": {
                        "content": "",
                        "toolUses": [{ "toolUseId": "t1", "name": "read", "input": { "path": "/a" } }]
                    }
                }]
            }
        }"#,
    );
    let out = to_chat_request(&req, "m").unwrap();
    let call = &out.messages[0].tool_calls[0];
    assert_eq!(call.id, "t1");
    assert_eq!(call.function.arguments, r#"{"path":"/a"}"#);
    // Pure tool-call assistant turns carry no text content.
    assert!(out.messages[0].content.is_none());
}

#[test]
fn tool_result_turn_emits_tool_message_and_no_empty_user_message() {
    let req = parse(
        r#"{
            "conversationState": {
                "currentMessage": { "userInputMessage": {
                    "content": "",
                    "userInputMessageContext": {
                        "toolResults": [{ "toolUseId": "t1", "content": [{ "text": "ok" }] }]
                    }
                }},
                "history": []
            }
        }"#,
    );
    let out = to_chat_request(&req, "m").unwrap();
    assert_eq!(out.messages.len(), 1);
    assert_eq!(out.messages[0].role, openai::Role::Tool);
    assert_eq!(out.messages[0].tool_call_id.as_deref(), Some("t1"));
}

#[test]
fn errored_tool_result_is_marked() {
    let req = parse(
        r#"{
            "conversationState": {
                "currentMessage": { "userInputMessage": {
                    "content": "",
                    "userInputMessageContext": {
                        "toolResults": [{
                            "toolUseId": "t1",
                            "status": "error",
                            "content": [{ "text": "ENOENT" }]
                        }]
                    }
                }},
                "history": []
            }
        }"#,
    );
    let out = to_chat_request(&req, "m").unwrap();
    let openai::Content::Text(text) = out.messages[0].content.as_ref().unwrap() else {
        panic!("expected text content");
    };
    assert!(text.starts_with("[tool error]"), "got {text:?}");
}

#[test]
fn images_become_data_urls_alongside_the_text_part() {
    let req = parse(
        r#"{
            "conversationState": {
                "currentMessage": { "userInputMessage": {
                    "content": "look",
                    "images": [{ "format": "jpg", "source": { "bytes": "QUJD" } }]
                }},
                "history": []
            }
        }"#,
    );
    let out = to_chat_request(&req, "m").unwrap();
    let openai::Content::Parts(parts) = out.messages[0].content.as_ref().unwrap() else {
        panic!("expected multi-part content");
    };
    assert_eq!(parts.len(), 2);
    match &parts[1] {
        // `jpg` must normalize to the image/jpeg MIME type.
        openai::ContentPart::ImageUrl { image_url } => {
            assert_eq!(image_url.url, "data:image/jpeg;base64,QUJD");
        }
        _ => panic!("expected an image part"),
    }
}

#[test]
fn tools_fall_back_to_the_first_history_turn_that_declared_them() {
    let req = parse(
        r#"{
            "conversationState": {
                "currentMessage": { "userInputMessage": { "content": "hi" } },
                "history": [{
                    "userInputMessage": {
                        "content": "earlier",
                        "userInputMessageContext": {
                            "tools": [{ "toolSpecification": {
                                "name": "grep",
                                "description": "search",
                                "inputSchema": { "json": { "type": "object" } }
                            }}]
                        }
                    }
                }]
            }
        }"#,
    );
    let out = to_chat_request(&req, "m").unwrap();
    assert_eq!(out.tools.len(), 1);
    assert_eq!(out.tools[0].function.name, "grep");
    assert_eq!(out.tool_choice, Some("auto"));
}

#[test]
fn empty_conversation_is_an_error_rather_than_an_empty_request() {
    let req = parse(r#"{ "conversationState": { "history": [] } }"#);
    assert!(to_chat_request(&req, "m").is_err());
    match to_chat_request(&req, "m") {
        Err(Error::Translate(why)) => assert_eq!(why, "conversation produced no messages"),
        _ => panic!("expected a translation error"),
    }
}

#[test]
fn a_turn_fans_out_to_results_then_text() {
    let req = parse(
        r#"{
            "conversationState": {
                "currentMessage": { "userInputMessage": {
                    "content": "  and now?  ",
                    "userInputMessageContext": {
                        "toolResults": [
                            { "toolUseId": "t1", "content": [{ "text": "a" }, {}, { "text": "b" }] },
                            { "content": [], "status": "success" }
                        ]
                    }
                }},
                "history": [{}, { "assistantResponseMessage": { "content": "said" } }]
            }
        }"#,
    );
    let out = to_chat_request(&req, "m").unwrap();
    assert!(out.stream);
    assert!(out.stream_options.unwrap().include_usage);
    let got: Vec<(openai::Role, String, Option<&str>)> = out
        .messages
        .iter()
        .map(|m| {
            let openai::Content::Text(t) = m.content.as_ref().unwrap() else {
                panic!("expected text");
            };
            (m.role, t.clone(), m.tool_call_id.as_deref())
        })
        .collect();
    assert_eq!(
        got,
        vec![
            (openai::Role::Assistant, "said".to_string(), None),
            (openai::Role::Tool, "a\nb".to_string(), Some("t1")),
            (openai::Role::Tool, String::new(), Some("")),
            (openai::Role::User, "  and now?  ".to_string(), None),
        ]
    );
}

#[test]
fn user_text_is_forwarded_as_it_is() {
    let say = |content: &str, images: Vec<cw::Image>| {
        let mut out = Vec::new();
        let msg = cw::UserInputMessage {
            content: Some(content.into()),
            model_id: None,
            images,
            user_input_message_context: None,
        };
        convert_user_message(&msg, &mut out);
        assert_eq!(out.len(), 1);
        out.remove(0).content.unwrap()
    };
    let text = "  You are Kiro.\nhello\n";
    match say(text, vec![]) {
        openai::Content::Text(t) => assert_eq!(t, text),
        openai::Content::Parts(_) => panic!("expected text"),
    }
    let image = || cw::Image {
        format: Some("png".into()),
        source: Some(cw::ImageSource { bytes: Some("QUJD".into()) }),
    };
    match say(text, vec![image()]) {
        openai::Content::Parts(p) => {
            assert_eq!(p.len(), 2);
            assert!(matches!(&p[0], openai::ContentPart::Text { text: t } if t == text));
        }
        openai::Content::Text(_) => panic!("expected parts"),
    }
    match say(" \n", vec![image()]) {
        openai::Content::Parts(p) => assert_eq!(p.len(), 1),
        openai::Content::Text(_) => panic!("expected parts"),
    }
}

#[test]
fn calls_without_an_id_are_numbered() {
    let m = convert_assistant_message(&cw::AssistantResponseMessage {
        content: Some("both".into()),
        tool_uses: vec![
            cw::ToolUse { tool_use_id: Some("x".into()), name: None, input: None },
            cw::ToolUse {
                tool_use_id: None,
                name: Some("f".into()),
                input: Some(JsonValue::Text("raw".into())),
            },
        ],
    });
    assert_eq!(m.role, openai::Role::Assistant);
    assert!(matches!(m.content, Some(openai::Content::Text(ref t)) if t == "both"));
    assert_eq!(m.tool_calls[0].id, "x");
    assert_eq!(m.tool_calls[0].function.name, "");
    assert_eq!(m.tool_calls[0].function.arguments, "{}");
    assert_eq!(m.tool_calls[1].id, "call_1");
    assert_eq!(m.tool_calls[1].kind, "function");
    assert_eq!(m.tool_calls[1].function.arguments, "raw");
}

#[test]
fn arguments_are_always_a_string() {
    assert_eq!(arguments_string(None), "{}");
    assert_eq!(arguments_string(Some(&JsonValue::Null)), "{}");
    assert_eq!(arguments_string(Some(&JsonValue::Number("7".into()))), "7");
    assert_eq!(
        arguments_string(Some(&JsonValue::Array(vec![JsonValue::Text("a\"".into())]))),
        r#"["a\""]"#
    );
}

#[test]
fn image_formats_are_known_in_any_case() {
    assert_eq!(image_mime("PNG"), Some("image/png"));
    assert_eq!(image_mime("jpeg"), Some("image/jpeg"));
    assert_eq!(image_mime("Gif"), Some("image/gif"));
    assert_eq!(image_mime("webp"), Some("image/webp"));
    assert_eq!(image_mime("bmp"), None);
}

#[test]
fn images_that_cannot_be_inlined_are_left_out() {
    let req = parse(
        r#"{
            "conversationState": {
                "currentMessage": { "userInputMessage": {
                    "content": "look",
                    "images": [
                        { "format": "bmp", "source": { "bytes": "QUJD" } },
                        { "format": "png", "source": { "bytes": "" } },
                        { "format": "png" },
                        { "source": { "bytes": "QUJD" } }
                    ]
                }}
            }
        }"#,
    );
    let out = to_chat_request(&req, "m").unwrap();
    assert!(matches!(out.messages[0].content, Some(openai::Content::Text(ref t)) if t == "look"));
}

#[test]
fn a_tool_without_description_or_schema_gets_defaults() {
    let req = parse(
        r#"{
            "conversationState": {
                "currentMessage": { "userInputMessage": {
                    "content": "hi",
                    "userInputMessageContext": { "tools": [
                        { "toolSpecification": { "name": "grep" } },
                        {}
                    ]}
                }}
            }
        }"#,
    );
    let out = to_chat_request(&req, "m").unwrap();
    assert_eq!(out.tools.len(), 1);
    assert_eq!(out.tools[0].kind, "function");
    assert_eq!(out.tools[0].function.description, "Tool: grep");
    assert_eq!(
        out.tools[0].function.parameters.to_text(),
        r#"{"properties":{},"required":[],"type":"object"}"#
    );
}

#[test]
fn the_wrapped_specification_counts_before_the_bare_one() {
    let named = |n: &str| cw::ToolSpecification { name: Some(n.to_string()), ..Default::default() };
    let both = cw::ToolSlot { tool_specification: Some(named("w")), bare: Some(named("b")) };
    assert_eq!(both.spec().unwrap().name.as_deref(), Some("w"));
    let bare = cw::ToolSlot { tool_specification: None, bare: Some(named("b")) };
    assert_eq!(bare.spec().unwrap().name.as_deref(), Some("b"));
    assert!(cw::ToolSlot::default().spec().is_none());
}
