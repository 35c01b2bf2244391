use nine_rai::mapping::ModelMap;
use nine_rai::proxy::route::{classify, Decision, HEALTH_PATH};
use nine_rai::types::cw;

const KIRO_HOST: &str = "codewhisperer.us-east-1.amazonaws.com";

fn map() -> ModelMap {
    ModelMap {
        models: vec![("auto".to_string(), "gpt-4o".to_string())],
        default: None,
    }
}

fn body(model: &str) -> cw::Request {
    cw::Request {
        conversation_state: cw::ConversationState {
            current_message: Some(cw::Message {
                user_input_message: Some(cw::UserInputMessage {
                    content: Some("hi".to_string()),
                    model_id: Some(model.to_string()),
                    ..Default::default()
                }),
                assistant_response_message: None,
            }),
            ..Default::default()
        },
    }
}

#[test]
fn health_path_is_recognized_regardless_of_host() {
    assert_eq!(
        classify("anything", HEALTH_PATH, None, None, &map()),
        Decision::Health
    );
}

#[test]
fn a_mapped_kiro_chat_turn_is_intercepted() {
    let d = classify(
        KIRO_HOST,
        "/",
        Some("KiroRuntimeService.GenerateAssistantResponse"),
        Some(&body("auto")),
        &map(),
    );
    assert_eq!(
        d,
        Decision::Intercept {
            model: "gpt-4o".into()
        }
    );
}

#[test]
fn legacy_path_form_is_also_intercepted() {
    let d = classify(
        KIRO_HOST,
        "/generateAssistantResponse",
        None,
        Some(&body("auto")),
        &map(),
    );
    assert_eq!(
        d,
        Decision::Intercept {
            model: "gpt-4o".into()
        }
    );
}

#[test]
fn an_unmapped_model_passes_through() {
    let d = classify(
        KIRO_HOST,
        "/generateAssistantResponse",
        None,
        Some(&body("some-other-model")),
        &map(),
    );
    assert_eq!(d, Decision::Passthrough);
}

#[test]
fn an_unknown_host_passes_through() {
    assert_eq!(
        classify(
            "example.com",
            "/generateAssistantResponse",
            None,
            Some(&body("auto")),
            &map()
        ),
        Decision::Passthrough
    );
}

#[test]
fn a_non_chat_kiro_request_passes_through() {
    assert_eq!(
        classify(KIRO_HOST, "/telemetry", None, None, &map()),
        Decision::Passthrough
    );
}

#[test]
fn a_binary_eventstream_body_passes_through_instead_of_erroring() {
    // Looks like a chat request by header, but the body is not JSON.
    let binary = [0u8, 0, 1, 44, 0, 0, 0, 92, 0xde, 0xad, 0xbe, 0xef];
    assert!(serde_json::from_slice::<serde_json::Value>(&binary).is_err());
    let d = classify(
        KIRO_HOST,
        "/",
        Some("GenerateAssistantResponse"),
        None,
        &map(),
    );
    assert_eq!(d, Decision::Passthrough);
}

#[test]
fn a_conversation_that_asks_for_no_model_passes_through() {
    let mut req = body("auto");
    req.conversation_state.current_message = None;
    assert_eq!(req.model_id(), None);
    assert_eq!(
        classify(KIRO_HOST, "/generateAssistantResponse", None, Some(&req), &map()),
        Decision::Passthrough
    );
}

#[test]
fn the_fallback_catches_a_model_without_an_entry() {
    let mut m = map();
    m.default = Some("any".to_string());
    assert_eq!(
        classify(
            "q.us-east-1.amazonaws.com:443",
            "/generateAssistantResponse",
            None,
            Some(&body("other")),
            &m
        ),
        Decision::Intercept { model: "any".into() }
    );
}
