use aws_smithy_eventstream::frame::read_message_from;
use nine_rai::eventstream::testing::decode_all;
use nine_rai::translate::limits::{is_small, is_small_chunk};
use nine_rai::translate::response::StreamState;
use nine_rai::translate::sse::SseReader;
use nine_rai::types::openai::{
    Choice, Delta, FunctionCallDelta, StreamChunk, ToolCallDelta, Usage,
};
use serde_json::Value;

fn text(v: &Value) -> Option<String> {
    v.as_str().map(str::to_string)
}

fn items(v: &Value) -> &[Value] {
    v.as_array().map(Vec::as_slice).unwrap_or(&[])
}

fn tool_call(v: &Value) -> ToolCallDelta {
    let function = &v["function"];
    ToolCallDelta {
        index: v["index"].as_u64().unwrap_or(0) as usize,
        id: text(&v["id"]),
        function: function.is_object().then_some(FunctionCallDelta {
            name: text(&function["name"]),
            arguments: text(&function["arguments"]),
        }),
    }
}

fn choice(v: &Value) -> Choice {
    let delta = &v["delta"];
    Choice {
        delta: Delta {
            content: text(&delta["content"]),
            reasoning_content: text(&delta["reasoning_content"]),
            tool_calls: items(&delta["tool_calls"]).iter().map(tool_call).collect(),
        },
        finish_reason: text(&v["finish_reason"]),
    }
}

fn chunk(json: &str) -> StreamChunk {
    let v: Value = serde_json::from_str(json).expect("chunk fixture must parse");
    let usage = &v["usage"];
    StreamChunk {
        model: text(&v["model"]),
        choices: items(&v["choices"]).iter().map(choice).collect(),
        usage: usage.is_object().then_some(Usage {
            prompt_tokens: usage["prompt_tokens"].as_u64().unwrap_or(0),
            completion_tokens: usage["completion_tokens"].as_u64().unwrap_or(0),
        }),
    }
}

/// Run a whole stream and return `(event_type, payload_json)` pairs.
fn run(chunks: &[&str]) -> Vec<(String, Value)> {
    let mut state = StreamState::new("test-model", None);
    let mut frames = Vec::new();
    for c in chunks {
        frames.extend(state.on_chunk(&chunk(c)));
    }
    frames.extend(state.finish());
    decode_all(&frames.concat())
}

fn kinds(got: &[(String, Value)]) -> Vec<&str> {
    got.iter().map(|(k, _)| k.as_str()).collect()
}

#[test]
fn text_stream_opens_with_initial_response_and_ends_with_message_stop() {
    let got = run(&[
        r#"{"choices":[{"delta":{"content":"hi"}}]}"#,
        r#"{"choices":[{"delta":{},"finish_reason":"stop"}]}"#,
    ]);
    assert_eq!(
        kinds(&got),
        [
            "initial-response",
            "assistantResponseEvent",
            "messageStopEvent"
        ]
    );
    assert_eq!(got[1].1["content"], "hi");
    assert_eq!(got[1].1["modelId"], "test-model");
}

#[test]
fn tool_call_stream_still_terminates_with_message_stop() {
    let got = run(&[
        r#"{"choices":[{"delta":{"tool_calls":[
            {"index":0,"id":"t1","function":{"name":"read","arguments":""}}
        ]}}]}"#,
        r#"{"choices":[{"delta":{"tool_calls":[
            {"index":0,"function":{"arguments":"{\"p\":1}"}}
        ]}}]}"#,
        r#"{"choices":[{"delta":{},"finish_reason":"tool_calls"}]}"#,
    ]);
    assert_eq!(
        kinds(&got),
        [
            "initial-response",
            "toolUseEvent",
            "toolUseEvent",
            "toolUseEvent",
            "messageStopEvent"
        ]
    );
    assert_eq!(got[1].1["name"], "read");
    assert_eq!(got[1].1["toolUseId"], "t1");
    // Argument fragments are forwarded raw, not accumulated.
    assert_eq!(got[2].1["input"], "{\"p\":1}");
    assert_eq!(got[3].1["stop"], true);
}

#[test]
fn terminal_tool_frames_are_ordered_numerically() {
    let mut chunks = Vec::new();
    for i in [2usize, 10, 1] {
        chunks.push(format!(
            r#"{{"choices":[{{"delta":{{"tool_calls":[
                {{"index": {i}, "id": "t{i}", "function":{{"name": "f{i}"}}}}
            ]}}}}]}}"#
        ));
    }
    let refs: Vec<&str> = chunks.iter().map(String::as_str).collect();
    let got = run(&refs);
    let stops: Vec<&str> = got
        .iter()
        .filter(|(k, v)| k == "toolUseEvent" && v.get("stop").is_some())
        .map(|(_, v)| v["toolUseId"].as_str().unwrap())
        .collect();
    assert_eq!(stops, ["t1", "t2", "t10"]);
}

#[test]
fn usage_arriving_after_finish_reason_is_still_reported() {
    let got = run(&[
        r#"{"choices":[{"delta":{"content":"x"}}]}"#,
        r#"{"choices":[{"delta":{},"finish_reason":"stop"}]}"#,
        r#"{"choices":[],"usage":{"prompt_tokens":7,"completion_tokens":3}}"#,
    ]);
    let usage = got
        .iter()
        .find(|(k, _)| k == "usageEvent")
        .expect("usageEvent must be emitted");
    assert_eq!(usage.1["inputTokens"], 7);
    assert_eq!(usage.1["outputTokens"], 3);
    // It must precede the terminal frame, which the client treats as end-of-stream.
    assert_eq!(kinds(&got).last(), Some(&"messageStopEvent"));
}

#[test]
fn thinking_blocks_are_routed_to_the_reasoning_channel() {
    let got = run(&[
        r#"{"choices":[{"delta":{"content":"a<think>why"}}]}"#,
        r#"{"choices":[{"delta":{"content":"</think>b"}}]}"#,
    ]);
    let reasoning: String = got
        .iter()
        .filter(|(k, _)| k == "reasoningContentEvent")
        .map(|(_, v)| v["content"].as_str().unwrap())
        .collect();
    let answer: String = got
        .iter()
        .filter(|(k, _)| k == "assistantResponseEvent")
        .map(|(_, v)| v["content"].as_str().unwrap())
        .collect();
    assert_eq!(reasoning, "why");
    assert_eq!(answer, "ab");
}

#[test]
fn native_reasoning_content_is_forwarded() {
    let got = run(&[r#"{"choices":[{"delta":{"reasoning_content":"deliberating"}}]}"#]);
    assert_eq!(got[1].0, "reasoningContentEvent");
    assert_eq!(got[1].1["content"], "deliberating");
}

#[test]
fn initial_response_echoes_the_request_conversation_id() {
    let mut state = StreamState::new("m", Some("conv-123"));
    let frames = state.on_chunk(&chunk(r#"{"choices":[{"delta":{"content":"x"}}]}"#));
    let decoded = decode_all(&frames.concat());
    assert_eq!(decoded[0].1["conversationId"], "conv-123");
}

#[test]
fn an_empty_stream_still_produces_a_well_formed_terminal_pair() {
    let got = run(&[]);
    assert_eq!(kinds(&got), ["initial-response", "messageStopEvent"]);
}

#[test]
fn the_model_is_learned_from_the_stream_where_none_was_given() {
    let mut state = StreamState::new("", None);
    assert!(!state.saw_finish());
    let frames = state.on_chunk(&chunk(
        r#"{"model":"m2","choices":[{"delta":{"content":"x"},"finish_reason":"stop"}]}"#,
    ));
    assert!(state.saw_finish());
    let decoded = decode_all(&frames.concat());
    assert_eq!(decoded[1].1["modelId"], "m2");
}

#[test]
fn the_first_id_and_name_of_a_call_are_kept() {
    let got = run(&[
        r#"{"choices":[{"delta":{"tool_calls":[{"index":0,"function":{"arguments":"x"}}]}}]}"#,
        r#"{"choices":[{"delta":{"tool_calls":[{"index":0,"id":"a","function":{"name":"f"}}]}}]}"#,
        r#"{"choices":[{"delta":{"tool_calls":[{"index":0,"id":"b","function":{"name":"g"}}]}}]}"#,
    ]);
    assert_eq!(kinds(&got).len(), 5);
    assert_eq!(got[1].1["input"], "x");
    assert_eq!(got[1].1["name"], "");
    assert_eq!(got[2].1["name"], "f");
    assert_eq!(got[3].1["toolUseId"], "a");
    assert_eq!(got[3].1["stop"], true);
}

#[test]
fn the_last_usage_counts() {
    let got = run(&[
        r#"{"choices":[],"usage":{"prompt_tokens":1,"completion_tokens":1}}"#,
        r#"{"choices":[],"usage":{"prompt_tokens":2,"completion_tokens":18446744073709551615}}"#,
    ]);
    assert_eq!(kinds(&got), ["initial-response", "usageEvent", "messageStopEvent"]);
    assert_eq!(got[1].1["inputTokens"], 2);
    assert_eq!(got[1].1["outputTokens"], u64::MAX);
}

const TRANSCRIPT: &str = "data: {\"choices\":[{\"delta\":{\"content\":\"<thi\"}}]}\n\n\
data: {\"choices\":[{\"delta\":{\"content\":\"nk>plan</think>Hello\"}}]}\n\n\
data: {\"choices\":[{\"delta\":{\"tool_calls\":[{\"index\":0,\"id\":\"call_1\",\"function\":{\"name\":\"read\",\"arguments\":\"\"}}]}}]}\n\n\
data: {\"choices\":[{\"delta\":{\"tool_calls\":[{\"index\":0,\"function\":{\"arguments\":\"{\\\"p\\\":\"}}]}}]}\n\n\
data: {\"choices\":[{\"delta\":{\"tool_calls\":[{\"index\":0,\"function\":{\"arguments\":\"1}\"}}]}}]}\n\n\
data: {\"choices\":[{\"delta\":{},\"finish_reason\":\"tool_calls\"}]}\n\n\
data: {\"choices\":[],\"usage\":{\"prompt_tokens\":12,\"completion_tokens\":34}}\n\n\
data: [DONE]\n\n";

fn produce(sse: &str, model: &str) -> Vec<u8> {
    let mut reader = SseReader::new();
    let mut state = StreamState::new(model, None);
    let mut out: Vec<u8> = Vec::new();
    for payload in reader.push(sse.as_bytes()) {
        for frame in state.on_chunk(&chunk(&payload)) {
            out.extend_from_slice(&frame);
        }
    }
    if let Some(payload) = reader.flush() {
        for frame in state.on_chunk(&chunk(&payload)) {
            out.extend_from_slice(&frame);
        }
    }
    for frame in state.finish() {
        out.extend_from_slice(&frame);
    }
    out
}

#[test]
fn the_output_decodes_under_another_decoder() {
    let produced = produce(TRANSCRIPT, "gpt-4o");
    let mut rest = produced.as_slice();
    let mut got = Vec::new();
    while !rest.is_empty() {
        let msg = read_message_from(&mut rest).expect("smithy decoder must accept the frame");
        let event = msg
            .headers()
            .iter()
            .find(|h| h.name().as_str() == ":event-type")
            .map(|h| h.value().as_string().expect("a string header").as_str().to_string())
            .unwrap_or_default();
        got.push((event, String::from_utf8(msg.payload().to_vec()).unwrap()));
    }
    let want = [
        ("initial-response", "{\"conversationId\":\"\"}"),
        ("reasoningContentEvent", "{\"content\":\"plan\",\"modelId\":\"gpt-4o\"}"),
        ("assistantResponseEvent", "{\"content\":\"Hello\",\"modelId\":\"gpt-4o\"}"),
        ("toolUseEvent", "{\"name\":\"read\",\"toolUseId\":\"call_1\"}"),
        (
            "toolUseEvent",
            "{\"input\":\"{\\\"p\\\":\",\"name\":\"read\",\"toolUseId\":\"call_1\"}",
        ),
        ("toolUseEvent", "{\"input\":\"1}\",\"name\":\"read\",\"toolUseId\":\"call_1\"}"),
        ("toolUseEvent", "{\"name\":\"read\",\"stop\":true,\"toolUseId\":\"call_1\"}"),
        ("usageEvent", "{\"inputTokens\":12,\"outputTokens\":34}"),
        ("messageStopEvent", "{}"),
    ];
    assert_eq!(got.len(), want.len());
    for (g, w) in got.iter().zip(want) {
        assert_eq!((g.0.as_str(), g.1.as_str()), w);
    }
}

#[test]
fn ordinary_texts_are_small() {
    assert!(is_small("any text"));
    assert!(is_small_chunk(&chunk(
        r#"{"model":"m","choices":[{"delta":{"content":"x","tool_calls":[{"index":1,"id":"i","function":{"name":"n","arguments":"a"}}]}}]}"#
    )));
}

#[test]
fn every_call_that_was_made_known_is_closed_once() {
    let got = run(&[
        r#"{"choices":[{"delta":{"tool_calls":[{"index":7,"id":"seven"}]}}]}"#,
        r#"{"choices":[{"delta":{"tool_calls":[{"index":3,"function":{"name":"n3"}},{"index":5,"function":{"arguments":"{}"}}]}}]}"#,
        r#"{"choices":[{"delta":{"tool_calls":[{"index":7,"id":"again","function":{"name":"n7","arguments":"{}"}},{"index":3,"id":"three"}]},"finish_reason":"tool_calls"}]}"#,
    ]);
    let closed: Vec<(&str, &str)> = got
        .iter()
        .filter(|(_, v)| v["stop"] == true)
        .map(|(_, v)| (v["name"].as_str().unwrap(), v["toolUseId"].as_str().unwrap()))
        .collect();
    // The call with index 5 brought neither an id nor a name.
    assert_eq!(closed, [("n3", "three"), ("n7", "seven")]);
    assert_eq!(kinds(&got).iter().filter(|k| **k == "usageEvent").count(), 0);
    assert_eq!(kinds(&got)[got.len() - 3..], ["toolUseEvent", "toolUseEvent", "messageStopEvent"]);
}

#[test]
fn texts_are_not_empty_and_name_the_model() {
    let got = run(&[
        r#"{"model":"other","choices":[{"delta":{"content":"","reasoning_content":""}}]}"#,
        r#"{"choices":[{"delta":{"content":"<think>a</think>b","reasoning_content":"c"}}]}"#,
        r#"{"choices":[{"delta":{"content":"d<th"}}]}"#,
    ]);
    let said: Vec<(&str, &str)> = got
        .iter()
        .filter(|(_, v)| v["content"].is_string())
        .map(|(k, v)| {
            assert_eq!(v["modelId"], "test-model");
            (k.as_str(), v["content"].as_str().unwrap())
        })
        .collect();
    assert_eq!(
        said,
        [
            ("reasoningContentEvent", "c"),
            ("reasoningContentEvent", "a"),
            ("assistantResponseEvent", "b"),
            ("assistantResponseEvent", "d"),
            ("assistantResponseEvent", "<th"),
        ]
    );
}
