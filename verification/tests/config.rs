use nine_rai::config::{
    is_chat_request, strip_port, Tool, KIRO_MODEL_SLOTS, LISTEN_PORT, TOOL_HOSTS, UPSTREAM_DNS,
};

#[test]
fn maps_known_hosts_and_ignores_others() {
    assert_eq!(
        Tool::from_host("runtime.us-east-1.kiro.dev"),
        Some(Tool::Kiro)
    );
    assert_eq!(
        Tool::from_host("q.us-east-1.amazonaws.com:443"),
        Some(Tool::Kiro)
    );
    assert_eq!(Tool::from_host("example.com"), None);
}

#[test]
fn detects_both_legacy_path_and_amz_target_forms() {
    assert!(is_chat_request(
        Tool::Kiro,
        "/generateAssistantResponse",
        None
    ));
    assert!(is_chat_request(
        Tool::Kiro,
        "/",
        Some("KiroRuntimeService.GenerateAssistantResponse")
    ));
    assert!(!is_chat_request(
        Tool::Kiro,
        "/",
        Some("KiroRuntimeService.ListAvailableModels")
    ));
    assert!(!is_chat_request(Tool::Kiro, "/telemetry", None));
}

#[test]
fn kiro_model_slots_are_unique_and_cover_agent_modes() {
    let mut seen = std::collections::HashSet::new();
    for (id, name) in KIRO_MODEL_SLOTS {
        assert!(!name.is_empty(), "slot `{id}` needs a display name");
        assert!(seen.insert(id), "duplicate slot id `{id}`");
    }
    // The agent's main turn and its background sub-tasks are the two ids the IDE sends
    // without the user touching the picker; losing either would silently pass those
    // turns through to AWS.
    assert!(seen.contains("auto"));
    assert!(seen.contains("simple-task"));
}

#[test]
fn the_model_slots_are_the_ones_the_picker_offers() {
    assert_eq!(
        KIRO_MODEL_SLOTS,
        [
            ("auto", "Auto (Kiro Agent)"),
            ("deepseek-3.2", "DeepSeek 3.2"),
            ("minimax-m2.1", "MiniMax M2.1"),
            ("gpt-5.6-sol", "GPT 5.6 Sol"),
            ("gpt-5.6-terra", "GPT 5.6 Terra"),
            ("gpt-5.6-luna", "GPT 5.6 Luna"),
            ("simple-task", "Simple Task (background sub-tasks)"),
        ]
    );
}

#[test]
fn every_host_of_the_tool_maps_back_to_it() {
    let hosts = Tool::Kiro.hosts();
    assert_eq!(hosts, TOOL_HOSTS[0].1);
    for host in hosts {
        assert_eq!(Tool::from_host(host), Some(Tool::Kiro));
        assert_eq!(Tool::from_host(&format!("{host}:443")), Some(Tool::Kiro));
    }
    assert_eq!(Tool::Kiro.name(), "kiro");
}

#[test]
fn a_port_is_stripped_at_the_first_colon() {
    assert_eq!(strip_port("a:1:2"), "a");
    assert_eq!(strip_port("a"), "a");
    assert_eq!(strip_port(":1"), "");
    assert_eq!(LISTEN_PORT, 443);
    assert_eq!(UPSTREAM_DNS, "8.8.8.8:53");
}
