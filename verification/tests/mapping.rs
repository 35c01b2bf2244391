use nine_rai::mapping::ModelMap;

fn map() -> ModelMap {
    ModelMap {
        models: vec![("auto".to_string(), "gpt-4o".to_string())],
        default: None,
    }
}

#[test]
fn exact_match_wins() {
    assert_eq!(map().resolve("auto"), Some("gpt-4o"));
}

#[test]
fn unmapped_without_a_default_means_passthrough() {
    assert_eq!(map().resolve("some-other-model"), None);
}

#[test]
fn default_catches_everything_else() {
    let mut m = map();
    m.default = Some("fallback".into());
    assert_eq!(m.resolve("anything"), Some("fallback"));
    assert_eq!(m.resolve("auto"), Some("gpt-4o"));
}
