use but_ai::budget::provider::discover_shims;
use but_ai::budget::provider::shim_protocol::{CAPABILITIES, CHAT, STREAM};

#[test]
fn shim_discovery() {
    let entries = vec![
        "but-ai-provider-gemini".to_string(),
        "but-ai-provider-mistral".to_string(),
        "some-other-binary".to_string(),
        "but-ai-provider-local-gguf".to_string(),
    ];
    let shims = discover_shims(&entries);
    assert_eq!(shims, vec!["gemini", "mistral", "local-gguf"]);
}

#[test]
fn shim_names_and_methods() {
    assert!(discover_shims(&[]).is_empty());
    assert_eq!(discover_shims(&["but-ai-provider-".to_string()]), vec![""]);
    assert_eq!((CAPABILITIES, CHAT, STREAM), ("capabilities", "chat", "stream"));
}
