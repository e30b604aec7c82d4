use wm_core::embed::SearchMode;
use wm_core::search::tokenize;

#[test]
fn test_code_aware_tokenizer() {
    let tokens = tokenize("ERR_AUTH_401");
    assert!(tokens.contains(&"err_auth_401".to_string()));
    assert!(tokens.contains(&"err".to_string()));
    assert!(tokens.contains(&"auth".to_string()));
    assert!(tokens.contains(&"401".to_string()));
}

#[test]
fn test_tokenize_empty() {
    let tokens = tokenize("");
    assert!(tokens.is_empty());
}

#[test]
fn test_tokenize_kebab_case() {
    let tokens = tokenize("auth-service");
    assert!(tokens.contains(&"auth-service".to_string()));
    assert!(tokens.contains(&"auth".to_string()));
    assert!(tokens.contains(&"service".to_string()));
}

#[test]
fn test_search_mode_auto_detect() {
    assert_eq!(SearchMode::auto_detect("ERR_AUTH_401"), SearchMode::Keyword);
    assert_eq!(SearchMode::auto_detect("auth-service"), SearchMode::Keyword);
    assert_eq!(SearchMode::auto_detect("how does authentication work"), SearchMode::Hybrid);
}

#[test]
fn tokens_in_order_and_short_parts_dropped() {
    assert_eq!(
        tokenize("Use a_b OAuth2 flow!"),
        vec!["use", "a_b", "oauth2", "flow"].into_iter().map(String::from).collect::<Vec<_>>()
    );
}

#[test]
fn search_mode_names() {
    assert_eq!(SearchMode::from_str("SEMANTIC"), SearchMode::Semantic);
    assert_eq!(SearchMode::from_str("hybrid"), SearchMode::Hybrid);
    assert_eq!(SearchMode::from_str("other"), SearchMode::Keyword);
    assert_eq!(SearchMode::auto_detect("ABC query"), SearchMode::Keyword);
    assert_eq!(SearchMode::auto_detect("AB query"), SearchMode::Hybrid);
    assert_eq!(SearchMode::Hybrid.to_display_string(), "hybrid");
}
