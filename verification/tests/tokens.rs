use telos_agent::provider::{count_tokens, DeepSeekConfig};

#[test]
fn empty_string_is_zero() {
    assert_eq!(count_tokens(""), 0);
}

#[test]
fn english_text_is_counted() {
    // "hello world" should be ~2 tokens with cl100k_base
    let count = count_tokens("hello world");
    assert!(count > 0, "token count should be > 0");
    assert!(count <= 10, "short text shouldn't be many tokens");
}

#[test]
fn chinese_text_is_counted() {
    let count = count_tokens("你好世界");
    assert!(count > 0);
    assert!(count >= 2, "Chinese chars should be > 1 token (old heuristic was wrong)");
}

#[test]
fn code_text_is_counted() {
    let count = count_tokens("fn main() { println!(\"hi\"); }");
    assert!(count > 0);
    assert!(count <= 50);
}

#[test]
fn larger_text_is_reasonable() {
    let text = "This is a longer piece of text that should be counted. ".repeat(100);
    let count = count_tokens(&text);
    let chars = text.len();
    assert!(count < chars);
    assert!(count > chars / 5, "token count should be within reasonable range");
}

#[test]
fn count_is_stable() {
    let text = "The quick brown fox jumps over the lazy dog.";
    let a = count_tokens(text);
    let b = count_tokens(text);
    assert_eq!(a, b, "same text should always give same count");
}

#[test]
fn hello_world_is_two_tokens() {
    assert_eq!(count_tokens("hello world"), 2);
}

#[test]
fn deepseek_config_defaults_to_public_api() {
    let config = DeepSeekConfig::new("key", "deepseek-chat");
    assert_eq!(config.api_key, "key");
    assert_eq!(config.model, "deepseek-chat");
    assert_eq!(config.base_url, "https://api.deepseek.com");
}

#[test]
fn nonempty_text_counts_at_least_one_token() {
    assert!(count_tokens(" ") > 0);
    assert!(count_tokens("\n\n") > 0);
    assert!(count_tokens(&" ".repeat(5000)) > 0);
}
