use counterbot::text::{join_tokens, tokenize, trim};

#[test]
fn tokenizer_splits_on_whitespace() {
    let toks = tokenize("  say   hello\tworld \n");
    let words: Vec<&str> = toks.iter().map(|w| w.as_str()).collect();
    assert_eq!(words, vec!["say", "hello", "world"]);
    assert!(tokenize("   ").is_empty());
}

#[test]
fn trim_strips_both_ends() {
    assert_eq!(trim("  hype \t"), "hype");
    assert_eq!(trim("hype"), "hype");
    assert_eq!(trim("   "), "");
}

#[test]
fn join_tokens_uses_the_separator() {
    let words = vec![String::from("a"), String::from("b"), String::from("c")];
    assert_eq!(join_tokens(&words, 0, " | "), "a | b | c");
    assert_eq!(join_tokens(&words, 1, " "), "b c");
    assert_eq!(join_tokens(&words, 3, " "), "");
}
