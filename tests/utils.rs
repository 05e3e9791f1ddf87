use talecast::text::{chars_of, decimal_string, string_of};
use talecast::utils::{hashed_url, parse_quoted_words, replacer, trim_quotes, truncate_string};

#[test]
fn quotes_are_trimmed() {
    assert_eq!(trim_quotes("\"abc\""), "abc");
    assert_eq!(trim_quotes("\"\"a\"b\"\""), "a\"b");
    assert_eq!(trim_quotes("\"\"\""), "");
    assert_eq!(trim_quotes("plain"), "plain");
}

#[test]
fn quoted_pairs() {
    assert_eq!(
        parse_quoted_words("\"key\" \"some value\""),
        Some(("key".to_string(), "some value".to_string()))
    );
    assert_eq!(parse_quoted_words("nospace"), None);
    assert_eq!(parse_quoted_words("k \"v\""), None);
    assert_eq!(parse_quoted_words("\"\" \"\""), Some((String::new(), String::new())));
}

#[test]
fn truncation_by_width() {
    assert_eq!(truncate_string("hello", 10, true), "hello");
    assert_eq!(truncate_string("hello world", 8, true), "hello...");
    assert_eq!(truncate_string("hello world", 8, false), "hello wo");
    assert_eq!(truncate_string("世界世界", 5, false), "世界");
    assert_eq!(truncate_string("ab", 1, true), "...");
    assert_eq!(truncate_string("", 0, true), "");
}

#[test]
fn url_hash_names() {
    assert_eq!(hashed_url(""), "cbf29ce484222325");
    assert_eq!(hashed_url("a"), "af63dc4c8601ec8c");
}

#[test]
fn text_helpers() {
    assert_eq!(decimal_string(0), "0");
    assert_eq!(decimal_string(1234567890), "1234567890");
    assert_eq!(string_of(&chars_of("añb")), "añb");
}

#[test]
fn search_result_layout() {
    let fields = vec![
        ("collectionName".to_string(), "Night Show".to_string()),
        ("artistName".to_string(), "Ann".to_string()),
    ];
    assert_eq!(replacer(&fields, "{collectionName} - {artistName}"), "Night Show - Ann");
    assert_eq!(replacer(&fields, "[{missing}] }x"), "[<missing>] }x");
    assert_eq!(replacer(&fields, "open {collectionName"), "open ");
}
