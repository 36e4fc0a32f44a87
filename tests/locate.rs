use markdown_urlfy::locate_urls;

#[test]
fn finds_bare_and_wrapped_urls_in_order() {
    let found = locate_urls("a http://a.com/x b [](https://www.b.org/y?z=1&w=2) c");
    assert_eq!(found.len(), 2);
    assert_eq!(found[0].raw_match, "http://a.com/x");
    assert_eq!(found[0].url, "http://a.com/x");
    assert!(!found[0].already_linked);
    assert_eq!(found[1].raw_match, "[](https://www.b.org/y?z=1&w=2)");
    assert_eq!(found[1].url, "https://www.b.org/y?z=1&w=2");
    assert!(found[1].already_linked);
}

#[test]
fn bare_url_keeps_adjacent_parenthesis() {
    let found = locate_urls("(see https://a.com/x)");
    assert_eq!(found.len(), 1);
    assert_eq!(found[0].raw_match, "https://a.com/x)");
    assert_eq!(found[0].url, "https://a.com/x)");
}

#[test]
fn wrapped_url_loses_one_parenthesis() {
    let found = locate_urls("[](https://a.com/x(y))");
    assert_eq!(found.len(), 1);
    assert_eq!(found[0].url, "https://a.com/x(y)");
}

#[test]
fn host_needs_a_dot() {
    assert!(locate_urls("http://localhost/x").is_empty());
    assert!(locate_urls("ftp://a.com/").is_empty());
}

#[test]
fn top_level_part_ends_on_word_boundary() {
    assert!(locate_urls("https://example.comです").is_empty());
    assert!(locate_urls("https://example.abcdefgh").is_empty());
    let found = locate_urls("https://example.com です");
    assert_eq!(found.len(), 1);
    assert_eq!(found[0].raw_match, "https://example.com");
    let found = locate_urls("https://a.b.comです");
    assert_eq!(found.len(), 1);
    assert_eq!(found[0].raw_match, "https://a.b.com");
}

#[test]
fn host_is_at_most_256_characters() {
    let long = format!("https://{}.com", "a".repeat(256));
    assert_eq!(locate_urls(&long).len(), 1);
    let too_long = format!("https://{}.com", "a".repeat(257));
    assert!(locate_urls(&too_long).is_empty());
    let with_www = format!("https://www.{}.com", "a".repeat(256));
    assert_eq!(locate_urls(&with_www).len(), 1);
}
