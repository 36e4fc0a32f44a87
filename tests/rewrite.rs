use markdown_urlfy::{locate_urls, replace_url_with_markdown_format, rewrite, title_of_page};

fn titled(text: &str, titles: &[Option<&str>]) -> String {
    let titles: Vec<Option<String>> = titles.iter().map(|t| t.map(|s| s.to_string())).collect();
    replace_url_with_markdown_format(text, &titles)
}

#[test]
fn replace_url_with_markdown_format_test() {
    let text = "これは https://reuil.github.io/misc/utf_8_test_page.html です。これは [](https://reuil.github.io/misc/shift_jis_test_page.html)です。";
    let replaced_text = titled(
        text,
        &[Some("utf-8で書かれたタイトル"), Some("shift_jisで書かれたタイトル")],
    );
    assert_eq!(replaced_text, "これは [utf-8で書かれたタイトル](https://reuil.github.io/misc/utf_8_test_page.html) です。これは [shift_jisで書かれたタイトル](https://reuil.github.io/misc/shift_jis_test_page.html)です。");
}

#[test]
fn text_without_urls_is_unchanged() {
    let text = "no links here, just example.com and http:// alone";
    assert!(locate_urls(text).is_empty());
    assert_eq!(titled(text, &[]), text);
    assert_eq!(rewrite("", &vec![]), Some(String::new()));
}

#[test]
fn bare_url_becomes_link() {
    let out = titled("visit https://example.com/ now", &[Some("Example Domain")]);
    assert_eq!(out, "visit [Example Domain](https://example.com/) now");
}

#[test]
fn wrapped_url_keeps_its_parentheses() {
    let out = titled("[](https://example.com/) is nice", &[Some("Example Domain")]);
    assert_eq!(out, "[Example Domain](https://example.com/) is nice");
}

#[test]
fn missing_title_gives_empty_link() {
    let out = titled("see https://example.com/path ok", &[None]);
    assert_eq!(out, "see [](https://example.com/path) ok");
}

#[test]
fn empty_body_gives_empty_link() {
    let title = title_of_page(&[]).ok();
    assert_eq!(title, None);
    let out = replace_url_with_markdown_format("go https://that-url.org/ now", &vec![title]);
    assert_eq!(out, "go [](https://that-url.org/) now");
}

#[test]
fn title_is_trimmed() {
    let out = titled("https://example.com", &[Some("  \n Example Domain \t")]);
    assert_eq!(out, "[Example Domain](https://example.com)");
}

#[test]
fn duplicate_urls_share_first_title() {
    let out = titled(
        "a https://x.com/ b https://x.com/ c",
        &[Some("First"), Some("Second")],
    );
    assert_eq!(out, "a [First](https://x.com/) b [First](https://x.com/) c");
}

#[test]
fn rewriting_twice_finds_the_url_again() {
    let once = titled("visit https://example.com/ now", &[Some("Example Domain")]);
    let found = locate_urls(&once);
    assert_eq!(found.len(), 1);
    assert_eq!(found[0].raw_match, "https://example.com/)");
    let twice = titled(&once, &[Some("Example Domain")]);
    assert_ne!(twice, once);
    assert_eq!(
        twice,
        "visit [Example Domain]([Example Domain](https://example.com/)) now"
    );
}

#[test]
fn rewrite_needs_one_title_per_url() {
    assert_eq!(rewrite("visit https://example.com/ now", &vec![]), None);
    assert_eq!(
        rewrite("visit https://example.com/ now", &vec![Some("E".to_string())]),
        Some("visit [E](https://example.com/) now".to_string())
    );
}
