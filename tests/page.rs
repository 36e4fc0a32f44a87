use markdown_urlfy::{
    decode_page, detect_shift_jis, extract_title, find_from, title_of_page, trim_title,
    FetchError,
};

#[test]
fn test_get_title_with_utf_8() {
    let page = "<html><head><meta charset=\"utf-8\"><title>utf-8で書かれたタイトル</title></head></html>";
    let title = title_of_page(page.as_bytes()).unwrap();
    assert_eq!(title, "utf-8で書かれたタイトル");
}

#[test]
fn test_get_title_with_shift_jis() {
    let page = "<html><head><meta charset=\"Shift_JIS\"><title>shift_jisで書かれたタイトル</title></head></html>";
    let (bytes, _, _) = encoding_rs::SHIFT_JIS.encode(page);
    assert!(std::str::from_utf8(&bytes).is_err());
    let title = title_of_page(&bytes).unwrap();
    assert_eq!(title, "shift_jisで書かれたタイトル");
}

#[test]
fn test_get_title_without_title() {
    let page = "<html><head></head><body>no title</body></html>";
    let title = title_of_page(page.as_bytes());
    assert_eq!(title, Err(FetchError::NoTitleError));
}

#[test]
fn empty_body_is_an_error() {
    assert_eq!(decode_page(&[]), Err(FetchError::EmptyResponseError));
    assert_eq!(title_of_page(&[]), Err(FetchError::EmptyResponseError));
}

#[test]
fn entities_are_decoded() {
    let page = "<title>Tom &amp; Jerry&#39;s &lt;show&gt;</title>";
    assert_eq!(
        decode_page(page.as_bytes()),
        Ok("<title>Tom & Jerry's <show></title>".to_string())
    );
    assert_eq!(title_of_page(page.as_bytes()), Ok("Tom & Jerry's <show>".to_string()));
}

#[test]
fn shift_jis_declarations() {
    assert!(detect_shift_jis(b"<meta charset=shift_jis>"));
    assert!(detect_shift_jis(b"<meta charset=shift-jis>"));
    assert!(detect_shift_jis(b"content=\"text/html; CHARSET='SHIFT_JIS'\""));
    assert!(detect_shift_jis(b"<meta charset=\"Shift_Jis\">"));
    assert!(!detect_shift_jis(b"<meta charset=\"utf-8\"> shift_jis"));
    assert!(!detect_shift_jis(b"charset= shift_jis"));
    assert!(!detect_shift_jis(b"charset=shift_ji"));
    assert!(!detect_shift_jis(b""));
    assert!(detect_shift_jis(&[0xff, 0xfe, b'c', b'h', b'a', b'r', b's', b'e', b't', b'=', b's', b'h', b'i', b'f', b't', b'_', b'j', b'i', b's']));
}

#[test]
fn title_extraction_edges() {
    assert_eq!(extract_title("<title></title>"), Some(String::new()));
    assert_eq!(extract_title("</title><title>a</title>"), None);
    assert_eq!(extract_title("</title>x<title>y</title>"), None);
    assert_eq!(
        title_of_page("</title>x<title>y</title>".as_bytes()),
        Err(FetchError::NoTitleError)
    );
    assert_eq!(extract_title("<title>a</title><title>b</title>"), Some("a".to_string()));
    assert_eq!(extract_title("<title>abc"), None);
    assert_eq!(extract_title("abc</title>"), None);
    assert_eq!(extract_title("<TITLE>a</TITLE>"), None);
    assert_eq!(extract_title("<title> a\nb </title>"), Some(" a\nb ".to_string()));
}

#[test]
fn find_and_trim() {
    let s: Vec<char> = "abcabc".chars().collect();
    let p: Vec<char> = "ca".chars().collect();
    assert_eq!(find_from(&s, &p, 0), Some(2));
    assert_eq!(find_from(&s, &p, 3), None);
    assert_eq!(trim_title("  x y \n"), "x y");
    assert_eq!(trim_title(" \t "), "");
}
