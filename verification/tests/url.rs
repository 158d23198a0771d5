use panda::url::search_url;

#[test]
fn search_url_encodes_the_term() {
    assert_eq!(
        search_url("my vampire wife"),
        "https://www.panda-novel.com/search/my%20vampire%20wife"
    );
    assert_eq!(search_url(""), "https://www.panda-novel.com/search/");
    assert_eq!(search_url("a-b_c.d~e"), "https://www.panda-novel.com/search/a-b_c.d~e");
    assert_eq!(search_url("é/?"), "https://www.panda-novel.com/search/%C3%A9%2F%3F");
}

#[test]
fn search_url_agrees_with_urlencoding() {
    for term in ["plain", "two words", "100%", "ç∂😀", "a+b=c&d"] {
        let expected = format!(
            "https://www.panda-novel.com/search/{}",
            urlencoding::encode(term)
        );
        assert_eq!(search_url(term), expected);
    }
}

#[test]
fn search_urls_differ_for_different_terms() {
    assert_ne!(search_url("a b"), search_url("a+b"));
    assert_ne!(search_url("%20"), search_url(" "));
}
