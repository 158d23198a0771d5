use panda::cover::cover_url;
use regex::Regex;

fn by_regex(style: &str) -> Option<String> {
    let re = Regex::new(r#"background-image: url\("(.*)"\);"#).unwrap();
    re.captures(style).map(|c| c.get(1).unwrap().as_str().to_string())
}

#[test]
fn cover_url_of_listing_style() {
    assert_eq!(
        cover_url(r#"background-image: url("https://img.example/c/1.jpg");"#),
        Some("https://img.example/c/1.jpg".to_string())
    );
    assert_eq!(
        cover_url(r#"width: 3em; background-image: url("a.png"); height: 2em;"#),
        Some("a.png".to_string())
    );
}

#[test]
fn cover_url_takes_the_longest_address() {
    assert_eq!(
        cover_url(r#"background-image: url("a");b");"#),
        Some(r#"a");b"#.to_string())
    );
}

#[test]
fn cover_url_stops_at_line_feed() {
    assert_eq!(
        cover_url("background-image: url(\"a\");x\");\nmore\");"),
        Some("a\");x".to_string())
    );
    assert_eq!(cover_url("background-image: url(\"a\nb\");"), None);
}

#[test]
fn cover_url_absent() {
    assert_eq!(cover_url(""), None);
    assert_eq!(cover_url("background-image: none;"), None);
    assert_eq!(cover_url(r#"background-image: url('a.png');"#), None);
}

#[test]
fn cover_url_agrees_with_regex() {
    let pieces = [
        "background-image: url(\"", "\");", "\n", "x", "\"", ")", ";", "é", "background", " ",
    ];
    let mut state: u64 = 0x2545F4914F6CDD1D;
    for _ in 0..4000 {
        let mut s = String::new();
        state = state.wrapping_mul(6364136223846793005).wrapping_add(1442695040888963407);
        let len = (state >> 60) as usize;
        for _ in 0..len {
            state = state.wrapping_mul(6364136223846793005).wrapping_add(1442695040888963407);
            s.push_str(pieces[(state >> 33) as usize % pieces.len()]);
        }
        assert_eq!(cover_url(&s), by_regex(&s), "input {:?}", s);
    }
}
