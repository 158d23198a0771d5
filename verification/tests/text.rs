use panda::text::{chapter_fields, chars_of, debug_list, split_at_char, trim, white_space};

#[test]
fn white_space_matches_std() {
    for code in 0u32..0x110000 {
        if let Some(c) = char::from_u32(code) {
            assert_eq!(white_space(c), c.is_whitespace(), "char {:?}", c);
        }
    }
}

#[test]
fn trim_matches_std() {
    let samples = [
        "", " ", "  a  ", "\t12 \n", "a b", "\u{3000}x\u{a0}", "\u{2028}\u{85}", "x", "\u{200b}y",
    ];
    for s in samples.iter() {
        assert_eq!(trim(s), s.trim(), "input {:?}", s);
    }
}

#[test]
fn split_matches_std() {
    let samples = ["", "/", "a/b", "a//b", "/a/", "12 / 340", "no slash", "é/ü/"];
    for s in samples.iter() {
        let expected: Vec<String> = s.split('/').map(|p| p.to_string()).collect();
        assert_eq!(split_at_char(s, '/'), expected, "input {:?}", s);
        assert_eq!(split_at_char(s, '/').join("/"), s.to_string());
    }
}

#[test]
fn chapter_fields_of_progress_text() {
    assert_eq!(chapter_fields("12 / 340"), vec!["12".to_string(), "340".to_string()]);
    assert_eq!(chapter_fields(" 3.5/ 7 "), vec!["3.5".to_string(), "7".to_string()]);
    assert_eq!(chapter_fields("17"), vec!["17".to_string()]);
    assert_eq!(chapter_fields(""), vec!["".to_string()]);
}

#[test]
fn chars_of_keeps_every_character() {
    assert_eq!(chars_of("aé😀"), vec!['a', 'é', '😀']);
    assert_eq!(chars_of(""), Vec::<char>::new());
}

#[test]
fn debug_list_matches_std() {
    let lists: Vec<Vec<String>> = vec![
        vec![],
        vec!["Fantasy".to_string()],
        vec!["a\"b".to_string(), "c\nd".to_string(), "é".to_string()],
    ];
    for l in lists.iter() {
        assert_eq!(debug_list(l), format!("{:?}", l));
    }
}
