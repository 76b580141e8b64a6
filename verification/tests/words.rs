use greeter::{is_whitespace, join_words, split_words};

fn strings(words: &[&str]) -> Vec<String> {
    words.iter().map(|w| w.to_string()).collect()
}

#[test]
fn whitespace_is_what_std_calls_whitespace() {
    for code in 0..=0x10FFFFu32 {
        if let Some(c) = char::from_u32(code) {
            assert_eq!(is_whitespace(c), c.is_whitespace(), "U+{:04X}", code);
        }
    }
}

#[test]
fn whitespace_members() {
    for c in ['\t', '\n', '\u{B}', '\u{C}', '\r', ' ', '\u{85}', '\u{A0}', '\u{1680}', '\u{2000}',
        '\u{2005}', '\u{200A}', '\u{2028}', '\u{2029}', '\u{202F}', '\u{205F}', '\u{3000}']
    {
        assert!(is_whitespace(c), "U+{:04X}", c as u32);
    }
}

#[test]
fn whitespace_neighbours_are_not_members() {
    for c in ['\u{8}', '\u{E}', '\u{1F}', '!', 'a', '\u{84}', '\u{86}', '\u{9F}', '\u{A1}',
        '\u{167F}', '\u{1681}', '\u{180E}', '\u{1FFF}', '\u{200B}', '\u{2027}', '\u{202A}',
        '\u{202E}', '\u{2030}', '\u{205E}', '\u{2060}', '\u{2FFF}', '\u{3001}', '\u{FEFF}', '越']
    {
        assert!(!is_whitespace(c), "U+{:04X}", c as u32);
    }
}

#[test]
fn split_on_runs_of_white_space() {
    assert_eq!(split_words("MULTI   word   name"), strings(&["MULTI", "word", "name"]));
    assert_eq!(split_words("  lead and trail \t\n"), strings(&["lead", "and", "trail"]));
    assert_eq!(split_words("a\u{3000}b\u{A0}c\u{2003}d"), strings(&["a", "b", "c", "d"]));
}

#[test]
fn split_of_nothing_is_nothing() {
    assert_eq!(split_words(""), Vec::<String>::new());
    assert_eq!(split_words("   "), Vec::<String>::new());
    assert_eq!(split_words("\t\r\n\u{2028}"), Vec::<String>::new());
}

#[test]
fn split_of_one_word_is_that_word() {
    assert_eq!(split_words("word"), strings(&["word"]));
    assert_eq!(split_words("x"), strings(&["x"]));
    assert_eq!(split_words(" x"), strings(&["x"]));
    assert_eq!(split_words("x "), strings(&["x"]));
    assert_eq!(split_words("zero\u{200B}width"), strings(&["zero\u{200B}width"]));
}

#[test]
fn split_agrees_with_std() {
    for text in ["", " ", "a", " a", "a ", "a b", "a  b", "Mary   had\ta little  \n lamb",
        " \u{85}x\u{85} y", "hello Émile  Zola!", "ß straße", "\u{1680}ogham\u{1680}"]
    {
        let expected: Vec<String> = text.split_whitespace().map(|w| w.to_string()).collect();
        assert_eq!(split_words(text), expected, "{:?}", text);
    }
}

#[test]
fn join_puts_one_space_between_neighbours() {
    assert_eq!(join_words(&strings(&["Hello", "MULTI", "Word", "Name"])), "Hello MULTI Word Name");
    assert_eq!(join_words(&strings(&["a", "b"])), "a b");
}

#[test]
fn join_of_none_and_of_one() {
    assert_eq!(join_words(&Vec::new()), "");
    assert_eq!(join_words(&strings(&["alone"])), "alone");
    assert_eq!(join_words(&strings(&[""])), "");
}

#[test]
fn join_agrees_with_std() {
    for words in [vec![], vec!["a"], vec!["a", "b", "c"], vec!["", "x", ""], vec!["two words", "!"]] {
        let words = strings(&words);
        assert_eq!(join_words(&words), words.join(" "));
    }
}

#[test]
fn split_undoes_join() {
    let words = strings(&["Hello", "Émile", "Zola!"]);
    assert_eq!(split_words(&join_words(&words)), words);
}

#[test]
fn join_of_split_is_single_spaced() {
    let line = join_words(&split_words(" \t a  b \n c   "));
    assert_eq!(line, "a b c");
    assert!(!line.contains("  "));
    assert!(!line.starts_with(' '));
    assert!(!line.ends_with(' '));
}
