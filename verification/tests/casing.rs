use greeter::{capitalize, capitalize_words, is_whitespace, replace_initial};

fn strings(words: &[&str]) -> Vec<String> {
    words.iter().map(|w| w.to_string()).collect()
}

#[test]
fn capitalize_raises_the_first_letter_only() {
    assert_eq!(capitalize("matt"), "Matt");
    assert_eq!(capitalize("hello"), "Hello");
    assert_eq!(capitalize("x"), "X");
    assert_eq!(capitalize("wORD"), "WORD");
    assert_eq!(capitalize("mULTI"), "MULTI");
}

#[test]
fn capitalize_keeps_what_has_no_other_case() {
    assert_eq!(capitalize("Matt"), "Matt");
    assert_eq!(capitalize("MULTI"), "MULTI");
    assert_eq!(capitalize("42nd"), "42nd");
    assert_eq!(capitalize("!"), "!");
    assert_eq!(capitalize("越南"), "越南");
}

#[test]
fn capitalize_of_empty_is_empty() {
    assert_eq!(capitalize(""), "");
}

#[test]
fn capitalize_beyond_ascii() {
    assert_eq!(capitalize("émile"), "Émile");
    assert_eq!(capitalize("ñandú"), "Ñandú");
    assert_eq!(capitalize("ωμέγα"), "Ωμέγα");
    assert_eq!(capitalize("жук"), "Жук");
}

#[test]
fn capitalize_where_one_letter_becomes_several() {
    assert_eq!(capitalize("ßen"), "SSen");
    assert_eq!(capitalize("ß"), "SS");
    assert_eq!(capitalize("ﬁsh"), "FIsh");
    assert_eq!(capitalize("ŉ"), "\u{2BC}N");
    assert_eq!(capitalize("ΐ"), "\u{399}\u{308}\u{301}");
}

#[test]
fn capitalize_agrees_with_std() {
    for word in ["matt", "émile", "ßen", "ǆungla", "x", "The", "ﬂy", "i̇"] {
        let mut chars = word.chars();
        let first = chars.next().unwrap();
        let expected = first.to_uppercase().collect::<String>() + chars.as_str();
        assert_eq!(capitalize(word), expected);
    }
}

#[test]
fn capitalize_never_shortens() {
    for word in ["", "a", "ß", "ﬁ", "matt", "Émile", "越"] {
        assert!(capitalize(word).chars().count() >= word.chars().count());
    }
}

#[test]
fn replace_initial_swaps_the_first_character() {
    assert_eq!(replace_initial("matt", "M"), "Matt");
    assert_eq!(replace_initial("ßen", "SS"), "SSen");
    assert_eq!(replace_initial("x", "long"), "long");
    assert_eq!(replace_initial("émile", "É"), "Émile");
    assert_eq!(replace_initial("word", ""), "ord");
}

#[test]
fn replace_initial_of_empty_is_empty() {
    assert_eq!(replace_initial("", "M"), "");
    assert_eq!(replace_initial("", ""), "");
}

#[test]
fn capitalize_words_one_by_one() {
    assert_eq!(
        capitalize_words(&strings(&["hello", "MULTI", "word", "name"])),
        strings(&["Hello", "MULTI", "Word", "Name"])
    );
    assert_eq!(capitalize_words(&Vec::new()), Vec::<String>::new());
}

#[test]
fn capitalize_words_drops_empty_words() {
    assert_eq!(capitalize_words(&strings(&["", "a", "", "", "b", ""])), strings(&["A", "B"]));
    assert_eq!(capitalize_words(&strings(&[""])), Vec::<String>::new());
}

#[test]
fn capitalising_a_word_leaves_a_word() {
    for code in 0..=0x10FFFFu32 {
        if let Some(c) = char::from_u32(code) {
            if !is_whitespace(c) {
                let shown = capitalize(&c.to_string());
                assert!(!shown.is_empty(), "U+{:04X}", code);
                assert!(shown.chars().all(|u| !is_whitespace(u)), "U+{:04X}", code);
            }
        }
    }
}

#[test]
fn capitalising_is_std_uppercase_of_the_first_character() {
    for code in 0..=0x10FFFFu32 {
        if let Some(c) = char::from_u32(code) {
            let mut word = c.to_string();
            word.push_str("tail");
            let mut expected: String = c.to_uppercase().collect();
            expected.push_str("tail");
            assert_eq!(capitalize(&word), expected, "U+{:04X}", code);
        }
    }
}
