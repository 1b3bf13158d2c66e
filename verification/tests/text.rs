use cc_goto_work::text::{
    chars_of, find_from, has, is_space_char, is_word, matches_at, rfind_before, same_chars,
    to_lower, to_lower_char, to_upper, to_upper_char, trim_bounds,
};

fn cs(s: &str) -> Vec<char> {
    s.chars().collect()
}

#[test]
fn chars_of_gives_the_characters() {
    assert_eq!(chars_of(""), Vec::<char>::new());
    assert_eq!(chars_of("aé日"), vec!['a', 'é', '日']);
}

#[test]
fn case_folding_of_single_characters() {
    for code in 0..=0x10FFFFu32 {
        if let Some(c) = char::from_u32(code) {
            assert_eq!(to_upper_char(c), c.to_ascii_uppercase());
            assert_eq!(to_lower_char(c), c.to_ascii_lowercase());
        }
    }
}

#[test]
fn case_folding_of_texts() {
    assert_eq!(to_upper(&cs("aZ_é09ß")), cs("AZ_é09ß"));
    assert_eq!(to_lower(&cs("aZ_É09")), cs("az_É09"));
    assert_eq!(to_upper(&cs("")), cs(""));
}

#[test]
fn white_space_is_what_the_standard_library_calls_so() {
    for code in 0..=0x10FFFFu32 {
        if let Some(c) = char::from_u32(code) {
            assert_eq!(is_space_char(c), c.is_whitespace(), "U+{:04X}", code);
        }
    }
}

#[test]
fn matches_at_checks_one_position() {
    let hay = cs("abcabc");
    assert!(matches_at(&hay, &cs("abc"), 0));
    assert!(matches_at(&hay, &cs("abc"), 3));
    assert!(!matches_at(&hay, &cs("abc"), 1));
    assert!(!matches_at(&hay, &cs("abc"), 4));
    assert!(!matches_at(&hay, &cs("abc"), 100));
    assert!(matches_at(&hay, &cs(""), 6));
    assert!(!matches_at(&hay, &cs(""), 7));
    assert!(!matches_at(&cs("ab"), &cs("abc"), 0));
}

#[test]
fn find_from_gives_the_first_occurrence() {
    let hay = cs("abcabcabc");
    assert_eq!(find_from(&hay, &cs("abc"), 0), Some(0));
    assert_eq!(find_from(&hay, &cs("abc"), 1), Some(3));
    assert_eq!(find_from(&hay, &cs("abc"), 6), Some(6));
    assert_eq!(find_from(&hay, &cs("abc"), 7), None);
    assert_eq!(find_from(&hay, &cs("abd"), 0), None);
    assert_eq!(find_from(&hay, &cs(""), 4), Some(4));
    assert_eq!(find_from(&hay, &cs(""), 9), Some(9));
    assert_eq!(find_from(&hay, &cs(""), 10), None);
    assert_eq!(find_from(&cs(""), &cs("a"), 0), None);
    assert_eq!(find_from(&cs("aab"), &cs("ab"), 0), Some(1));
}

#[test]
fn rfind_before_gives_the_last_occurrence() {
    let hay = cs("abcabcabc");
    assert_eq!(rfind_before(&hay, &cs("abc"), 9), Some(6));
    assert_eq!(rfind_before(&hay, &cs("abc"), 8), Some(3));
    assert_eq!(rfind_before(&hay, &cs("abc"), 3), Some(0));
    assert_eq!(rfind_before(&hay, &cs("abc"), 2), None);
    assert_eq!(rfind_before(&hay, &cs("abd"), 9), None);
    assert_eq!(rfind_before(&hay, &cs(""), 5), Some(5));
    assert_eq!(rfind_before(&hay, &cs(""), 0), Some(0));
}

#[test]
fn has_agrees_with_the_standard_library() {
    let hays = ["", "a", "abc", "xxabcxx", "ababab", "日本語abc", "aab"];
    let pats = ["", "a", "abc", "ab", "ba", "c", "語a", "abcd"];
    for hay in hays {
        for pat in pats {
            assert_eq!(has(&cs(hay), pat), hay.contains(pat), "{:?} in {:?}", pat, hay);
        }
    }
}

#[test]
fn same_chars_compares_texts() {
    assert!(same_chars(&cs(""), &cs("")));
    assert!(same_chars(&cs("abc"), &cs("abc")));
    assert!(!same_chars(&cs("abc"), &cs("abd")));
    assert!(!same_chars(&cs("abc"), &cs("ab")));
}

#[test]
fn is_word_ignores_ascii_case() {
    assert!(is_word("END_TURN", "end_turn"));
    assert!(is_word("end_turn", "end_turn"));
    assert!(!is_word("end_turn ", "end_turn"));
    assert!(!is_word("end-turn", "end_turn"));
    assert!(is_word("", ""));
    assert!(!is_word("É", "é"));
}

#[test]
fn trim_bounds_finds_the_kept_part() {
    assert_eq!(trim_bounds(&cs("  ab c \n")), (2, 6));
    assert_eq!(trim_bounds(&cs("abc")), (0, 3));
    assert_eq!(trim_bounds(&cs("")), (0, 0));
    assert_eq!(trim_bounds(&cs(" \t\n")), (3, 0));
    assert_eq!(trim_bounds(&cs(" x")), (1, 2));
}

#[test]
fn trim_bounds_agree_with_the_standard_library() {
    let texts = [
        "",
        " ",
        "a",
        " a",
        "a ",
        "  a b  ",
        "\u{3000}日本\u{2009}語\u{00A0}",
        "\r\n\t x \r\n",
    ];
    for text in texts {
        let chars = cs(text);
        let (from, to) = trim_bounds(&chars);
        let kept: String = if from < to {
            chars[from..to].iter().collect()
        } else {
            String::new()
        };
        assert_eq!(kept, text.trim());
    }
}
