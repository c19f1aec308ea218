use codeowners_perf::order::{insert_unique, locate, place, Placement, Slot};
use codeowners_perf::text::{
    align_left, align_right, characters, contains, count_string, decimal_string, first_of, line_count,
    repeat, same_optional_text, same_text, signed_decimal_string, split_lines, string_from, trim,
    white_space,
};

#[test]
fn numbers_are_written_in_decimal() {
    for n in [0u128, 7, 9, 10, 42, 99, 100, 1_000, 18_446_744_073_709_551_615, u128::MAX] {
        assert_eq!(decimal_string(n), n.to_string());
    }
    for i in [0i128, 5, -5, -10, i128::MAX, i128::MIN] {
        assert_eq!(signed_decimal_string(i), i.to_string());
    }
    assert_eq!(count_string(2000), "2000");
}

#[test]
fn columns_are_padded_by_character() {
    for s in ["", "gv", "validate_files_1000", "a name that is longer than the column", "é—±"] {
        assert_eq!(align_left(s, 22), format!("{s:<22}"));
        assert_eq!(align_right(s, 10), format!("{s:>10}"));
    }
    assert_eq!(repeat('-', 72), "-".repeat(72));
    assert_eq!(repeat('x', 0), "");
}

#[test]
fn lines_end_in_line_feeds() {
    for s in ["", "\n", "a", "a\n", "a\nb", "a\r\nb\r\n", "a\r", "a\r\n\r", "\n\n", "\r\n", "é\nü\n", "a\rb\n"] {
        let expected: Vec<String> = s.lines().map(|line| line.to_string()).collect();
        assert_eq!(split_lines(s), expected);
        assert_eq!(line_count(s), expected.len());
    }
    assert_eq!(split_lines("a\r\nb\r"), vec!["a".to_string(), "b\r".to_string()]);
}

#[test]
fn white_space_is_that_of_unicode() {
    for code in 0..=0x10ffffu32 {
        if let Some(c) = char::from_u32(code) {
            assert_eq!(white_space(c), c.is_whitespace(), "U+{code:04X}");
        }
    }
    for s in ["", " ", "abc\n", "\t a b \u{3000}", "\u{a0}x\u{2009}", "no", "\n\n"] {
        assert_eq!(trim(s), s.trim());
    }
}

#[test]
fn patterns_are_found() {
    for s in ["validate_files_1000", "gv", "", "aab"] {
        for pattern in ["", "v", "gv", "files_100", "cold", "validate_files_1000x", "ab"] {
            assert_eq!(contains(s, pattern), s.contains(pattern), "{pattern} in {s}");
        }
    }
}

#[test]
fn order_is_that_of_strings() {
    let words = ["", "a", "aa", "ab", "b", "B", "é", "z", "\u{ffff}", "\u{10000}", "a/b", "a.b", "a-b"];
    for a in words {
        for b in words {
            let expected = if a < b {
                Placement::Before
            } else if a == b {
                Placement::Same
            } else {
                Placement::After
            };
            assert!(place(a, b) == expected, "{a} and {b}");
            assert_eq!(same_text(a, b), a == b);
        }
    }
    assert!(same_optional_text(&None, &None));
    assert!(!same_optional_text(&Some(String::new()), &None));
    assert!(same_optional_text(&Some("x".to_string()), &Some("x".to_string())));
}

#[test]
fn sorted_list_holds_each_string_once() {
    let mut list: Vec<String> = vec![];
    for s in ["b", "a", "c", "a", "b", "aa", ""] {
        insert_unique(&mut list, s.to_string());
    }
    assert_eq!(list, vec!["", "a", "aa", "b", "c"]);
    assert!(locate(&list, "aa") == Slot::Found(2));
    assert!(locate(&list, "ab") == Slot::Vacant(3));
    assert!(locate(&list, "z") == Slot::Vacant(5));
}

#[test]
fn characters_and_strings_convert() {
    let chars = characters("aé—");
    assert_eq!(chars, vec!['a', 'é', '—']);
    assert_eq!(string_from(&chars, 1, 3), "é—");
    assert_eq!(first_of(&vec!["x".to_string(), "y".to_string()], 1), vec!["x".to_string()]);
}
