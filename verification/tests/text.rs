use quilt_mesh::text::{
    chars_of, comes_before, copy_list, copy_opt, is_whitespace, joined, list_has, number_text,
    same_text, signed_number_text, starts_with, trim,
};

#[test]
fn white_space_is_that_of_unicode() {
    for code in 0u32..=0x10_ffff {
        if let Some(c) = char::from_u32(code) {
            assert_eq!(is_whitespace(c), c.is_whitespace(), "{:x}", code);
        }
    }
}

#[test]
fn trimming_takes_both_ends() {
    for text in ["", "  ", "a", " a b ", "\t\u{a0}x\u{2003}\n", "\u{3000}", "no space"] {
        assert_eq!(trim(text), text.trim());
    }
}

#[test]
fn texts_are_ordered_by_code_points() {
    let words = ["", "a", "ab", "b", "Z", "é", "zz", "\u{ffff}", "\u{10000}", "tenant-10"];
    for a in words {
        for b in words {
            assert_eq!(comes_before(a, b), a < b, "{:?} {:?}", a, b);
            assert_eq!(same_text(a, b), a == b);
        }
    }
}

#[test]
fn prefixes_are_found() {
    assert!(starts_with("retryable=true", "retryable="));
    assert!(starts_with("abc", ""));
    assert!(!starts_with("ab", "abc"));
    assert!(!starts_with("xabc", "abc"));
}

#[test]
fn numbers_are_written_out() {
    for n in [0u64, 7, 10, 99, 100, 12_345, u64::MAX] {
        assert_eq!(number_text(n), n.to_string());
    }
    for n in [0i64, -1, 42, i64::MIN, i64::MAX, -1_000] {
        assert_eq!(signed_number_text(n), n.to_string());
    }
}

#[test]
fn lists_are_copied_and_searched() {
    let list = vec!["a".to_string(), "b".to_string()];
    assert_eq!(copy_list(&list), list);
    assert!(list_has(&list, "b"));
    assert!(!list_has(&list, "c"));
    assert_eq!(copy_opt(&Some("x".to_string())), Some("x".to_string()));
    assert_eq!(copy_opt(&None), None);
    assert_eq!(joined("ab", "cd"), "abcd");
    assert_eq!(chars_of("aé"), vec!['a', 'é']);
}
