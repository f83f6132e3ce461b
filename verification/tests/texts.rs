//! Texts, their order, their lines and tables of them.

use vxpm::line::{line_texts, reline};
use vxpm::order::{comes_before, sorted, sorted_set};
use vxpm::table::TextMap;
use vxpm::text::{
    cat, cat3, chars_of, contains_text, digits_up_to, index_of_text, joined, last_index_of,
    lines_of, number, number_up_to, replaced, same_text, split_at_text, text_of, trimmed, white,
    words_of,
};

fn texts(v: &[&str]) -> Vec<String> {
    v.iter().map(|s| s.to_string()).collect()
}

fn shown(v: Vec<&[char]>) -> Vec<String> {
    v.iter().map(|c| c.iter().collect()).collect()
}

#[test]
fn characters_and_back() {
    let s = "äb\u{1f980}";
    assert_eq!(text_of(&chars_of(s)), s);
    assert!(same_text("ab", "ab"));
    assert!(!same_text("ab", "ac"));
    assert!(contains_text(&texts(&["a", "b"]), "b"));
    assert!(!contains_text(&texts(&["a", "b"]), "c"));
}

#[test]
fn white_space_as_the_standard_library_has_it() {
    for n in 0..0x11000u32 {
        if let Some(c) = char::from_u32(n) {
            assert_eq!(white(c), c.is_whitespace(), "{:x}", n);
        }
    }
}

#[test]
fn pieces_of_texts_as_the_standard_library_has_them() {
    for s in ["", "a", " a  b\t", "a\nb\r\nc", "\n\n", "x\n", "\r", "a\r\n\r\nb", "\u{a0}a\u{2003}b"] {
        let c = chars_of(s);
        assert_eq!(shown(lines_of(&c)), s.lines().collect::<Vec<&str>>(), "{:?}", s);
        assert_eq!(shown(words_of(&c)), s.split_whitespace().collect::<Vec<&str>>(), "{:?}", s);
        assert_eq!(text_of(trimmed(&c)), s.trim(), "{:?}", s);
        assert_eq!(line_texts(s), s.lines().collect::<Vec<&str>>(), "{:?}", s);
    }
    for (s, p) in [("aXXbXXc", "XX"), ("XXX", "XX"), ("", "XX"), ("aaa", "b"), ("ababa", "aba")] {
        let c = chars_of(s);
        assert_eq!(shown(split_at_text(&c, p)), s.split(p).collect::<Vec<&str>>());
        assert_eq!(text_of(&replaced(&c, &chars_of(p), &chars_of("-y-"))), s.replace(p, "-y-"));
        assert_eq!(index_of_text(&c, &chars_of(p)), s.find(p));
    }
    assert_eq!(last_index_of(&chars_of("a-b-c"), '-'), Some(3));
    assert_eq!(last_index_of(&chars_of("abc"), '-'), None);
}

#[test]
fn texts_are_put_together() {
    assert_eq!(cat("a", "b"), "ab");
    assert_eq!(cat3("a", "-", "b"), "a-b");
    assert_eq!(joined(&texts(&["a", "b", "c"]), ", "), "a, b, c");
    assert_eq!(joined(&Vec::new(), ", "), "");
}

#[test]
fn numbers_read_back() {
    for n in [0, 7, 10, 99, 1000, 4294967295, u64::MAX] {
        assert_eq!(number(n), n.to_string());
        assert_eq!(digits_up_to(&chars_of(&number(n)), u64::MAX), Some(n));
    }
    assert_eq!(number_up_to(&chars_of("+5"), 9), Some(5));
    assert_eq!(number_up_to(&chars_of("10"), 9), None);
    assert_eq!(number_up_to(&chars_of(""), 9), None);
    assert_eq!(number_up_to(&chars_of("+"), 9), None);
    assert_eq!(number_up_to(&chars_of("5x"), 9), None);
    assert_eq!(number_up_to(&chars_of("0005"), 9), Some(5));
}

#[test]
fn texts_in_order() {
    let words = ["", "a", "ab", "b", "ba", "ä", "Z", "z", "\u{1f980}"];
    for a in words {
        for b in words {
            assert_eq!(comes_before(a, b), a < b);
        }
    }
    assert_eq!(sorted(&texts(&["b", "a", "c", "a"])), ["a", "a", "b", "c"]);
    assert_eq!(sorted_set(&texts(&["b", "c", "a"])), ["a", "b", "c"]);
    assert_eq!(sorted_set(&texts(&["c", "b", "a"])), sorted_set(&texts(&["a", "c", "b"])));
}

#[test]
fn lines_are_put_together_again() {
    for s in ["", "a\nb\n", "a\nb", "\n", "a"] {
        assert_eq!(reline(s, &line_texts(s)), s);
    }
}

#[test]
fn tables_of_texts() {
    let mut map: TextMap<String> = TextMap::new();
    assert!(!map.contains_key("a"));
    map.insert("a".to_string(), "1".to_string());
    map.insert("b".to_string(), "2".to_string());
    map.insert("a".to_string(), "3".to_string());
    assert_eq!(map.get("a").map(|s| s.as_str()), Some("3"));
    assert_eq!(map.entries.len(), 2);
    assert_eq!(map.text_or_empty("b"), "2");
    assert_eq!(map.text_or_empty("c"), "");
    let mut lists: TextMap<Vec<u8>> = TextMap::new();
    lists.push_at("x".to_string(), 1);
    lists.push_at("x".to_string(), 2);
    lists.push_at("y".to_string(), 3);
    assert_eq!(lists.get("x"), Some(&vec![1, 2]));
    assert_eq!(lists.get("y"), Some(&vec![3]));
}
