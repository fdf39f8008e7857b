use terminalt::keyed::KeyedList;
use terminalt::lists::index_of;
use terminalt::sort::order_of;
use terminalt::text::{
    ascii_lowercase, byte_len, comes_before, contains, decimal_text, join, parse_number,
    take_chars, trimmed, without_trailing, words_of,
};

#[test]
fn numbers_are_written_in_decimal() {
    assert_eq!(decimal_text(1080), "1080");
    assert_eq!(decimal_text(0), "0");
    assert_eq!(decimal_text(u64::MAX), u64::MAX.to_string());
}

#[test]
fn numbers_are_read_as_the_standard_library_reads_them() {
    for text in ["0", "7", "+7", "-7", "", "+", "007", "1_0", " 1", "255", "256", "１"] {
        assert_eq!(
            parse_number(text, 255),
            text.parse::<u8>().ok().map(u64::from),
            "{text}"
        );
    }
    assert_eq!(parse_number("18446744073709551615", u64::MAX), Some(u64::MAX));
    assert_eq!(parse_number("18446744073709551616", u64::MAX), None);
}

#[test]
fn white_space_is_what_the_standard_library_takes_for_it() {
    for character in '\0'..=char::MAX {
        let text = character.to_string();
        assert_eq!(
            trimmed(&text).is_empty(),
            character.is_whitespace(),
            "{character:?}"
        );
        assert_eq!(
            words_of(&text, false).is_empty(),
            text.split_whitespace().next().is_none()
        );
        assert_eq!(
            words_of(&text, true).is_empty(),
            text.split_ascii_whitespace().next().is_none()
        );
    }
}

#[test]
fn texts_are_taken_apart_and_put_together() {
    assert_eq!(trimmed("\u{3000} a b \n"), "a b");
    assert_eq!(without_trailing("/a//", '/'), "/a");
    assert_eq!(byte_len("名a"), 4);
    assert_eq!(take_chars("日志文件", 2), "日志");
    assert_eq!(words_of(" a  b ", false), vec!["a", "b"]);
    assert_eq!(join(&vec!["a".to_owned(), "b".to_owned()], ", "), "a, b");
    assert_eq!(ascii_lowercase("AbÇ"), "abÇ");
    assert!(contains("abc", "bc"));
    assert!(!contains("abc", "cb"));
}

#[test]
fn texts_are_ordered_as_the_standard_library_orders_them() {
    let texts = ["", "a", "ab", "b", "é", "中", "🚀", "a\0"];
    for a in texts {
        for b in texts {
            assert_eq!(comes_before(a, b), a < b);
        }
    }
}

#[test]
fn sorting_is_stable() {
    assert_eq!(order_of(&vec![3_u64, 1, 2, 1, 3]), vec![1, 3, 2, 0, 4]);
    assert!(order_of(&Vec::<u64>::new()).is_empty());
}

#[test]
fn keyed_lists_keep_one_value_for_each_key() {
    let mut list = KeyedList::new();
    list.put("a".to_owned(), "1".to_owned());
    list.put("b".to_owned(), "2".to_owned());
    list.put("a".to_owned(), "3".to_owned());
    assert_eq!(list.len(), 2);
    assert_eq!(list.text("a").as_deref(), Some("3"));
    assert_eq!(list.take("b").as_deref(), Some("2"));
    assert!(list.text("b").is_none());
    assert_eq!(index_of(&vec!["x".to_owned(), "y".to_owned()], "y"), Some(1));
}
