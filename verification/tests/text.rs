use webshotd::image::ImageFormat;
use webshotd::order::{sort_strings, str_lex_le};
use webshotd::text::{frame_name, push_decimal};

fn decimal(n: usize) -> String {
    let mut s = String::new();
    push_decimal(&mut s, n);
    s
}

#[test]
fn decimal_numerals() {
    assert_eq!(decimal(0), "0");
    assert_eq!(decimal(7), "7");
    assert_eq!(decimal(10), "10");
    assert_eq!(decimal(1234567), "1234567");
    assert_eq!(decimal(usize::MAX), usize::MAX.to_string());
}

#[test]
fn push_decimal_appends() {
    let mut s = String::from("n=");
    push_decimal(&mut s, 42);
    assert_eq!(s, "n=42");
}

#[test]
fn frame_names() {
    assert_eq!(frame_name(0, ImageFormat::Webp), "frame_0.webp");
    assert_eq!(frame_name(12, ImageFormat::Jpeg), "frame_12.jpg");
    assert_eq!(frame_name(7, ImageFormat::Png), "frame_7.png");
}

#[test]
fn frame_names_are_distinct() {
    let names: Vec<String> = (0..200).map(|i| frame_name(i, ImageFormat::Png)).collect();
    for i in 0..names.len() {
        for j in 0..i {
            assert_ne!(names[i], names[j]);
        }
    }
}

#[test]
fn lexicographic_comparison() {
    assert!(str_lex_le("", ""));
    assert!(str_lex_le("", "a"));
    assert!(!str_lex_le("a", ""));
    assert!(str_lex_le("abc", "abd"));
    assert!(!str_lex_le("abd", "abc"));
    assert!(str_lex_le("ab", "abc"));
    assert!(str_lex_le("frame_1.webp", "frame_10.webp"));
    assert!(!str_lex_le("frame_2.webp", "frame_10.webp"));
    assert!(str_lex_le("Z", "a"));
    assert!(str_lex_le("é", "ü"));
    assert!(str_lex_le("z", "é"));
}

#[test]
fn lexicographic_comparison_agrees_with_string_order() {
    let words = ["", "a", "ab", "abc", "b", "ba", "é", "éa", "Z", "frame_1.png", "frame_10.png"];
    for a in words {
        for b in words {
            assert_eq!(str_lex_le(a, b), a <= b, "{a} {b}");
        }
    }
}

#[test]
fn sorting_strings() {
    let v = vec![
        "frame_2.webp".to_string(),
        "frame_10.webp".to_string(),
        "frame_1.webp".to_string(),
        "frame_0.webp".to_string(),
        "frame_1.webp".to_string(),
    ];
    let mut expected = v.clone();
    expected.sort();
    let sorted = sort_strings(v);
    assert_eq!(sorted, expected);
    assert_eq!(
        sorted,
        ["frame_0.webp", "frame_1.webp", "frame_1.webp", "frame_10.webp", "frame_2.webp"]
    );
}

#[test]
fn sorting_empty() {
    assert!(sort_strings(Vec::new()).is_empty());
}
