use newsletter::headers::{key_is_less, sorted_headers};

#[test]
fn key_is_less_matches_string_order() {
    let keys = ["", "a", "ab", "b", "B", "\u{e9}", "\u{1f600}", "a\u{0}", "Z-1", "Z-10"];
    for a in keys {
        for b in keys {
            let (x, y) = (a.to_string(), b.to_string());
            assert_eq!(key_is_less(&x, &y), x < y, "{a:?} {b:?}");
        }
    }
}

#[test]
fn sorted_headers_sorts_and_deduplicates() {
    let pairs = vec![
        ("b".to_string(), "1".to_string()),
        ("a".to_string(), "2".to_string()),
        ("b".to_string(), "3".to_string()),
        ("c".to_string(), "4".to_string()),
        ("a".to_string(), "5".to_string()),
    ];
    assert_eq!(
        sorted_headers(&pairs),
        vec![
            ("a".to_string(), "5".to_string()),
            ("b".to_string(), "3".to_string()),
            ("c".to_string(), "4".to_string()),
        ]
    );
    assert_eq!(sorted_headers(&vec![]), vec![]);
}
