use noten::text::{compare_text, decimal_text, TextOrder};

#[test]
fn numbers_are_written_in_decimal() {
    assert_eq!(decimal_text(0), "0");
    assert_eq!(decimal_text(7), "7");
    assert_eq!(decimal_text(9), "9");
    assert_eq!(decimal_text(10), "10");
    assert_eq!(decimal_text(30), "30");
    assert_eq!(decimal_text(95), "95");
    assert_eq!(decimal_text(100), "100");
    assert_eq!(decimal_text(2024), "2024");
    assert_eq!(decimal_text(1234567890), "1234567890");
    assert_eq!(decimal_text(u32::MAX), "4294967295");
}

#[test]
fn decimal_agrees_with_the_standard_library() {
    let mut n: u32 = 1;
    for _ in 0..200 {
        assert_eq!(decimal_text(n), n.to_string());
        n = n.wrapping_mul(2654435761).wrapping_add(12345);
    }
}

#[test]
fn texts_compare_like_in_a_dictionary() {
    assert_eq!(compare_text("", ""), TextOrder::Same);
    assert_eq!(compare_text("", "a"), TextOrder::Before);
    assert_eq!(compare_text("a", ""), TextOrder::After);
    assert_eq!(compare_text("grade", "grade"), TextOrder::Same);
    assert_eq!(compare_text("grade", "grade_type"), TextOrder::Before);
    assert_eq!(compare_text("grade_type", "grade"), TextOrder::After);
    assert_eq!(compare_text("subject", "year"), TextOrder::Before);
    assert_eq!(compare_text("Zebra", "apple"), TextOrder::Before);
    assert_eq!(compare_text("b", "ab"), TextOrder::After);
    assert_eq!(compare_text("z", "é"), TextOrder::Before);
    assert_eq!(compare_text("é", "e"), TextOrder::After);
}

#[test]
fn comparing_agrees_with_the_standard_library() {
    let words = ["", "a", "ab", "abc", "b", "B", "é", "e", "zz", "grade", "grade_type", "日本"];
    for a in words {
        for b in words {
            let expected = match a.cmp(b) {
                std::cmp::Ordering::Less => TextOrder::Before,
                std::cmp::Ordering::Equal => TextOrder::Same,
                std::cmp::Ordering::Greater => TextOrder::After,
            };
            assert_eq!(compare_text(a, b), expected);
        }
    }
}
