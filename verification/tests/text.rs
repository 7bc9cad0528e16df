use superfusion::text::{chars_of, comes_before, decimal};

#[test]
fn decimal_writes_the_number() {
    assert_eq!(decimal(0), "0");
    assert_eq!(decimal(7), "7");
    assert_eq!(decimal(10), "10");
    assert_eq!(decimal(42), "42");
    assert_eq!(decimal(1000), "1000");
    assert_eq!(decimal(1234567890), "1234567890");
    assert_eq!(decimal(usize::MAX), usize::MAX.to_string());
}

#[test]
fn decimal_is_what_the_formatter_of_numbers_gives() {
    for n in 0..2000usize {
        assert_eq!(decimal(n), n.to_string());
    }
}

#[test]
fn chars_of_keeps_the_characters() {
    assert_eq!(chars_of("a/é.b"), vec!['a', '/', 'é', '.', 'b']);
    assert_eq!(chars_of(""), Vec::<char>::new());
}

#[test]
fn comes_before_is_the_order_of_texts() {
    let texts = ["", "a", "a/b", "a/c", "ab", "b", "B", "é", "z", "a.json", "a_0.json", "\u{10000}"];
    for x in texts {
        for y in texts {
            assert_eq!(comes_before(x, y), x < y, "{:?} before {:?}", x, y);
        }
    }
}

#[test]
fn a_proper_beginning_comes_first() {
    assert!(comes_before("foo", "foo.json"));
    assert!(!comes_before("foo.json", "foo"));
    assert!(!comes_before("foo", "foo"));
}
