use browscap_rs::{Literal, LiteralPool};

#[test]
fn test_literal_basic() {
    let str = "abcdef";
    let mut pool = LiteralPool::new();
    let literal = pool.get_literal(str);
    assert_eq!(str.len(), literal.get_length());
    assert_eq!('a', literal.get_first_char());
    assert_eq!(literal.get_string(), literal.get_string());
    let literal2 = pool.get_literal("di");
    assert_eq!(literal2.get_index(), 1)
}

#[test]
fn test_literal_matches() {
    let literal = Literal::create_literal("def", 0);
    let search: Vec<char> = "abcdef".chars().collect();
    assert_eq!(literal.matches(&search, 3), true);
    assert_eq!(literal.matches(&search, 0), false);
    assert_eq!(literal.matches(&search, 5), false);
    assert_eq!(literal.matches(&search, 100), false);

    let joker = Literal::create_literal("d?f", 1);
    assert_eq!(joker.matches(&search, 3), true);
    assert_eq!(joker.matches(&search, 0), false);
    assert_eq!(joker.matches(&search, 5), false);
}

#[test]
fn test_literal_requires() {
    let literal = Literal::create_literal("hello", 0);
    assert_eq!(literal.requires_substring("hello"), true);
    assert_eq!(literal.requires_substring("hell"), true);
    assert_eq!(literal.requires_substring("hello world"), false);
    assert_eq!(literal.requires_substring("morning world"), false);
    assert_eq!(literal.requires_substring("helloworld"), false);
}

#[test]
fn interning_gives_one_id_per_text() {
    let mut pool = LiteralPool::new();
    let a = pool.get_literal("safari");
    let b = pool.get_literal("chrome");
    let c = pool.get_literal("safari");
    assert_eq!(a.get_index(), 0);
    assert_eq!(b.get_index(), 1);
    assert_eq!(c.get_index(), a.get_index());
    assert_ne!(a.get_index(), b.get_index());
    assert_eq!(pool.len(), 2);
    assert_eq!(c.get_string(), "safari");
}

#[test]
fn question_mark_takes_exactly_one_char() {
    let lit = Literal::create_literal("a?c", 0);
    let abc: Vec<char> = "abc".chars().collect();
    let axc: Vec<char> = "axc".chars().collect();
    let ac: Vec<char> = "ac".chars().collect();
    assert!(lit.matches(&abc, 0));
    assert!(lit.matches(&axc, 0));
    assert!(!lit.matches(&ac, 0));
}

#[test]
fn begins_with_compares_plain_text() {
    let lit = Literal::create_literal("mozilla/5.0 (windows", 0);
    assert!(lit.begins_with("mozilla/5.0"));
    assert!(!lit.begins_with("mozilla/4"));
    assert!(!lit.begins_with("mozilla/5.0 (windows nt"));
}
