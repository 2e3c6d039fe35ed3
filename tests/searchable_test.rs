use browscap_rs::{Cache, Literal, SearchableString};

#[test]
fn test_base() {
    let abc = Literal::create_literal("abc", 0);
    let ab = Literal::create_literal("ab", 1);
    let string_value = "abababc".to_string();
    let mut cache = SearchableString::new(string_value, 0);
    assert_eq!(cache.starts_with(&ab), true);
    assert_eq!(cache.starts_with(&abc), false);
    //test cache
    assert_eq!(cache.starts_with(&abc), false);

    assert_eq!(cache.ends_with(&abc), true);
    assert_eq!(cache.ends_with(&ab), false);
    //test cache
    assert_eq!(cache.ends_with(&ab), false);
}

#[test]
fn test_get_indices() {
    let abc = Literal::create_literal("abc", 0);
    let ab = Literal::create_literal("ab", 1);
    let any_char = Literal::create_literal("?ab", 2);
    let no_match = Literal::create_literal("aaaaaaaaaaaaaaaaaa", 3);

    let mut cache = SearchableString::new("abababc".to_string(), no_match.get_index() + 1);
    assert_eq!(vec![4; 1], *cache.get_indices(&abc));
    assert_eq!(vec![0, 2, 4], *cache.get_indices(&ab));
    assert_eq!(vec![1, 3], *cache.get_indices(&any_char));
    assert_eq!(Vec::<usize>::new(), *cache.get_indices(&no_match));

    //test cache
    let first = cache.get_indices(&ab).clone();
    assert_eq!(first, *cache.get_indices(&ab));
}

#[test]
fn test_get_buffer() {
    let abc = Literal::create_literal("abc", 0);
    let ab = Literal::create_literal("ab", 1);
    let any_char = Literal::create_literal("?ab", 2);
    let no_match = Literal::create_literal("aaaaaaaaaaaaaaaaaa", 3);

    let mut cache = SearchableString::new("abababc".to_string(), no_match.get_index() + 1);
    println!("{:?}", cache.find_indices(&abc));
    println!("{:?}", cache.find_indices(&ab));
    println!("{:?}", cache.find_indices(&any_char));
    println!("{:?}", cache.find_indices(&no_match));
}

#[test]
fn test_cache() {
    let mut cache = Cache::new();
    assert_eq!(cache.get(0), None);
    cache.set(0, true);
    assert_eq!(cache.get(0), Some(true));

    assert_eq!(cache.get(1), None);
    cache.set(1, false);
    assert_eq!(cache.get(1), Some(false));
}

#[test]
fn cache_grows_past_its_end() {
    let mut cache = Cache::new();
    cache.set(70, false);
    assert_eq!(cache.get(70), Some(false));
    assert_eq!(cache.get(69), None);
    assert_eq!(cache.get(71), None);
    cache.set(70, true);
    assert_eq!(cache.get(70), Some(true));
}

#[test]
fn ends_with_a_literal_longer_than_the_input() {
    let long = Literal::create_literal("abcdefgh", 0);
    let mut s = SearchableString::new("abc".to_string(), 1);
    assert!(!s.ends_with(&long));
    assert_eq!(s.get_size(), 3);
}
