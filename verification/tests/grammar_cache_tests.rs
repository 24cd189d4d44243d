use voikko::grammar::cache::GcCache;
use voikko::grammar_error::GrammarError;


fn chars(s: &str) -> Vec<char> {
    s.chars().collect()
}

#[test]
fn new_cache_is_empty() {
    let cache = GcCache::new();
    assert!(cache.is_empty());
    assert_eq!(cache.error_count(), 0);
}

#[test]
fn check_empty_cache_returns_none() {
    let cache = GcCache::new();
    assert!(cache.check_cache(&chars("hello")).is_none());
}

#[test]
fn store_and_check_same_text() {
    let mut cache = GcCache::new();
    let text = chars("Koira juoksi.");
    let errors = vec![GrammarError::new(1, 0, 5)];
    cache.store_cache(&text, errors.clone());

    let result = cache.check_cache(&text);
    assert!(result.is_some());
    let cached_errors = result.unwrap();
    assert_eq!(cached_errors.len(), 1);
    assert_eq!(cached_errors[0].error_code, 1);
    assert_eq!(cached_errors[0].start_pos, 0);
}

#[test]
fn check_different_text_returns_none() {
    let mut cache = GcCache::new();
    let text1 = chars("Koira juoksi.");
    let text2 = chars("Kissa nukkui.");
    cache.store_cache(&text1, vec![]);

    assert!(cache.check_cache(&text2).is_none());
}

#[test]
fn store_replaces_previous() {
    let mut cache = GcCache::new();
    let text1 = chars("First.");
    let text2 = chars("Second.");
    cache.store_cache(&text1, vec![GrammarError::new(1, 0, 5)]);
    cache.store_cache(&text2, vec![GrammarError::new(2, 0, 6)]);

    assert!(cache.check_cache(&text1).is_none());
    let result = cache.check_cache(&text2).unwrap();
    assert_eq!(result.len(), 1);
    assert_eq!(result[0].error_code, 2);
}

#[test]
fn clear_empties_cache() {
    let mut cache = GcCache::new();
    let text = chars("Koira.");
    cache.store_cache(&text, vec![GrammarError::new(1, 0, 5)]);
    assert!(!cache.is_empty());

    cache.clear();
    assert!(cache.is_empty());
    assert_eq!(cache.error_count(), 0);
    assert!(cache.check_cache(&text).is_none());
}

#[test]
fn store_sorts_errors_by_start_pos() {
    let mut cache = GcCache::new();
    let text = chars("Koira juoksi nopeasti.");
    let errors = vec![
        GrammarError::new(1, 15, 3),
        GrammarError::new(2, 0, 5),
        GrammarError::new(3, 6, 6),
    ];
    cache.store_cache(&text, errors);

    let result = cache.check_cache(&text).unwrap();
    assert_eq!(result[0].start_pos, 0);
    assert_eq!(result[1].start_pos, 6);
    assert_eq!(result[2].start_pos, 15);
}

#[test]
fn append_error_maintains_sorted_order() {
    let mut cache = GcCache::new();
    let text = chars("Koira juoksi.");
    cache.store_cache(&text, vec![
        GrammarError::new(1, 0, 5),
        GrammarError::new(3, 10, 3),
    ]);

    // Insert in the middle.
    cache.append_error(GrammarError::new(2, 6, 4));

    let result = cache.check_cache(&text).unwrap();
    assert_eq!(result.len(), 3);
    assert_eq!(result[0].start_pos, 0);
    assert_eq!(result[1].start_pos, 6);
    assert_eq!(result[2].start_pos, 10);
}

#[test]
fn append_error_at_beginning() {
    let mut cache = GcCache::new();
    let text = chars("Hello.");
    cache.store_cache(&text, vec![GrammarError::new(1, 5, 1)]);

    cache.append_error(GrammarError::new(2, 0, 3));

    let result = cache.check_cache(&text).unwrap();
    assert_eq!(result.len(), 2);
    assert_eq!(result[0].start_pos, 0);
    assert_eq!(result[1].start_pos, 5);
}

#[test]
fn append_error_at_end() {
    let mut cache = GcCache::new();
    let text = chars("Hello.");
    cache.store_cache(&text, vec![GrammarError::new(1, 0, 3)]);

    cache.append_error(GrammarError::new(2, 5, 1));

    let result = cache.check_cache(&text).unwrap();
    assert_eq!(result.len(), 2);
    assert_eq!(result[0].start_pos, 0);
    assert_eq!(result[1].start_pos, 5);
}

#[test]
fn append_error_with_same_start_pos() {
    let mut cache = GcCache::new();
    let text = chars("Hello.");
    cache.store_cache(&text, vec![GrammarError::new(1, 0, 3)]);

    cache.append_error(GrammarError::new(2, 0, 5));

    let result = cache.check_cache(&text).unwrap();
    assert_eq!(result.len(), 2);
    // Both at position 0; order is: existing first, then appended.
    assert_eq!(result[0].error_code, 1);
    assert_eq!(result[1].error_code, 2);
}

#[test]
fn check_cache_empty_text() {
    let mut cache = GcCache::new();
    let empty: Vec<char> = Vec::new();
    cache.store_cache(&empty, vec![]);

    let result = cache.check_cache(&empty);
    assert!(result.is_some());
    assert!(result.unwrap().is_empty());
}

#[test]
fn store_with_no_errors() {
    let mut cache = GcCache::new();
    let text = chars("Clean paragraph.");
    cache.store_cache(&text, vec![]);

    let result = cache.check_cache(&text).unwrap();
    assert!(result.is_empty());
    assert!(!cache.is_empty());
}

#[test]
fn store_keeps_equal_starts_in_order() {
    let mut cache = GcCache::new();
    let text: Vec<char> = "abcdef".chars().collect();
    cache.store_cache(
        &text,
        vec![
            GrammarError::new(1, 4, 1),
            GrammarError::new(2, 2, 1),
            GrammarError::new(3, 4, 2),
            GrammarError::new(4, 2, 2),
        ],
    );
    let codes: Vec<i32> = cache.check_cache(&text).unwrap().iter().map(|e| e.error_code).collect();
    assert_eq!(codes, vec![2, 4, 1, 3]);
}

#[test]
fn append_goes_after_every_error_not_starting_later() {
    let mut cache = GcCache::new();
    let text: Vec<char> = "abcdef".chars().collect();
    cache.store_cache(
        &text,
        vec![GrammarError::new(1, 1, 1), GrammarError::new(2, 3, 1), GrammarError::new(3, 5, 1)],
    );
    cache.append_error(GrammarError::new(9, 3, 1));
    let codes: Vec<i32> = cache.check_cache(&text).unwrap().iter().map(|e| e.error_code).collect();
    assert_eq!(codes, vec![1, 2, 9, 3]);
    assert_eq!(cache.error_count(), 4);
}
