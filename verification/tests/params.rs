use context_analyzer::{
    format_varying_indexes, parse_amount, parse_confusion_set, parse_n, parse_number_of_ngrams,
    parse_varying_indexes, NGramCounts, QueryMap,
};

#[test]
fn test_parse_varying_indexes() {
    let indexes = parse_varying_indexes("1,2,3", 3);

    assert_eq!(indexes, Ok(vec![1, 2, 3]));
}

#[test]
fn test_parse_varying_indexes_invalid_index() {
    let indexes = parse_varying_indexes("1,2,3a", 3);

    assert_eq!(indexes.is_err(), true);
}

#[test]
fn test_parse_amount() {
    let amount = parse_amount("1");

    assert_eq!(amount, Ok(1));
}

#[test]
fn test_parse_amount_invalid_amount() {
    let amount = parse_amount("1a");

    assert_eq!(amount.is_err(), true);
}

#[test]
fn test_parse_varying_indexes_duplicate_rejected() {
    let indexes = parse_varying_indexes("1,1", 2);

    assert_eq!(indexes, Err("Invalid index".to_string()));
}

#[test]
fn test_parse_varying_indexes_out_of_range_rejected() {
    let indexes = parse_varying_indexes("3", 2);

    assert_eq!(indexes, Err("Invalid index".to_string()));
}

#[test]
fn test_parse_varying_indexes_empty_rejected() {
    let indexes = parse_varying_indexes("", 3);

    assert_eq!(indexes, Err("Invalid index".to_string()));
}

#[test]
fn test_format_varying_indexes_round_trip() {
    let indexes = vec![2, 1];
    let formatted = format_varying_indexes(&indexes);

    assert_eq!(formatted, "2,1");
    assert_eq!(parse_varying_indexes(formatted.as_str(), 2), Ok(vec![2, 1]));
}

#[test]
fn test_parse_n() {
    let mut query = QueryMap::new();
    query.insert("n".to_string(), "2".to_string());

    assert_eq!(parse_n(&query), Ok(2));
}

#[test]
fn test_parse_n_missing() {
    let query = QueryMap::new();

    assert_eq!(parse_n(&query), Err("Missing n".to_string()));
}

#[test]
fn test_parse_n_invalid() {
    let mut query = QueryMap::new();
    query.insert("n".to_string(), "x".to_string());

    assert_eq!(parse_n(&query), Err("Invalid n".to_string()));
}

#[test]
fn test_parse_confusion_set() {
    let contents = "their there\ntheir they're\n".to_string();
    let set = parse_confusion_set(contents);

    assert_eq!(set.len(), 2);
    assert_eq!(set[0], vec!["their".to_string(), "there".to_string()]);
    assert_eq!(set[1], vec!["their".to_string(), "they're".to_string()]);
}

#[test]
fn test_parse_number_of_ngrams() {
    let contents = "1 1000000\n2 100000\n3 10000\n".to_string();
    let counts = parse_number_of_ngrams(contents).unwrap();

    assert_eq!(
        counts,
        NGramCounts { one: 1000000, two: 100000, three: 10000 }
    );
}

#[test]
fn test_parse_number_of_ngrams_invalid_n() {
    let contents = "4 10\n".to_string();

    assert!(parse_number_of_ngrams(contents).is_err());
}

#[test]
fn test_parse_number_of_ngrams_malformed_line() {
    let contents = "abc\n".to_string();

    assert!(parse_number_of_ngrams(contents).is_err());
}

#[test]
fn test_query_map_insert_overrides() {
    let mut query = QueryMap::new();
    query.insert("word1".to_string(), "old".to_string());
    query.insert("word1".to_string(), "new".to_string());

    assert_eq!(query.get("word1"), Some(&"new".to_string()));
    assert_eq!(query.get("word2"), None);
}
