use context_analyzer::db::{get_n_gram_string, GET_ALL_VARYING_1, GET_ALL_VARYING_3_1,
    GET_ALL_VARYING_3_3};
use context_analyzer::n_grams::three_grams::model::ThreeGramInput;
use context_analyzer::n_grams::vary_n_gram::{VaryingNGram, VaryingQueryResult};
use context_analyzer::n_grams::word_freq_pair::WordFreqPair;

#[test]
fn test_new() {
    let word_freq_pair = WordFreqPair::new("word".to_string(), 1);

    assert_eq!(word_freq_pair.word, "word");
    assert_eq!(word_freq_pair.frequency, 1);
}

#[test]
fn test_find() {
    let word_freq_pair1 = WordFreqPair::new("word".to_string(), 1);
    let word_freq_pair2 = WordFreqPair::new("word2".to_string(), 2);
    let word_freq_pair3 = WordFreqPair::new("word3".to_string(), 3);
    let pairs = vec![word_freq_pair1, word_freq_pair2, word_freq_pair3];

    let result = WordFreqPair::find(&pairs, "word");

    assert!(result.is_some());
    assert_eq!(result.unwrap().word, "word");
}

#[test]
fn test_find_freq() {
    let vary = VaryingNGram {
        index: 1,
        word: "hello".to_string(),
        solutions: vec![
            WordFreqPair::new("hello".to_string(), 1),
            WordFreqPair::new("world".to_string(), 2),
        ],
    };
    let word = "hello".to_string();
    assert_eq!(VaryingNGram::find_freq(&vary, &word), Ok(1));
}

#[test]
fn test_find_freq_fail() {
    let vary = VaryingNGram {
        index: 1,
        word: "hello".to_string(),
        solutions: vec![
            WordFreqPair::new("hello".to_string(), 1),
            WordFreqPair::new("world".to_string(), 2),
        ],
    };
    let word = "test".to_string();
    assert_eq!(
        VaryingNGram::find_freq(&vary, &word),
        Err("No pair found".to_string())
    );
}

#[test]
fn test_from_rows_sorts_descending() {
    let rows = vec![
        ("a".to_string(), 1),
        ("b".to_string(), 3),
        ("c".to_string(), 2),
    ];
    let sorted = WordFreqPair::from_rows(rows);

    let words: Vec<&str> = sorted.iter().map(|p| p.word.as_str()).collect();
    let freqs: Vec<i32> = sorted.iter().map(|p| p.frequency).collect();
    assert_eq!(words, vec!["b", "c", "a"]);
    assert_eq!(freqs, vec![3, 2, 1]);
}

#[test]
fn test_from_rows_equal_frequencies_keep_arrival_order() {
    let rows = vec![
        ("x".to_string(), 2),
        ("y".to_string(), 2),
        ("z".to_string(), 5),
    ];
    let sorted = WordFreqPair::from_rows(rows);

    let words: Vec<&str> = sorted.iter().map(|p| p.word.as_str()).collect();
    assert_eq!(words, vec!["z", "x", "y"]);
}

fn sample_input() -> ThreeGramInput {
    ThreeGramInput {
        word1: "I".to_string(),
        word2: "have".to_string(),
        word3: "been".to_string(),
    }
}

#[test]
fn test_get_varying_single_vary_truncates_and_reports_frequency() {
    let input = sample_input();
    let fetched = vec![vec![
        ("been".to_string(), 100),
        ("seen".to_string(), 70),
        ("gone".to_string(), 30),
    ]];
    let result =
        VaryingQueryResult::get_varying(&input, vec![3], 2, fetched, "0 ms".to_string()).unwrap();

    assert_eq!(result.provided_n_gram, "I have been");
    assert_eq!(result.provided_n_gram_frequency, 100);
    assert_eq!(result.n_gram_length, 3);
    assert_eq!(result.varying_indexes, vec![3]);
    assert_eq!(result.vary.len(), 1);
    assert_eq!(result.vary[0].index, 3);
    assert_eq!(result.vary[0].word, "been");
    assert_eq!(result.vary[0].solutions.len(), 2);
    assert_eq!(result.vary[0].solutions[0].word, "been");
    assert_eq!(result.vary[0].solutions[0].frequency, 100);
    assert_eq!(result.vary[0].solutions[1].word, "seen");
    assert_eq!(result.vary[0].solutions[1].frequency, 70);
}

#[test]
fn test_get_varying_negative_amount_keeps_everything() {
    let input = sample_input();
    let fetched = vec![vec![("been".to_string(), 100), ("seen".to_string(), 70)]];
    let result =
        VaryingQueryResult::get_varying(&input, vec![3], -1, fetched, "0 ms".to_string()).unwrap();

    assert_eq!(result.vary[0].solutions.len(), 2);
}

#[test]
fn test_get_varying_invalid_index_fails() {
    let input = sample_input();
    let fetched = vec![vec![]];
    let result = VaryingQueryResult::get_varying(&input, vec![4], 2, fetched, "0 ms".to_string());

    assert_eq!(result.err(), Some("Invalid index".to_string()));
}

#[test]
fn test_get_one_not_found() {
    let input = ThreeGramInput {
        word1: "foo".to_string(),
        word2: "bar".to_string(),
        word3: "baz".to_string(),
    };
    let result = VaryingQueryResult::get_one(&input, None, "0 ms".to_string());

    assert_eq!(result.provided_n_gram, "foo bar baz");
    assert_eq!(result.provided_n_gram_frequency, 0);
    assert_eq!(result.n_gram_length, 3);
    assert!(result.varying_indexes.is_empty());
    assert!(result.vary.is_empty());
}

#[test]
fn test_get_one_found() {
    let input = sample_input();
    let result = VaryingQueryResult::get_one(&input, Some(100), "0 ms".to_string());

    assert_eq!(result.provided_n_gram_frequency, 100);
}

#[test]
fn test_get_n_gram_string_third_varies() {
    let query = format!("{}(?, ?)", GET_ALL_VARYING_3_3);
    let statics = vec!["I", "have"];

    assert_eq!(get_n_gram_string(query.as_str(), &statics, "been"), "I have been");
}

#[test]
fn test_get_n_gram_string_first_varies() {
    let query = format!("{}(?, ?)", GET_ALL_VARYING_3_1);
    let statics = vec!["have", "been"];

    assert_eq!(get_n_gram_string(query.as_str(), &statics, "I"), "I have been");
}

#[test]
fn test_get_n_gram_string_unigram() {
    let query = format!("{}(?, ?)", GET_ALL_VARYING_1);
    let statics: Vec<&str> = vec![];

    assert_eq!(get_n_gram_string(query.as_str(), &statics, "been"), "been");
}
