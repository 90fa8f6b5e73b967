use context_analyzer::db::{
    GET_BY_FIRST_2, GET_BY_SECOND_2, GET_BY_SECOND_AND_THIRD_3, GET_FREQ_2, GET_FREQ_3,
};
use context_analyzer::error_handler::HttpError;
use context_analyzer::n_grams::model::{is_supported_n, FromQueryParams, NgramQueryParams};
use context_analyzer::n_grams::three_grams::model::ThreeGramInput;
use context_analyzer::n_grams::two_grams::model::{TwoGramInput, TwoGramQueryParams};
use context_analyzer::n_grams::word_freq_pair::DEFAULT_AMOUNT_OF_WORD_FREQ_PAIRS;
use context_analyzer::n_grams::{Printable, Queryable};
use context_analyzer::QueryMap;

#[test]
fn test_creating_three_gram_query_params() {
    let mut query = QueryMap::new();
    query.insert("word1".to_string(), "hello".to_string());
    query.insert("word2".to_string(), "world".to_string());
    query.insert("word3".to_string(), "foo".to_string());
    query.insert("vary".to_string(), "1,2".to_string());
    query.insert("amount".to_string(), "10".to_string());

    let result = NgramQueryParams::<ThreeGramInput>::create(&query);

    assert!(result.is_ok());
}

#[test]
fn test_creating_three_gram_query_params_fail() {
    let mut query = QueryMap::new();
    query.insert("word1".to_string(), "hello".to_string());
    query.insert("word2".to_string(), "world".to_string());
    query.insert("vary".to_string(), "1,2".to_string());
    query.insert("amount".to_string(), "10".to_string());

    let result = NgramQueryParams::<ThreeGramInput>::create(&query);

    assert!(result.is_err());
}

#[test]
fn test_creating_two_gram_query_params() {
    let mut query = QueryMap::new();
    query.insert("word1".to_string(), "hello".to_string());
    query.insert("word2".to_string(), "world".to_string());
    query.insert("vary".to_string(), "1,2".to_string());
    query.insert("amount".to_string(), "10".to_string());

    let result = NgramQueryParams::<TwoGramInput>::create(&query);

    assert!(result.is_ok());
}

#[test]
fn test_creating_two_gram_query_params_fail() {
    let mut query = QueryMap::new();
    query.insert("word1".to_string(), "hello".to_string());
    query.insert("vary".to_string(), "1,2".to_string());
    query.insert("amount".to_string(), "10".to_string());

    let result = NgramQueryParams::<TwoGramInput>::create(&query);

    assert!(result.is_err());
}

#[test]
fn test_creating_three_gram_query_params_without_amount() {
    let mut query = QueryMap::new();
    query.insert("word1".to_string(), "hello".to_string());
    query.insert("word2".to_string(), "world".to_string());
    query.insert("word3".to_string(), "foo".to_string());
    query.insert("vary".to_string(), "1,2".to_string());

    let result = NgramQueryParams::<ThreeGramInput>::create(&query);

    assert!(result.is_ok());
    assert!(result.unwrap().amount == DEFAULT_AMOUNT_OF_WORD_FREQ_PAIRS);
}

#[test]
fn test_creating_three_gram_input() {
    let mut query = QueryMap::new();

    query.insert("word1".to_string(), "hello".to_string());
    query.insert("word2".to_string(), "world".to_string());
    query.insert("word3".to_string(), "foo".to_string());

    let three_gram = ThreeGramInput::from(&query).unwrap();

    assert_eq!(three_gram.word1, "hello");
}

#[test]
fn test_creating_three_gram_input_fail() {
    let mut query = QueryMap::new();

    query.insert("word1".to_string(), "hello".to_string());
    query.insert("word2".to_string(), "world".to_string());

    let three_gram = ThreeGramInput::from(&query);

    assert_eq!(three_gram.is_err(), true);
}

fn sample_three_gram() -> ThreeGramInput {
    ThreeGramInput {
        word1: "hello".to_string(),
        word2: "world".to_string(),
        word3: "foo".to_string(),
    }
}

#[test]
fn test_three_gram_to_vec() {
    let three_gram = sample_three_gram();

    let vec = three_gram.to_vec();

    assert_eq!(vec, vec!["hello", "world", "foo"]);
}

#[test]
fn test_three_gram_get_query() {
    let three_gram = sample_three_gram();

    let query = three_gram.get_query(Some(1)).unwrap();

    assert_eq!(query, GET_BY_SECOND_AND_THIRD_3);
}

#[test]
fn test_three_gram_get_query_freq() {
    let three_gram = sample_three_gram();

    let query = three_gram.get_query(None).unwrap();

    assert_eq!(query, GET_FREQ_3);
}

#[test]
fn test_three_gram_get_input() {
    let three_gram = sample_three_gram();

    let input = three_gram.get_input(1).unwrap();

    assert_eq!(input, vec![&"world", &"foo"]);
}

#[test]
fn test_three_gram_get_word() {
    let three_gram = sample_three_gram();

    let word = three_gram.get_word(1).unwrap();

    assert_eq!(word, &"hello");
}

#[test]
fn test_three_gram_print() {
    let three_gram = sample_three_gram();

    let print = three_gram.print();

    assert_eq!(print, "hello world foo");
}

#[test]
fn test_validate() {
    let indexes = vec![1, 2, 3];

    let result = context_analyzer::n_grams::three_grams::model::validate(&indexes);

    assert_eq!(result.is_ok(), true);
}

#[test]
fn test_validate_fail_index_out_of_bounds() {
    let indexes = vec![1, 2, 4];

    let result = context_analyzer::n_grams::three_grams::model::validate(&indexes);

    assert_eq!(result.is_err(), true);
}

#[test]
fn test_validate_fail_index_duplicate() {
    let indexes = vec![1, 2, 2];

    let result = context_analyzer::n_grams::three_grams::model::validate(&indexes);

    assert_eq!(result.is_err(), true);
}

#[test]
fn test_two_gram_input_from() {
    let mut query = QueryMap::new();

    query.insert("word1".to_string(), "word1".to_string());
    query.insert("word2".to_string(), "word2".to_string());

    let result = TwoGramInput::from(&query).unwrap();

    assert_eq!(result.word1, "word1");
}

#[test]
fn test_two_gram_input_from_missing_word1() {
    let mut query = QueryMap::new();

    query.insert("word2".to_string(), "word2".to_string());

    let result = TwoGramInput::from(&query);

    assert_eq!(result.is_err(), true);
}

fn sample_two_gram() -> TwoGramInput {
    TwoGramInput { word1: "word1".to_string(), word2: "word2".to_string() }
}

#[test]
fn test_two_gram_to_vec() {
    let input = sample_two_gram();

    let result = input.to_vec();

    assert_eq!(result, vec!["word1", "word2"]);
}

#[test]
fn test_two_gram_get_query() {
    let input = sample_two_gram();

    let result = input.get_query(Some(1)).unwrap();

    assert_eq!(result, GET_BY_SECOND_2);
}

#[test]
fn test_two_gram_get_query_freq() {
    let input = sample_two_gram();

    let result = input.get_query(None).unwrap();

    assert_eq!(result, GET_FREQ_2);
}

#[test]
fn test_two_gram_get_query_second_index() {
    let input = sample_two_gram();

    let result = input.get_query(Some(2)).unwrap();

    assert_eq!(result, GET_BY_FIRST_2);
}

#[test]
fn test_two_gram_get_input() {
    let input = sample_two_gram();

    let result = input.get_input(1).unwrap();

    assert_eq!(result, vec![&"word2"]);
}

#[test]
fn test_two_gram_get_word() {
    let input = sample_two_gram();

    let result = input.get_word(1).unwrap();

    assert_eq!(result, &"word1");
}

#[test]
fn test_two_gram_print() {
    let input = sample_two_gram();

    let result = input.print();

    assert_eq!(result, "word1 word2");
}

#[test]
fn model_test_creating_two_gram_query_params() {
    let mut query = QueryMap::new();

    query.insert("word1".to_string(), "word1".to_string());
    query.insert("word2".to_string(), "word2".to_string());
    query.insert("vary".to_string(), "1".to_string());
    query.insert("amount".to_string(), "10".to_string());

    let result = TwoGramQueryParams::from(&query).unwrap();

    assert_eq!(result.two_gram.word1, "word1");
}

#[test]
fn test_default_amount() {
    let mut query = QueryMap::new();

    query.insert("word1".to_string(), "word1".to_string());
    query.insert("word2".to_string(), "word2".to_string());
    query.insert("vary".to_string(), "1".to_string());

    let result = TwoGramQueryParams::from(&query).unwrap();

    assert_eq!(result.amount, DEFAULT_AMOUNT_OF_WORD_FREQ_PAIRS);
}

#[test]
fn test_creating_two_gram_query_params_fail_amount_wrong() {
    let mut query = QueryMap::new();

    query.insert("word1".to_string(), "word1".to_string());
    query.insert("word2".to_string(), "word2".to_string());
    query.insert("vary".to_string(), "1".to_string());
    query.insert("amount".to_string(), "wrong".to_string());

    let result = TwoGramQueryParams::from(&query);

    assert_eq!(result.is_err(), true);
}

#[test]
fn test_creating_two_gram_query_params_fail_word1_missing() {
    let mut query = QueryMap::new();

    query.insert("word2".to_string(), "word2".to_string());
    query.insert("vary".to_string(), "1".to_string());
    query.insert("amount".to_string(), "10".to_string());

    let result = TwoGramQueryParams::from(&query);

    assert_eq!(result.is_err(), true);
}

#[test]
fn test_creating_two_gram_query_params_fail_vary_index_out_of_bounds() {
    let mut query = QueryMap::new();

    query.insert("word1".to_string(), "word1".to_string());
    query.insert("word2".to_string(), "word2".to_string());
    query.insert("vary".to_string(), "3".to_string());
    query.insert("amount".to_string(), "10".to_string());

    let result = TwoGramQueryParams::from(&query);

    assert_eq!(result.is_err(), true);
}

#[test]
fn test_creating_two_gram_query_params_fail_vary_index_duplicate() {
    let mut query = QueryMap::new();

    query.insert("word1".to_string(), "word1".to_string());
    query.insert("word2".to_string(), "word2".to_string());
    query.insert("vary".to_string(), "1,1".to_string());
    query.insert("amount".to_string(), "10".to_string());

    let result = TwoGramQueryParams::from(&query);

    assert_eq!(result.is_err(), true);
}

#[test]
fn model_test_validate() {
    let indexes = vec![1, 2];

    let result = context_analyzer::n_grams::two_grams::model::validate(&indexes);

    assert_eq!(result.is_ok(), true);
}

#[test]
fn model_test_validate_fail_index_out_of_bounds() {
    let indexes = vec![1, 3];

    let result = context_analyzer::n_grams::two_grams::model::validate(&indexes);

    assert_eq!(result.is_err(), true);
}

#[test]
fn model_test_validate_fail_index_duplicate() {
    let indexes = vec![1, 1];

    let result = context_analyzer::n_grams::two_grams::model::validate(&indexes);

    assert_eq!(result.is_err(), true);
}

#[test]
fn test_is_supported_n() {
    assert!(is_supported_n(2));
    assert!(is_supported_n(3));
    assert!(!is_supported_n(1));
    assert!(!is_supported_n(4));
}

#[test]
fn test_http_error_public_message() {
    let client = HttpError::new(400, "Invalid index".to_string());
    let server = HttpError::new(500, "secret detail".to_string());

    assert_eq!(client.public_message(), "Invalid index");
    assert_eq!(server.public_message(), "Internal server error");
}
