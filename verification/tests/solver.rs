use context_analyzer::n_grams::solver::model::{
    assemble_sentence_results, collect_probe_results, extract_context, QueryBuilder, QueryResult,
    SentenceResult, SolverWithConfusionSet, TimedSentenceResults,
};
use context_analyzer::n_grams::solver::parse_text_to_sentences;
use context_analyzer::n_grams::solver::predictor::{MaxPredictor, SumPredictor};
use context_analyzer::NGramCounts;

#[test]
fn test_parse_text_to_sentences() {
    let text = "Danas sam poslao dva zahtijeva prodekanu za nastavu. On od mene zahtjeva da dolazim na nastavu. Ona zahtijeva. Krleža sve oduševio svojim dijelom. Svidjela mu se plaća koju je dobio. Uz velike napore, uspio je dobiti posao.";
    let result = parse_text_to_sentences(text);
    let expected = vec![
        "Danas sam poslao dva zahtijeva prodekanu za nastavu",
        "On od mene zahtjeva da dolazim na nastavu",
        "Ona zahtijeva",
        "Krleža sve oduševio svojim dijelom",
        "Svidjela mu se plaća koju je dobio",
        "Uz velike napore",
        "uspio je dobiti posao",
    ];
    assert_eq!(result, expected);
}

#[test]
fn test_extract_context() {
    let words = vec!["Krleža", "sve", "oduševio", "svojim", "dijelom"];

    let context = extract_context(4, &words);
    assert_eq!(context, "oduševio svojim dijelom");
}

fn confusion_their_there() -> Vec<Vec<String>> {
    vec![vec!["their".to_string(), "there".to_string()]]
}

#[test]
fn test_solver_rejects_empty_confusion_set() {
    let empty: Vec<Vec<String>> = vec![];
    let result = SolverWithConfusionSet::new("text".to_string(), &empty);

    assert_eq!(result.err(), Some("Confusion set is empty".to_string()));
}

#[test]
fn test_find_queries_two_contexts() {
    let solver = SolverWithConfusionSet::new(
        "I saw their dog. There was noise.".to_string(),
        &confusion_their_there(),
    )
    .unwrap();
    let queries = solver.find_queries();

    assert_eq!(queries.len(), 2);
    assert_eq!(queries[0].0, "I saw their dog");
    assert_eq!(queries[0].1.word, "their");
    assert_eq!(queries[1].0, "There was noise");
    assert_eq!(queries[1].1.word, "there");
    for (_, q) in queries.iter() {
        for builder in q.queries.iter() {
            assert_eq!(
                builder.varying_params,
                vec!["their".to_string(), "there".to_string()]
            );
        }
    }
}

#[test]
fn test_find_queries_coalesces_duplicate_contexts() {
    let solver = SolverWithConfusionSet::new(
        "saw their dog".to_string(),
        &vec![vec!["their".to_string(), "Their".to_string()]],
    )
    .unwrap();
    let queries = solver.find_queries();

    assert_eq!(queries.len(), 1);
}

#[test]
fn test_find_queries_lowercases_uppercase_neighbours() {
    let solver = SolverWithConfusionSet::new(
        "Saw their dog".to_string(),
        &confusion_their_there(),
    )
    .unwrap();
    let queries = solver.find_queries();

    assert_eq!(queries.len(), 1);
    let statics: Vec<Vec<String>> = queries[0]
        .1
        .queries
        .iter()
        .map(|b| b.static_params.clone())
        .collect();
    assert!(statics.contains(&vec!["saw".to_string()]));
    assert!(statics.contains(&vec!["Saw".to_string()]));
}

#[test]
fn test_zero_fill_exactly_one_row_per_candidate() {
    let builder = QueryBuilder {
        query: format!(
            "{}(?, ?, ?)",
            context_analyzer::db::GET_ALL_VARYING_1
        ),
        static_params: vec![],
        varying_params: vec!["a".to_string(), "b".to_string(), "c".to_string()],
    };
    let rows = vec![("a".to_string(), 5)];
    let results = collect_probe_results(&builder, rows).unwrap();

    assert_eq!(results.len(), 3);
    assert_eq!(results[0].input, "a");
    assert_eq!(results[0].frequency, 5);
    assert_eq!(results[1].input, "b");
    assert_eq!(results[1].frequency, 0);
    assert_eq!(results[2].input, "c");
    assert_eq!(results[2].frequency, 0);
    for r in results.iter() {
        assert_eq!(r.length, 1);
    }
}

#[test]
fn test_collect_probe_results_rejects_unknown_template() {
    let builder = QueryBuilder {
        query: "SELECT something else".to_string(),
        static_params: vec![],
        varying_params: vec!["a".to_string()],
    };
    let results = collect_probe_results(&builder, vec![]);

    assert_eq!(results.err(), Some("Invalid query".to_string()));
}

#[test]
fn test_zero_fill_two_gram_probe() {
    let builder = QueryBuilder {
        query: format!("{}(?, ?)", context_analyzer::db::GET_ALL_VARYING_2_2),
        static_params: vec!["saw".to_string()],
        varying_params: vec!["their".to_string(), "there".to_string()],
    };
    let rows = vec![("their".to_string(), 40)];
    let results = collect_probe_results(&builder, rows).unwrap();

    assert_eq!(results.len(), 2);
    assert_eq!(results[0].input, "saw their");
    assert_eq!(results[0].frequency, 40);
    assert_eq!(results[0].length, 2);
    assert_eq!(results[1].input, "saw there");
    assert_eq!(results[1].frequency, 0);
}

#[test]
fn test_assemble_sentence_results_groups_by_context() {
    let solver = SolverWithConfusionSet::new(
        "I saw their dog. There was noise.".to_string(),
        &confusion_their_there(),
    )
    .unwrap();
    let queries = solver.find_queries();
    let messages = vec![
        (
            "There was noise".to_string(),
            QueryResult { input: "there".to_string(), frequency: 7, length: 1 },
        ),
        (
            "I saw their dog".to_string(),
            QueryResult { input: "their".to_string(), frequency: 200, length: 1 },
        ),
        (
            "I saw their dog".to_string(),
            QueryResult { input: "saw their".to_string(), frequency: 40, length: 2 },
        ),
    ];
    let grouped = assemble_sentence_results(&queries, &messages);

    assert_eq!(grouped.len(), 2);
    assert_eq!(grouped[0].sentence, "I saw their dog");
    assert_eq!(grouped[0].word, "their");
    assert_eq!(grouped[0].results.len(), 2);
    assert_eq!(grouped[0].results[0].input, "their");
    assert_eq!(grouped[0].results[1].input, "saw their");
    assert_eq!(grouped[1].sentence, "There was noise");
    assert_eq!(grouped[1].results.len(), 1);
    assert_eq!(grouped[1].results[0].input, "there");
}

fn predictor_fixture() -> (TimedSentenceResults, Vec<Vec<String>>, NGramCounts, NGramCounts) {
    let results = vec![SentenceResult {
        sentence: "saw their".to_string(),
        word: "their".to_string(),
        results: vec![
            QueryResult { input: "their".to_string(), frequency: 200, length: 1 },
            QueryResult { input: "there".to_string(), frequency: 0, length: 1 },
            QueryResult { input: "saw their".to_string(), frequency: 40, length: 2 },
            QueryResult { input: "saw there".to_string(), frequency: 0, length: 2 },
            QueryResult { input: "I saw their".to_string(), frequency: 10, length: 3 },
            QueryResult { input: "I saw there".to_string(), frequency: 0, length: 3 },
        ],
    }];
    let data = TimedSentenceResults { time_taken: "0 ms".to_string(), results };
    let counts = NGramCounts { one: 1_000_000, two: 100_000, three: 10_000 };
    let distinct = NGramCounts { one: 100_000, two: 10_000, three: 1_000 };
    (data, confusion_their_there(), counts, distinct)
}

fn score_of(terms: &[context_analyzer::n_grams::solver::predictor::ScoreTerm]) -> f64 {
    let scalar: f64 = terms
        .iter()
        .map(|t| t.numerator as f64 / t.denominator as f64)
        .sum();
    let log = -scalar.log10();
    (log * 10000.0).round() / 10000.0
}

#[test]
fn test_max_predictor_scores_match_formula() {
    let (data, cs, counts, distinct) = predictor_fixture();
    let predictions = MaxPredictor {}.predict(&data, &cs, &counts, &distinct).unwrap();

    assert_eq!(predictions.len(), 1);
    let p = &predictions[0];
    assert_eq!(p.context, "saw their");
    assert_eq!(p.word_examined, "their");

    let uf = 200.0f64;
    let n1 = 1_000_000.0 + 100_000.0;
    let n2 = 100_000.0 + 10_000.0;
    let n3 = 10_000.0 + 1_000.0;
    let p2 = (uf / n1) * (41.0 / n2);
    let p3 = (uf / n1) * (11.0 / n3);
    let expected = (-(p2.max(p3)).log10() * 10000.0).round() / 10000.0;

    let their = p
        .results
        .iter()
        .find(|(w, _)| w == "their")
        .map(|(_, terms)| terms)
        .unwrap();
    assert_eq!(their.len(), 1);
    assert!(their[0].denominator > 0);
    let got = score_of(their);
    assert!(got.is_finite());
    assert_eq!(got, expected);
}

#[test]
fn test_sum_predictor_keeps_every_term() {
    let (data, cs, counts, distinct) = predictor_fixture();
    let predictions = SumPredictor {}.predict(&data, &cs, &counts, &distinct).unwrap();

    let p = &predictions[0];
    let their = p
        .results
        .iter()
        .find(|(w, _)| w == "their")
        .map(|(_, terms)| terms)
        .unwrap();
    assert_eq!(their.len(), 2);

    let uf = 200.0f64;
    let n1 = 1_000_000.0 + 100_000.0;
    let n2 = 100_000.0 + 10_000.0;
    let n3 = 10_000.0 + 1_000.0;
    let expected =
        (-((uf / n1) * (41.0 / n2) + (uf / n1) * (11.0 / n3)).log10() * 10000.0).round() / 10000.0;
    let got = score_of(their);
    assert!(got.is_finite());
    assert_eq!(got, expected);
}

#[test]
fn test_predictor_skips_uncovered_words() {
    let (mut data, cs, counts, distinct) = predictor_fixture();
    data.results[0].word = "unrelated".to_string();
    let predictions = MaxPredictor {}.predict(&data, &cs, &counts, &distinct).unwrap();

    assert!(predictions.is_empty());
}

#[test]
fn test_predictor_missing_unigram_is_data_integrity_error() {
    let (mut data, cs, counts, distinct) = predictor_fixture();
    data.results[0].results.remove(0);
    let result = MaxPredictor {}.predict(&data, &cs, &counts, &distinct);

    assert_eq!(result.err(), Some("Data integrity error".to_string()));
}

#[test]
fn test_predictor_zero_denominator_is_data_integrity_error() {
    let (data, cs, _, _) = predictor_fixture();
    let zero = NGramCounts { one: 0, two: 0, three: 0 };
    let result = MaxPredictor {}.predict(&data, &cs, &zero, &zero);

    assert_eq!(result.err(), Some("Data integrity error".to_string()));
}

#[test]
fn test_text_check_pipeline_zero_filled_for_both_candidates() {
    let solver = SolverWithConfusionSet::new(
        "I saw their dog. There was noise.".to_string(),
        &confusion_their_there(),
    )
    .unwrap();
    let queries = solver.find_queries();

    let mut messages: Vec<(String, QueryResult)> = Vec::new();
    for (context, q) in queries.iter() {
        for builder in q.queries.iter() {
            let rows: Vec<(String, i32)> = Vec::new();
            let probe_results = collect_probe_results(builder, rows).unwrap();
            assert_eq!(probe_results.len(), builder.varying_params.len());
            for r in probe_results {
                messages.push((context.clone(), r));
            }
        }
    }
    let grouped = assemble_sentence_results(&queries, &messages);

    assert_eq!(grouped.len(), 2);
    for sentence_result in grouped.iter() {
        for candidate in ["their", "there"] {
            let unigram_rows = sentence_result
                .results
                .iter()
                .filter(|r| r.length == 1 && r.input == candidate)
                .count();
            assert_eq!(unigram_rows, 1);
        }
        for r in sentence_result.results.iter() {
            assert_eq!(r.frequency, 0);
        }
    }
}
