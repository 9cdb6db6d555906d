use std::collections::BTreeMap;

use rucene::analyser::Analyser;
use rucene::document::{AnalysedDocument, DocumentResult};
use rucene::index_document::IndexDocument;
use rucene::inverted_index::InvertedIndex;
use rucene::query::Query;
use rucene::token::Token;
use rucene::Rucene;

fn init_test_inv_index() -> InvertedIndex {
    let mut inv_index = InvertedIndex::new();

    let documents = vec![
        AnalysedDocument::new(
            0,
            vec![
                Token::new(String::from("back")),
                Token::new(String::from("to")),
                Token::new(String::from("the")),
                Token::new(String::from("future")),
            ],
        ),
        AnalysedDocument::new(
            1,
            vec![
                Token::new(String::from("future")),
                Token::new(String::from("cop")),
            ],
        ),
        AnalysedDocument::new(
            2,
            vec![
                Token::new(String::from("back")),
                Token::new(String::from("again")),
            ],
        ),
    ];

    for doc in documents {
        let result = inv_index.index(doc);

        assert!(result.is_ok());
    }

    inv_index
}

#[test]
fn can_index_term_dictionary() {
    let inv_index = init_test_inv_index();

    let expected_term_dict = BTreeMap::from([
        (String::from("again"), 5),
        (String::from("back"), 0),
        (String::from("cop"), 4),
        (String::from("future"), 3),
        (String::from("the"), 2),
        (String::from("to"), 1),
    ]);

    let term_dict: BTreeMap<String, usize> = inv_index.term_dictionary().into_iter().collect();

    assert_eq!(expected_term_dict, term_dict);
}

#[test]
fn can_index_postings_list() {
    let inv_index = init_test_inv_index();

    let expected_posting_list = BTreeMap::from([
        (5, vec![2]),
        (0, vec![0, 2]),
        (4, vec![1]),
        (3, vec![0, 1]),
        (2, vec![0]),
        (1, vec![0]),
    ]);

    let posting_list: BTreeMap<usize, Vec<u32>> =
        inv_index.postings_list().into_iter().collect();

    assert_eq!(expected_posting_list, posting_list);
}

#[test]
fn can_get_must_documents() {
    let inv_index = init_test_inv_index();

    let tokens = vec![Token::new("future".to_string())];

    let results = inv_index.get_documents_from_tokens(tokens).unwrap();

    assert_eq!(results.len(), 2);

    assert_eq!(
        results,
        vec![DocumentResult::from_id(0), DocumentResult::from_id(1)]
    );

    let tokens = vec![
        Token::new("back".to_string()),
        Token::new("again".to_string()),
    ];

    let results = inv_index.get_documents_from_tokens(tokens).unwrap();

    assert_eq!(results.len(), 2);

    assert_eq!(
        results,
        vec![DocumentResult::from_id(0), DocumentResult::from_id(2)]
    );

    let tokens = vec![Token::new("the".to_string())];

    let results = inv_index.get_documents_from_tokens(tokens).unwrap();

    assert_eq!(results.len(), 1);

    assert_eq!(results, vec![DocumentResult::from_id(0)]);
}

#[test]
fn can_retrieve() {
    let inv_index = init_test_inv_index();

    let query = Query::new(
        vec![
            Token::new("back".to_string()),
            Token::new("future".to_string()),
        ],
        vec![Token::new("cop".to_string())],
        vec![],
    );

    let result = inv_index.retrieve(query).unwrap();

    assert_eq!(
        result,
        vec![DocumentResult::from_id(0), DocumentResult::from_id(2)]
    );
}

#[test]
fn end_to_end_standard_pipeline() {
    let analyser = Analyser::standard();
    let mut engine = Rucene::new();

    let raw_documents = vec![
        IndexDocument::new(0, "back to the future".to_string()),
        IndexDocument::new(1, "future cop".to_string()),
        IndexDocument::new(2, "back again".to_string()),
    ];

    for raw in &raw_documents {
        let analysed = analyser.analyse(raw);
        assert!(engine.index(analysed).is_ok());
    }

    let query = Query::new(
        vec![
            Token::new("back".to_string()),
            Token::new("future".to_string()),
        ],
        vec![Token::new("cop".to_string())],
        vec![],
    );

    let results = engine.search(query).unwrap();

    assert_eq!(
        results,
        vec![DocumentResult::from_id(0), DocumentResult::from_id(2)]
    );
}

#[test]
fn must_not_excludes_matching_document() {
    let inv_index = init_test_inv_index();

    let query = Query::new(
        vec![Token::new("back".to_string())],
        vec![Token::new("again".to_string())],
        vec![],
    );

    let result = inv_index.retrieve(query).unwrap();

    assert_eq!(result, vec![DocumentResult::from_id(0)]);
}

#[test]
fn unindexed_term_yields_empty_result() {
    let inv_index = init_test_inv_index();

    let query = Query::new(vec![Token::new("starship".to_string())], vec![], vec![]);

    let result = inv_index.retrieve(query).unwrap();

    assert_eq!(result, Vec::<DocumentResult>::new());
}

#[test]
fn missing_must_token_stops_resolution() {
    let inv_index = init_test_inv_index();

    // "back" resolves first; the unindexed "starship" stops resolution
    // before "cop" is reached, so document 1 never enters the result.
    let tokens = vec![
        Token::new("back".to_string()),
        Token::new("starship".to_string()),
        Token::new("cop".to_string()),
    ];

    let results = inv_index.get_documents_from_tokens(tokens).unwrap();

    assert_eq!(
        results,
        vec![DocumentResult::from_id(0), DocumentResult::from_id(2)]
    );
}

#[test]
fn indexing_same_token_set_retrieves_document() {
    let mut inv_index = InvertedIndex::new();
    let doc = AnalysedDocument::new(
        9,
        vec![
            Token::new("halt".to_string()),
            Token::new("catch".to_string()),
            Token::new("fire".to_string()),
        ],
    );
    assert!(inv_index.index(doc).is_ok());

    let query = Query::new(
        vec![
            Token::new("halt".to_string()),
            Token::new("catch".to_string()),
            Token::new("fire".to_string()),
        ],
        vec![],
        vec![],
    );

    let results = inv_index.retrieve(query).unwrap();
    assert!(results.contains(&DocumentResult::from_id(9)));
}

#[test]
fn term_identifier_assigned_once() {
    let mut inv_index = InvertedIndex::new();
    let first = AnalysedDocument::new(0, vec![Token::new("echo".to_string())]);
    let second = AnalysedDocument::new(
        1,
        vec![
            Token::new("echo".to_string()),
            Token::new("echo".to_string()),
        ],
    );
    assert!(inv_index.index(first).is_ok());
    assert!(inv_index.index(second).is_ok());

    let term_dict = inv_index.term_dictionary();
    assert_eq!(term_dict, vec![("echo".to_string(), 0)]);

    // Both occurrences of the repeated term append to the same postings
    // list: no occurrence is deduplicated at index time.
    let posting_list = inv_index.postings_list();
    assert_eq!(posting_list, vec![(0, vec![0, 1, 1])]);
}

#[test]
fn duplicate_document_ids_both_listed() {
    let mut inv_index = InvertedIndex::new();
    let first = AnalysedDocument::new(4, vec![Token::new("twin".to_string())]);
    let second = AnalysedDocument::new(4, vec![Token::new("twin".to_string())]);
    assert!(inv_index.index(first).is_ok());
    assert!(inv_index.index(second).is_ok());

    assert_eq!(inv_index.postings_list(), vec![(0, vec![4, 4])]);
}

#[test]
fn empty_query_yields_empty_result() {
    let engine = Rucene::new();
    let query = Query::new(vec![], vec![], vec![]);
    let results = engine.search(query).unwrap();
    assert_eq!(results, Vec::<DocumentResult>::new());
}

#[test]
fn should_clause_has_no_effect() {
    let inv_index = init_test_inv_index();

    let query = Query::new(
        vec![Token::new("back".to_string())],
        vec![],
        vec![Token::new("cop".to_string())],
    );

    let result = inv_index.retrieve(query).unwrap();

    assert_eq!(
        result,
        vec![DocumentResult::from_id(0), DocumentResult::from_id(2)]
    );
}

#[test]
fn document_results_from_ids() {
    let results = DocumentResult::from_ids(vec![3, 1, 2]);
    assert_eq!(
        results,
        vec![
            DocumentResult::from_id(3),
            DocumentResult::from_id(1),
            DocumentResult::from_id(2),
        ]
    );
}
