use sparse_engine::embedding::{
    collect_edges, collect_row_weighted_edges, gather_embedding_rows, parse_embedding_side,
    parse_model_kind, EmbeddingSide, ModelKind,
};
use sparse_engine::stem::{parse_language, Language};

#[test]
fn edges_skip_every_kind_of_null() {
    let sources = vec![Some(10u64), None, Some(30u64), Some(40u64)];
    let neighbor_lists = vec![
        Some(vec![Some(11u64), None, Some(12u64)]),
        Some(vec![Some(21u64)]),
        None,
        Some(vec![]),
    ];
    let edges = collect_edges(&sources, &neighbor_lists);
    assert_eq!(edges, vec![(10, 11), (10, 12)]);
}

#[test]
fn weighted_edges_pair_up_to_the_shorter_list() {
    let neighbors = vec![Some(1u64), Some(2u64), None, Some(4u64)];
    let weights = vec![Some(2.5f64.to_bits()), None, Some(1.0f64.to_bits())];
    let edges = collect_row_weighted_edges(7, &neighbors, &weights);
    assert_eq!(edges, vec![(7, 1, 2.5f64.to_bits())]);
}

#[test]
fn gather_writes_back_in_row_order_with_nulls() {
    // Two nodes, width 2: node 0's vector then node 1's, flat.
    let matrix: Vec<u32> = vec![
        1.0f32.to_bits(),
        2.0f32.to_bits(),
        3.0f32.to_bits(),
        4.0f32.to_bits(),
    ];
    let handles = vec![Some(1u32), None, Some(0u32), Some(1u32)];
    let rows = gather_embedding_rows(&handles, &matrix, 2).unwrap();
    assert_eq!(rows.len(), 4);
    assert_eq!(
        rows[0].as_ref().unwrap(),
        &vec![3.0f32.to_bits(), 4.0f32.to_bits()]
    );
    assert!(rows[1].is_none());
    assert_eq!(
        rows[2].as_ref().unwrap(),
        &vec![1.0f32.to_bits(), 2.0f32.to_bits()]
    );
    assert_eq!(rows[3], rows[0]);
}

#[test]
fn gather_refuses_a_handle_past_the_matrix() {
    let matrix: Vec<u32> = vec![0, 0];
    assert!(gather_embedding_rows(&vec![Some(1u32)], &matrix, 2).is_none());
    assert!(gather_embedding_rows(&vec![Some(0u32)], &matrix, 2).is_some());
}

#[test]
fn model_and_side_names_parse_exactly() {
    assert_eq!(parse_model_kind("cbow"), Some(ModelKind::Cbow));
    assert_eq!(parse_model_kind("skipgram"), Some(ModelKind::SkipGram));
    assert_eq!(parse_model_kind("glove"), None);
    assert_eq!(parse_embedding_side("central"), Some(EmbeddingSide::Central));
    assert_eq!(
        parse_embedding_side("contextual"),
        Some(EmbeddingSide::Contextual)
    );
    assert_eq!(parse_embedding_side("both"), None);
}

#[test]
fn parsed_language_selects_a_working_stemming_table() {
    assert_eq!(parse_language("english"), Some(Language::English));
    let stemmer = rust_stemmers::Stemmer::create(rust_stemmers::Algorithm::English);
    assert_eq!(stemmer.stem("fruitlessly"), "fruitless");
}

#[test]
fn language_names_parse_against_the_supported_set() {
    assert_eq!(parse_language("english"), Some(Language::English));
    assert_eq!(parse_language("danish"), Some(Language::Danish));
    assert_eq!(parse_language("turkish"), Some(Language::Turkish));
    assert_eq!(parse_language("tamil"), Some(Language::Tamil));
    assert_eq!(parse_language("klingon"), None);
    assert_eq!(parse_language("English"), None);
    assert_eq!(parse_language(""), None);
}
