use khoj::embedding::{TokenizedInput, Tokenizer};
use khoj::pipeline::embedding_input;
use khoj::Error;

fn normalize_test_helper(embedding: &[f32]) -> Vec<f32> {
    let norm: f32 = embedding.iter().map(|x| x * x).sum::<f32>().sqrt();
    if norm > 0.0 {
        embedding.iter().map(|x| x / norm).collect()
    } else {
        embedding.to_vec()
    }
}

#[test]
fn test_normalize() {
    let vec = vec![3.0, 4.0];
    let normalized = normalize_test_helper(&vec);
    assert!((normalized[0] - 0.6).abs() < 0.001);
    assert!((normalized[1] - 0.8).abs() < 0.001);
}

#[test]
fn test_normalize_zero_vector() {
    let vec = vec![0.0, 0.0];
    let normalized = normalize_test_helper(&vec);
    assert_eq!(normalized, vec![0.0, 0.0]);
}

#[test]
fn test_tokenized_input_structure() {
    let input = TokenizedInput {
        input_ids: vec![101, 102, 103],
        attention_mask: vec![1, 1, 1],
        token_type_ids: vec![0, 0, 0],
    };
    assert_eq!(input.input_ids.len(), 3);
    assert_eq!(input.attention_mask.len(), 3);
    assert_eq!(input.token_type_ids.len(), 3);
}

#[test]
fn fit_pads_and_truncates() {
    let t = TokenizedInput::fit(&vec![101, 7592, 102], &vec![1, 1, 1], &vec![0, 0, 0], 5, Some(9));
    assert_eq!(t.input_ids, vec![101, 7592, 102, 9, 9]);
    assert_eq!(t.attention_mask, vec![1, 1, 1, 0, 0]);
    assert_eq!(t.token_type_ids, vec![0, 0, 0, 0, 0]);
    let cut = TokenizedInput::fit(&vec![1, 2, 3, 4], &vec![1, 1, 1, 1], &vec![0, 0, 0, 0], 2, None);
    assert_eq!(cut.input_ids, vec![1, 2]);
    assert_eq!(cut.attention_mask, vec![1, 1]);
    let unpadded = TokenizedInput::fit(&vec![5], &vec![1], &vec![0], 3, None);
    assert_eq!(unpadded.input_ids, vec![5, 0, 0]);
}

#[test]
fn tokenizer_descriptor_errors_are_reported() {
    match Tokenizer::from_bytes(b"not json") {
        Err(Error::Embedding(m)) => assert!(m.starts_with("Failed to load tokenizer: ")),
        Err(other) => panic!("unexpected {:?}", other),
        Ok(_) => panic!("a descriptor that is not JSON was accepted"),
    }
    assert!(matches!(Tokenizer::from_pretrained("x"), Err(Error::Embedding(_))));
}

#[test]
fn embedding_input_is_at_most_5000_characters() {
    let long = "é".repeat(6000);
    let prefix = embedding_input(&long);
    assert_eq!(prefix.chars().count(), 5000);
    assert_eq!(embedding_input("short"), "short");
}

const WORD_LEVEL: &str = r#"{"version":"1.0","truncation":null,"padding":null,"added_tokens":[],"normalizer":null,"pre_tokenizer":{"type":"Whitespace"},"post_processor":null,"decoder":null,"model":{"type":"WordLevel","vocab":{"[UNK]":0,"hello":1,"world":2},"unk_token":"[UNK]"}}"#;

#[test]
fn encode_fits_the_tokenizer_output() {
    let tok = Tokenizer::from_bytes(WORD_LEVEL.as_bytes()).unwrap();
    let t = tok.encode("hello world", 4).unwrap();
    assert_eq!(t.input_ids, vec![1, 2, 0, 0]);
    assert_eq!(t.attention_mask, vec![1, 1, 0, 0]);
    assert_eq!(t.token_type_ids, vec![0, 0, 0, 0]);
    let cut = tok.encode("world hello world", 2).unwrap();
    assert_eq!(cut.input_ids, vec![2, 1]);
}
