use query_core::column::{Column, Scalar};
use query_core::block::DataBlock;
use query_core::decimal::u64_to_dec_string;
use query_core::error::ErrorCode;
use query_core::openai::OpenAI;

#[test]
fn decimal_rendering() {
    assert_eq!(u64_to_dec_string(0), "0");
    assert_eq!(u64_to_dec_string(9), "9");
    assert_eq!(u64_to_dec_string(10), "10");
    assert_eq!(u64_to_dec_string(907), "907");
    assert_eq!(u64_to_dec_string(18446744073709551615), "18446744073709551615");
}

#[test]
fn openai_create_fills_defaults_for_empty_settings() {
    let c = OpenAI::create(
        String::new(),
        "SECRET-REDACTED".to_string(),
        String::new(),
        String::new(),
    );
    assert_eq!(c.api_base, "https://api.openai.com/v1/");
    assert_eq!(c.api_key, "SECRET-REDACTED");
    assert_eq!(c.embedding_model, "text-embedding-ada-002");
    assert_eq!(c.completion_model, "gpt-3.5-turbo");
}

#[test]
fn openai_create_keeps_given_settings() {
    let c = OpenAI::create(
        "http://localhost:8080/v1/".to_string(),
        "k".to_string(),
        "embed".to_string(),
        "complete".to_string(),
    );
    assert_eq!(c.api_base, "http://localhost:8080/v1/");
    assert_eq!(c.api_key, "k");
    assert_eq!(c.embedding_model, "embed");
    assert_eq!(c.completion_model, "complete");
}

#[test]
fn cast_to_nonull_boolean_keeps_constants_constant() {
    let pred = Column::Constant(Box::new(Column::Bool(vec![true])), 4);
    let cast = DataBlock::cast_to_nonull_boolean(&pred).unwrap();
    assert!(cast.is_const());
    assert_eq!(cast.len(), 4);
    assert_eq!(cast.value_at(0), Some(Scalar::Bool(true)));
}

#[test]
fn cast_to_nonull_boolean_turns_null_cells_false() {
    let pred = Column::Nullable(
        Box::new(Column::Bool(vec![true, false, true])),
        Some(query_core::bitmap::Bitmap::from_bools(vec![true, true, false])),
    );
    let cast = DataBlock::cast_to_nonull_boolean(&pred).unwrap();
    assert_eq!(cast.value_at(0), Some(Scalar::Bool(true)));
    assert_eq!(cast.value_at(1), Some(Scalar::Bool(false)));
    assert_eq!(cast.value_at(2), Some(Scalar::Bool(false)));
}

#[test]
fn cast_to_nonull_boolean_rejects_integers() {
    let err = DataBlock::cast_to_nonull_boolean(&Column::Int(vec![1])).unwrap_err();
    assert!(matches!(err, ErrorCode::IllegalDataType(_)));
}
