//! The budget of a generation.

use willamette::model::generate::{validate_generation_budget, GenerationStats};

#[test]
fn generation_budget_rejects_cache_larger_than_model_context() {
    let err = validate_generation_budget("generate", 1, 1, Some(17), 16).unwrap_err();
    assert!(err
        .message()
        .contains("max_seq_len=17 exceeds model context_length=16"));
}

#[test]
fn generation_budget_rejects_prompt_plus_generation_overflow() {
    let err = validate_generation_budget("generate", 2, usize::MAX, Some(16), 16).unwrap_err();
    assert!(err.message().contains("overflows usize"));
}

#[test]
fn generation_budget_rejects_model_context_overrun() {
    let err = validate_generation_budget("generate", 13, 5, Some(16), 16).unwrap_err();
    assert!(err.message().contains("exceeds model context_length=16"));
}

#[test]
fn generation_budget_allows_one_prediction_at_full_context() {
    validate_generation_budget("generate", 16, 1, Some(16), 16).unwrap();
}

#[test]
fn totals_count_prompt_and_output() {
    let stats = GenerationStats {
        prefill_tokens: 5,
        prefill_duration: 70,
        decode_tokens: 3,
        decode_duration: 30,
    };
    assert_eq!(stats.total_tokens(), 8);
    assert_eq!(stats.total_duration(), 100);
}
