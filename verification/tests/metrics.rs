use telos_agent::metrics::SessionMetrics;

#[test]
fn fresh_metrics_are_zero() {
    let m = SessionMetrics::new();
    assert_eq!(m.total_input_tokens(), 0);
    assert_eq!(m.turn_count(), 0);
    assert_eq!(m.retry_count(), 0);
}

#[test]
fn updates_raise_only_their_counter() {
    let mut m = SessionMetrics::with_values(1, 2, 3, 4, 5, 6, 7, 8, 9, 10);
    m.add_input_tokens(100);
    m.add_output_tokens(10);
    m.add_prompt_cache_hit_tokens(1);
    m.add_prompt_cache_miss_tokens(2);
    m.add_tool_call();
    m.add_tool_error();
    m.add_iteration();
    m.add_compaction();
    m.add_turn();
    m.add_retry();
    assert_eq!(m.total_input_tokens(), 101);
    assert_eq!(m.total_output_tokens(), 12);
    assert_eq!(m.total_prompt_cache_hit_tokens(), 4);
    assert_eq!(m.total_prompt_cache_miss_tokens(), 6);
    assert_eq!(m.total_tool_calls(), 6);
    assert_eq!(m.total_tool_errors(), 7);
    assert_eq!(m.total_iterations(), 8);
    assert_eq!(m.compaction_count(), 9);
    assert_eq!(m.turn_count(), 10);
    assert_eq!(m.retry_count(), 11);
}

#[test]
fn restoring_a_checkpoint_undoes_later_updates() {
    let mut m = SessionMetrics::with_values(1, 2, 3, 4, 5, 6, 7, 8, 9, 10);
    let cp = m.checkpoint();
    m.add_turn();
    m.add_input_tokens(50);
    m.restore(&cp);
    assert_eq!(m.checkpoint(), cp);
    assert_eq!(m.turn_count(), 9);
    assert_eq!(m.total_input_tokens(), 1);
}

#[test]
fn counters_wrap_like_atomic_fetch_add() {
    let mut m = SessionMetrics::with_values(usize::MAX, 0, 0, 0, 0, 0, 0, 0, 0, 0);
    m.add_input_tokens(2);
    assert_eq!(m.total_input_tokens(), 1);
}
