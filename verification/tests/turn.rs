use telos_agent::context::{Conversation, ContextOps, RuntimeState, StateOps};
use telos_agent::error::AgentError;
use telos_agent::message::{Message, Role, SystemReminder};
use telos_agent::metrics::SessionMetrics;
use telos_agent::subagent::ModelHint;
use telos_agent::turn::{
    decide_compaction, failures_after, final_answer_index, memory_injection_step,
    reconcile_system_prompt, resolve_hint, skill_injection_step, turn_input_messages,
    turn_step, CompactionDecision, CompactionOutcome, InjectionStep, LoopEvent, TaskPath,
    TokenBudget, TurnAction, TurnEventKind, TurnProgress, TurnState,
};

#[test]
fn hints_follow_path_errors_and_progress() {
    assert_eq!(resolve_hint(TaskPath::Fast, 1, true, 5), ModelHint::Execution);
    assert_eq!(resolve_hint(TaskPath::Standard, 2, true, 0), ModelHint::Recovery);
    assert_eq!(resolve_hint(TaskPath::Standard, 2, false, 3), ModelHint::Thinking);
    assert_eq!(resolve_hint(TaskPath::Standard, 1, false, 0), ModelHint::Thinking);
    assert_eq!(resolve_hint(TaskPath::Heavy, 8, false, 0), ModelHint::Thinking);
    assert_eq!(resolve_hint(TaskPath::Standard, 8, false, 0), ModelHint::Execution);
    assert_eq!(resolve_hint(TaskPath::Heavy, 7, false, 0), ModelHint::Execution);
}

#[test]
fn turn_progress_tracks_the_loop() {
    let mut p = TurnProgress::new();
    assert!(p.start_iteration(Some(2)).is_ok());
    assert_eq!(p.next_hint(TaskPath::Standard), ModelHint::Thinking);
    p.record_assistant(true, true);
    p.record_assistant(true, true);
    assert_eq!(p.consecutive_noop, 2);
    p.record_assistant(true, false);
    assert_eq!(p.consecutive_noop, 0);
    p.record_tool_results(true);
    assert!(p.start_iteration(Some(2)).is_ok());
    assert_eq!(p.next_hint(TaskPath::Standard), ModelHint::Recovery);
    assert_eq!(p.start_iteration(Some(2)), Err(AgentError::MaxIterations(2)));
    assert!(p.on_final_reply(true));
    assert_eq!(p.next_hint(TaskPath::Fast), ModelHint::Thinking);
    assert!(!p.on_final_reply(false));
}

#[test]
fn compaction_is_skipped_aborted_or_run() {
    let budget = Some(TokenBudget { max_tokens: 100, compact_at_tokens: 80 });
    assert_eq!(decide_compaction(3, budget, 1000, true), CompactionDecision::CircuitOpen);
    assert_eq!(
        decide_compaction(0, budget, 101, true),
        CompactionDecision::AbortTurn { used_tokens: 101, max_tokens: 100 }
    );
    assert_eq!(decide_compaction(0, budget, 80, true), CompactionDecision::Compact);
    assert_eq!(decide_compaction(0, budget, 80, false), CompactionDecision::Proceed);
    assert_eq!(decide_compaction(0, None, 80, true), CompactionDecision::Proceed);
    assert_eq!(failures_after(2, CompactionOutcome::Failed), 3);
    assert_eq!(failures_after(2, CompactionOutcome::Compacted), 0);
    assert_eq!(failures_after(2, CompactionOutcome::NothingToDo), 2);
}

#[test]
fn memories_and_skills_are_injected_once_per_change() {
    assert_eq!(memory_injection_step(2, Some(1), None, true), InjectionStep::NotApplicable);
    assert_eq!(memory_injection_step(1, None, None, true), InjectionStep::NotApplicable);
    assert_eq!(memory_injection_step(1, Some(1), Some(1), false), InjectionStep::Unchanged);
    assert_eq!(memory_injection_step(1, Some(1), Some(1), true), InjectionStep::Inject);
    assert_eq!(memory_injection_step(1, Some(2), Some(1), false), InjectionStep::Inject);
    assert_eq!(skill_injection_step(1, false, Some(2), None), InjectionStep::NotApplicable);
    assert_eq!(skill_injection_step(1, true, Some(2), None), InjectionStep::Inject);
    assert_eq!(skill_injection_step(1, true, Some(2), Some(2)), InjectionStep::Unchanged);
}

#[test]
fn typed_input_becomes_trimmed_user_messages() {
    let messages = turn_input_messages(&vec!["  hi ".into(), "   ".into(), "there".into()]);
    assert_eq!(messages.len(), 2);
    assert_eq!(messages[0].role, Role::User);
    assert_eq!(messages[0].text_content(), "hi");
    assert_eq!(messages[1].text_content(), "there");
}

#[test]
fn the_answer_is_the_last_assistant_message_outside_hooks() {
    let (hs, hc, it, a, o) = (
        TurnEventKind::HookStarted,
        TurnEventKind::HookCompleted,
        TurnEventKind::IterationStarted,
        TurnEventKind::Assistant,
        TurnEventKind::Other,
    );
    assert_eq!(final_answer_index(&vec![it, a, hs, a, hc]), Some(1));
    assert_eq!(final_answer_index(&vec![a, it, o, a]), Some(3));
    assert_eq!(final_answer_index(&vec![hs, a, it, a]), Some(3));
    assert_eq!(final_answer_index(&vec![o]), None);
}

#[test]
fn resumed_sessions_get_the_configured_system_prompt() {
    let base = Some("be helpful".to_string());
    let mut empty: Vec<Message> = Vec::new();
    reconcile_system_prompt(false, &base, &mut empty);
    assert_eq!(empty.len(), 1);
    assert_eq!(empty[0].text_content(), "be helpful");

    let mut stale = vec![Message::system("old"), Message::user("hi")];
    reconcile_system_prompt(false, &base, &mut stale);
    assert_eq!(stale.len(), 2);
    assert_eq!(stale[0].text_content(), "be helpful");

    let mut missing = vec![Message::user("hi")];
    reconcile_system_prompt(false, &base, &mut missing);
    assert_eq!(missing.len(), 2);
    assert_eq!(missing[0].role, Role::System);

    let mut assembled = vec![Message::user("hi")];
    reconcile_system_prompt(true, &base, &mut assembled);
    assert_eq!(assembled.len(), 1);
}

#[test]
fn conversations_reset_to_their_system_message() {
    let mut c = Conversation::with_messages(vec![Message::system("sys"), Message::user("hi")]);
    c.push_system_reminder(SystemReminder::PlanMode);
    assert_eq!(c.messages().len(), 3);
    c.set_memory_dirty(true);
    c.reset();
    assert_eq!(c.messages().len(), 1);
    assert!(!c.memory_dirty());
    let mut fresh = Conversation::new();
    fresh.initial_messages(false, &Some("base".into()));
    assert_eq!(fresh.messages()[0].text_content(), "base");
}

#[test]
fn runtime_state_holds_metrics_and_failures() {
    let mut state = RuntimeState::with_values(SessionMetrics::new(), 7u8, 0);
    state.set_compaction_failures(2);
    assert_eq!(state.compaction_failures(), 2);
    assert_eq!(*state.read_file_state(), 7);
    let mut m = SessionMetrics::new();
    m.add_turn();
    state.set_metrics(m);
    assert_eq!(state.metrics().turn_count(), 1);
}

fn begin(max: Option<usize>, cancelled: bool, estimated_tokens: usize) -> LoopEvent {
    LoopEvent::Begin {
        max_iterations: max,
        cancelled,
        budget: Some(TokenBudget { max_tokens: 1000, compact_at_tokens: 800 }),
        estimated_tokens,
        can_compact: true,
    }
}

fn prepare() -> LoopEvent {
    LoopEvent::Prepare {
        path: TaskPath::Standard,
        memory_fingerprint: Some(7),
        last_memory_fingerprint: None,
        memory_dirty: false,
        minimal_prompt: false,
        skill_fingerprint: None,
        last_skill_fingerprint: None,
    }
}

#[test]
fn a_turn_with_one_tool_round_runs_two_iterations() {
    let mut state = TurnState::new();
    let mut metrics = SessionMetrics::new();
    assert_eq!(turn_step(&mut state, &mut metrics, begin(Some(5), false, 100)), TurnAction::Prepare);
    assert_eq!(state.progress.iterations, 1);
    match turn_step(&mut state, &mut metrics, prepare()) {
        TurnAction::AskModel { memory, skill, hint } => {
            assert_eq!(memory, InjectionStep::Inject);
            assert_eq!(skill, InjectionStep::NotApplicable);
            assert_eq!(hint, ModelHint::Thinking);
        }
        other => panic!("unexpected action: {other:?}"),
    }
    let replied = LoopEvent::Replied { has_tool_calls: true, text_is_empty: true, new_input_arrived: false, usage: None };
    assert_eq!(turn_step(&mut state, &mut metrics, replied), TurnAction::RunTools);
    assert_eq!(state.progress.consecutive_noop, 1);
    assert_eq!(turn_step(&mut state, &mut metrics, LoopEvent::ToolsRan { any_error: true }), TurnAction::NextIteration);
    assert_eq!(turn_step(&mut state, &mut metrics, begin(Some(5), false, 100)), TurnAction::Prepare);
    match turn_step(&mut state, &mut metrics, prepare()) {
        TurnAction::AskModel { memory, hint, .. } => {
            assert_eq!(memory, InjectionStep::NotApplicable);
            assert_eq!(hint, ModelHint::Recovery);
        }
        other => panic!("unexpected action: {other:?}"),
    }
    let done = LoopEvent::Replied { has_tool_calls: false, text_is_empty: false, new_input_arrived: false, usage: None };
    assert_eq!(turn_step(&mut state, &mut metrics, done), TurnAction::Finish);
}

#[test]
fn new_input_after_a_final_reply_forces_thinking() {
    let mut state = TurnState::new();
    let mut metrics = SessionMetrics::new();
    turn_step(&mut state, &mut metrics, begin(None, false, 0));
    turn_step(&mut state, &mut metrics, prepare());
    let replied = LoopEvent::Replied { has_tool_calls: false, text_is_empty: false, new_input_arrived: true, usage: None };
    assert_eq!(turn_step(&mut state, &mut metrics, replied), TurnAction::NextIteration);
    assert!(state.progress.force_thinking_next_iteration);
    turn_step(&mut state, &mut metrics, begin(None, false, 0));
    match turn_step(&mut state, &mut metrics, prepare()) {
        TurnAction::AskModel { hint, .. } => assert_eq!(hint, ModelHint::Thinking),
        other => panic!("unexpected action: {other:?}"),
    }
    assert!(!state.progress.force_thinking_next_iteration);
}

#[test]
fn limits_cancellation_and_budget_end_the_turn() {
    let mut state = TurnState::new();
    let mut metrics = SessionMetrics::new();
    assert_eq!(turn_step(&mut state, &mut metrics, begin(Some(0), false, 0)), TurnAction::Fail(AgentError::MaxIterations(0)));
    assert_eq!(state.progress.iterations, 0);
    assert_eq!(turn_step(&mut state, &mut metrics, begin(None, true, 0)), TurnAction::Fail(AgentError::Cancelled));
    assert_eq!(
        turn_step(&mut state, &mut metrics, begin(None, false, 2000)),
        TurnAction::Abort { used_tokens: 2000, max_tokens: 1000 }
    );
    assert_eq!(turn_step(&mut state, &mut metrics, begin(None, false, 900)), TurnAction::Compact);
    let failure = AgentError::Provider(telos_agent::error::ProviderError::Other("summary failed".into()));
    assert_eq!(
        turn_step(&mut state, &mut metrics, LoopEvent::Compacted(Err(failure.clone()))),
        TurnAction::Fail(failure)
    );
    assert_eq!(state.compaction_failures, 1);
    assert_eq!(metrics.compaction_count(), 0);
    assert_eq!(turn_step(&mut state, &mut metrics, LoopEvent::Compacted(Ok(true))), TurnAction::Prepare);
    assert_eq!(state.compaction_failures, 0);
    assert_eq!(metrics.compaction_count(), 1);
}

#[test]
fn a_one_reply_turn_counts_one_turn_and_one_iteration() {
    let mut state = TurnState::for_turn(0);
    let mut metrics = SessionMetrics::new();
    assert_eq!(turn_step(&mut state, &mut metrics, begin(None, false, 0)), TurnAction::Prepare);
    turn_step(&mut state, &mut metrics, prepare());
    let usage = telos_agent::provider::TokenUsage {
        input_tokens: 10,
        output_tokens: 4,
        total_tokens: Some(14),
        prompt_cache_hit_tokens: Some(3),
        prompt_cache_miss_tokens: None,
        reasoning_tokens: None,
    };
    let done = LoopEvent::Replied { has_tool_calls: false, text_is_empty: false, new_input_arrived: false, usage: Some(usage) };
    assert_eq!(turn_step(&mut state, &mut metrics, done), TurnAction::Finish);
    assert_eq!(metrics.turn_count(), 1);
    assert_eq!(metrics.total_iterations(), 1);
    assert_eq!(metrics.total_input_tokens(), 10);
    assert_eq!(metrics.total_output_tokens(), 4);
    assert_eq!(metrics.total_prompt_cache_hit_tokens(), 3);
    assert_eq!(metrics.total_prompt_cache_miss_tokens(), 0);
}

#[test]
fn failed_compactions_carry_over_to_the_next_turn() {
    let state = TurnState::for_turn(2);
    assert_eq!(state.compaction_failures, 2);
    assert_eq!(state.progress.iterations, 0);
}
