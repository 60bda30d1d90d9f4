use kusage::aggregate::Status;
use kusage::model::{
    is_credit_unit, ConversationMetadata, MeteringEntry, ModelInfo, RtsModelState, SecsNanos,
    Session, SessionState, UserTurnMetadata,
};

/// A minimal but realistic session, mirroring Kiro's schema, with the credit
/// amount of each metering entry beside it.
fn sample() -> (Session, Vec<Vec<f64>>) {
    let t1 = UserTurnMetadata {
        total_request_count: Some(3),
        builtin_tool_uses: Some(5),
        end_reason: Some("UserTurnEnd".to_string()),
        end_timestamp: Some("2026-07-01T10:10:00Z".to_string()),
        input_token_count: Some(0),
        output_token_count: Some(0),
        turn_duration: Some(SecsNanos { secs: 12, nanos: 500_000_000 }),
        metering_usage: vec![
            MeteringEntry { unit: Some("credit".to_string()) },
            MeteringEntry { unit: Some("credit".to_string()) },
        ],
    };
    let t2 = UserTurnMetadata {
        total_request_count: Some(2),
        builtin_tool_uses: Some(1),
        end_reason: Some("Cancelled".to_string()),
        end_timestamp: Some("2026-07-01T10:20:00Z".to_string()),
        input_token_count: None,
        output_token_count: None,
        turn_duration: None,
        metering_usage: vec![MeteringEntry { unit: Some("credit".to_string()) }],
    };
    let s = Session {
        session_id: "abc-123".to_string(),
        cwd: Some("/Users/me/projects/demo".to_string()),
        created_at: Some("2026-07-01T10:00:00Z".to_string()),
        updated_at: Some("2026-07-01T10:30:00Z".to_string()),
        title: Some("build a thing".to_string()),
        session_created_reason: Some("user".to_string()),
        session_state: Some(SessionState {
            agent_name: Some("kiro_default".to_string()),
            conversation_metadata: Some(ConversationMetadata { user_turn_metadatas: vec![t1, t2] }),
            rts_model_state: Some(RtsModelState {
                model_info: Some(ModelInfo {
                    model_id: Some("opus-4.8".to_string()),
                    model_name: Some("Opus 4.8".to_string()),
                    context_window_tokens: Some(1000000),
                }),
            }),
        }),
    };
    (s, vec![vec![1.5, 0.5], vec![1.0]])
}

fn turn_credits(turn: &UserTurnMetadata, values: &[f64]) -> f64 {
    turn.metering_usage
        .iter()
        .zip(values.iter())
        .filter(|(m, _)| m.is_credit())
        .map(|(_, v)| *v)
        .sum()
}

fn session_credits(s: &Session, values: &[Vec<f64>]) -> f64 {
    s.turns().iter().zip(values.iter()).map(|(t, v)| turn_credits(t, v)).sum()
}

#[test]
fn parses_core_fields() {
    let (s, _) = sample();
    assert_eq!(s.session_id, "abc-123");
    assert_eq!(s.cwd.as_deref(), Some("/Users/me/projects/demo"));
    assert_eq!(s.model_id(), Some("opus-4.8"));
    assert_eq!(s.agent_name(), Some("kiro_default"));
    assert_eq!(s.turns().len(), 2);
}

#[test]
fn sums_credits_across_turns() {
    let (s, values) = sample();
    // 1.5 + 0.5 + 1.0
    assert!((session_credits(&s, &values) - 3.0).abs() < 1e-9);
}

#[test]
fn per_turn_credits_ignore_non_credit_units() {
    let (s, values) = sample();
    let turn = s.turns()[0].clone();
    assert!((turn_credits(&turn, &values[0]) - 2.0).abs() < 1e-9);
}

#[test]
fn tolerates_missing_optional_fields() {
    // No session_state at all.
    let s = Session {
        session_id: "x".to_string(),
        cwd: None,
        created_at: None,
        updated_at: None,
        title: None,
        session_created_reason: None,
        session_state: None,
    };
    assert_eq!(s.turns().len(), 0);
    assert_eq!(session_credits(&s, &[]), 0.0);
    assert_eq!(s.model_id(), None);
}

#[test]
fn only_credit_units_count() {
    assert!(is_credit_unit(Some("credit")));
    assert!(!is_credit_unit(Some("credits")));
    assert!(!is_credit_unit(Some("Credit")));
    assert!(!is_credit_unit(None));
    let turn = UserTurnMetadata {
        total_request_count: None,
        builtin_tool_uses: None,
        end_reason: None,
        end_timestamp: None,
        input_token_count: None,
        output_token_count: None,
        turn_duration: None,
        metering_usage: vec![
            MeteringEntry { unit: Some("credit".to_string()) },
            MeteringEntry { unit: Some("token".to_string()) },
            MeteringEntry { unit: None },
        ],
    };
    assert!((turn_credits(&turn, &[2.0, 40.0, 7.0]) - 2.0).abs() < 1e-9);
}

#[test]
fn statuses_follow_end_reasons() {
    assert_eq!(Status::from_end_reason(Some("UserTurnEnd")), Status::Completed);
    assert_eq!(Status::from_end_reason(Some("Cancelled")), Status::Cancelled);
    assert_eq!(Status::from_end_reason(Some("Error")), Status::Error);
    assert_eq!(Status::from_end_reason(Some("ToolUseRejected")), Status::Error);
    assert_eq!(Status::from_end_reason(Some("Something")), Status::Completed);
    assert_eq!(Status::from_end_reason(None), Status::Completed);
    assert_eq!(Status::Completed.glyph(), '✓');
    assert_eq!(Status::Cancelled.glyph(), '~');
    assert_eq!(Status::Error.glyph(), '✗');
    assert_eq!(Status::Cancelled.worse(Status::Completed), Status::Cancelled);
    assert_eq!(Status::Cancelled.worse(Status::Error), Status::Error);
    assert_eq!(kusage::output::status_str(Status::Completed), "ok");
    assert_eq!(kusage::output::status_str(Status::Cancelled), "cancelled");
    assert_eq!(kusage::output::status_str(Status::Error), "error");
}
