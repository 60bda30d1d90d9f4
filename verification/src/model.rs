//! Data model for Kiro CLI session metadata.
//!
//! Kiro CLI stores each chat session as a sidecar JSON file at
//! `~/.kiro/sessions/cli/<uuid>.json`. Each file holds session-level metadata
//! plus a list of "user turns", each carrying credit metering, request counts,
//! tool-use counts, timing, and (currently always zero) token counts.
//!
//! Every field Kiro might rename or omit across versions is optional, so a
//! schema drift degrades gracefully. The types here hold what the
//! aggregation reads; the fractional quantities of the files (credit
//! amounts, rate multipliers, context percentages) are kept beside them by
//! the program that reads the files.

use vstd::prelude::*;
use crate::text::str_eq;

verus! {

/// A single Kiro CLI session, parsed from one `<uuid>.json` sidecar file.
#[derive(Debug, Clone)]
pub struct Session {
    /// Session UUID (also the file stem).
    pub session_id: String,
    /// Working directory the session was started in.
    pub cwd: Option<String>,
    /// ISO-8601 creation timestamp.
    pub created_at: Option<String>,
    /// ISO-8601 last-updated timestamp.
    pub updated_at: Option<String>,
    /// Human-readable title (usually the first prompt, truncated).
    pub title: Option<String>,
    /// Why the session was created (e.g. "user", "subagent").
    pub session_created_reason: Option<String>,
    /// Nested session state, holding per-turn metadata and model info.
    pub session_state: Option<SessionState>,
}

#[derive(Debug, Clone)]
pub struct SessionState {
    pub agent_name: Option<String>,
    pub conversation_metadata: Option<ConversationMetadata>,
    pub rts_model_state: Option<RtsModelState>,
}

#[derive(Debug, Clone)]
pub struct RtsModelState {
    pub model_info: Option<ModelInfo>,
}

#[derive(Debug, Clone)]
pub struct ModelInfo {
    pub model_id: Option<String>,
    pub model_name: Option<String>,
    pub context_window_tokens: Option<u64>,
}

#[derive(Debug, Clone)]
pub struct ConversationMetadata {
    /// One entry per user turn (a user prompt and the agent work it drove).
    pub user_turn_metadatas: Vec<UserTurnMetadata>,
}

#[derive(Debug, Clone)]
pub struct UserTurnMetadata {
    /// Number of model requests made during this turn.
    pub total_request_count: Option<u64>,
    /// Number of built-in tool invocations during this turn.
    pub builtin_tool_uses: Option<u64>,
    /// How the turn ended: "UserTurnEnd", "Cancelled", "Error", "ToolUseRejected".
    pub end_reason: Option<String>,
    /// ISO-8601 timestamp when the turn ended.
    pub end_timestamp: Option<String>,
    /// Input tokens for the turn. Present in schema but currently always 0.
    pub input_token_count: Option<u64>,
    /// Output tokens for the turn. Present in schema but currently always 0.
    pub output_token_count: Option<u64>,
    /// Wall-clock duration of the turn.
    pub turn_duration: Option<SecsNanos>,
    /// Per-request credit metering for the turn.
    pub metering_usage: Vec<MeteringEntry>,
}

/// A duration expressed as whole seconds plus nanoseconds, as Kiro serializes it.
#[derive(Debug, Clone, Copy)]
pub struct SecsNanos {
    pub secs: u64,
    pub nanos: u64,
}

/// One metering line item. Kiro emits `unit: "credit"` today.
#[derive(Debug, Clone)]
pub struct MeteringEntry {
    pub unit: Option<String>,
}

/// The characters of an optional string.
pub open spec fn opt_view(o: Option<String>) -> Option<Seq<char>> {
    match o {
        Some(s) => Some(s@),
        None => None,
    }
}

/// The characters of an optional string slice.
pub open spec fn opt_str_view(o: Option<&str>) -> Option<Seq<char>> {
    match o {
        Some(s) => Some(s@),
        None => None,
    }
}

/// Whether a metering entry with this unit counts toward credits.
pub open spec fn is_credit_unit_spec(unit: Option<Seq<char>>) -> bool {
    unit == Some("credit"@)
}

/// Whether a metering entry with this unit counts toward credits: only
/// entries whose unit is exactly `credit` do.
pub fn is_credit_unit(unit: Option<&str>) -> (res: bool)
    ensures
        res == is_credit_unit_spec(opt_str_view(unit)),
{
    match unit {
        Some(u) => str_eq(u, "credit"),
        None => false,
    }
}

impl MeteringEntry {
    /// Whether this entry counts toward the credits of its turn.
    pub fn is_credit(&self) -> (res: bool)
        ensures
            res == is_credit_unit_spec(opt_view(self.unit)),
    {
        match &self.unit {
            Some(u) => is_credit_unit(Some(u.as_str())),
            None => false,
        }
    }
}

impl Session {
    /// The model id recorded in the session state, if every level is present.
    pub open spec fn model_id_spec(self) -> Option<Seq<char>> {
        match self.session_state {
            Some(st) => match st.rts_model_state {
                Some(r) => match r.model_info {
                    Some(m) => opt_view(m.model_id),
                    None => None,
                },
                None => None,
            },
            None => None,
        }
    }

    /// The agent name recorded in the session state.
    pub open spec fn agent_name_spec(self) -> Option<Seq<char>> {
        match self.session_state {
            Some(st) => opt_view(st.agent_name),
            None => None,
        }
    }

    /// The user turns recorded in the conversation metadata (empty when absent).
    pub open spec fn turns_spec(self) -> Seq<UserTurnMetadata> {
        match self.session_state {
            Some(st) => match st.conversation_metadata {
                Some(c) => c.user_turn_metadatas@,
                None => Seq::empty(),
            },
            None => Seq::empty(),
        }
    }

    /// The model id currently associated with the session, if known.
    pub fn model_id(&self) -> (res: Option<&str>)
        ensures
            opt_str_view(res) == self.model_id_spec(),
    {
        match &self.session_state {
            Some(st) => match &st.rts_model_state {
                Some(r) => match &r.model_info {
                    Some(m) => match &m.model_id {
                        Some(id) => Some(id.as_str()),
                        None => None,
                    },
                    None => None,
                },
                None => None,
            },
            None => None,
        }
    }

    /// The session's agent name, if known.
    pub fn agent_name(&self) -> (res: Option<&str>)
        ensures
            opt_str_view(res) == self.agent_name_spec(),
    {
        match &self.session_state {
            Some(st) => match &st.agent_name {
                Some(a) => Some(a.as_str()),
                None => None,
            },
            None => None,
        }
    }

    /// All user turns for this session (empty if metadata is absent).
    pub fn turns(&self) -> (res: &[UserTurnMetadata])
        ensures
            res@ == self.turns_spec(),
    {
        match &self.session_state {
            Some(st) => match &st.conversation_metadata {
                Some(c) => c.user_turn_metadatas.as_slice(),
                None => &[],
            },
            None => &[],
        }
    }
}

} // verus!
