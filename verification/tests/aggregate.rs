use kusage::aggregate::{aggregate, project_label, session_status, session_time, Report, Status};
use kusage::model::{
    ConversationMetadata, MeteringEntry, ModelInfo, RtsModelState, Session, SessionState,
    UserTurnMetadata,
};
use kusage::ranking::{credit_order_key, rank_groups};
use kusage::timestamp::{format_day, parse_ts};

/// Sessions together with the credit amount of every metering entry
/// (`values[session][turn][entry]`), which the library's model leaves to
/// its caller.
struct Fixture {
    sessions: Vec<Session>,
    values: Vec<Vec<Vec<f64>>>,
}

impl Fixture {
    fn new() -> Fixture {
        Fixture { sessions: Vec::new(), values: Vec::new() }
    }

    /// Add a session with a given model, cwd, and a list of
    /// (credits, end_reason, end_timestamp) turns.
    fn add(&mut self, id: &str, model: &str, cwd: &str, turns: &[(f64, &str, &str)]) {
        let updated = turns.last().map(|t| t.2).unwrap_or("2026-07-01T00:00:00Z");
        let metas: Vec<UserTurnMetadata> = turns
            .iter()
            .map(|(_, reason, ts)| UserTurnMetadata {
                total_request_count: None,
                builtin_tool_uses: None,
                end_reason: Some(reason.to_string()),
                end_timestamp: Some(ts.to_string()),
                input_token_count: None,
                output_token_count: None,
                turn_duration: None,
                metering_usage: vec![MeteringEntry { unit: Some("credit".to_string()) }],
            })
            .collect();
        self.values.push(turns.iter().map(|t| vec![t.0]).collect());
        self.sessions.push(Session {
            session_id: id.to_string(),
            cwd: Some(cwd.to_string()),
            created_at: None,
            updated_at: Some(updated.to_string()),
            title: Some(format!("t-{id}")),
            session_created_reason: None,
            session_state: Some(SessionState {
                agent_name: None,
                conversation_metadata: Some(ConversationMetadata { user_turn_metadatas: metas }),
                rts_model_state: Some(RtsModelState {
                    model_info: Some(ModelInfo {
                        model_id: Some(model.to_string()),
                        model_name: None,
                        context_window_tokens: None,
                    }),
                }),
            }),
        });
    }

    fn turn_credits(&self, i: usize, t: usize) -> f64 {
        let turn = &self.sessions[i].turns()[t];
        turn.metering_usage
            .iter()
            .zip(self.values[i][t].iter())
            .filter(|(m, _)| m.is_credit())
            .map(|(_, v)| *v)
            .sum()
    }

    fn session_credits(&self, i: usize) -> f64 {
        (0..self.sessions[i].turns().len()).map(|t| self.turn_credits(i, t)).sum()
    }

    fn total_credits(&self, r: &Report) -> f64 {
        let mut c = 0.0;
        for &i in &r.included {
            c += self.session_credits(i);
        }
        c
    }

    fn credits_of(&self, members: &[usize]) -> f64 {
        let mut c = 0.0;
        for &i in members {
            c += self.session_credits(i);
        }
        c
    }

    /// The model breakdown ranked by credits and cut to `top_n`:
    /// (label, credits, pct).
    fn ranked_models(&self, r: &Report, top_n: usize) -> Vec<(String, f64, f64)> {
        let total = self.total_credits(r).max(f64::EPSILON);
        let credits: Vec<f64> = r.by_model.iter().map(|g| self.credits_of(&g.members)).collect();
        let keys: Vec<u64> = credits.iter().map(|c| credit_order_key(c.to_bits())).collect();
        rank_groups(&keys, top_n)
            .into_iter()
            .map(|k| (r.by_model[k].label.clone(), credits[k], credits[k] / total * 100.0))
            .collect()
    }
}

fn fixtures() -> Fixture {
    let mut f = Fixture::new();
    f.add("s1", "opus", "/a/proj-x", &[(2.0, "UserTurnEnd", "2026-07-01T10:00:00Z")]);
    f.add("s2", "opus", "/a/proj-x", &[(3.0, "Cancelled", "2026-07-02T10:00:00Z")]);
    f.add("s3", "sonnet", "/a/proj-y", &[(1.0, "Error", "2026-07-02T12:00:00Z")]);
    f
}

fn when_key(r: &kusage::aggregate::RecentRow) -> Option<i128> {
    r.when.map(|t| t.unix_nanos)
}

#[test]
fn summary_totals() {
    let f = fixtures();
    let r = aggregate(&f.sessions, None, 10);
    assert_eq!(r.summary.sessions, 3);
    assert_eq!(r.summary.turns, 3);
    assert!((f.total_credits(&r) - 6.0).abs() < 1e-9);
}

#[test]
fn by_model_ranked_desc_with_pct() {
    let f = fixtures();
    let r = aggregate(&f.sessions, None, 10);
    let by_model = f.ranked_models(&r, 10);
    assert_eq!(by_model.len(), 2);
    // opus = 5.0, sonnet = 1.0
    assert_eq!(by_model[0].0, "opus");
    assert!((by_model[0].1 - 5.0).abs() < 1e-9);
    assert!((by_model[0].2 - (5.0 / 6.0 * 100.0)).abs() < 1e-6);
    assert_eq!(by_model[1].0, "sonnet");
}

#[test]
fn by_project_uses_short_labels() {
    let f = fixtures();
    let r = aggregate(&f.sessions, None, 10);
    let labels: Vec<&str> = r.by_project.iter().map(|g| g.label.as_str()).collect();
    assert!(labels.contains(&"a/proj-x"));
    assert!(labels.contains(&"a/proj-y"));
}

#[test]
fn by_day_bucketed_and_sorted() {
    let f = fixtures();
    let r = aggregate(&f.sessions, None, 10);
    assert_eq!(r.by_day.len(), 2);
    assert!(r.by_day[0].day < r.by_day[1].day);
    // 2026-07-02 has 3.0 + 1.0 = 4.0 credits.
    let last = r.by_day.last().unwrap();
    let mut credits = 0.0;
    for &(i, t) in &last.turns {
        credits += f.turn_credits(i, t);
    }
    assert!((credits - 4.0).abs() < 1e-9);
}

#[test]
fn top_n_truncates_breakdowns() {
    let f = fixtures();
    let r = aggregate(&f.sessions, None, 1);
    assert_eq!(f.ranked_models(&r, 1).len(), 1);
    assert_eq!(r.recent.len(), 1);
}

#[test]
fn recent_is_reverse_chronological() {
    let f = fixtures();
    let r = aggregate(&f.sessions, None, 10);
    // Newest activity first: s2/s3 are on 07-02, s1 on 07-01.
    assert!(when_key(&r.recent[0]) >= when_key(&r.recent[1]));
    assert!(when_key(&r.recent[1]) >= when_key(&r.recent[2]));
}

#[test]
fn status_derived_from_worst_turn() {
    let mut f = Fixture::new();
    f.add(
        "mix",
        "opus",
        "/a/b",
        &[
            (1.0, "UserTurnEnd", "2026-07-01T10:00:00Z"),
            (1.0, "Error", "2026-07-01T10:05:00Z"),
        ],
    );
    let r = aggregate(&f.sessions, None, 10);
    assert_eq!(r.recent[0].status, Status::Error);
}

#[test]
fn since_filter_excludes_old_sessions() {
    let f = fixtures();
    let cutoff = parse_ts("2026-07-02T00:00:00Z").unwrap();
    let r = aggregate(&f.sessions, Some(cutoff), 10);
    // Only s2 and s3 are on/after the cutoff.
    assert_eq!(r.summary.sessions, 2);
}

#[test]
fn breakdown_counts_add_up_to_summary() {
    let mut f = fixtures();
    f.add("s4", "haiku", "/b/c/", &[(0.5, "UserTurnEnd", "2026-06-30T23:00:00Z"), (0.5, "Cancelled", "2026-07-01T01:00:00Z")]);
    let r = aggregate(&f.sessions, None, 10);
    let sessions: usize = r.by_model.iter().map(|g| g.sessions).sum();
    let turns: usize = r.by_model.iter().map(|g| g.turns).sum();
    assert_eq!(sessions, r.summary.sessions);
    assert_eq!(turns, r.summary.turns);
    let sessions: usize = r.by_project.iter().map(|g| g.sessions).sum();
    assert_eq!(sessions, 4);
    // Groups appear in order of first appearance, with their members.
    let labels: Vec<&str> = r.by_model.iter().map(|g| g.label.as_str()).collect();
    assert_eq!(labels, vec!["opus", "sonnet", "haiku"]);
    assert_eq!(r.by_model[0].members, vec![0, 1]);
    assert_eq!(r.by_project[2].label, "b/c");
}

#[test]
fn day_rows_count_sessions_and_turns() {
    let mut f = fixtures();
    f.add("s4", "haiku", "/b/c", &[(0.5, "UserTurnEnd", "2026-06-30T23:00:00Z"), (0.5, "Cancelled", "2026-07-01T01:00:00Z")]);
    let r = aggregate(&f.sessions, None, 10);
    let days: Vec<String> = r.by_day.iter().map(|d| format_day(d.day)).collect();
    assert_eq!(days, vec!["2026-06-30", "2026-07-01", "2026-07-02"]);
    // 06-30 has a turn of s4 but no session; 07-01 has s1 and s4.
    assert_eq!(r.by_day[0].sessions, 0);
    assert_eq!(r.by_day[0].turns, vec![(3, 0)]);
    assert_eq!(r.by_day[1].sessions, 2);
    assert_eq!(r.by_day[1].turns, vec![(0, 0), (3, 1)]);
    assert_eq!(r.by_day[2].members, vec![1, 2]);
    assert_eq!(r.summary.first_day, Some(r.by_day[1].day));
    assert_eq!(r.summary.last_day, Some(r.by_day[2].day));
}

#[test]
fn recent_ties_keep_input_order_and_deltas_pair_neighbours() {
    let mut f = Fixture::new();
    f.add("a", "m", "/x", &[(1.0, "UserTurnEnd", "2026-07-01T10:00:00Z")]);
    f.add("b", "m", "/x", &[(1.0, "UserTurnEnd", "2026-07-01T10:00:00Z")]);
    f.add("c", "m", "/x", &[(1.0, "UserTurnEnd", "2026-07-03T10:00:00Z")]);
    let r = aggregate(&f.sessions, None, 10);
    let order: Vec<usize> = r.recent.iter().map(|x| x.session).collect();
    assert_eq!(order, vec![2, 0, 1]);
    assert_eq!(r.recent[0].title, "t-c");
}

#[test]
fn session_without_timestamps_is_oldest_and_outside_any_window() {
    let mut f = fixtures();
    f.sessions.push(Session {
        session_id: "bare".to_string(),
        cwd: None,
        created_at: None,
        updated_at: None,
        title: None,
        session_created_reason: None,
        session_state: None,
    });
    f.values.push(vec![]);
    let r = aggregate(&f.sessions, None, 10);
    assert_eq!(r.recent.last().unwrap().session, 3);
    assert_eq!(r.recent.last().unwrap().title, "bare");
    assert_eq!(r.recent.last().unwrap().when, None);
    let unknown: Vec<&str> = r.by_model.iter().map(|g| g.label.as_str()).collect();
    assert!(unknown.contains(&"(unknown)"));
    let cutoff = parse_ts("2000-01-01T00:00:00Z").unwrap();
    let r = aggregate(&f.sessions, Some(cutoff), 10);
    assert_eq!(r.summary.sessions, 3);
}

#[test]
fn session_time_prefers_latest_turn_then_updated_then_created() {
    let mut f = fixtures();
    let s = &mut f.sessions[0];
    let latest = session_time(s).unwrap();
    assert_eq!(Some(latest), parse_ts("2026-07-01T10:00:00Z"));
    s.session_state = None;
    s.updated_at = Some("not a time".to_string());
    s.created_at = Some("2026-05-05T05:05:05+02:00".to_string());
    let t = session_time(s).unwrap();
    assert_eq!(t.offset_seconds, 7200);
    assert_eq!(format_day(t.julian_day), "2026-05-05");
    assert_eq!(session_status(s), Status::Completed);
}

#[test]
fn project_labels_keep_last_two_components() {
    assert_eq!(project_label(Some("/Users/me/projects/demo")), "projects/demo");
    assert_eq!(project_label(Some("/a/proj-x/")), "a/proj-x");
    assert_eq!(project_label(Some("/x")), "/x");
    assert_eq!(project_label(Some("solo")), "solo");
    assert_eq!(project_label(Some("/")), "");
    assert_eq!(project_label(None), "(unknown)");
}

#[test]
fn ranking_is_stable_descending_and_cut() {
    let keys: Vec<u64> = [1.0f64, 5.0, 1.0, -2.0, 5.0, 0.0, -0.0]
        .iter()
        .map(|c| credit_order_key(c.to_bits()))
        .collect();
    assert_eq!(rank_groups(&keys, 10), vec![1, 4, 0, 2, 5, 6, 3]);
    assert_eq!(rank_groups(&keys, 2), vec![1, 4]);
    assert_eq!(rank_groups(&keys, 0), Vec::<usize>::new());
}

#[test]
fn credit_keys_order_like_the_amounts() {
    let amounts = [-1000.5f64, -3.0, -0.25, -0.0, 0.0, 1e-9, 0.5, 2.0, 1700.0];
    for w in amounts.windows(2) {
        let a = credit_order_key(w[0].to_bits());
        let b = credit_order_key(w[1].to_bits());
        if w[0] == w[1] {
            assert_eq!(a, b);
        } else {
            assert!(a < b, "{} vs {}", w[0], w[1]);
        }
    }
}

#[test]
fn later_cutoff_keeps_a_subset() {
    let f = fixtures();
    let early = aggregate(&f.sessions, Some(parse_ts("2026-07-01T00:00:00Z").unwrap()), 10);
    let late = aggregate(&f.sessions, Some(parse_ts("2026-07-02T11:00:00Z").unwrap()), 10);
    assert_eq!(early.included, vec![0, 1, 2]);
    assert_eq!(late.included, vec![2]);
    assert!(late.included.iter().all(|i| early.included.contains(i)));
    let none = aggregate(&f.sessions, None, 10);
    assert_eq!(none.included, vec![0, 1, 2]);
}

#[test]
fn untimed_turns_count_on_the_day_of_updated_at() {
    let mut f = fixtures();
    f.add("s4", "opus", "/a/proj-z", &[(1.5, "UserTurnEnd", "2026-07-03T09:00:00Z"), (0.5, "UserTurnEnd", "")]);
    f.sessions[3].session_state.as_mut().unwrap().conversation_metadata.as_mut().unwrap()
        .user_turn_metadatas[1].end_timestamp = None;
    f.sessions[3].updated_at = Some("2026-07-04T08:00:00Z".to_string());
    let r = aggregate(&f.sessions, None, 10);
    let days: Vec<String> = r.by_day.iter().map(|d| format_day(d.day)).collect();
    assert_eq!(days, vec!["2026-07-01", "2026-07-02", "2026-07-03", "2026-07-04"]);
    // The timed turn ends on 07-03, which is also the session's day; the
    // untimed one counts on the day of `updated_at`.
    assert_eq!(r.by_day[2].turns, vec![(3, 0)]);
    assert_eq!(r.by_day[2].members, vec![3]);
    assert_eq!(r.by_day[3].turns, vec![(3, 1)]);
    assert_eq!(r.by_day[3].sessions, 0);
    // Every turn of every included session is on exactly one day.
    let listed: usize = r.by_day.iter().map(|d| d.turns.len()).sum();
    assert_eq!(listed, r.summary.turns);
    let day_credits: f64 = r.by_day.iter().flat_map(|d| d.turns.iter()).map(|&(i, t)| f.turn_credits(i, t)).sum();
    assert!((day_credits - 8.0).abs() < 1e-9);
    // Without a parseable `updated_at`, an untimed turn has no day.
    f.sessions[3].updated_at = Some("later".to_string());
    let r = aggregate(&f.sessions, None, 10);
    assert_eq!(r.by_day.len(), 3);
    assert_eq!(r.by_day[2].turns, vec![(3, 0)]);
}

#[test]
fn the_limit_only_bounds_lengths() {
    let mut f = fixtures();
    f.add("s4", "haiku", "/b/c", &[(0.5, "UserTurnEnd", "2026-06-30T23:00:00Z")]);
    let small = aggregate(&f.sessions, None, 1);
    let large = aggregate(&f.sessions, None, 10);
    assert_eq!(small.included, large.included);
    assert_eq!(small.summary, large.summary);
    assert_eq!(small.by_model.len(), large.by_model.len());
    for (a, b) in small.by_model.iter().zip(large.by_model.iter()) {
        assert_eq!((&a.label, &a.members, a.sessions, a.turns), (&b.label, &b.members, b.sessions, b.turns));
    }
    let days = |r: &Report| r.by_day.iter().map(|d| (d.day, d.members.clone(), d.turns.clone())).collect::<Vec<_>>();
    assert_eq!(days(&small), days(&large));
    assert_eq!(small.recent.len(), 1);
    assert_eq!(large.recent.len(), 4);
    assert_eq!(small.recent[0].session, large.recent[0].session);
    assert_eq!(rank_groups(&vec![credit_order_key(1.0f64.to_bits()); 3], 2).len(), 2);
    assert_eq!(rank_groups(&vec![credit_order_key(1.0f64.to_bits()); 3], 5).len(), 3);
}

#[test]
fn rankings_keep_the_limit_or_every_label() {
    let mut f = fixtures();
    f.add("s4", "haiku", "/b/c", &[(0.5, "UserTurnEnd", "2026-06-30T23:00:00Z")]);
    for top_n in [0usize, 1, 2, 3, 10] {
        let r = aggregate(&f.sessions, None, top_n);
        let models = f.ranked_models(&r, top_n);
        assert_eq!(models.len(), top_n.min(3));
        let keys: Vec<u64> = r.by_project.iter().map(|g| credit_order_key(f.credits_of(&g.members).to_bits())).collect();
        assert_eq!(rank_groups(&keys, top_n).len(), top_n.min(3));
        assert_eq!(r.recent.len(), top_n.min(4));
    }
}
