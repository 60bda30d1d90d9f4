//! Aggregation of parsed sessions into the metrics the report renders.
//!
//! Everything here is pure: it takes the parsed sessions and produces owned
//! summary structs. Time handling uses the `end_timestamp` of each turn
//! (falling back to the session `updated_at`) to bucket usage by day, and a
//! session's best timestamp (its latest turn end, else `updated_at`, else
//! `created_at`) to date the session and to apply the `--since` time window.
//!
//! Credit amounts are fractional and are summed by the caller: the report
//! here says, for every figure, which sessions and turns contribute to it
//! and in which order, so that each sum is taken in the order the figure
//! accumulates.

use vstd::prelude::*;
use crate::model::{Session, UserTurnMetadata, opt_view, opt_str_view};
use crate::text::{push_char, str_eq};
use vstd::string::*;
use crate::timestamp::{Timestamp, rfc3339_timestamp, parse_ts, day_in_range};
use crate::summary::{
    Summary, in_window, included_spec, included_upto, summary_spec, totals_fit, included_sessions,
    summarize, check_totals_fit,
};
use crate::grouping::{GroupRow, DayRow, is_grouping, is_day_list, group_by_label, group_by_day};
use crate::ranking::{key_above, is_top_order, ranks_before, top_order};

verus! {

/// Status of a session or turn, derived from Kiro's `end_reason`.
#[derive(Debug, Clone, Copy, PartialEq, Eq, Structural)]
pub enum Status {
    /// Turn completed normally (`UserTurnEnd`).
    Completed,
    /// Turn was cancelled or interrupted (`Cancelled`).
    Cancelled,
    /// Turn errored or a tool use was rejected (`Error`, `ToolUseRejected`).
    Error,
}

/// The status a turn with this end reason has; unknown or absent reasons
/// count as completed.
pub open spec fn status_from_end_reason(reason: Option<Seq<char>>) -> Status {
    if reason == Some("UserTurnEnd"@) {
        Status::Completed
    } else if reason == Some("Cancelled"@) {
        Status::Cancelled
    } else if reason == Some("Error"@) || reason == Some("ToolUseRejected"@) {
        Status::Error
    } else {
        Status::Completed
    }
}

/// The glyph of a status in the recent feed.
pub open spec fn glyph_spec(s: Status) -> char {
    match s {
        Status::Completed => '✓',
        Status::Cancelled => '~',
        Status::Error => '✗',
    }
}

/// The worse of two statuses: an error outweighs a cancellation, which
/// outweighs a completion.
pub open spec fn worse(a: Status, b: Status) -> Status {
    match (a, b) {
        (Status::Error, _) | (_, Status::Error) => Status::Error,
        (Status::Cancelled, _) | (_, Status::Cancelled) => Status::Cancelled,
        _ => Status::Completed,
    }
}

/// The status of one turn.
pub open spec fn turn_status(t: UserTurnMetadata) -> Status {
    status_from_end_reason(opt_view(t.end_reason))
}

/// The status of a list of turns: the worst turn status, folded from `Completed`.
pub open spec fn turns_status(turns: Seq<UserTurnMetadata>) -> Status
    decreases turns.len(),
{
    if turns.len() == 0 {
        Status::Completed
    } else {
        worse(turns_status(turns.drop_last()), turn_status(turns.last()))
    }
}

impl Status {
    /// The status of a turn that ended for `reason`.
    pub fn from_end_reason(reason: Option<&str>) -> (s: Status)
        ensures
            s == status_from_end_reason(opt_str_view(reason)),
    {
        match reason {
            Some(r) => {
                if str_eq(r, "UserTurnEnd") {
                    Status::Completed
                } else if str_eq(r, "Cancelled") {
                    Status::Cancelled
                } else if str_eq(r, "Error") || str_eq(r, "ToolUseRejected") {
                    Status::Error
                } else {
                    Status::Completed
                }
            },
            None => Status::Completed,
        }
    }

    /// A compact glyph for the recent feed (✓ / ~ / ✗).
    pub fn glyph(&self) -> (c: char)
        ensures
            c == glyph_spec(*self),
    {
        match self {
            Status::Completed => '✓',
            Status::Cancelled => '~',
            Status::Error => '✗',
        }
    }

    /// The worse of two statuses (error over cancelled over completed).
    pub fn worse(self, other: Status) -> (s: Status)
        ensures
            s == worse(self, other),
    {
        match (self, other) {
            (Status::Error, _) | (_, Status::Error) => Status::Error,
            (Status::Cancelled, _) | (_, Status::Cancelled) => Status::Cancelled,
            _ => Status::Completed,
        }
    }
}

/// Status: worst turn status wins (Error > Cancelled > Completed).
pub fn session_status(session: &Session) -> (s: Status)
    ensures
        s == turns_status(session.turns_spec()),
{
    let turns = session.turns();
    let mut acc = Status::Completed;
    let mut i: usize = 0;
    while i < turns.len()
        invariant
            i <= turns@.len(),
            turns@ == session.turns_spec(),
            acc == turns_status(turns@.take(i as int)),
        decreases turns.len() - i,
    {
        let t = &turns[i];
        let st = match &t.end_reason {
            Some(r) => Status::from_end_reason(Some(r.as_str())),
            None => Status::from_end_reason(None),
        };
        assert(turns@.take(i + 1).drop_last() =~= turns@.take(i as int));
        acc = acc.worse(st);
        i = i + 1;
    }
    assert(turns@.take(i as int) =~= turns@);
    acc
}

/// The instant a turn ended, when it records a parseable one.
pub open spec fn turn_end(t: UserTurnMetadata) -> Option<Timestamp> {
    match t.end_timestamp {
        Some(s) => rfc3339_timestamp(s@),
        None => None,
    }
}

/// The later of a running maximum and a new instant; the new instant wins a
/// tie, as `Iterator::max` returns the last of several equal maxima.
pub open spec fn later(acc: Option<Timestamp>, t: Timestamp) -> Timestamp {
    match acc {
        Some(a) => if t.unix_nanos >= a.unix_nanos {
            t
        } else {
            a
        },
        None => t,
    }
}

/// The latest parseable turn end among `turns`.
pub open spec fn latest_turn_end(turns: Seq<UserTurnMetadata>) -> Option<Timestamp>
    decreases turns.len(),
{
    if turns.len() == 0 {
        None
    } else {
        let acc = latest_turn_end(turns.drop_last());
        match turn_end(turns.last()) {
            Some(t) => Some(later(acc, t)),
            None => acc,
        }
    }
}

/// The parse of an optional timestamp text.
pub open spec fn parse_opt(text: Option<String>) -> Option<Timestamp> {
    match text {
        Some(s) => rfc3339_timestamp(s@),
        None => None,
    }
}

/// Best available timestamp for a session: latest turn end, else
/// `updated_at`, else `created_at`.
pub open spec fn session_time_spec(s: Session) -> Option<Timestamp> {
    match latest_turn_end(s.turns_spec()) {
        Some(t) => Some(t),
        None => match parse_opt(s.updated_at) {
            Some(t) => Some(t),
            None => parse_opt(s.created_at),
        },
    }
}

pub(crate) fn parse_opt_exec(text: &Option<String>) -> (res: Option<Timestamp>)
    ensures
        res == parse_opt(*text),
        res matches Some(t) ==> t.wf(),
{
    match text {
        Some(s) => parse_ts(s.as_str()),
        None => None,
    }
}

pub(crate) fn turn_end_exec(t: &UserTurnMetadata) -> (res: Option<Timestamp>)
    ensures
        res == turn_end(*t),
        res matches Some(x) ==> x.wf(),
{
    parse_opt_exec(&t.end_timestamp)
}

/// Best available timestamp for a session: latest turn end, else
/// `updated_at`, else `created_at`.
pub fn session_time(session: &Session) -> (res: Option<Timestamp>)
    ensures
        res == session_time_spec(*session),
        res matches Some(t) ==> t.wf(),
{
    let turns = session.turns();
    let mut acc: Option<Timestamp> = None;
    let mut i: usize = 0;
    while i < turns.len()
        invariant
            i <= turns@.len(),
            turns@ == session.turns_spec(),
            acc == latest_turn_end(turns@.take(i as int)),
            acc matches Some(t) ==> t.wf(),
        decreases turns.len() - i,
    {
        let e = turn_end_exec(&turns[i]);
        assert(turns@.take(i + 1).drop_last() =~= turns@.take(i as int));
        match e {
            Some(t) => {
                acc = match acc {
                    Some(a) => if t.unix_nanos >= a.unix_nanos {
                        Some(t)
                    } else {
                        Some(a)
                    },
                    None => Some(t),
                };
            },
            None => {},
        }
        i = i + 1;
    }
    assert(turns@.take(i as int) =~= turns@);
    match acc {
        Some(t) => Some(t),
        None => match parse_opt_exec(&session.updated_at) {
            Some(t) => Some(t),
            None => parse_opt_exec(&session.created_at),
        },
    }
}

/// `path` without its trailing slashes.
pub open spec fn trim_trailing_slashes(path: Seq<char>) -> Seq<char>
    decreases path.len(),
{
    if path.len() > 0 && path.last() == '/' {
        trim_trailing_slashes(path.drop_last())
    } else {
        path
    }
}

/// The position of the last slash in `path`, or -1 when it has none.
pub open spec fn last_slash(path: Seq<char>) -> int
    decreases path.len(),
{
    if path.len() == 0 {
        -1
    } else if path.last() == '/' {
        path.len() - 1
    } else {
        last_slash(path.drop_last())
    }
}

/// The last component of `path`: what follows its last slash.
pub open spec fn last_component(path: Seq<char>) -> Seq<char> {
    path.skip(last_slash(path) + 1)
}

/// A project path shortened to its last two components (`a/b`), or to its
/// only component when it has one; trailing slashes are ignored.
pub open spec fn path_label(path: Seq<char>) -> Seq<char> {
    let t = trim_trailing_slashes(path);
    let i = last_slash(t);
    if i < 0 {
        t
    } else {
        last_component(t.take(i)) + seq!['/'] + t.skip(i + 1)
    }
}

/// The label of a project: its shortened path, or `(unknown)`.
pub open spec fn project_label_spec(cwd: Option<Seq<char>>) -> Seq<char> {
    match cwd {
        Some(p) => path_label(p),
        None => "(unknown)"@,
    }
}

proof fn lemma_trim(path: Seq<char>, e: int)
    requires
        0 <= e <= path.len(),
        forall|m: int| e <= m < path.len() ==> path[m] == '/',
        e == 0 || path[e - 1] != '/',
    ensures
        trim_trailing_slashes(path) == path.take(e),
    decreases path.len(),
{
    if path.len() > e {
        assert(path.last() == '/');
        let d = path.drop_last();
        assert forall|m: int| e <= m < d.len() implies d[m] == '/' by {
            assert(d[m] == path[m]);
        }
        if e > 0 {
            assert(d[e - 1] == path[e - 1]);
        }
        lemma_trim(d, e);
        assert(d.take(e) =~= path.take(e));
    } else {
        assert(path.take(e) =~= path);
    }
}

proof fn lemma_last_slash(path: Seq<char>, k: int)
    requires
        -1 <= k < path.len(),
        k >= 0 ==> path[k] == '/',
        forall|m: int| k < m < path.len() ==> path[m] != '/',
    ensures
        last_slash(path) == k,
    decreases path.len(),
{
    if path.len() > 0 && path.len() - 1 != k {
        let d = path.drop_last();
        assert(path.last() != '/');
        assert forall|m: int| k < m < d.len() implies d[m] != '/' by {
            assert(d[m] == path[m]);
        }
        if k >= 0 {
            assert(d[k] == path[k]);
        }
        lemma_last_slash(d, k);
    }
}

/// The characters of a string, one by one.
fn chars_of(s: &str) -> (v: Vec<char>)
    ensures
        v@ == s@,
{
    let n = s.unicode_len();
    let mut v: Vec<char> = Vec::new();
    let mut i: usize = 0;
    while i < n
        invariant
            i <= n,
            n == s@.len(),
            v@ == s@.take(i as int),
        decreases n - i,
    {
        v.push(s.get_char(i));
        i = i + 1;
        assert(v@ =~= s@.take(i as int));
    }
    assert(s@.take(n as int) =~= s@);
    v
}

/// The position of the last slash among the first `end` characters.
fn find_last_slash(v: &Vec<char>, end: usize) -> (k: Option<usize>)
    requires
        end <= v.len(),
    ensures
        match k {
            Some(k) => k < end && last_slash(v@.take(end as int)) == k as int,
            None => last_slash(v@.take(end as int)) == -1,
        },
{
    let mut i: usize = end;
    while i > 0 && v[i - 1] != '/'
        invariant
            i <= end <= v.len(),
            forall|m: int| i <= m < end ==> v@[m] != '/',
        decreases i,
    {
        i = i - 1;
    }
    let ghost t = v@.take(end as int);
    if i == 0 {
        proof {
            lemma_last_slash(t, -1);
        }
        None
    } else {
        proof {
            lemma_last_slash(t, i - 1);
        }
        Some(i - 1)
    }
}

/// Shorten a project path to a readable label (last two path components).
pub fn project_label(cwd: Option<&str>) -> (label: String)
    ensures
        label@ == project_label_spec(opt_str_view(cwd)),
{
    let path = match cwd {
        Some(p) => p,
        None => {
            return String::from_str("(unknown)");
        },
    };
    let v = chars_of(path);
    let mut e: usize = v.len();
    while e > 0 && v[e - 1] == '/'
        invariant
            e <= v.len(),
            forall|m: int| e <= m < v.len() ==> v@[m] == '/',
        decreases e,
    {
        e = e - 1;
    }
    proof {
        lemma_trim(v@, e as int);
    }
    let ghost t = v@.take(e as int);
    let mut out = String::new();
    match find_last_slash(&v, e) {
        None => {
            let mut k: usize = 0;
            while k < e
                invariant
                    k <= e <= v.len(),
                    t == v@.take(e as int),
                    out@ == t.take(k as int),
                decreases e - k,
            {
                push_char(&mut out, v[k]);
                k = k + 1;
                assert(out@ =~= t.take(k as int));
            }
            assert(t.take(e as int) =~= t);
        },
        Some(i) => {
            let start = match find_last_slash(&v, i) {
                Some(j) => j + 1,
                None => 0,
            };
            proof {
                assert(t.take(i as int) =~= v@.take(i as int));
            }
            let ghost head = last_component(t.take(i as int));
            assert(head =~= v@.subrange(start as int, i as int));
            let mut k: usize = start;
            while k < i
                invariant
                    start <= k <= i < e <= v.len(),
                    out@ == v@.subrange(start as int, k as int),
                decreases i - k,
            {
                push_char(&mut out, v[k]);
                k = k + 1;
                assert(out@ =~= v@.subrange(start as int, k as int));
            }
            push_char(&mut out, '/');
            let ghost mid = out@;
            let mut k: usize = i + 1;
            while k < e
                invariant
                    i < k <= e <= v.len(),
                    out@ == mid + v@.subrange(i + 1, k as int),
                decreases e - k,
            {
                push_char(&mut out, v[k]);
                k = k + 1;
                assert(out@ =~= mid + v@.subrange(i + 1, k as int));
            }
            assert(t.skip(i + 1) =~= v@.subrange(i + 1, e as int));
            assert(out@ =~= head + seq!['/'] + t.skip(i + 1));
        },
    }
    out
}

/// The title shown for a session in the recent feed: its title, else its
/// working directory, else its id.
pub open spec fn title_spec(s: Session) -> Seq<char> {
    match s.title {
        Some(t) => t@,
        None => match s.cwd {
            Some(c) => c@,
            None => s.session_id@,
        },
    }
}

/// The title shown for a session in the recent feed.
pub fn session_title(session: &Session) -> (title: String)
    ensures
        title@ == title_spec(*session),
{
    match &session.title {
        Some(t) => t.clone(),
        None => match &session.cwd {
            Some(c) => c.clone(),
            None => session.session_id.clone(),
        },
    }
}

/// The label of a session's model: its model id, or `(unknown)`.
pub open spec fn model_label_spec(s: Session) -> Seq<char> {
    match s.model_id_spec() {
        Some(m) => m,
        None => "(unknown)"@,
    }
}

/// The model label of every session.
pub open spec fn model_labels(ss: Seq<Session>) -> Seq<Seq<char>> {
    ss.map_values(|s: Session| model_label_spec(s))
}

/// The project label of every session.
pub open spec fn project_labels(ss: Seq<Session>) -> Seq<Seq<char>> {
    ss.map_values(|s: Session| project_label_spec(opt_view(s.cwd)))
}

/// The ordering key of an optional timestamp: its instant, absent below all.
pub open spec fn when_key(t: Option<Timestamp>) -> Option<i128> {
    match t {
        Some(x) => Some(x.unix_nanos),
        None => None,
    }
}

/// In the newest-first order, the session at position `i` comes before the
/// one at `j`: its timestamp is later, or they are equal and it comes first.
pub open spec fn newer_first(ss: Seq<Session>, i: usize, j: usize) -> bool {
    let ki = when_key(session_time_spec(ss[i as int]));
    let kj = when_key(session_time_spec(ss[j as int]));
    key_above(ki, kj) || (ki == kj && i < j)
}

/// A recent session entry for the reverse-chronological feed.
#[derive(Debug, Clone)]
pub struct RecentRow {
    /// Position of the session among the input sessions.
    pub session: usize,
    pub title: String,
    pub status: Status,
    pub when: Option<Timestamp>,
}

/// `rows` is the recent feed of the sessions at `inc`: the first `top_n` of
/// them in newest-first order (ties in input order), each with its title,
/// status and timestamp.
pub open spec fn is_recent_feed(rows: Seq<RecentRow>, ss: Seq<Session>, inc: Seq<usize>, top_n: nat) -> bool {
    &&& rows.len() == if top_n < inc.len() { top_n } else { inc.len() }
    &&& forall|a: int| 0 <= a < rows.len() ==> inc.contains(#[trigger] rows[a].session)
    &&& forall|a: int, b: int|
        0 <= a < b < rows.len() ==> newer_first(ss, #[trigger] rows[a].session, #[trigger] rows[b].session)
    &&& forall|a: int, p: int|
        0 <= a < rows.len() && 0 <= p < inc.len() && (forall|c: int|
            0 <= c < rows.len() ==> #[trigger] rows[c].session != inc[p]) ==> #[trigger] newer_first(
            ss,
            rows[a].session,
            inc[p],
        )
    &&& forall|a: int|
        0 <= a < rows.len() ==> {
            let s = ss[(#[trigger] rows[a]).session as int];
            &&& rows[a].title@ == title_spec(s)
            &&& rows[a].status == turns_status(s.turns_spec())
            &&& rows[a].when == session_time_spec(s)
        }
}

/// The full aggregated report.
///
/// The included sessions are those in the time window; the breakdowns by
/// model and project list every label (the caller ranks them once their
/// credits are summed); the days and the recent feed are final.
#[derive(Debug, Clone)]
pub struct Report {
    /// Positions of the sessions in the time window, in input order.
    pub included: Vec<usize>,
    pub summary: Summary,
    pub by_model: Vec<GroupRow>,
    pub by_project: Vec<GroupRow>,
    pub by_day: Vec<DayRow>,
    pub recent: Vec<RecentRow>,
}

/// The positions that `included_upto` lists are increasing and in range.
pub proof fn lemma_included_increasing(ss: Seq<Session>, since: Option<Timestamp>, n: nat)
    requires
        n <= ss.len() <= usize::MAX,
    ensures
        forall|a: int, b: int|
            0 <= a < b < included_upto(ss, since, n).len() ==> #[trigger] included_upto(ss, since, n)[a]
                < #[trigger] included_upto(ss, since, n)[b],
        forall|a: int|
            0 <= a < included_upto(ss, since, n).len() ==> #[trigger] included_upto(ss, since, n)[a] < n,
    decreases n,
{
    if n > 0 {
        lemma_included_increasing(ss, since, (n - 1) as nat);
        let prev = included_upto(ss, since, (n - 1) as nat);
        let cur = included_upto(ss, since, n);
        if in_window(ss[n - 1], since) {
            assert forall|a: int, b: int| 0 <= a < b < cur.len() implies #[trigger] cur[a] < #[trigger] cur[b] by {
                if b == prev.len() {
                    assert(cur[a] == prev[a]);
                } else {
                    assert(cur[a] == prev[a]);
                    assert(cur[b] == prev[b]);
                }
            }
            assert forall|a: int| 0 <= a < cur.len() implies #[trigger] cur[a] < n by {
                if a < prev.len() {
                    assert(cur[a] == prev[a]);
                }
            }
        }
    }
}

/// The model and project label of every session.
fn session_labels(sessions: &[Session]) -> (res: (Vec<String>, Vec<String>))
    ensures
        res.0.len() == sessions.len(),
        res.1.len() == sessions.len(),
        res.0@.map_values(|s: String| s@) == model_labels(sessions@),
        res.1@.map_values(|s: String| s@) == project_labels(sessions@),
{
    let mut models: Vec<String> = Vec::new();
    let mut projects: Vec<String> = Vec::new();
    let mut i: usize = 0;
    while i < sessions.len()
        invariant
            i <= sessions.len(),
            models.len() == i,
            projects.len() == i,
            models@.map_values(|s: String| s@) == model_labels(sessions@).take(i as int),
            projects@.map_values(|s: String| s@) == project_labels(sessions@).take(i as int),
        decreases sessions.len() - i,
    {
        let s = &sessions[i];
        let m = match s.model_id() {
            Some(id) => String::from_str(id),
            None => String::from_str("(unknown)"),
        };
        let p = match &s.cwd {
            Some(c) => project_label(Some(c.as_str())),
            None => project_label(None),
        };
        assert(m@ == model_label_spec(sessions@[i as int]));
        assert(p@ == project_label_spec(opt_view(sessions@[i as int].cwd)));
        models.push(m);
        projects.push(p);
        i = i + 1;
        assert(models@.map_values(|s: String| s@) =~= model_labels(sessions@).take(i as int));
        assert(projects@.map_values(|s: String| s@) =~= project_labels(sessions@).take(i as int));
    }
    assert(model_labels(sessions@).take(i as int) =~= model_labels(sessions@));
    assert(project_labels(sessions@).take(i as int) =~= project_labels(sessions@));
    (models, projects)
}

/// Build the reverse-chronological recent feed of the sessions at `inc`.
fn build_recent(sessions: &[Session], inc: &Vec<usize>, top_n: usize) -> (rows: Vec<RecentRow>)
    requires
        forall|a: int, b: int| 0 <= a < b < inc.len() ==> #[trigger] inc[a] < #[trigger] inc[b],
        forall|a: int| 0 <= a < inc.len() ==> #[trigger] inc[a] < sessions.len(),
    ensures
        is_recent_feed(rows@, sessions@, inc@, top_n as nat),
{
    let ghost ss = sessions@;
    let mut keys: Vec<Option<i128>> = Vec::new();
    let mut times: Vec<Option<Timestamp>> = Vec::new();
    let mut p: usize = 0;
    while p < inc.len()
        invariant
            ss == sessions@,
            forall|a: int| 0 <= a < inc.len() ==> #[trigger] inc[a] < sessions.len(),
            p <= inc.len(),
            keys.len() == p,
            times.len() == p,
            forall|q: int| 0 <= q < p ==> #[trigger] times@[q] == session_time_spec(ss[inc[q] as int]),
            forall|q: int| 0 <= q < p ==> #[trigger] keys@[q] == when_key(times@[q]),
        decreases inc.len() - p,
    {
        let t = session_time(&sessions[inc[p]]);
        times.push(t);
        keys.push(
            match t {
                Some(x) => Some(x.unix_nanos),
                None => None,
            },
        );
        p = p + 1;
    }
    let order = top_order(&keys, top_n);
    let mut rows: Vec<RecentRow> = Vec::new();
    let mut a: usize = 0;
    while a < order.len()
        invariant
            ss == sessions@,
            forall|a: int| 0 <= a < inc.len() ==> #[trigger] inc[a] < sessions.len(),
            keys.len() == inc.len(),
            times.len() == inc.len(),
            forall|q: int| 0 <= q < inc.len() ==> #[trigger] times@[q] == session_time_spec(ss[inc[q] as int]),
            is_top_order(keys@, top_n as nat, order@),
            a <= order.len(),
            rows.len() == a,
            forall|b: int| 0 <= b < a ==> (#[trigger] rows@[b]).session == inc@[order@[b] as int],
            forall|b: int|
                0 <= b < a ==> {
                    let s = ss[(#[trigger] rows@[b]).session as int];
                    &&& rows@[b].title@ == title_spec(s)
                    &&& rows@[b].status == turns_status(s.turns_spec())
                    &&& rows@[b].when == session_time_spec(s)
                },
        decreases order.len() - a,
    {
        let q = order[a];
        let i = inc[q];
        let s = &sessions[i];
        rows.push(RecentRow { session: i, title: session_title(s), status: session_status(s), when: times[q] });
        a = a + 1;
    }
    proof {
        let r = rows@;
        assert forall|a: int, b: int| 0 <= a < b < r.len() implies newer_first(ss, #[trigger] r[a].session, #[trigger] r[b].session) by {
            let qa = order@[a] as int;
            let qb = order@[b] as int;
            assert(ranks_before(keys@, qa, qb));
            if qa > qb {
                assert(inc@[qb] < inc@[qa]);
            }
        }
        assert forall|a: int, p: int|
            0 <= a < r.len() && 0 <= p < inc.len() && (forall|c: int|
                0 <= c < r.len() ==> #[trigger] r[c].session != inc[p]) implies #[trigger] newer_first(
            ss,
            r[a].session,
            inc[p],
        ) by {
            if order@.contains(p as usize) {
                let c = choose|c: int| 0 <= c < order@.len() && order@[c] == p as usize;
                assert(r[c].session == inc[p]);
            }
            let qa = order@[a] as int;
            assert(ranks_before(keys@, qa, p));
            if qa > p {
                assert(inc@[p] < inc@[qa]);
            }
            if qa == p {
                assert(r[a].session == inc[p]);
            }
        }
        assert forall|a: int| 0 <= a < r.len() implies inc@.contains(#[trigger] r[a].session) by {
            assert(inc@[order@[a] as int] == r[a].session);
        }
    }
    rows
}

/// `report` aggregates `ss` in the time window `since`, with a recent feed
/// of at most `top_n` sessions.
pub open spec fn is_report(report: Report, ss: Seq<Session>, since: Option<Timestamp>, top_n: nat) -> bool {
    &&& report.included@ == included_spec(ss, since)
    &&& report.summary == summary_spec(ss, report.included@)
    &&& is_grouping(report.by_model@, ss, model_labels(ss), report.included@)
    &&& is_grouping(report.by_project@, ss, project_labels(ss), report.included@)
    &&& is_day_list(report.by_day@, ss, report.included@)
    &&& is_recent_feed(report.recent@, ss, report.included@, top_n)
}

/// Every day the report names lies in the range `time` can print.
pub open spec fn report_days_printable(report: Report) -> bool {
    &&& (report.summary.first_day matches Some(d) ==> day_in_range(d))
    &&& (report.summary.last_day matches Some(d) ==> day_in_range(d))
    &&& forall|a: int| 0 <= a < report.by_day@.len() ==> day_in_range(#[trigger] report.by_day@[a].day)
}

/// Aggregate sessions into a full report.
///
/// `since` optionally drops sessions whose activity is older than the
/// cutoff. `top_n` limits the recent feed length.
pub fn aggregate(sessions: &[Session], since: Option<Timestamp>, top_n: usize) -> (report: Report)
    requires
        totals_fit(sessions@, included_spec(sessions@, since)),
    ensures
        is_report(report, sessions@, since, top_n as nat),
        report_days_printable(report),
{
    let included = included_sessions(sessions, since);
    let n = sessions.len();
    proof {
        lemma_included_increasing(sessions@, since, sessions@.len());
    }
    let summary = summarize(sessions, &included);
    let (models, projects) = session_labels(sessions);
    let by_model = group_by_label(sessions, &models, &included);
    let by_project = group_by_label(sessions, &projects, &included);
    let by_day = group_by_day(sessions, &included);
    let recent = build_recent(sessions, &included, top_n);
    Report { included, summary, by_model, by_project, by_day, recent }
}

/// Aggregate sessions into a full report, when the counters of the sessions
/// in the window fit the integer types that hold their totals; nothing
/// otherwise.
pub fn try_aggregate(sessions: &[Session], since: Option<Timestamp>, top_n: usize) -> (res: Option<
    Report,
>)
    ensures
        res is None <==> !totals_fit(sessions@, included_spec(sessions@, since)),
        res matches Some(report) ==> is_report(report, sessions@, since, top_n as nat)
            && report_days_printable(report),
{
    let included = included_sessions(sessions, since);
    let n = sessions.len();
    proof {
        lemma_included_increasing(sessions@, since, sessions@.len());
    }
    if check_totals_fit(sessions, &included) {
        Some(aggregate(sessions, since, top_n))
    } else {
        None
    }
}

} // verus!
