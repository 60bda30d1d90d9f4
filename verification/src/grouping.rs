//! Grouping of the included sessions: by a label (model or project) and by
//! calendar day.

use vstd::prelude::*;
use crate::aggregate::{session_time, session_time_spec, turn_end, turn_end_exec, parse_opt, parse_opt_exec};
use crate::model::{Session, UserTurnMetadata};
use crate::summary::{sum_of, turns_of, lemma_sum_prefix};
use crate::timestamp::day_in_range;

verus! {

/// The distinct labels of the sessions at `inc`, in order of first appearance.
pub open spec fn distinct_labels(labels: Seq<Seq<char>>, inc: Seq<usize>) -> Seq<Seq<char>>
    decreases inc.len(),
{
    if inc.len() == 0 {
        Seq::empty()
    } else {
        let prev = distinct_labels(labels, inc.drop_last());
        let l = labels[inc.last() as int];
        if prev.contains(l) {
            prev
        } else {
            prev.push(l)
        }
    }
}

/// The positions among `inc` of the sessions labelled `l`, in order.
pub open spec fn with_label(labels: Seq<Seq<char>>, inc: Seq<usize>, l: Seq<char>) -> Seq<usize>
    decreases inc.len(),
{
    if inc.len() == 0 {
        Seq::empty()
    } else {
        let prev = with_label(labels, inc.drop_last(), l);
        if labels[inc.last() as int] == l {
            prev.push(inc.last())
        } else {
            prev
        }
    }
}

/// A breakdown row: the sessions that share a label.
#[derive(Debug, Clone)]
pub struct GroupRow {
    pub label: String,
    /// Number of sessions with this label.
    pub sessions: usize,
    /// Number of turns of those sessions.
    pub turns: usize,
    /// Positions of those sessions, in input order.
    pub members: Vec<usize>,
}

/// `rows` groups the sessions at `inc` by `labels`: one row per distinct
/// label, in order of first appearance, each listing the sessions with that
/// label and counting them and their turns.
pub open spec fn is_grouping(
    rows: Seq<GroupRow>,
    ss: Seq<Session>,
    labels: Seq<Seq<char>>,
    inc: Seq<usize>,
) -> bool {
    &&& rows.len() == distinct_labels(labels, inc).len()
    &&& forall|g: int|
        0 <= g < rows.len() ==> {
            &&& #[trigger] rows[g].label@ == distinct_labels(labels, inc)[g]
            &&& rows[g].members@ == with_label(labels, inc, rows[g].label@)
            &&& rows[g].sessions == rows[g].members@.len()
            &&& rows[g].turns == sum_of(rows[g].members@, turns_of(ss))
        }
}

proof fn lemma_with_label_sum_le(
    labels: Seq<Seq<char>>,
    inc: Seq<usize>,
    l: Seq<char>,
    f: spec_fn(usize) -> nat,
)
    ensures
        sum_of(with_label(labels, inc, l), f) <= sum_of(inc, f),
    decreases inc.len(),
{
    if inc.len() > 0 {
        lemma_with_label_sum_le(labels, inc.drop_last(), l, f);
        let prev = with_label(labels, inc.drop_last(), l);
        if labels[inc.last() as int] == l {
            assert(prev.push(inc.last()).drop_last() =~= prev);
        }
    }
}

/// The distinct labels of the sessions at `inc`, in order of first appearance.
fn distinct_label_list(labels: &Vec<String>, inc: &Vec<usize>) -> (labs: Vec<String>)
    requires
        forall|k: int| 0 <= k < inc.len() ==> inc[k] < labels.len(),
    ensures
        labs@.map_values(|s: String| s@) == distinct_labels(
            labels@.map_values(|s: String| s@),
            inc@,
        ),
{
    let ghost lv = labels@.map_values(|s: String| s@);
    let mut labs: Vec<String> = Vec::new();
    let mut p: usize = 0;
    while p < inc.len()
        invariant
            lv == labels@.map_values(|s: String| s@),
            forall|k: int| 0 <= k < inc.len() ==> inc[k] < labels.len(),
            p <= inc.len(),
            labs@.map_values(|s: String| s@) == distinct_labels(lv, inc@.take(p as int)),
        decreases inc.len() - p,
    {
        let l = &labels[inc[p]];
        let ghost prev = labs@.map_values(|s: String| s@);
        let mut k: usize = 0;
        let mut found = false;
        while k < labs.len() && !found
            invariant
                k <= labs.len(),
                prev == labs@.map_values(|s: String| s@),
                found ==> prev.contains(l@),
                !found ==> forall|m: int| 0 <= m < k ==> prev[m] != l@,
            decreases (labs.len() - k) * 2 + if found { 0int } else { 1int },
        {
            if labs[k] == *l {
                assert(prev[k as int] == l@);
                found = true;
            } else {
                k = k + 1;
            }
        }
        assert(inc@.take(p + 1).drop_last() =~= inc@.take(p as int));
        assert(lv[inc@[p as int] as int] == l@);
        if !found {
            labs.push(l.clone());
            assert(labs@.map_values(|s: String| s@) =~= prev.push(l@));
        }
        p = p + 1;
    }
    assert(inc@.take(p as int) =~= inc@);
    labs
}

/// The sessions at `inc` labelled `l`, with their turn count.
fn members_with_label(
    sessions: &[Session],
    labels: &Vec<String>,
    inc: &Vec<usize>,
    l: &String,
) -> (res: (Vec<usize>, usize))
    requires
        labels.len() == sessions.len(),
        forall|k: int| 0 <= k < inc.len() ==> inc[k] < labels.len(),
        sum_of(inc@, turns_of(sessions@)) <= usize::MAX,
    ensures
        res.0@ == with_label(labels@.map_values(|s: String| s@), inc@, l@),
        res.1 == sum_of(res.0@, turns_of(sessions@)),
{
    let ghost lv = labels@.map_values(|s: String| s@);
    let ghost f = turns_of(sessions@);
    let mut members: Vec<usize> = Vec::new();
    let mut turns: usize = 0;
    let mut q: usize = 0;
    while q < inc.len()
        invariant
            lv == labels@.map_values(|s: String| s@),
            f == turns_of(sessions@),
            labels.len() == sessions.len(),
            forall|k: int| 0 <= k < inc.len() ==> inc[k] < labels.len(),
            sum_of(inc@, f) <= usize::MAX,
            q <= inc.len(),
            members@ == with_label(lv, inc@.take(q as int), l@),
            turns == sum_of(members@, f),
        decreases inc.len() - q,
    {
        let i = inc[q];
        proof {
            assert(inc@.take(q + 1).drop_last() =~= inc@.take(q as int));
            assert(lv[i as int] == labels@[i as int]@);
        }
        if labels[i] == *l {
            proof {
                lemma_with_label_sum_le(lv, inc@.take(q + 1), l@, f);
                lemma_sum_prefix(inc@, f, q + 1);
                assert(members@.push(i).drop_last() =~= members@);
            }
            members.push(i);
            turns = turns + sessions[i].turns().len();
        }
        q = q + 1;
    }
    assert(inc@.take(q as int) =~= inc@);
    (members, turns)
}

/// Groups the sessions at `inc` by their labels.
pub fn group_by_label(sessions: &[Session], labels: &Vec<String>, inc: &Vec<usize>) -> (rows: Vec<
    GroupRow,
>)
    requires
        labels.len() == sessions.len(),
        forall|k: int| 0 <= k < inc.len() ==> inc[k] < labels.len(),
        sum_of(inc@, turns_of(sessions@)) <= usize::MAX,
    ensures
        is_grouping(rows@, sessions@, labels@.map_values(|s: String| s@), inc@),
{
    let ghost lv = labels@.map_values(|s: String| s@);
    let labs = distinct_label_list(labels, inc);
    let mut rows: Vec<GroupRow> = Vec::new();
    let mut g: usize = 0;
    while g < labs.len()
        invariant
            lv == labels@.map_values(|s: String| s@),
            labels.len() == sessions.len(),
            forall|k: int| 0 <= k < inc.len() ==> inc[k] < labels.len(),
            sum_of(inc@, turns_of(sessions@)) <= usize::MAX,
            labs@.map_values(|s: String| s@) == distinct_labels(lv, inc@),
            g <= labs.len(),
            rows.len() == g,
            forall|h: int|
                0 <= h < g ==> {
                    &&& #[trigger] rows[h].label@ == distinct_labels(lv, inc@)[h]
                    &&& rows[h].members@ == with_label(lv, inc@, rows[h].label@)
                    &&& rows[h].sessions == rows[h].members@.len()
                    &&& rows[h].turns == sum_of(rows[h].members@, turns_of(sessions@))
                },
        decreases labs.len() - g,
    {
        let l = &labs[g];
        assert(l@ == labs@.map_values(|s: String| s@)[g as int]);
        let (members, turns) = members_with_label(sessions, labels, inc, l);
        rows.push(GroupRow { label: l.clone(), sessions: members.len(), turns, members });
        g = g + 1;
    }
    rows
}

/// The calendar day of a session's `updated_at`, when it parses: the day on
/// which its turns without a parseable end of their own count.
pub open spec fn updated_day(s: Session) -> Option<i32> {
    match parse_opt(s.updated_at) {
        Some(x) => Some(x.julian_day),
        None => None,
    }
}

/// The calendar day a turn counts on: the day it ended, when it records a
/// parseable end, else `fallback` (the day of its session's `updated_at`).
pub open spec fn turn_day(t: UserTurnMetadata, fallback: Option<i32>) -> Option<i32> {
    match turn_end(t) {
        Some(x) => Some(x.julian_day),
        None => fallback,
    }
}

/// The calendar day of a session's best timestamp.
pub open spec fn session_day(s: Session) -> Option<i32> {
    match session_time_spec(s) {
        Some(x) => Some(x.julian_day),
        None => None,
    }
}

/// The day turn `t` of session `s` counts on: the day it ended, else the day
/// of the session's `updated_at`.
pub open spec fn session_turn_day(s: Session, t: int) -> Option<i32> {
    turn_day(s.turns_spec()[t], updated_day(s))
}

/// `d` is the day of one of `turns`, with `fallback` the day of those
/// without an end of their own.
pub open spec fn is_turn_day(turns: Seq<UserTurnMetadata>, fallback: Option<i32>, d: i32) -> bool {
    exists|t: int| 0 <= t < turns.len() && turn_day(#[trigger] turns[t], fallback) == Some(d)
}

/// `d` is a day on which one of the sessions at `inc` has a turn or its best
/// timestamp.
pub open spec fn is_active_day(ss: Seq<Session>, inc: Seq<usize>, d: i32) -> bool {
    exists|p: int|
        0 <= p < inc.len() && (is_turn_day(
            ss[#[trigger] inc[p] as int].turns_spec(),
            updated_day(ss[inc[p] as int]),
            d,
        ) || session_day(ss[inc[p] as int]) == Some(d))
}

/// The turns among `turns` (of the session at position `i`) that count on
/// day `d`, with `fallback` the day of those without an end of their own, as
/// (session, turn) positions, in order.
pub open spec fn turns_on_day(i: usize, turns: Seq<UserTurnMetadata>, fallback: Option<i32>, d: i32) -> Seq<
    (usize, usize),
>
    decreases turns.len(),
{
    if turns.len() == 0 {
        Seq::empty()
    } else {
        let prev = turns_on_day(i, turns.drop_last(), fallback, d);
        if turn_day(turns.last(), fallback) == Some(d) {
            prev.push((i, (turns.len() - 1) as usize))
        } else {
            prev
        }
    }
}

/// The turns of the sessions at `inc` that count on day `d` (the day they
/// ended, else the day of their session's `updated_at`), in session then
/// turn order.
pub open spec fn day_turns(ss: Seq<Session>, inc: Seq<usize>, d: i32) -> Seq<(usize, usize)>
    decreases inc.len(),
{
    if inc.len() == 0 {
        Seq::empty()
    } else {
        day_turns(ss, inc.drop_last(), d) + turns_on_day(
            inc.last(),
            ss[inc.last() as int].turns_spec(),
            updated_day(ss[inc.last() as int]),
            d,
        )
    }
}

/// The sessions at `inc` whose best timestamp falls on day `d`, in order.
pub open spec fn day_sessions(ss: Seq<Session>, inc: Seq<usize>, d: i32) -> Seq<usize>
    decreases inc.len(),
{
    if inc.len() == 0 {
        Seq::empty()
    } else {
        let prev = day_sessions(ss, inc.drop_last(), d);
        if session_day(ss[inc.last() as int]) == Some(d) {
            prev.push(inc.last())
        } else {
            prev
        }
    }
}

/// Per-day usage.
#[derive(Debug, Clone)]
pub struct DayRow {
    /// The Julian day number of the day.
    pub day: i32,
    /// Number of sessions whose best timestamp falls on the day.
    pub sessions: usize,
    /// Positions of those sessions, in input order.
    pub members: Vec<usize>,
    /// The (session, turn) positions of the turns that count on the day (the
    /// day they ended, else the day of their session's `updated_at`), in
    /// session then turn order: their credits make up the day's credits.
    pub turns: Vec<(usize, usize)>,
}

/// `rows` holds one row per active day of the sessions at `inc`, oldest
/// first, each with the turns that count and the sessions that fall on it.
pub open spec fn is_day_list(rows: Seq<DayRow>, ss: Seq<Session>, inc: Seq<usize>) -> bool {
    &&& forall|a: int, b: int| 0 <= a < b < rows.len() ==> #[trigger] rows[a].day < #[trigger] rows[b].day
    &&& forall|d: i32| is_active_day(ss, inc, d) <==> exists|a: int| 0 <= a < rows.len() && #[trigger] rows[a].day == d
    &&& forall|a: int|
        0 <= a < rows.len() ==> {
            &&& (#[trigger] rows[a]).turns@ == day_turns(ss, inc, rows[a].day)
            &&& rows[a].members@ == day_sessions(ss, inc, rows[a].day)
            &&& rows[a].sessions == rows[a].members@.len()
        }
}

/// The days are listed in increasing order, each once.
pub open spec fn strictly_sorted(s: Seq<i32>) -> bool {
    forall|a: int, b: int| 0 <= a < b < s.len() ==> #[trigger] s[a] < #[trigger] s[b]
}

/// Adds `d` to a sorted list of days, keeping it sorted and free of repeats.
fn insert_day(days: &mut Vec<i32>, d: i32)
    requires
        strictly_sorted(old(days)@),
    ensures
        strictly_sorted(final(days)@),
        forall|x: i32| #[trigger] final(days)@.contains(x) <==> (old(days)@.contains(x) || x == d),
{
    let mut p: usize = 0;
    while p < days.len() && days[p] < d
        invariant
            p <= days.len(),
            forall|a: int| 0 <= a < p ==> days@[a] < d,
        decreases days.len() - p,
    {
        p = p + 1;
    }
    if p < days.len() && days[p] == d {
        assert(days@.contains(d));
        return;
    }
    let ghost old_days = days@;
    days.insert(p, d);
    proof {
        assert forall|a: int, b: int| 0 <= a < b < days.len() implies #[trigger] days@[a] < #[trigger] days@[b] by {
            if a < p && b == p {
            } else if a == p {
                assert(old_days[p as int] > d);
                assert(old_days[p as int] <= old_days[b - 1]);
            } else {
                let oa = if a < p { a } else { a - 1 };
                let ob = if b < p { b } else { b - 1 };
                assert(days@[a] == old_days[oa]);
                assert(days@[b] == old_days[ob]);
            }
        }
        assert forall|x: i32| (old_days.contains(x) || x == d) implies #[trigger] days@.contains(x) by {
            if x == d {
                assert(days@[p as int] == d);
            } else if old_days.contains(x) {
                let k = choose|k: int| 0 <= k < old_days.len() && old_days[k] == x;
                if k < p {
                    assert(days@[k] == x);
                } else {
                    assert(days@[k + 1] == x);
                }
            }
        }
        assert forall|x: i32| #[trigger] days@.contains(x) implies (old_days.contains(x) || x == d) by {
            {
                let k = choose|k: int| 0 <= k < days@.len() && days@[k] == x;
                if k < p {
                    assert(old_days[k] == x);
                } else if k > p {
                    assert(old_days[k - 1] == x);
                }
            }
        }
    }
}

fn turn_day_exec(t: &UserTurnMetadata, fallback: Option<i32>) -> (d: Option<i32>)
    ensures
        d == turn_day(*t, fallback),
        (fallback matches Some(x) ==> day_in_range(x)) ==> (d matches Some(x) ==> day_in_range(x)),
{
    match turn_end_exec(t) {
        Some(x) => Some(x.julian_day),
        None => fallback,
    }
}

fn updated_day_exec(s: &Session) -> (d: Option<i32>)
    ensures
        d == updated_day(*s),
        d matches Some(x) ==> day_in_range(x),
{
    match parse_opt_exec(&s.updated_at) {
        Some(x) => Some(x.julian_day),
        None => None,
    }
}

fn session_day_exec(s: &Session) -> (d: Option<i32>)
    ensures
        d == session_day(*s),
        d matches Some(x) ==> day_in_range(x),
{
    match session_time(s) {
        Some(x) => Some(x.julian_day),
        None => None,
    }
}

/// The active days of the sessions at `inc`, oldest first.
fn active_days(sessions: &[Session], inc: &Vec<usize>) -> (days: Vec<i32>)
    requires
        forall|k: int| 0 <= k < inc.len() ==> inc[k] < sessions.len(),
    ensures
        strictly_sorted(days@),
        forall|d: i32| #[trigger] days@.contains(d) <==> is_active_day(sessions@, inc@, d),
        forall|d: i32| #[trigger] days@.contains(d) ==> day_in_range(d),
{
    let ghost ss = sessions@;
    let mut days: Vec<i32> = Vec::new();
    let mut p: usize = 0;
    while p < inc.len()
        invariant
            ss == sessions@,
            forall|k: int| 0 <= k < inc.len() ==> inc[k] < sessions.len(),
            p <= inc.len(),
            strictly_sorted(days@),
            forall|d: i32| #[trigger] days@.contains(d) <==> is_active_day(ss, inc@.take(p as int), d),
            forall|d: i32| #[trigger] days@.contains(d) ==> day_in_range(d),
        decreases inc.len() - p,
    {
        let i = inc[p];
        let ts = sessions[i].turns();
        let u = updated_day_exec(&sessions[i]);
        let ghost before = days@;
        let mut t: usize = 0;
        while t < ts.len()
            invariant
                ts@ == ss[i as int].turns_spec(),
                u matches Some(x) ==> day_in_range(x),
                forall|d: i32| #[trigger] days@.contains(d) ==> day_in_range(d),
                t <= ts.len(),
                strictly_sorted(days@),
                forall|d: i32| #[trigger] days@.contains(d) <==> (before.contains(d) || is_turn_day(ts@.take(t as int), u, d)),
            decreases ts.len() - t,
        {
            let td = turn_day_exec(&ts[t], u);
            let ghost prev = days@;
            match td {
                Some(d) => insert_day(&mut days, d),
                None => {},
            }
            proof {
                let tk = ts@.take(t + 1);
                assert forall|d: i32| #[trigger] days@.contains(d) <==> (before.contains(d) || is_turn_day(tk, u, d)) by {
                    if is_turn_day(tk, u, d) {
                        let w = choose|w: int| 0 <= w < tk.len() && turn_day(#[trigger] tk[w], u) == Some(d);
                        if w < t {
                            assert(ts@.take(t as int)[w] == tk[w]);
                        }
                    }
                    if is_turn_day(ts@.take(t as int), u, d) {
                        let w = choose|w: int| 0 <= w < t && turn_day(#[trigger] ts@.take(t as int)[w], u) == Some(d);
                        assert(tk[w] == ts@.take(t as int)[w]);
                    }
                    if td == Some(d) {
                        assert(tk[t as int] == ts@[t as int]);
                    }
                }
            }
            t = t + 1;
        }
        let sd = session_day_exec(&sessions[i]);
        let ghost mid = days@;
        match sd {
            Some(d) => insert_day(&mut days, d),
            None => {},
        }
        proof {
            assert(ts@.take(ts@.len() as int) =~= ts@);
            let ip = inc@.take(p + 1);
            let io = inc@.take(p as int);
            assert forall|d: i32| #[trigger] days@.contains(d) <==> is_active_day(ss, ip, d) by {
                if is_active_day(ss, ip, d) {
                    let w = choose|w: int|
                        0 <= w < ip.len() && (is_turn_day(
                            ss[#[trigger] ip[w] as int].turns_spec(),
                            updated_day(ss[ip[w] as int]),
                            d,
                        ) || session_day(ss[ip[w] as int]) == Some(d));
                    if w < p {
                        assert(io[w] == ip[w]);
                        assert(is_active_day(ss, io, d));
                    }
                }
                if is_active_day(ss, io, d) {
                    let w = choose|w: int|
                        0 <= w < io.len() && (is_turn_day(
                            ss[#[trigger] io[w] as int].turns_spec(),
                            updated_day(ss[io[w] as int]),
                            d,
                        ) || session_day(ss[io[w] as int]) == Some(d));
                    assert(io[w] == ip[w]);
                }
                if days@.contains(d) && !before.contains(d) {
                    assert(ip[p as int] == i);
                }
            }
        }
        p = p + 1;
    }
    assert(inc@.take(p as int) =~= inc@);
    days
}

/// The row of day `d`: the turns that count and the sessions that fall on it.
fn day_row(sessions: &[Session], inc: &Vec<usize>, d: i32) -> (row: DayRow)
    requires
        forall|k: int| 0 <= k < inc.len() ==> inc[k] < sessions.len(),
    ensures
        row.day == d,
        row.turns@ == day_turns(sessions@, inc@, d),
        row.members@ == day_sessions(sessions@, inc@, d),
        row.sessions == row.members@.len(),
{
    let ghost ss = sessions@;
    let mut turns: Vec<(usize, usize)> = Vec::new();
    let mut members: Vec<usize> = Vec::new();
    let mut p: usize = 0;
    while p < inc.len()
        invariant
            ss == sessions@,
            forall|k: int| 0 <= k < inc.len() ==> inc[k] < sessions.len(),
            p <= inc.len(),
            turns@ == day_turns(ss, inc@.take(p as int), d),
            members@ == day_sessions(ss, inc@.take(p as int), d),
        decreases inc.len() - p,
    {
        let i = inc[p];
        let ts = sessions[i].turns();
        let u = updated_day_exec(&sessions[i]);
        let ghost before = turns@;
        let mut t: usize = 0;
        while t < ts.len()
            invariant
                ts@ == ss[i as int].turns_spec(),
                u == updated_day(ss[i as int]),
                t <= ts.len(),
                turns@ == before + turns_on_day(i, ts@.take(t as int), u, d),
            decreases ts.len() - t,
        {
            assert(ts@.take(t + 1).drop_last() =~= ts@.take(t as int));
            if turn_day_exec(&ts[t], u) == Some(d) {
                turns.push((i, t));
            }
            t = t + 1;
            assert(turns@ =~= before + turns_on_day(i, ts@.take(t as int), u, d));
        }
        assert(ts@.take(ts@.len() as int) =~= ts@);
        assert(inc@.take(p + 1).drop_last() =~= inc@.take(p as int));
        if session_day_exec(&sessions[i]) == Some(d) {
            members.push(i);
        }
        p = p + 1;
    }
    assert(inc@.take(p as int) =~= inc@);
    let n = members.len();
    DayRow { day: d, sessions: n, members, turns }
}

/// Buckets the sessions at `inc` by calendar day, oldest first.
pub fn group_by_day(sessions: &[Session], inc: &Vec<usize>) -> (rows: Vec<DayRow>)
    requires
        forall|k: int| 0 <= k < inc.len() ==> inc[k] < sessions.len(),
    ensures
        is_day_list(rows@, sessions@, inc@),
        forall|a: int| 0 <= a < rows@.len() ==> day_in_range(#[trigger] rows@[a].day),
{
    let days = active_days(sessions, inc);
    let mut rows: Vec<DayRow> = Vec::new();
    let mut a: usize = 0;
    while a < days.len()
        invariant
            forall|k: int| 0 <= k < inc.len() ==> inc[k] < sessions.len(),
            strictly_sorted(days@),
            a <= days.len(),
            rows.len() == a,
            forall|b: int| 0 <= b < a ==> #[trigger] rows[b].day == days@[b],
            forall|d: i32| #[trigger] days@.contains(d) ==> day_in_range(d),
            forall|b: int| 0 <= b < a ==> day_in_range(#[trigger] rows[b].day),
            forall|b: int|
                0 <= b < a ==> {
                    &&& (#[trigger] rows[b]).turns@ == day_turns(sessions@, inc@, rows[b].day)
                    &&& rows[b].members@ == day_sessions(sessions@, inc@, rows[b].day)
                    &&& rows[b].sessions == rows[b].members@.len()
                },
        decreases days.len() - a,
    {
        assert(days@.contains(days@[a as int]));
        rows.push(day_row(sessions, inc, days[a]));
        a = a + 1;
    }
    proof {
        assert forall|a: int, b: int| 0 <= a < b < rows.len() implies #[trigger] rows@[a].day < #[trigger] rows@[b].day by {
            assert(rows@[a].day == days@[a]);
            assert(rows@[b].day == days@[b]);
        }
        assert forall|d: i32| is_active_day(sessions@, inc@, d) <==> exists|a: int| 0 <= a < rows.len() && #[trigger] rows@[a].day == d by {
            if is_active_day(sessions@, inc@, d) {
                assert(days@.contains(d));
                let k = choose|k: int| 0 <= k < days@.len() && days@[k] == d;
                assert(rows@[k].day == d);
            }
            if exists|a: int| 0 <= a < rows.len() && #[trigger] rows@[a].day == d {
                let k = choose|k: int| 0 <= k < rows.len() && #[trigger] rows@[k].day == d;
                assert(days@[k] == d);
                assert(days@.contains(d));
            }
        }
    }
    rows
}

} // verus!
