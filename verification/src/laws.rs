//! Properties that hold across the aggregation: how the breakdowns relate
//! to the totals, what the time window and the feed length do, and how the
//! statuses combine.

use vstd::prelude::*;
use crate::aggregate::{
    Status, glyph_spec, worse, turn_status, turns_status, when_key, newer_first, RecentRow, is_recent_feed,
    path_label, trim_trailing_slashes, model_label_spec, last_slash, last_component, Report, is_report, model_labels, project_labels,
    session_time_spec, latest_turn_end,
};
use crate::grouping::{
    GroupRow, DayRow, is_grouping, distinct_labels, with_label, is_day_list, day_sessions, day_turns,
    turns_on_day, session_day, turn_day, is_turn_day, is_active_day, updated_day, session_turn_day,
};
use crate::model::{Session, UserTurnMetadata};
use crate::ranking::{key_above, ranks_before, is_top_order, credit_order_key_spec, present_keys};
use crate::summary::{
    sum_of, turns_of, included_upto, included_spec, in_window, first_day_of, last_day_of, summary_spec, totals_fit,
    or_zero, turn_total, requests_of, tool_uses_of, input_tokens_of, output_tokens_of,
};
use crate::text::{truncate_spec, flatten_line_breaks, decimal_spec, pad_left_spec, pad_right_spec, repeat_spec};
use crate::render::{
    DayLine, day_line_spec, bar_spec, BAR_WIDTH, FILLED, EMPTY, GroupLine, group_line_spec, RecentLine,
    recent_line_spec, status_color_spec, delta_spec, HeaderView, header_spec, metric_row_spec, title_spec,
    range_spec, credits_line_spec, latest_line_spec, tokens_spec,
};
use crate::style::{ColorMode, Palette, Color, dim_spec, paint_spec};
use crate::timestamp::{Timestamp, date_text, rfc3339_timestamp};

verus! {

/// Combining statuses keeps the worse one: the combination does not depend
/// on the order or grouping of the statuses, and a completion changes
/// nothing.
pub proof fn law_worse_is_order_free(a: Status, b: Status, c: Status)
    ensures
        worse(a, b) == worse(b, a),
        worse(worse(a, b), c) == worse(a, worse(b, c)),
        worse(Status::Completed, a) == a,
{
}

/// A session's status is its worst turn status: an error when some turn
/// errored, else cancelled when some turn was cancelled, else completed.
pub proof fn law_session_status_is_worst_turn(turns: Seq<UserTurnMetadata>)
    ensures
        (turns_status(turns) == Status::Error) <==> exists|t: int|
            0 <= t < turns.len() && turn_status(#[trigger] turns[t]) == Status::Error,
        (turns_status(turns) == Status::Cancelled) <==> ((exists|t: int|
            0 <= t < turns.len() && turn_status(#[trigger] turns[t]) == Status::Cancelled) && !exists|
            t: int,
        | 0 <= t < turns.len() && turn_status(#[trigger] turns[t]) == Status::Error),
    decreases turns.len(),
{
    if turns.len() > 0 {
        let d = turns.drop_last();
        law_session_status_is_worst_turn(d);
        assert forall|t: int| 0 <= t < d.len() implies #[trigger] d[t] == turns[t] by {}
        if exists|t: int| 0 <= t < turns.len() && turn_status(#[trigger] turns[t]) == Status::Error {
            let t = choose|t: int| 0 <= t < turns.len() && turn_status(#[trigger] turns[t]) == Status::Error;
            if t < d.len() {
                assert(turn_status(d[t]) == Status::Error);
            }
        }
        if exists|t: int| 0 <= t < turns.len() && turn_status(#[trigger] turns[t]) == Status::Cancelled {
            let t = choose|t: int|
                0 <= t < turns.len() && turn_status(#[trigger] turns[t]) == Status::Cancelled;
            if t < d.len() {
                assert(turn_status(d[t]) == Status::Cancelled);
            }
        }
        if exists|t: int| 0 <= t < d.len() && turn_status(#[trigger] d[t]) == Status::Error {
            let t = choose|t: int| 0 <= t < d.len() && turn_status(#[trigger] d[t]) == Status::Error;
            assert(turn_status(turns[t]) == Status::Error);
        }
        if exists|t: int| 0 <= t < d.len() && turn_status(#[trigger] d[t]) == Status::Cancelled {
            let t = choose|t: int| 0 <= t < d.len() && turn_status(#[trigger] d[t]) == Status::Cancelled;
            assert(turn_status(turns[t]) == Status::Cancelled);
        }
        assert(turn_status(turns[turns.len() - 1]) == turn_status(turns.last()));
    }
}

/// The sum of `f` over the members of each group in `labs`.
pub open spec fn group_sum(
    labels: Seq<Seq<char>>,
    inc: Seq<usize>,
    labs: Seq<Seq<char>>,
    f: spec_fn(usize) -> nat,
) -> nat
    decreases labs.len(),
{
    if labs.len() == 0 {
        0
    } else {
        group_sum(labels, inc, labs.drop_last(), f) + sum_of(with_label(labels, inc, labs.last()), f)
    }
}

proof fn lemma_group_sum_push(
    labels: Seq<Seq<char>>,
    inc: Seq<usize>,
    x: usize,
    labs: Seq<Seq<char>>,
    f: spec_fn(usize) -> nat,
)
    requires
        labs.no_duplicates(),
    ensures
        group_sum(labels, inc.push(x), labs, f) == group_sum(labels, inc, labs, f) + if labs.contains(
            labels[x as int],
        ) {
            f(x)
        } else {
            0
        },
    decreases labs.len(),
{
    if labs.len() > 0 {
        let d = labs.drop_last();
        assert(d.no_duplicates());
        lemma_group_sum_push(labels, inc, x, d, f);
        assert(inc.push(x).drop_last() =~= inc);
        let l = labs.last();
        if labels[x as int] == l {
            assert(with_label(labels, inc, l).push(x).drop_last() =~= with_label(labels, inc, l));
            assert(!d.contains(l)) by {
                if d.contains(l) {
                    let k = choose|k: int| 0 <= k < d.len() && d[k] == l;
                    assert(labs[k] == labs[labs.len() - 1]);
                }
            }
        } else {
            if labs.contains(labels[x as int]) {
                let k = choose|k: int| 0 <= k < labs.len() && labs[k] == labels[x as int];
                assert(d[k] == labels[x as int]);
            }
            if d.contains(labels[x as int]) {
                let k = choose|k: int| 0 <= k < d.len() && d[k] == labels[x as int];
                assert(labs[k] == labels[x as int]);
            }
        }
    }
}

proof fn lemma_distinct_labels_props(labels: Seq<Seq<char>>, inc: Seq<usize>)
    ensures
        distinct_labels(labels, inc).no_duplicates(),
        forall|l: Seq<char>|
            !distinct_labels(labels, inc).contains(l) ==> with_label(labels, inc, l).len() == 0,
        forall|p: int|
            0 <= p < inc.len() ==> distinct_labels(labels, inc).contains(labels[#[trigger] inc[p] as int]),
    decreases inc.len(),
{
    if inc.len() > 0 {
        let prev = inc.drop_last();
        lemma_distinct_labels_props(labels, prev);
        let dp = distinct_labels(labels, prev);
        let l = labels[inc.last() as int];
        let dc = distinct_labels(labels, inc);
        assert forall|m: Seq<char>| !dc.contains(m) implies with_label(labels, inc, m).len() == 0 by {
            assert forall|k: int| 0 <= k < dp.len() implies dc.contains(#[trigger] dp[k]) by {
                if !dp.contains(l) {
                    assert(dc[k] == dp[k]);
                }
            }
            if dp.contains(m) {
                let k = choose|k: int| 0 <= k < dp.len() && dp[k] == m;
                assert(dc.contains(dp[k]));
            }
            if !dp.contains(l) {
                assert(dc[dc.len() - 1] == l);
            }
        }
        assert forall|p: int| 0 <= p < inc.len() implies dc.contains(labels[#[trigger] inc[p] as int]) by {
            if p < prev.len() {
                assert(prev[p] == inc[p]);
                let k = choose|k: int| 0 <= k < dp.len() && dp[k] == labels[prev[p] as int];
                if !dp.contains(l) {
                    assert(dc[k] == dp[k]);
                }
            } else if !dp.contains(l) {
                assert(dc[dc.len() - 1] == l);
            }
        }
        if !dp.contains(l) {
            assert forall|a: int, b: int| 0 <= a < dc.len() && 0 <= b < dc.len() && a != b implies dc[a]
                != dc[b] by {
                if a == dp.len() {
                    assert(dp.contains(dp[b]));
                } else if b == dp.len() {
                    assert(dp.contains(dp[a]));
                }
            }
        }
    }
}

proof fn lemma_groups_cover(labels: Seq<Seq<char>>, inc: Seq<usize>, f: spec_fn(usize) -> nat)
    ensures
        group_sum(labels, inc, distinct_labels(labels, inc), f) == sum_of(inc, f),
    decreases inc.len(),
{
    if inc.len() > 0 {
        let prev = inc.drop_last();
        let x = inc.last();
        lemma_groups_cover(labels, prev, f);
        lemma_distinct_labels_props(labels, prev);
        let dp = distinct_labels(labels, prev);
        let l = labels[x as int];
        assert(prev.push(x) =~= inc);
        lemma_group_sum_push(labels, prev, x, dp, f);
        assert(sum_of(inc, f) == sum_of(prev, f) + f(x));
        if !dp.contains(l) {
            // The new label opens a group holding just `x`.
            assert(with_label(labels, prev, l).len() == 0);
            assert(with_label(labels, inc, l) =~= seq![x]);
            assert(seq![x].drop_last() =~= Seq::<usize>::empty());
            assert(sum_of(Seq::<usize>::empty(), f) == 0);
            assert(sum_of(seq![x], f) == sum_of(seq![x].drop_last(), f) + f(x));
            assert(sum_of(seq![x], f) == f(x));
            assert(dp.push(l).drop_last() =~= dp);
            assert(distinct_labels(labels, inc) == dp.push(l));
            assert(group_sum(labels, inc, dp.push(l), f) == group_sum(labels, inc, dp, f) + sum_of(
                with_label(labels, inc, l),
                f,
            ));
        } else {
            assert(distinct_labels(labels, inc) == dp);
        }
    }
}

proof fn lemma_sum_of_ones(s: Seq<usize>)
    ensures
        sum_of(s, |i: usize| 1nat) == s.len(),
    decreases s.len(),
{
    if s.len() > 0 {
        lemma_sum_of_ones(s.drop_last());
    }
}

/// The sum of a per-row quantity over breakdown rows.
pub open spec fn rows_total(rows: Seq<GroupRow>, f: spec_fn(GroupRow) -> nat) -> nat {
    sum_of(rows, f)
}

proof fn lemma_rows_total(
    rows: Seq<GroupRow>,
    labels: Seq<Seq<char>>,
    inc: Seq<usize>,
    ss: Seq<Session>,
    n: nat,
)
    requires
        is_grouping(rows, ss, labels, inc),
        n <= rows.len(),
    ensures
        rows_total(rows.take(n as int), |r: GroupRow| r.sessions as nat) == group_sum(
            labels,
            inc,
            distinct_labels(labels, inc).take(n as int),
            |i: usize| 1nat,
        ),
        rows_total(rows.take(n as int), |r: GroupRow| r.turns as nat) == group_sum(
            labels,
            inc,
            distinct_labels(labels, inc).take(n as int),
            turns_of(ss),
        ),
    decreases n,
{
    if n > 0 {
        lemma_rows_total(rows, labels, inc, ss, (n - 1) as nat);
        let g = n - 1;
        let r = rows[g];
        assert(r.label@ == distinct_labels(labels, inc)[g]);
        lemma_sum_of_ones(r.members@);
        assert(rows.take(n as int).drop_last() =~= rows.take(g));
        assert(distinct_labels(labels, inc).take(n as int).drop_last() =~= distinct_labels(
            labels,
            inc,
        ).take(g));
    }
}

/// The breakdown rows account for every included session once: each
/// included session belongs to exactly one row, and the rows' session and
/// turn counts add up to the totals over the included sessions.
pub proof fn law_breakdown_partitions_sessions(
    rows: Seq<GroupRow>,
    ss: Seq<Session>,
    labels: Seq<Seq<char>>,
    inc: Seq<usize>,
)
    requires
        is_grouping(rows, ss, labels, inc),
    ensures
        rows_total(rows, |r: GroupRow| r.sessions as nat) == inc.len(),
        rows_total(rows, |r: GroupRow| r.turns as nat) == sum_of(inc, turns_of(ss)),
        forall|x: usize|
            #[trigger] inc.contains(x) ==> exists|g: int|
                0 <= g < rows.len() && (#[trigger] rows[g]).members@.contains(x),
        forall|x: usize, g: int, h: int|
            0 <= g < rows.len() && 0 <= h < rows.len() && #[trigger] rows[g].members@.contains(x)
                && #[trigger] rows[h].members@.contains(x) ==> g == h,
{
    let d = distinct_labels(labels, inc);
    lemma_rows_total(rows, labels, inc, ss, rows.len());
    assert(rows.take(rows.len() as int) =~= rows);
    assert(d.take(d.len() as int) =~= d);
    lemma_groups_cover(labels, inc, |i: usize| 1nat);
    lemma_groups_cover(labels, inc, turns_of(ss));
    lemma_sum_of_ones(inc);
    lemma_distinct_labels_props(labels, inc);
    assert forall|x: usize| #[trigger] inc.contains(x) implies exists|g: int|
        0 <= g < rows.len() && (#[trigger] rows[g]).members@.contains(x) by {
        let p = choose|p: int| 0 <= p < inc.len() && inc[p] == x;
        let l = labels[inc[p] as int];
        let g = choose|g: int| 0 <= g < d.len() && d[g] == l;
        assert(rows[g].label@ == l);
        lemma_with_label_contains(labels, inc, l, p);
    }
    assert forall|x: usize, g: int, h: int|
        0 <= g < rows.len() && 0 <= h < rows.len() && #[trigger] rows[g].members@.contains(x)
            && #[trigger] rows[h].members@.contains(x) implies g == h by {
        assert(rows[g].label@ == d[g]);
        assert(rows[h].label@ == d[h]);
        lemma_with_label_members(labels, inc, d[g]);
        lemma_with_label_members(labels, inc, d[h]);
    }
}

proof fn lemma_with_label_contains(labels: Seq<Seq<char>>, inc: Seq<usize>, l: Seq<char>, p: int)
    requires
        0 <= p < inc.len(),
        labels[inc[p] as int] == l,
    ensures
        with_label(labels, inc, l).contains(inc[p]),
    decreases inc.len(),
{
    let prev = inc.drop_last();
    if p < prev.len() {
        assert(prev[p] == inc[p]);
        lemma_with_label_contains(labels, prev, l, p);
        let w = with_label(labels, prev, l);
        let k = choose|k: int| 0 <= k < w.len() && w[k] == inc[p];
        if labels[inc.last() as int] == l {
            assert(w.push(inc.last())[k] == inc[p]);
        }
    } else {
        let w = with_label(labels, prev, l);
        assert(w.push(inc.last())[w.len() as int] == inc[p]);
    }
}

proof fn lemma_with_label_members(labels: Seq<Seq<char>>, inc: Seq<usize>, l: Seq<char>)
    ensures
        forall|x: usize| #[trigger] with_label(labels, inc, l).contains(x) ==> labels[x as int] == l,
    decreases inc.len(),
{
    if inc.len() > 0 {
        let prev = inc.drop_last();
        lemma_with_label_members(labels, prev, l);
        let w = with_label(labels, prev, l);
        assert forall|x: usize| #[trigger] with_label(labels, inc, l).contains(x) implies labels[x as int] == l by {
            if labels[inc.last() as int] == l {
                let c = w.push(inc.last());
                let k = choose|k: int| 0 <= k < c.len() && c[k] == x;
                if k < w.len() {
                    assert(w[k] == x);
                    assert(w.contains(x));
                }
            } else {
                assert(w.contains(x));
            }
        }
    }
}

/// The recent feed runs newest first and holds at most `top_n` sessions;
/// when `top_n` covers every included session, every one of them is listed.
pub proof fn law_recent_newest_first(rows: Seq<RecentRow>, ss: Seq<Session>, inc: Seq<usize>, top_n: nat)
    requires
        is_recent_feed(rows, ss, inc, top_n),
    ensures
        rows.len() <= top_n,
        forall|a: int, b: int|
            0 <= a < b < rows.len() ==> !key_above(
                when_key((#[trigger] rows[b]).when),
                when_key((#[trigger] rows[a]).when),
            ),
        forall|x: usize|
            top_n >= inc.len() && #[trigger] inc.contains(x) ==> exists|a: int|
                0 <= a < rows.len() && (#[trigger] rows[a]).session == x,
{
    assert forall|a: int, b: int| 0 <= a < b < rows.len() implies !key_above(
        when_key((#[trigger] rows[b]).when),
        when_key((#[trigger] rows[a]).when),
    ) by {
        assert(newer_first(ss, rows[a].session, rows[b].session));
    }
    assert forall|x: usize| top_n >= inc.len() && #[trigger] inc.contains(x) implies exists|a: int|
        0 <= a < rows.len() && (#[trigger] rows[a]).session == x by {
        let p = choose|p: int| 0 <= p < inc.len() && inc[p] == x;
        lemma_feed_lists(rows, ss, inc, top_n, p);
    }
}

proof fn lemma_feed_lists(rows: Seq<RecentRow>, ss: Seq<Session>, inc: Seq<usize>, top_n: nat, p: int)
    requires
        is_recent_feed(rows, ss, inc, top_n),
    ensures
        top_n >= inc.len() && 0 <= p < inc.len() ==> exists|a: int|
            0 <= a < rows.len() && (#[trigger] rows[a]).session == inc[p],
{
    if top_n >= inc.len() && 0 <= p < inc.len() && forall|c: int|
        0 <= c < rows.len() ==> #[trigger] rows[c].session != inc[p] {
        // The feed would then list only other included sessions: too few.
        lemma_feed_misses_one(rows, ss, inc, top_n, p);
    }
}

proof fn lemma_feed_misses_one(
    rows: Seq<RecentRow>,
    ss: Seq<Session>,
    inc: Seq<usize>,
    top_n: nat,
    p: int,
)
    requires
        is_recent_feed(rows, ss, inc, top_n),
        0 <= p < inc.len(),
        forall|c: int| 0 <= c < rows.len() ==> #[trigger] rows[c].session != inc[p],
    ensures
        rows.len() < inc.len(),
{
    // Every row lists a distinct element of `inc` other than `inc[p]`.
    let s = rows.map_values(|r: RecentRow| r.session);
    assert forall|a: int, b: int| 0 <= a < s.len() && 0 <= b < s.len() && a != b implies s[a] != s[b] by {
        if a < b {
            assert(newer_first(ss, rows[a].session, rows[b].session));
        } else {
            assert(newer_first(ss, rows[b].session, rows[a].session));
        }
    }
    assert(s.no_duplicates());
    let rest = inc.remove(p);
    assert forall|a: int| 0 <= a < s.len() implies rest.contains(#[trigger] s[a]) by {
        assert(inc.contains(rows[a].session));
        let k = choose|k: int| 0 <= k < inc.len() && inc[k] == rows[a].session;
        assert(k != p);
        if k < p {
            assert(rest[k] == inc[k]);
        } else {
            assert(rest[k - 1] == inc[k]);
        }
    }
    lemma_subset_card(s, rest);
}

proof fn lemma_subset_card(s: Seq<usize>, t: Seq<usize>)
    requires
        s.no_duplicates(),
        forall|a: int| 0 <= a < s.len() ==> t.contains(#[trigger] s[a]),
    ensures
        s.len() <= t.len(),
{
    s.unique_seq_to_set();
    t.lemma_cardinality_of_set();
    assert(s.to_set().subset_of(t.to_set())) by {
        assert forall|x: usize| s.to_set().contains(x) implies t.to_set().contains(x) by {
            let k = choose|k: int| 0 <= k < s.len() && s[k] == x;
            assert(t.contains(s[k]));
        }
    }
    vstd::set_lib::lemma_len_subset(s.to_set(), t.to_set());
}

/// Without a time window, every session is included.
pub proof fn law_no_window_includes_all(ss: Seq<Session>, n: nat)
    requires
        n <= ss.len() <= usize::MAX,
    ensures
        included_upto(ss, None, n) == Seq::new(n, |i: int| i as usize),
    decreases n,
{
    if n > 0 {
        law_no_window_includes_all(ss, (n - 1) as nat);
        assert(included_upto(ss, None, n) =~= Seq::new(n, |i: int| i as usize));
    }
}

/// A later cutoff never includes a session that an earlier cutoff leaves out.
pub proof fn law_later_cutoff_narrows(s: Session, early: Timestamp, late: Timestamp)
    requires
        early.unix_nanos <= late.unix_nanos,
    ensures
        in_window(s, Some(late)) ==> in_window(s, Some(early)),
{
}

/// When the limit leaves room for every position, the ranking lists each
/// position exactly once.
pub proof fn law_ranking_lists_all_when_room(keys: Seq<Option<i128>>, limit: nat, order: Seq<usize>)
    requires
        is_top_order(keys, limit, order),
        limit >= keys.len(),
        keys.len() <= usize::MAX,
    ensures
        order.no_duplicates(),
        forall|j: int| 0 <= j < keys.len() ==> #[trigger] order.contains(j as usize),
{
    assert forall|a: int, b: int| 0 <= a < order.len() && 0 <= b < order.len() && a != b implies order[a]
        != order[b] by {
        if a < b {
            assert(ranks_before(keys, order[a] as int, order[b] as int));
        } else {
            assert(ranks_before(keys, order[b] as int, order[a] as int));
        }
    }
    assert forall|j: int| 0 <= j < keys.len() implies #[trigger] order.contains(j as usize) by {
        if !order.contains(j as usize) {
            let all = Seq::new(keys.len(), |i: int| i as usize);
            let rest = all.remove(j);
            assert forall|a: int| 0 <= a < order.len() implies rest.contains(#[trigger] order[a]) by {
                let k = order[a] as int;
                assert(k != j);
                if k < j {
                    assert(rest[k] == order[a]);
                } else {
                    assert(rest[k - 1] == order[a]);
                }
            }
            lemma_subset_card(order, rest);
        }
    }
}

/// The ordering key of credit amounts, on the bit patterns of doubles: two
/// non-negative doubles' keys compare as their bit patterns do, two negative
/// doubles' keys compare the other way round, every negative double's key
/// lies below every non-negative one's, and `-0.0` has the key of `0.0`.
pub proof fn law_credit_key_order(a: u64, b: u64)
    ensures
        a < 0x8000_0000_0000_0000u64 && b < 0x8000_0000_0000_0000u64 ==> (credit_order_key_spec(a)
            < credit_order_key_spec(b) <==> a < b),
        a > 0x8000_0000_0000_0000u64 && b > 0x8000_0000_0000_0000u64 ==> (credit_order_key_spec(a)
            < credit_order_key_spec(b) <==> a > b),
        a > 0x8000_0000_0000_0000u64 && b < 0x8000_0000_0000_0000u64 ==> credit_order_key_spec(a)
            < credit_order_key_spec(b),
        credit_order_key_spec(0x8000_0000_0000_0000u64) == credit_order_key_spec(0),
{
    assert(a < 0x8000_0000_0000_0000u64 && b < 0x8000_0000_0000_0000u64 ==> (((a
        + 0x8000_0000_0000_0000u64) as u64) < ((b + 0x8000_0000_0000_0000u64) as u64) <==> a < b))
        by (bit_vector);
    assert(a > 0x8000_0000_0000_0000u64 && b > 0x8000_0000_0000_0000u64 ==> (!a < !b <==> a > b))
        by (bit_vector);
    assert(a > 0x8000_0000_0000_0000u64 && b < 0x8000_0000_0000_0000u64 ==> !a < ((b
        + 0x8000_0000_0000_0000u64) as u64)) by (bit_vector);
}

/// A truncated text never exceeds its limit, and a
/// text that fits is kept whole, on one line.
pub proof fn law_truncate_fits(s: Seq<char>, max: nat)
    ensures
        truncate_spec(s, max).len() <= max,
        flatten_line_breaks(s).len() <= max ==> truncate_spec(s, max) == flatten_line_breaks(s),
{
}

/// The header's date range is either absent at both ends or present at both,
/// and then runs forward.
pub proof fn law_date_range_runs_forward(ss: Seq<Session>, inc: Seq<usize>)
    ensures
        first_day_of(ss, inc) is Some <==> last_day_of(ss, inc) is Some,
        first_day_of(ss, inc) matches Some(f) ==> (last_day_of(ss, inc) matches Some(l) && f <= l),
    decreases inc.len(),
{
    if inc.len() > 0 {
        law_date_range_runs_forward(ss, inc.drop_last());
    }
}

/// Trailing slashes do not change a project's label.
pub proof fn law_trailing_slash_ignored(path: Seq<char>)
    ensures
        path_label(path.push('/')) == path_label(path),
{
    assert(path.push('/').drop_last() =~= path);
    assert(trim_trailing_slashes(path.push('/')) == trim_trailing_slashes(path));
}

proof fn lemma_day_sessions_contains(ss: Seq<Session>, inc: Seq<usize>, d: i32, x: usize)
    ensures
        day_sessions(ss, inc, d).contains(x) <==> (inc.contains(x) && session_day(ss[x as int])
            == Some(d)),
    decreases inc.len(),
{
    if inc.len() > 0 {
        let prev = inc.drop_last();
        lemma_day_sessions_contains(ss, prev, d, x);
        let w = day_sessions(ss, prev, d);
        if inc.contains(x) && session_day(ss[x as int]) == Some(d) {
            let k = choose|k: int| 0 <= k < inc.len() && inc[k] == x;
            if k < prev.len() {
                assert(prev[k] == x);
                let j = choose|j: int| 0 <= j < w.len() && w[j] == x;
                if session_day(ss[inc.last() as int]) == Some(d) {
                    assert(w.push(inc.last())[j] == x);
                }
            } else {
                assert(w.push(inc.last())[w.len() as int] == x);
            }
        }
        if day_sessions(ss, inc, d).contains(x) {
            if session_day(ss[inc.last() as int]) == Some(d) {
                let c = w.push(inc.last());
                let j = choose|j: int| 0 <= j < c.len() && c[j] == x;
                if j < w.len() {
                    assert(w[j] == x);
                    assert(w.contains(x));
                    let k = choose|k: int| 0 <= k < prev.len() && prev[k] == x;
                    assert(inc[k] == x);
                } else {
                    assert(inc[inc.len() - 1] == x);
                }
            } else {
                assert(w.contains(x));
                let k = choose|k: int| 0 <= k < prev.len() && prev[k] == x;
                assert(inc[k] == x);
            }
        }
    }
}

proof fn lemma_turns_on_day_contains(
    i: usize,
    turns: Seq<UserTurnMetadata>,
    u: Option<i32>,
    d: i32,
    j: usize,
    t: usize,
)
    requires
        turns.len() <= usize::MAX,
    ensures
        turns_on_day(i, turns, u, d).contains((j, t)) <==> (j == i && t < turns.len() && turn_day(
            turns[t as int],
            u,
        ) == Some(d)),
    decreases turns.len(),
{
    if turns.len() > 0 {
        let prev = turns.drop_last();
        lemma_turns_on_day_contains(i, prev, u, d, j, t);
        let w = turns_on_day(i, prev, u, d);
        let last = (turns.len() - 1) as usize;
        if j == i && t < turns.len() && turn_day(turns[t as int], u) == Some(d) {
            if t < turns.len() - 1 {
                assert(prev[t as int] == turns[t as int]);
                let k = choose|k: int| 0 <= k < w.len() && w[k] == (j, t);
                if turn_day(turns.last(), u) == Some(d) {
                    assert(w.push((i, last))[k] == (j, t));
                }
            } else {
                assert(w.push((i, last))[w.len() as int] == (j, t));
            }
        }
        if turns_on_day(i, turns, u, d).contains((j, t)) {
            if turn_day(turns.last(), u) == Some(d) {
                let c = w.push((i, last));
                let k = choose|k: int| 0 <= k < c.len() && c[k] == (j, t);
                if k < w.len() {
                    assert(w[k] == (j, t));
                    assert(w.contains((j, t)));
                    assert(prev[t as int] == turns[t as int]);
                }
            } else {
                assert(w.contains((j, t)));
                assert(prev[t as int] == turns[t as int]);
            }
        }
    }
}

proof fn lemma_day_turns_contains(ss: Seq<Session>, inc: Seq<usize>, d: i32, i: usize, t: usize)
    requires
        forall|k: int| 0 <= k < inc.len() ==> (#[trigger] ss[inc[k] as int]).turns_spec().len() <= usize::MAX,
    ensures
        day_turns(ss, inc, d).contains((i, t)) <==> (inc.contains(i) && t < ss[i as int].turns_spec().len()
            && session_turn_day(ss[i as int], t as int) == Some(d)),
    decreases inc.len(),
{
    if inc.len() > 0 {
        let prev = inc.drop_last();
        let x = inc.last();
        lemma_day_turns_contains(ss, prev, d, i, t);
        lemma_turns_on_day_contains(x, ss[x as int].turns_spec(), updated_day(ss[x as int]), d, i, t);
        let a = day_turns(ss, prev, d);
        let b = turns_on_day(x, ss[x as int].turns_spec(), updated_day(ss[x as int]), d);
        let c = a + b;
        if c.contains((i, t)) {
            let k = choose|k: int| 0 <= k < c.len() && c[k] == (i, t);
            if k < a.len() {
                assert(a[k] == (i, t));
                let q = choose|q: int| 0 <= q < prev.len() && prev[q] == i;
                assert(inc[q] == i);
            } else {
                assert(b[k - a.len()] == (i, t));
                assert(inc[inc.len() - 1] == i);
            }
        }
        if inc.contains(i) && t < ss[i as int].turns_spec().len() && session_turn_day(
            ss[i as int],
            t as int,
        ) == Some(d) {
            let q = choose|q: int| 0 <= q < inc.len() && inc[q] == i;
            if q < prev.len() {
                assert(prev[q] == i);
                let k = choose|k: int| 0 <= k < a.len() && a[k] == (i, t);
                assert(c[k] == (i, t));
            } else {
                let k = choose|k: int| 0 <= k < b.len() && b[k] == (i, t);
                assert(c[a.len() + k] == (i, t));
            }
        }
    }
}

/// The days partition the dated activity of the included sessions: every
/// included session with a timestamp is counted on the row of its day and
/// on no other, and every turn of an included session that has a day (the
/// day it ended, else the day of its session's `updated_at`) is listed on
/// the row of that day and on no other.
pub proof fn law_days_partition_activity(rows: Seq<DayRow>, ss: Seq<Session>, inc: Seq<usize>)
    requires
        is_day_list(rows, ss, inc),
        forall|k: int| 0 <= k < inc.len() ==> (#[trigger] ss[inc[k] as int]).turns_spec().len() <= usize::MAX,
    ensures
        forall|x: usize, a: int|
            0 <= a < rows.len() ==> (#[trigger] rows[a].members@.contains(x) <==> (inc.contains(x)
                && session_day(ss[x as int]) == Some(rows[a].day))),
        forall|x: usize|
            #[trigger] inc.contains(x) && session_day(ss[x as int]) is Some ==> exists|a: int|
                0 <= a < rows.len() && (#[trigger] rows[a]).day == session_day(ss[x as int])->0,
        forall|i: usize, t: usize, a: int|
            0 <= a < rows.len() ==> (#[trigger] rows[a].turns@.contains((i, t)) <==> (inc.contains(i)
                && t < ss[i as int].turns_spec().len() && session_turn_day(ss[i as int], t as int)
                == Some(rows[a].day))),
        forall|i: usize, t: usize|
            #[trigger] inc.contains(i) && t < ss[i as int].turns_spec().len() && (#[trigger] session_turn_day(
                ss[i as int],
                t as int,
            )) is Some ==> exists|a: int|
                0 <= a < rows.len() && (#[trigger] rows[a]).day == session_turn_day(ss[i as int], t as int)->0,
        forall|a: int, b: int| 0 <= a < rows.len() && 0 <= b < rows.len() && a != b ==> #[trigger] rows[a].day != #[trigger] rows[b].day,
{
    assert forall|x: usize, a: int| 0 <= a < rows.len() implies (#[trigger] rows[a].members@.contains(x) <==> (
        inc.contains(x) && session_day(ss[x as int]) == Some(rows[a].day))) by {
        lemma_day_sessions_contains(ss, inc, rows[a].day, x);
    }
    assert forall|i: usize, t: usize, a: int| 0 <= a < rows.len() implies (#[trigger] rows[a].turns@.contains((i, t))
        <==> (inc.contains(i) && t < ss[i as int].turns_spec().len() && session_turn_day(
        ss[i as int],
        t as int,
    ) == Some(rows[a].day))) by {
        lemma_day_turns_contains(ss, inc, rows[a].day, i, t);
    }
    assert forall|x: usize|
        #[trigger] inc.contains(x) && session_day(ss[x as int]) is Some implies exists|a: int|
            0 <= a < rows.len() && (#[trigger] rows[a]).day == session_day(ss[x as int])->0 by {
        let d = session_day(ss[x as int])->0;
        let p = choose|p: int| 0 <= p < inc.len() && inc[p] == x;
        assert(is_active_day(ss, inc, d)) by {
            assert(session_day(ss[inc[p] as int]) == Some(d));
        }
    }
    assert forall|i: usize, t: usize|
        #[trigger] inc.contains(i) && t < ss[i as int].turns_spec().len() && (#[trigger] session_turn_day(
            ss[i as int],
            t as int,
        )) is Some implies exists|a: int|
            0 <= a < rows.len() && (#[trigger] rows[a]).day == session_turn_day(ss[i as int], t as int)->0 by {
        let d = session_turn_day(ss[i as int], t as int)->0;
        let p = choose|p: int| 0 <= p < inc.len() && inc[p] == i;
        let ts = ss[inc[p] as int].turns_spec();
        let u = updated_day(ss[inc[p] as int]);
        assert(is_turn_day(ts, u, d)) by {
            assert(turn_day(ts[t as int], u) == Some(d));
        }
        assert(is_active_day(ss, inc, d));
    }
    assert forall|a: int, b: int| 0 <= a < rows.len() && 0 <= b < rows.len() && a != b implies #[trigger] rows[a].day
        != #[trigger] rows[b].day by {
        if a < b {
            assert(rows[a].day < rows[b].day);
        } else {
            assert(rows[b].day < rows[a].day);
        }
    }
}

/// Two breakdown rows list the same label with the same members.
pub open spec fn same_group(a: GroupRow, b: GroupRow) -> bool {
    &&& a.label@ == b.label@
    &&& a.members@ == b.members@
    &&& a.sessions == b.sessions
    &&& a.turns == b.turns
}

/// Two day rows list the same day with the same sessions and turns.
pub open spec fn same_day(a: DayRow, b: DayRow) -> bool {
    &&& a.day == b.day
    &&& a.members@ == b.members@
    &&& a.sessions == b.sessions
    &&& a.turns@ == b.turns@
}

/// Two rows of the recent feed show the same session alike.
pub open spec fn same_recent(a: RecentRow, b: RecentRow) -> bool {
    &&& a.session == b.session
    &&& a.title@ == b.title@
    &&& a.status == b.status
    &&& a.when == b.when
}

proof fn lemma_days_agree(r1: Seq<DayRow>, r2: Seq<DayRow>, ss: Seq<Session>, inc: Seq<usize>, a: int)
    requires
        is_day_list(r1, ss, inc),
        is_day_list(r2, ss, inc),
        0 <= a < r1.len(),
        a < r2.len(),
    ensures
        forall|b: int| 0 <= b <= a ==> #[trigger] r1[b].day == r2[b].day,
    decreases a,
{
    if a > 0 {
        lemma_days_agree(r1, r2, ss, inc, a - 1);
    }
    let d1 = r1[a].day;
    let d2 = r2[a].day;
    if d1 != d2 {
        assert(is_active_day(ss, inc, d1) <==> exists|c: int| 0 <= c < r1.len() && #[trigger] r1[c].day == d1);
        assert(is_active_day(ss, inc, d2) <==> exists|c: int| 0 <= c < r2.len() && #[trigger] r2[c].day == d2);
        assert(is_active_day(ss, inc, d1) <==> exists|c: int| 0 <= c < r2.len() && #[trigger] r2[c].day == d1);
        assert(is_active_day(ss, inc, d2) <==> exists|c: int| 0 <= c < r1.len() && #[trigger] r1[c].day == d2);
        if d1 < d2 {
            let c = choose|c: int| 0 <= c < r2.len() && #[trigger] r2[c].day == d1;
            if c < a {
                assert(r1[c].day == r2[c].day);
                assert(r1[c].day < r1[a].day);
            } else if c > a {
                assert(r2[a].day < r2[c].day);
            }
        } else {
            let c = choose|c: int| 0 <= c < r1.len() && #[trigger] r1[c].day == d2;
            if c < a {
                assert(r1[c].day == r2[c].day);
                assert(r2[c].day < r2[a].day);
            } else if c > a {
                assert(r1[a].day < r1[c].day);
            }
        }
    }
}

proof fn lemma_day_lists_agree(r1: Seq<DayRow>, r2: Seq<DayRow>, ss: Seq<Session>, inc: Seq<usize>)
    requires
        is_day_list(r1, ss, inc),
        is_day_list(r2, ss, inc),
    ensures
        r1.len() == r2.len(),
        forall|b: int| 0 <= b < r1.len() ==> #[trigger] r1[b].day == r2[b].day,
{
    if r1.len() < r2.len() {
        if r1.len() > 0 {
            lemma_days_agree(r1, r2, ss, inc, r1.len() - 1);
        }
        let d = r2[r1.len() as int].day;
        assert(is_active_day(ss, inc, d) <==> exists|c: int| 0 <= c < r2.len() && #[trigger] r2[c].day == d);
        assert(is_active_day(ss, inc, d) <==> exists|c: int| 0 <= c < r1.len() && #[trigger] r1[c].day == d);
        let c = choose|c: int| 0 <= c < r1.len() && #[trigger] r1[c].day == d;
        assert(r1[c].day == r2[c].day);
        assert(r2[c].day < r2[r1.len() as int].day);
    } else if r2.len() < r1.len() {
        if r2.len() > 0 {
            lemma_days_agree(r1, r2, ss, inc, r2.len() - 1);
        }
        let d = r1[r2.len() as int].day;
        assert(is_active_day(ss, inc, d) <==> exists|c: int| 0 <= c < r1.len() && #[trigger] r1[c].day == d);
        assert(is_active_day(ss, inc, d) <==> exists|c: int| 0 <= c < r2.len() && #[trigger] r2[c].day == d);
        let c = choose|c: int| 0 <= c < r2.len() && #[trigger] r2[c].day == d;
        assert(r1[c].day == r2[c].day);
        assert(r1[c].day < r1[r2.len() as int].day);
    }
    if r1.len() > 0 && r1.len() == r2.len() {
        lemma_days_agree(r1, r2, ss, inc, r1.len() - 1);
    }
}

proof fn lemma_feeds_agree(
    r1: Seq<RecentRow>,
    r2: Seq<RecentRow>,
    ss: Seq<Session>,
    inc: Seq<usize>,
    k1: nat,
    k2: nat,
    a: int,
)
    requires
        is_recent_feed(r1, ss, inc, k1),
        is_recent_feed(r2, ss, inc, k2),
        0 <= a < r1.len(),
        a < r2.len(),
    ensures
        forall|b: int| 0 <= b <= a ==> #[trigger] r1[b].session == r2[b].session,
    decreases a,
{
    if a > 0 {
        lemma_feeds_agree(r1, r2, ss, inc, k1, k2, a - 1);
    }
    let x = r1[a].session;
    let y = r2[a].session;
    if x != y {
        assert(inc.contains(x));
        assert(inc.contains(y));
        let px = choose|p: int| 0 <= p < inc.len() && inc[p] == x;
        let py = choose|p: int| 0 <= p < inc.len() && inc[p] == y;
        // Where `x` stands in the second feed, or that it is left out.
        if exists|c: int| 0 <= c < r2.len() && #[trigger] r2[c].session == x {
            let c = choose|c: int| 0 <= c < r2.len() && #[trigger] r2[c].session == x;
            if c < a {
                assert(r1[c].session == r2[c].session);
                assert(newer_first(ss, r1[c].session, r1[a].session));
            } else {
                assert(c != a);
                assert(newer_first(ss, r2[a].session, r2[c].session));
            }
        } else {
            assert(forall|c: int| 0 <= c < r2.len() ==> #[trigger] r2[c].session != inc[px]);
            assert(newer_first(ss, r2[a].session, inc[px]));
        }
        assert(newer_first(ss, y, x));
        if exists|c: int| 0 <= c < r1.len() && #[trigger] r1[c].session == y {
            let c = choose|c: int| 0 <= c < r1.len() && #[trigger] r1[c].session == y;
            if c < a {
                assert(r1[c].session == r2[c].session);
                assert(newer_first(ss, r2[c].session, r2[a].session));
            } else {
                assert(c != a);
                assert(newer_first(ss, r1[a].session, r1[c].session));
            }
        } else {
            assert(forall|c: int| 0 <= c < r1.len() ==> #[trigger] r1[c].session != inc[py]);
            assert(newer_first(ss, r1[a].session, inc[py]));
        }
        assert(newer_first(ss, x, y));
    }
}

/// The `top_n` limit bounds only lengths: two reports of the same sessions
/// in the same time window, whatever their limits, include the same
/// sessions, total them alike and have the same breakdowns by model and
/// project and the same days; each recent feed holds its limit or the number
/// of included sessions, whichever is smaller, and the two feeds show the
/// same sessions alike as far as both go.
pub proof fn law_top_n_bounds_only_lengths(
    r1: Report,
    r2: Report,
    ss: Seq<Session>,
    since: Option<Timestamp>,
    k1: nat,
    k2: nat,
)
    requires
        is_report(r1, ss, since, k1),
        is_report(r2, ss, since, k2),
    ensures
        r1.included@ == r2.included@,
        r1.summary == r2.summary,
        r1.by_model@.len() == r2.by_model@.len(),
        forall|g: int| 0 <= g < r1.by_model@.len() ==> same_group(#[trigger] r1.by_model@[g], r2.by_model@[g]),
        r1.by_project@.len() == r2.by_project@.len(),
        forall|g: int|
            0 <= g < r1.by_project@.len() ==> same_group(#[trigger] r1.by_project@[g], r2.by_project@[g]),
        r1.by_day@.len() == r2.by_day@.len(),
        forall|a: int| 0 <= a < r1.by_day@.len() ==> same_day(#[trigger] r1.by_day@[a], r2.by_day@[a]),
        r1.recent@.len() == if k1 < r1.included@.len() { k1 } else { r1.included@.len() },
        r2.recent@.len() == if k2 < r2.included@.len() { k2 } else { r2.included@.len() },
        forall|a: int|
            0 <= a < r1.recent@.len() && a < r2.recent@.len() ==> same_recent(
                #[trigger] r1.recent@[a],
                r2.recent@[a],
            ),
{
    let inc = r1.included@;
    assert forall|g: int| 0 <= g < r1.by_model@.len() implies same_group(
        #[trigger] r1.by_model@[g],
        r2.by_model@[g],
    ) by {
        assert(r1.by_model@[g].label@ == distinct_labels(crate::aggregate::model_labels(ss), inc)[g]);
        assert(r2.by_model@[g].label@ == distinct_labels(crate::aggregate::model_labels(ss), inc)[g]);
    }
    assert forall|g: int| 0 <= g < r1.by_project@.len() implies same_group(
        #[trigger] r1.by_project@[g],
        r2.by_project@[g],
    ) by {
        assert(r1.by_project@[g].label@ == distinct_labels(crate::aggregate::project_labels(ss), inc)[g]);
        assert(r2.by_project@[g].label@ == distinct_labels(crate::aggregate::project_labels(ss), inc)[g]);
    }
    lemma_day_lists_agree(r1.by_day@, r2.by_day@, ss, inc);
    assert forall|a: int| 0 <= a < r1.by_day@.len() implies same_day(#[trigger] r1.by_day@[a], r2.by_day@[a]) by {
        assert(r1.by_day@[a].day == r2.by_day@[a].day);
        assert(r1.by_day@[a].turns@ == day_turns(ss, inc, r1.by_day@[a].day));
        assert(r2.by_day@[a].turns@ == day_turns(ss, inc, r2.by_day@[a].day));
    }
    let n1 = r1.recent@.len();
    let n2 = r2.recent@.len();
    if n1 > 0 && n2 > 0 {
        let m: int = if n1 < n2 { n1 - 1 } else { n2 - 1 };
        lemma_feeds_agree(r1.recent@, r2.recent@, ss, inc, k1, k2, m);
        assert forall|a: int| 0 <= a < n1 && a < n2 implies same_recent(#[trigger] r1.recent@[a], r2.recent@[a]) by {
            assert(r1.recent@[a].session == r2.recent@[a].session);
        }
    }
}

/// The `top_n` limit cuts each ranked list to its length and no further: a
/// ranking of the model breakdown, or of the project breakdown, by any
/// credit keys keeps the limit or the number of distinct labels among the
/// included sessions, whichever is smaller; the recent feed keeps the limit
/// or the number of included sessions, whichever is smaller.
pub proof fn law_top_n_cuts_to_lengths(
    r: Report,
    ss: Seq<Session>,
    since: Option<Timestamp>,
    top_n: nat,
    model_keys: Seq<u64>,
    model_order: Seq<usize>,
    project_keys: Seq<u64>,
    project_order: Seq<usize>,
)
    requires
        is_report(r, ss, since, top_n),
        model_keys.len() == r.by_model@.len(),
        is_top_order(present_keys(model_keys), top_n, model_order),
        project_keys.len() == r.by_project@.len(),
        is_top_order(present_keys(project_keys), top_n, project_order),
    ensures
        ({
            let n = distinct_labels(model_labels(ss), r.included@).len();
            model_order.len() == if top_n < n { top_n } else { n }
        }),
        ({
            let n = distinct_labels(project_labels(ss), r.included@).len();
            project_order.len() == if top_n < n { top_n } else { n }
        }),
        r.recent@.len() == if top_n < r.included@.len() { top_n } else { r.included@.len() },
{
}

/// The total of a turn counter over `turns`, an absent count reading as zero.
pub open spec fn turns_count(turns: Seq<UserTurnMetadata>, field: spec_fn(UserTurnMetadata) -> Option<u64>) -> int
    decreases turns.len(),
{
    if turns.len() == 0 {
        0
    } else {
        turns_count(turns.drop_last(), field) + match field(turns.last()) {
            Some(v) => v as int,
            None => 0,
        }
    }
}

/// The total of a turn counter over every turn of the sessions at `inc`.
pub open spec fn sessions_count(
    ss: Seq<Session>,
    inc: Seq<usize>,
    field: spec_fn(UserTurnMetadata) -> Option<u64>,
) -> int
    decreases inc.len(),
{
    if inc.len() == 0 {
        0
    } else {
        sessions_count(ss, inc.drop_last(), field) + turns_count(ss[inc.last() as int].turns_spec(), field)
    }
}

/// The number of turns of the sessions at `inc`.
pub open spec fn sessions_turns(ss: Seq<Session>, inc: Seq<usize>) -> int
    decreases inc.len(),
{
    if inc.len() == 0 {
        0
    } else {
        sessions_turns(ss, inc.drop_last()) + ss[inc.last() as int].turns_spec().len()
    }
}

proof fn lemma_turns_count(
    turns: Seq<UserTurnMetadata>,
    field: spec_fn(UserTurnMetadata) -> Option<u64>,
    f: spec_fn(UserTurnMetadata) -> nat,
)
    requires
        forall|t: UserTurnMetadata| #[trigger] f(t) == or_zero(field(t)),
    ensures
        sum_of(turns, f) == turns_count(turns, field),
    decreases turns.len(),
{
    if turns.len() > 0 {
        lemma_turns_count(turns.drop_last(), field, f);
        assert(f(turns.last()) == or_zero(field(turns.last())));
    }
}

proof fn lemma_sessions_count(
    ss: Seq<Session>,
    inc: Seq<usize>,
    field: spec_fn(UserTurnMetadata) -> Option<u64>,
    f: spec_fn(UserTurnMetadata) -> nat,
)
    requires
        forall|t: UserTurnMetadata| #[trigger] f(t) == or_zero(field(t)),
    ensures
        sum_of(inc, turn_total(ss, f)) == sessions_count(ss, inc, field),
        sum_of(inc, turns_of(ss)) == sessions_turns(ss, inc),
    decreases inc.len(),
{
    if inc.len() > 0 {
        lemma_sessions_count(ss, inc.drop_last(), field, f);
        lemma_turns_count(ss[inc.last() as int].turns_spec(), field, f);
    }
}

/// The headline totals count what the sessions in the window record: the
/// number of sessions, their turns, and over all their turns the requests
/// (`total_request_count`), the tool uses (`builtin_tool_uses`), and the
/// input and output tokens, each absent count reading as zero.
pub proof fn law_summary_counts_recorded_usage(ss: Seq<Session>, inc: Seq<usize>)
    requires
        totals_fit(ss, inc),
        inc.len() <= usize::MAX,
    ensures
        summary_spec(ss, inc).sessions == inc.len(),
        summary_spec(ss, inc).turns == sessions_turns(ss, inc),
        summary_spec(ss, inc).requests == sessions_count(ss, inc, |t: UserTurnMetadata| t.total_request_count),
        summary_spec(ss, inc).tool_uses == sessions_count(ss, inc, |t: UserTurnMetadata| t.builtin_tool_uses),
        summary_spec(ss, inc).input_tokens == sessions_count(ss, inc, |t: UserTurnMetadata| t.input_token_count),
        summary_spec(ss, inc).output_tokens == sessions_count(
            ss,
            inc,
            |t: UserTurnMetadata| t.output_token_count,
        ),
{
    lemma_sessions_count(ss, inc, |t: UserTurnMetadata| t.total_request_count, requests_of());
    lemma_sessions_count(ss, inc, |t: UserTurnMetadata| t.builtin_tool_uses, tool_uses_of());
    lemma_sessions_count(ss, inc, |t: UserTurnMetadata| t.input_token_count, input_tokens_of());
    lemma_sessions_count(ss, inc, |t: UserTurnMetadata| t.output_token_count, output_tokens_of());
}

/// A By Day row starts with two spaces, the printed date and two spaces, and
/// ends with the day's session count in decimal and ` sess` (dimmed), then a
/// line break, whatever the fill of its bar and its credits.
pub proof fn law_day_line_columns(row: DayLine, mode: ColorMode)
    ensures
        ({
            let line = day_line_spec(row, mode);
            let head = "  "@ + date_text(row.day) + "  "@;
            let tail = dim_spec(mode, decimal_spec(row.sessions as nat) + " sess"@) + seq!['\n'];
            &&& line.len() >= head.len() + tail.len()
            &&& line.take(head.len() as int) == head
            &&& line.skip(line.len() - tail.len()) == tail
        }),
{
    reveal(day_line_spec);
    let line = day_line_spec(row, mode);
    let head = "  "@ + date_text(row.day) + "  "@;
    let tail = dim_spec(mode, decimal_spec(row.sessions as nat) + " sess"@) + seq!['\n'];
    let mid = bar_spec(row.filled as nat, BAR_WIDTH as nat, Palette::green_spec(), mode) + " "@
        + pad_left_spec(row.credits_text@, 7) + "  "@;
    assert(line =~= head + mid + tail);
    assert((head + mid + tail).take(head.len() as int) =~= head);
    assert((head + mid + tail).skip(line.len() - tail.len()) =~= tail);
}

/// A ranking by credit keys follows the keys: of two listed groups the one
/// with the larger key comes first, equal keys keep their input order, and
/// every group left out has a key no larger than any listed one (and, when
/// equal, comes later in the input).
pub proof fn law_ranking_follows_credit_keys(keys: Seq<u64>, limit: nat, order: Seq<usize>)
    requires
        is_top_order(present_keys(keys), limit, order),
    ensures
        forall|a: int, b: int|
            0 <= a < b < order.len() ==> keys[#[trigger] order[a] as int] > keys[#[trigger] order[b] as int]
                || (keys[order[a] as int] == keys[order[b] as int] && order[a] < order[b]),
        forall|a: int, j: int|
            0 <= a < order.len() && 0 <= j < keys.len() && !order.contains(j as usize) ==> keys[
                #[trigger] order[a] as int] > #[trigger] keys[j] || (keys[order[a] as int] == keys[j]
                && order[a] < j),
{
    let pk = present_keys(keys);
    assert forall|a: int, b: int| 0 <= a < b < order.len() implies keys[#[trigger] order[a] as int]
        > keys[#[trigger] order[b] as int] || (keys[order[a] as int] == keys[order[b] as int] && order[a]
        < order[b]) by {
        assert(ranks_before(pk, order[a] as int, order[b] as int));
        assert(pk[order[a] as int] == Some(keys[order[a] as int] as i128));
        assert(pk[order[b] as int] == Some(keys[order[b] as int] as i128));
    }
    assert forall|a: int, j: int|
        0 <= a < order.len() && 0 <= j < keys.len() && !order.contains(j as usize) implies keys[
            #[trigger] order[a] as int] > #[trigger] keys[j] || (keys[order[a] as int] == keys[j] && order[a]
            < j) by {
        assert(ranks_before(pk, order[a] as int, j));
        assert(pk[order[a] as int] == Some(keys[order[a] as int] as i128));
        assert(pk[j] == Some(keys[j] as i128));
    }
}

/// The recent feed runs newest first by the instant itself: of two rows the
/// earlier one has the later or equal timestamp, rows without a timestamp
/// come after every row with one, rows with the same instant (or both
/// without) keep their input order, and no session left out of the feed is
/// newer than any listed one.
pub proof fn law_recent_newest_by_instant(rows: Seq<RecentRow>, ss: Seq<Session>, inc: Seq<usize>, top_n: nat)
    requires
        is_recent_feed(rows, ss, inc, top_n),
    ensures
        forall|a: int, b: int|
            0 <= a < b < rows.len() && (#[trigger] rows[a]).when is Some && (#[trigger] rows[b]).when is Some
                ==> rows[a].when->0.unix_nanos >= rows[b].when->0.unix_nanos,
        forall|a: int, b: int|
            0 <= a < b < rows.len() && (#[trigger] rows[a]).when is None ==> (#[trigger] rows[b]).when is None,
        forall|a: int, b: int|
            0 <= a < b < rows.len() && ((#[trigger] rows[a]).when is None && (#[trigger] rows[b]).when is None
                || rows[a].when is Some && rows[b].when is Some && rows[a].when->0.unix_nanos
                == rows[b].when->0.unix_nanos) ==> rows[a].session < rows[b].session,
        forall|a: int, p: int|
            0 <= a < rows.len() && 0 <= p < inc.len() && (forall|c: int|
                0 <= c < rows.len() ==> #[trigger] rows[c].session != inc[p]) && session_time_spec(
                ss[#[trigger] inc[p] as int],
            ) is Some ==> (#[trigger] rows[a]).when is Some && rows[a].when->0.unix_nanos
                >= session_time_spec(ss[inc[p] as int])->0.unix_nanos,
{
    assert forall|a: int, b: int| 0 <= a < b < rows.len() implies {
        &&& ((#[trigger] rows[a]).when is Some && (#[trigger] rows[b]).when is Some ==> rows[a].when->0.unix_nanos
            >= rows[b].when->0.unix_nanos)
        &&& (rows[a].when is None ==> rows[b].when is None)
        &&& ((rows[a].when is None && rows[b].when is None || rows[a].when is Some && rows[b].when is Some
            && rows[a].when->0.unix_nanos == rows[b].when->0.unix_nanos) ==> rows[a].session
            < rows[b].session)
    } by {
        assert(newer_first(ss, rows[a].session, rows[b].session));
        assert(rows[a].when == session_time_spec(ss[rows[a].session as int]));
        assert(rows[b].when == session_time_spec(ss[rows[b].session as int]));
    }
    assert forall|a: int, p: int|
        0 <= a < rows.len() && 0 <= p < inc.len() && (forall|c: int|
            0 <= c < rows.len() ==> #[trigger] rows[c].session != inc[p]) && session_time_spec(
            ss[#[trigger] inc[p] as int],
        ) is Some implies (#[trigger] rows[a]).when is Some && rows[a].when->0.unix_nanos
        >= session_time_spec(ss[inc[p] as int])->0.unix_nanos by {
        assert(newer_first(ss, rows[a].session, inc[p]));
        assert(rows[a].when == session_time_spec(ss[rows[a].session as int]));
    }
}

/// The instant a turn records as its end, when its text parses.
pub open spec fn recorded_end(t: UserTurnMetadata) -> Option<Timestamp> {
    match t.end_timestamp {
        Some(e) => rfc3339_timestamp(e@),
        None => None,
    }
}

/// The instant an optional timestamp text gives, when it parses.
pub open spec fn parsed_instant(text: Option<String>) -> Option<Timestamp> {
    match text {
        Some(e) => rfc3339_timestamp(e@),
        None => None,
    }
}

proof fn lemma_latest_turn_end(turns: Seq<UserTurnMetadata>)
    ensures
        latest_turn_end(turns) is None <==> forall|t: int|
            0 <= t < turns.len() ==> (#[trigger] recorded_end(turns[t])) is None,
        latest_turn_end(turns) matches Some(r) ==> exists|t: int|
            0 <= t < turns.len() && #[trigger] recorded_end(turns[t]) == Some(r) && forall|u: int|
                0 <= u < turns.len() && (#[trigger] recorded_end(turns[u])) is Some ==> recorded_end(
                    turns[u],
                )->0.unix_nanos <= r.unix_nanos && (u > t ==> recorded_end(turns[u])->0.unix_nanos
                    < r.unix_nanos),
    decreases turns.len(),
{
    if turns.len() > 0 {
        let prev = turns.drop_last();
        let n = turns.len() - 1;
        lemma_latest_turn_end(prev);
        assert forall|t: int| 0 <= t < prev.len() implies #[trigger] recorded_end(prev[t]) == recorded_end(
            turns[t],
        ) by {
            assert(prev[t] == turns[t]);
        }
        assert(recorded_end(turns[n]) == crate::aggregate::turn_end(turns.last()));
        match latest_turn_end(prev) {
            Some(a) => {
                let t = choose|t: int|
                    0 <= t < prev.len() && #[trigger] recorded_end(prev[t]) == Some(a) && forall|u: int|
                        0 <= u < prev.len() && (#[trigger] recorded_end(prev[u])) is Some ==> recorded_end(
                            prev[u],
                        )->0.unix_nanos <= a.unix_nanos && (u > t ==> recorded_end(prev[u])->0.unix_nanos
                            < a.unix_nanos);
                match recorded_end(turns[n]) {
                    Some(x) => {
                        if x.unix_nanos >= a.unix_nanos {
                            assert forall|u: int|
                                0 <= u < turns.len() && (#[trigger] recorded_end(turns[u])) is Some implies recorded_end(
                                    turns[u],
                                )->0.unix_nanos <= x.unix_nanos && (u > n ==> recorded_end(turns[u])->0.unix_nanos
                                    < x.unix_nanos) by {
                                if u < n {
                                    assert(recorded_end(prev[u]) == recorded_end(turns[u]));
                                }
                            }
                        } else {
                            assert(recorded_end(turns[t]) == Some(a));
                            assert forall|u: int|
                                0 <= u < turns.len() && (#[trigger] recorded_end(turns[u])) is Some implies recorded_end(
                                    turns[u],
                                )->0.unix_nanos <= a.unix_nanos && (u > t ==> recorded_end(turns[u])->0.unix_nanos
                                    < a.unix_nanos) by {
                                if u < n {
                                    assert(recorded_end(prev[u]) == recorded_end(turns[u]));
                                }
                            }
                        }
                    },
                    None => {
                        assert(recorded_end(turns[t]) == Some(a));
                        assert forall|u: int|
                            0 <= u < turns.len() && (#[trigger] recorded_end(turns[u])) is Some implies recorded_end(
                                turns[u],
                            )->0.unix_nanos <= a.unix_nanos && (u > t ==> recorded_end(turns[u])->0.unix_nanos
                                < a.unix_nanos) by {
                            if u < n {
                                assert(recorded_end(prev[u]) == recorded_end(turns[u]));
                            }
                        }
                    },
                }
            },
            None => {
                match recorded_end(turns[n]) {
                    Some(x) => {
                        assert forall|u: int|
                            0 <= u < turns.len() && (#[trigger] recorded_end(turns[u])) is Some implies recorded_end(
                                turns[u],
                            )->0.unix_nanos <= x.unix_nanos && (u > n ==> recorded_end(turns[u])->0.unix_nanos
                                < x.unix_nanos) by {
                            if u < n {
                                assert(recorded_end(prev[u]) == recorded_end(turns[u]));
                            }
                        }
                    },
                    None => {
                        assert forall|u: int| 0 <= u < turns.len() implies (#[trigger] recorded_end(
                            turns[u],
                        )) is None by {
                            if u < n {
                                assert(recorded_end(prev[u]) == recorded_end(turns[u]));
                            }
                        }
                    },
                }
            },
        }
    }
}

/// A session's time is the latest end that one of its turns records (the
/// last of several equal ones); when no turn records a parseable end, it is
/// the session's `updated_at` when that parses, and its `created_at`
/// otherwise.
pub proof fn law_session_time_prefers_turns_then_updated(s: Session)
    ensures
        ({
            let turns = s.turns_spec();
            (exists|t: int| 0 <= t < turns.len() && (#[trigger] recorded_end(turns[t])) is Some) ==> {
                &&& session_time_spec(s) is Some
                &&& exists|t: int|
                    0 <= t < turns.len() && #[trigger] recorded_end(turns[t]) == session_time_spec(s)
                        && forall|u: int|
                        0 <= u < turns.len() && (#[trigger] recorded_end(turns[u])) is Some ==> recorded_end(
                            turns[u],
                        )->0.unix_nanos <= session_time_spec(s)->0.unix_nanos && (u > t ==> recorded_end(
                            turns[u],
                        )->0.unix_nanos < session_time_spec(s)->0.unix_nanos)
            }
        }),
        ({
            let turns = s.turns_spec();
            (forall|t: int| 0 <= t < turns.len() ==> (#[trigger] recorded_end(turns[t])) is None)
                ==> session_time_spec(s) == if parsed_instant(s.updated_at) is Some {
                parsed_instant(s.updated_at)
            } else {
                parsed_instant(s.created_at)
            }
        }),
{
    lemma_latest_turn_end(s.turns_spec());
    let turns = s.turns_spec();
    if exists|t: int| 0 <= t < turns.len() && (#[trigger] recorded_end(turns[t])) is Some {
        let t = choose|t: int| 0 <= t < turns.len() && (#[trigger] recorded_end(turns[t])) is Some;
        assert(latest_turn_end(turns) is Some);
    }
}

proof fn lemma_window_members(ss: Seq<Session>, since: Option<Timestamp>, n: nat, x: usize)
    requires
        n <= ss.len() <= usize::MAX,
    ensures
        included_upto(ss, since, n).contains(x) <==> (x < n && match since {
            None => true,
            Some(c) => match session_time_spec(ss[x as int]) {
                Some(t) => t.unix_nanos >= c.unix_nanos,
                None => false,
            },
        }),
    decreases n,
{
    if n > 0 {
        lemma_window_members(ss, since, (n - 1) as nat, x);
        let prev = included_upto(ss, since, (n - 1) as nat);
        if in_window(ss[n - 1], since) {
            let cur = prev.push((n - 1) as usize);
            if cur.contains(x) {
                let k = choose|k: int| 0 <= k < cur.len() && cur[k] == x;
                if k < prev.len() {
                    assert(prev[k] == x);
                }
            }
            if prev.contains(x) {
                let k = choose|k: int| 0 <= k < prev.len() && prev[k] == x;
                assert(cur[k] == x);
            }
            if x == n - 1 {
                assert(cur[prev.len() as int] == x);
            }
        }
    }
}

/// The time window keeps exactly the sessions whose best timestamp is at or
/// after the cutoff (a session without one is kept only when there is no
/// cutoff), in input order.
pub proof fn law_window_keeps_sessions_since_cutoff(ss: Seq<Session>, since: Option<Timestamp>)
    requires
        ss.len() <= usize::MAX,
    ensures
        forall|x: usize|
            #[trigger] included_spec(ss, since).contains(x) <==> (x < ss.len() && match since {
                None => true,
                Some(c) => match session_time_spec(ss[x as int]) {
                    Some(t) => t.unix_nanos >= c.unix_nanos,
                    None => false,
                },
            }),
        forall|a: int, b: int|
            0 <= a < b < included_spec(ss, since).len() ==> #[trigger] included_spec(ss, since)[a]
                < #[trigger] included_spec(ss, since)[b],
{
    assert forall|x: usize| #[trigger] included_spec(ss, since).contains(x) <==> (x < ss.len() && match since {
        None => true,
        Some(c) => match session_time_spec(ss[x as int]) {
            Some(t) => t.unix_nanos >= c.unix_nanos,
            None => false,
        },
    }) by {
        lemma_window_members(ss, since, ss.len(), x);
    }
    crate::aggregate::lemma_included_increasing(ss, since, ss.len());
}

/// The header's date range spans the days of the sessions' timestamps: it
/// exists exactly when some session at `inc` has a timestamp, its first day
/// is the earliest such day and its last day the latest.
pub proof fn law_date_range_spans_session_days(ss: Seq<Session>, inc: Seq<usize>)
    ensures
        first_day_of(ss, inc) is Some <==> exists|p: int|
            0 <= p < inc.len() && (#[trigger] session_time_spec(ss[inc[p] as int])) is Some,
        first_day_of(ss, inc) matches Some(f) ==> {
            &&& exists|p: int|
                0 <= p < inc.len() && (#[trigger] session_time_spec(ss[inc[p] as int])) is Some
                    && session_time_spec(ss[inc[p] as int])->0.julian_day == f
            &&& forall|p: int|
                0 <= p < inc.len() && (#[trigger] session_time_spec(ss[inc[p] as int])) is Some
                    ==> f <= session_time_spec(ss[inc[p] as int])->0.julian_day
        },
        last_day_of(ss, inc) matches Some(l) ==> {
            &&& exists|p: int|
                0 <= p < inc.len() && (#[trigger] session_time_spec(ss[inc[p] as int])) is Some
                    && session_time_spec(ss[inc[p] as int])->0.julian_day == l
            &&& forall|p: int|
                0 <= p < inc.len() && (#[trigger] session_time_spec(ss[inc[p] as int])) is Some
                    ==> session_time_spec(ss[inc[p] as int])->0.julian_day <= l
        },
    decreases inc.len(),
{
    law_date_range_runs_forward(ss, inc);
    if inc.len() > 0 {
        let prev = inc.drop_last();
        let n = inc.len() - 1;
        law_date_range_spans_session_days(ss, prev);
        law_date_range_runs_forward(ss, prev);
        assert forall|p: int| 0 <= p < prev.len() implies #[trigger] session_time_spec(ss[prev[p] as int])
            == session_time_spec(ss[inc[p] as int]) by {
            assert(prev[p] == inc[p]);
        }
        let cur = session_time_spec(ss[inc[n] as int]);
        if first_day_of(ss, inc) is Some {
            if first_day_of(ss, prev) is Some {
                let p = choose|p: int| 0 <= p < prev.len() && (#[trigger] session_time_spec(ss[prev[p] as int])) is Some;
                assert(session_time_spec(ss[inc[p] as int]) is Some);
            } else {
                assert(cur is Some);
            }
        }
        if exists|p: int| 0 <= p < inc.len() && (#[trigger] session_time_spec(ss[inc[p] as int])) is Some {
            let p = choose|p: int| 0 <= p < inc.len() && (#[trigger] session_time_spec(ss[inc[p] as int])) is Some;
            if p < n {
                assert(session_time_spec(ss[prev[p] as int]) is Some);
            }
        }
        match first_day_of(ss, inc) {
            Some(f) => {
                match first_day_of(ss, prev) {
                    Some(g) => {
                        let q = choose|q: int|
                            0 <= q < prev.len() && (#[trigger] session_time_spec(ss[prev[q] as int])) is Some
                                && session_time_spec(ss[prev[q] as int])->0.julian_day == g;
                        assert(session_time_spec(ss[inc[q] as int]) == session_time_spec(ss[prev[q] as int]));
                        assert forall|p: int|
                            0 <= p < inc.len() && (#[trigger] session_time_spec(ss[inc[p] as int])) is Some
                                implies f <= session_time_spec(ss[inc[p] as int])->0.julian_day by {
                            if p < n {
                                assert(session_time_spec(ss[prev[p] as int]) == session_time_spec(ss[inc[p] as int]));
                            }
                        }
                    },
                    None => {
                        assert forall|p: int|
                            0 <= p < inc.len() && (#[trigger] session_time_spec(ss[inc[p] as int])) is Some
                                implies f <= session_time_spec(ss[inc[p] as int])->0.julian_day by {
                            if p < n {
                                assert(session_time_spec(ss[prev[p] as int]) == session_time_spec(ss[inc[p] as int]));
                            }
                        }
                    },
                }
            },
            None => {},
        }
        match last_day_of(ss, inc) {
            Some(l) => {
                match last_day_of(ss, prev) {
                    Some(g) => {
                        let q = choose|q: int|
                            0 <= q < prev.len() && (#[trigger] session_time_spec(ss[prev[q] as int])) is Some
                                && session_time_spec(ss[prev[q] as int])->0.julian_day == g;
                        assert(session_time_spec(ss[inc[q] as int]) == session_time_spec(ss[prev[q] as int]));
                        assert forall|p: int|
                            0 <= p < inc.len() && (#[trigger] session_time_spec(ss[inc[p] as int])) is Some
                                implies session_time_spec(ss[inc[p] as int])->0.julian_day <= l by {
                            if p < n {
                                assert(session_time_spec(ss[prev[p] as int]) == session_time_spec(ss[inc[p] as int]));
                            }
                        }
                    },
                    None => {
                        assert forall|p: int|
                            0 <= p < inc.len() && (#[trigger] session_time_spec(ss[inc[p] as int])) is Some
                                implies session_time_spec(ss[inc[p] as int])->0.julian_day <= l by {
                            if p < n {
                                assert(session_time_spec(ss[prev[p] as int]) == session_time_spec(ss[inc[p] as int]));
                            }
                        }
                    },
                }
            },
            None => {},
        }
    }
}

/// A counter of the header as it reads: its label left-aligned in ten
/// columns, then its value in decimal right-aligned in eight.
pub open spec fn counter_text(label: Seq<char>, value: nat) -> Seq<char> {
    pad_right_spec(label, 10) + pad_left_spec(decimal_spec(value), 8)
}

/// The header shows each headline counter beside its own label: a line
/// with the sessions and the turns, followed by a line with the requests
/// and the tool uses.
pub proof fn law_header_shows_counters(h: HeaderView, mode: ColorMode)
    ensures
        ({
            let s = h.summary;
            let rows = "  "@ + counter_text("Sessions"@, s.sessions as nat) + "    "@ + counter_text(
                "Turns"@,
                s.turns as nat,
            ) + seq!['\n'] + "  "@ + counter_text("Requests"@, s.requests as nat) + "    "@
                + counter_text("Tool uses"@, s.tool_uses as nat) + seq!['\n'];
            exists|k: int|
                0 <= k && k + rows.len() <= header_spec(h, mode).len() && #[trigger] header_spec(
                    h,
                    mode,
                ).subrange(k, k + rows.len()) == rows
        }),
{
    reveal(metric_row_spec);
    let s = h.summary;
    let row1 = "  "@ + counter_text("Sessions"@, s.sessions as nat) + "    "@ + counter_text(
        "Turns"@,
        s.turns as nat,
    ) + seq!['\n'];
    let row2 = "  "@ + counter_text("Requests"@, s.requests as nat) + "    "@ + counter_text(
        "Tool uses"@,
        s.tool_uses as nat,
    ) + seq!['\n'];
    let rows = "  "@ + counter_text("Sessions"@, s.sessions as nat) + "    "@ + counter_text(
        "Turns"@,
        s.turns as nat,
    ) + seq!['\n'] + "  "@ + counter_text("Requests"@, s.requests as nat) + "    "@
        + counter_text("Tool uses"@, s.tool_uses as nat) + seq!['\n'];
    assert(rows =~= row1 + row2);
    let pre = title_spec(mode) + range_spec(s, mode) + seq!['\n'];
    let post = credits_line_spec(h, mode) + latest_line_spec(h, mode) + tokens_spec(s, mode) + seq!['\n', '\n'];
    assert(metric_row_spec("Sessions"@, s.sessions as nat, "Turns"@, s.turns as nat) =~= row1);
    assert(metric_row_spec("Requests"@, s.requests as nat, "Tool uses"@, s.tool_uses as nat) =~= row2);
    let hs = header_spec(h, mode);
    assert(hs =~= pre + rows + post);
    let k = pre.len() as int;
    assert(hs.subrange(k, k + rows.len()) =~= rows);
    assert(k + rows.len() <= hs.len());
    assert(exists|j: int|
        0 <= j && j + rows.len() <= header_spec(h, mode).len() && #[trigger] header_spec(h, mode).subrange(
            j,
            j + rows.len(),
        ) == rows);
}

/// A bar of `width` cells shows `filled` of them filled (all of them when
/// `filled` exceeds `width`), filled cells first; in color it is the plain
/// bar painted.
pub proof fn law_bar_cells(filled: nat, width: nat, color: Color, mode: ColorMode)
    ensures
        bar_spec(filled, width, color, ColorMode::Plain).len() == width,
        forall|i: int|
            0 <= i < width ==> #[trigger] bar_spec(filled, width, color, ColorMode::Plain)[i] == if i < filled {
                FILLED
            } else {
                EMPTY
            },
        bar_spec(filled, width, color, mode) == paint_spec(
            mode,
            color,
            bar_spec(filled, width, color, ColorMode::Plain),
        ),
{
    let f: nat = if filled < width { filled } else { width };
    let cells = repeat_spec(FILLED, f) + repeat_spec(EMPTY, (width - f) as nat);
    assert forall|i: int| 0 <= i < width implies #[trigger] bar_spec(filled, width, color, ColorMode::Plain)[i]
        == if i < filled { FILLED } else { EMPTY } by {
        assert(bar_spec(filled, width, color, ColorMode::Plain) == cells);
        if i < f {
            assert(cells[i] == repeat_spec(FILLED, f)[i]);
        } else {
            assert(cells[i] == repeat_spec(EMPTY, (width - f) as nat)[i - f]);
        }
    }
}

/// A row of a "By X" table reads: its number (one more than its position)
/// right-aligned in two columns and `. `, the label cut to 22 characters and
/// left-aligned in 22, the credits right-aligned in 7, the share, and it
/// ends with the impact bar of its fill and a line break.
pub proof fn law_group_line_columns(i: nat, row: GroupLine, mode: ColorMode)
    ensures
        ({
            let line = group_line_spec(i, row, mode);
            let head = "  "@ + pad_left_spec(decimal_spec(i + 1), 2) + ". "@ + pad_right_spec(
                truncate_spec(row.label@, 22),
                22,
            ) + " "@ + pad_left_spec(row.credits_text@, 7) + " "@ + paint_spec(
                mode,
                row.pct_color,
                row.pct_text@,
            );
            let tail = " "@ + bar_spec(row.filled as nat, BAR_WIDTH as nat, Palette::blue_spec(), mode) + seq![
                '\n',
            ];
            line == head + tail
        }),
{
    reveal(group_line_spec);
    let line = group_line_spec(i, row, mode);
    let head = "  "@ + pad_left_spec(decimal_spec(i + 1), 2) + ". "@ + pad_right_spec(
        truncate_spec(row.label@, 22),
        22,
    ) + " "@ + pad_left_spec(row.credits_text@, 7) + " "@ + paint_spec(mode, row.pct_color, row.pct_text@);
    let tail = " "@ + bar_spec(row.filled as nat, BAR_WIDTH as nat, Palette::blue_spec(), mode) + seq!['\n'];
    assert(line =~= head + tail);
}

/// A row of the recent feed reads: its number (one more than its position)
/// right-aligned in two columns and `. `, the status glyph in its color, the
/// title cut to 38 characters and left-aligned in 38, the credits
/// right-aligned in 7, then the change column right-aligned in 6 and a
/// line break.
pub proof fn law_recent_line_columns(i: nat, row: RecentLine, mode: ColorMode)
    ensures
        recent_line_spec(i, row, mode) == "  "@ + pad_left_spec(decimal_spec(i + 1), 2) + ". "@ + paint_spec(
            mode,
            status_color_spec(row.status),
            seq![glyph_spec(row.status)],
        ) + " "@ + pad_right_spec(truncate_spec(row.title@, 38), 38) + " "@ + pad_left_spec(
            row.credits_text@,
            7,
        ) + " "@ + pad_left_spec(delta_spec(row, mode), 6) + seq!['\n'],
{
    reveal(recent_line_spec);
    assert(recent_line_spec(i, row, mode) =~= "  "@ + pad_left_spec(decimal_spec(i + 1), 2) + ". "@
        + paint_spec(mode, status_color_spec(row.status), seq![glyph_spec(row.status)]) + " "@
        + pad_right_spec(truncate_spec(row.title@, 38), 38) + " "@ + pad_left_spec(row.credits_text@, 7)
        + " "@ + pad_left_spec(delta_spec(row, mode), 6) + seq!['\n']);
}

/// `s` holds no slash.
pub open spec fn slash_free(s: Seq<char>) -> bool {
    forall|k: int| 0 <= k < s.len() ==> s[k] != '/'
}

proof fn lemma_last_slash_after(x: Seq<char>, c: Seq<char>)
    requires
        slash_free(c),
    ensures
        last_slash(x.push('/') + c) == x.len(),
        last_slash(x + c) == last_slash(x),
    decreases c.len(),
{
    if c.len() > 0 {
        let d = c.drop_last();
        lemma_last_slash_after(x, d);
        assert((x.push('/') + c).drop_last() =~= x.push('/') + d);
        assert((x + c).drop_last() =~= x + d);
        assert((x.push('/') + c).last() == c.last());
        assert((x + c).last() == c.last());
    } else {
        assert(x.push('/') + c =~= x.push('/'));
        assert(x + c =~= x);
    }
}

/// A project label keeps the last two components of the path: for a path
/// that ends in `b/c`, with `b` and `c` free of slashes and `c` not empty,
/// the label is `b/c` whatever comes before; a path without a slash is its
/// own label.
pub proof fn law_project_label_keeps_last_two(p: Seq<char>, b: Seq<char>, c: Seq<char>)
    requires
        slash_free(b),
        slash_free(c),
        c.len() > 0,
    ensures
        path_label(p.push('/') + b.push('/') + c) == b.push('/') + c,
        path_label(b.push('/') + c) == b.push('/') + c,
        path_label(c) == c,
{
    let tail = b.push('/') + c;
    assert((p.push('/') + b).push('/') + c =~= p.push('/') + tail);
    // The whole path, with the components spelled out.
    let t1 = p.push('/') + b.push('/') + c;
    assert(t1 =~= (p.push('/') + b).push('/') + c);
    assert(t1.last() == c.last());
    assert(trim_trailing_slashes(t1) == t1);
    lemma_last_slash_after(p.push('/') + b, c);
    lemma_last_slash_after(p, b);
    let i = last_slash(t1);
    assert(i == (p.push('/') + b).len());
    assert(t1.take(i) =~= p.push('/') + b);
    assert(t1.skip(i + 1) =~= c);
    assert(last_component(t1.take(i)) =~= b);
    let t2 = b.push('/') + c;
    assert(t2.last() == c.last());
    assert(trim_trailing_slashes(t2) == t2);
    lemma_last_slash_after(b, c);
    lemma_last_slash_after(Seq::<char>::empty(), b);
    assert(Seq::<char>::empty() + b =~= b);
    assert(t2.take(b.len() as int) =~= b);
    assert(t2.skip(b.len() as int + 1) =~= c);
    assert(last_slash(b) == -1);
    assert(last_component(b) =~= b);
    assert(c.last() == c[c.len() - 1]);
    assert(trim_trailing_slashes(c) == c);
    lemma_last_slash_after(Seq::<char>::empty(), c);
    assert(Seq::<char>::empty() + c =~= c);
}

/// A session is shown by its title, else by its working directory, else by
/// its id; it is grouped under the model id recorded in its state, or under
/// `(unknown)` when any level of that record is missing.
pub proof fn law_session_title_and_model_label(s: Session)
    ensures
        s.title is Some ==> crate::aggregate::title_spec(s) == s.title->0@,
        s.title is None && s.cwd is Some ==> crate::aggregate::title_spec(s) == s.cwd->0@,
        s.title is None && s.cwd is None ==> crate::aggregate::title_spec(s) == s.session_id@,
        ({
            let recorded = s.session_state is Some && s.session_state->0.rts_model_state is Some
                && s.session_state->0.rts_model_state->0.model_info is Some
                && s.session_state->0.rts_model_state->0.model_info->0.model_id is Some;
            &&& recorded ==> model_label_spec(s)
                == s.session_state->0.rts_model_state->0.model_info->0.model_id->0@
            &&& !recorded ==> model_label_spec(s) == "(unknown)"@
        }),
{
}

/// A turn's status follows its end reason: an error when it ended with
/// `Error` or `ToolUseRejected`, cancelled when it ended with `Cancelled`,
/// and completed otherwise (`UserTurnEnd`, another reason, or none).
pub proof fn law_turn_status_by_end_reason(t: UserTurnMetadata)
    ensures
        turn_status(t) == Status::Error <==> (t.end_reason is Some && (t.end_reason->0@ == "Error"@
            || t.end_reason->0@ == "ToolUseRejected"@)),
        turn_status(t) == Status::Cancelled <==> (t.end_reason is Some && t.end_reason->0@ == "Cancelled"@),
        turn_status(t) == Status::Completed <==> !(t.end_reason is Some && (t.end_reason->0@ == "Error"@
            || t.end_reason->0@ == "ToolUseRejected"@ || t.end_reason->0@ == "Cancelled"@)),
{
    reveal_strlit("UserTurnEnd");
    reveal_strlit("Cancelled");
    reveal_strlit("Error");
    reveal_strlit("ToolUseRejected");
    assert("UserTurnEnd"@.len() == 11);
    assert("Cancelled"@.len() == 9);
    assert("Error"@.len() == 5);
    assert("ToolUseRejected"@.len() == 15);
    assert("UserTurnEnd"@ != "Cancelled"@);
    assert("UserTurnEnd"@ != "Error"@);
    assert("UserTurnEnd"@ != "ToolUseRejected"@);
    assert("Cancelled"@ != "Error"@);
    assert("Cancelled"@ != "ToolUseRejected"@);
}

} // verus!
