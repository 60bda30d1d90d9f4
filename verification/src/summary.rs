//! The time window and the headline totals of a report.

use vstd::prelude::*;
use crate::aggregate::{session_time, session_time_spec};
use crate::model::{Session, UserTurnMetadata};
use crate::timestamp::{Timestamp, day_in_range};

verus! {

/// Whether a session falls in the time window: with a cutoff, its best
/// timestamp must exist and not be earlier than the cutoff.
pub open spec fn in_window(s: Session, since: Option<Timestamp>) -> bool {
    match since {
        Some(c) => match session_time_spec(s) {
            Some(t) => t.unix_nanos >= c.unix_nanos,
            None => false,
        },
        None => true,
    }
}

/// The positions, among the first `n` sessions, of those in the window.
pub open spec fn included_upto(ss: Seq<Session>, since: Option<Timestamp>, n: nat) -> Seq<usize>
    decreases n,
{
    if n == 0 {
        Seq::empty()
    } else {
        let prev = included_upto(ss, since, (n - 1) as nat);
        if in_window(ss[n - 1], since) {
            prev.push((n - 1) as usize)
        } else {
            prev
        }
    }
}

/// The positions of the sessions in the window, in input order.
pub open spec fn included_spec(ss: Seq<Session>, since: Option<Timestamp>) -> Seq<usize> {
    included_upto(ss, since, ss.len())
}

/// The sum of `f` over `s`.
pub open spec fn sum_of<T>(s: Seq<T>, f: spec_fn(T) -> nat) -> nat
    decreases s.len(),
{
    if s.len() == 0 {
        0
    } else {
        sum_of(s.drop_last(), f) + f(s.last())
    }
}

/// A counter that may be absent, read as zero when it is.
pub open spec fn or_zero(o: Option<u64>) -> nat {
    match o {
        Some(v) => v as nat,
        None => 0,
    }
}

/// The number of turns of the session at position `i`.
pub open spec fn turns_of(ss: Seq<Session>) -> spec_fn(usize) -> nat {
    |i: usize| ss[i as int].turns_spec().len()
}

/// The sum over the turns of the session at position `i` of a turn counter.
pub open spec fn turn_total(ss: Seq<Session>, f: spec_fn(UserTurnMetadata) -> nat) -> spec_fn(usize) -> nat {
    |i: usize| sum_of(ss[i as int].turns_spec(), f)
}

pub open spec fn requests_of() -> spec_fn(UserTurnMetadata) -> nat {
    |t: UserTurnMetadata| or_zero(t.total_request_count)
}

pub open spec fn tool_uses_of() -> spec_fn(UserTurnMetadata) -> nat {
    |t: UserTurnMetadata| or_zero(t.builtin_tool_uses)
}

pub open spec fn input_tokens_of() -> spec_fn(UserTurnMetadata) -> nat {
    |t: UserTurnMetadata| or_zero(t.input_token_count)
}

pub open spec fn output_tokens_of() -> spec_fn(UserTurnMetadata) -> nat {
    |t: UserTurnMetadata| or_zero(t.output_token_count)
}

/// The earliest calendar day among the timestamps of the sessions at `inc`.
pub open spec fn first_day_of(ss: Seq<Session>, inc: Seq<usize>) -> Option<i32>
    decreases inc.len(),
{
    if inc.len() == 0 {
        None
    } else {
        let prev = first_day_of(ss, inc.drop_last());
        match session_time_spec(ss[inc.last() as int]) {
            Some(t) => Some(
                match prev {
                    Some(d) => if t.julian_day < d {
                        t.julian_day
                    } else {
                        d
                    },
                    None => t.julian_day,
                },
            ),
            None => prev,
        }
    }
}

/// The latest calendar day among the timestamps of the sessions at `inc`.
pub open spec fn last_day_of(ss: Seq<Session>, inc: Seq<usize>) -> Option<i32>
    decreases inc.len(),
{
    if inc.len() == 0 {
        None
    } else {
        let prev = last_day_of(ss, inc.drop_last());
        match session_time_spec(ss[inc.last() as int]) {
            Some(t) => Some(
                match prev {
                    Some(d) => if t.julian_day > d {
                        t.julian_day
                    } else {
                        d
                    },
                    None => t.julian_day,
                },
            ),
            None => prev,
        }
    }
}

/// Top-level totals across all included sessions.
#[derive(Debug, Clone, Copy, PartialEq, Eq)]
pub struct Summary {
    pub sessions: usize,
    pub turns: usize,
    pub requests: u64,
    pub tool_uses: u64,
    pub input_tokens: u64,
    pub output_tokens: u64,
    /// Earliest and latest day observed (Julian day numbers), for the
    /// header date range.
    pub first_day: Option<i32>,
    pub last_day: Option<i32>,
}

/// The counters of the sessions at `inc` fit the integer types that hold them.
pub open spec fn totals_fit(ss: Seq<Session>, inc: Seq<usize>) -> bool {
    &&& sum_of(inc, turns_of(ss)) <= usize::MAX
    &&& sum_of(inc, turn_total(ss, requests_of())) <= u64::MAX
    &&& sum_of(inc, turn_total(ss, tool_uses_of())) <= u64::MAX
    &&& sum_of(inc, turn_total(ss, input_tokens_of())) <= u64::MAX
    &&& sum_of(inc, turn_total(ss, output_tokens_of())) <= u64::MAX
}

/// The summary of the sessions at `inc`.
pub open spec fn summary_spec(ss: Seq<Session>, inc: Seq<usize>) -> Summary {
    Summary {
        sessions: inc.len() as usize,
        turns: sum_of(inc, turns_of(ss)) as usize,
        requests: sum_of(inc, turn_total(ss, requests_of())) as u64,
        tool_uses: sum_of(inc, turn_total(ss, tool_uses_of())) as u64,
        input_tokens: sum_of(inc, turn_total(ss, input_tokens_of())) as u64,
        output_tokens: sum_of(inc, turn_total(ss, output_tokens_of())) as u64,
        first_day: first_day_of(ss, inc),
        last_day: last_day_of(ss, inc),
    }
}

pub proof fn lemma_sum_prefix<T>(s: Seq<T>, f: spec_fn(T) -> nat, k: int)
    requires
        0 <= k <= s.len(),
    ensures
        sum_of(s.take(k), f) <= sum_of(s, f),
    decreases s.len(),
{
    if k < s.len() {
        lemma_sum_prefix(s.drop_last(), f, k);
        assert(s.drop_last().take(k) =~= s.take(k));
    } else {
        assert(s.take(k) =~= s);
    }
}

pub proof fn lemma_sum_step<T>(s: Seq<T>, f: spec_fn(T) -> nat, k: int)
    requires
        0 <= k < s.len(),
    ensures
        sum_of(s.take(k + 1), f) == sum_of(s.take(k), f) + f(s[k]),
{
    assert(s.take(k + 1).drop_last() =~= s.take(k));
}

/// Positions of the sessions in the window, in input order.
pub fn included_sessions(sessions: &[Session], since: Option<Timestamp>) -> (inc: Vec<usize>)
    ensures
        inc@ == included_spec(sessions@, since),
{
    let mut inc: Vec<usize> = Vec::new();
    let mut i: usize = 0;
    while i < sessions.len()
        invariant
            i <= sessions@.len(),
            inc@ == included_upto(sessions@, since, i as nat),
        decreases sessions.len() - i,
    {
        let keep = match since {
            Some(c) => match session_time(&sessions[i]) {
                Some(t) => t.unix_nanos >= c.unix_nanos,
                None => false,
            },
            None => true,
        };
        if keep {
            inc.push(i);
        }
        i = i + 1;
    }
    inc
}

/// One turn's counters added to running totals.
struct Totals {
    requests: u64,
    tool_uses: u64,
    input_tokens: u64,
    output_tokens: u64,
}

/// Totals the sessions at `inc`.
pub fn summarize(sessions: &[Session], inc: &Vec<usize>) -> (s: Summary)
    requires
        forall|k: int| 0 <= k < inc.len() ==> inc[k] < sessions.len(),
        totals_fit(sessions@, inc@),
    ensures
        s == summary_spec(sessions@, inc@),
        s.first_day matches Some(d) ==> day_in_range(d),
        s.last_day matches Some(d) ==> day_in_range(d),
{
    let ghost ss = sessions@;
    let ghost fr = turn_total(ss, requests_of());
    let ghost ft = turn_total(ss, tool_uses_of());
    let ghost fi = turn_total(ss, input_tokens_of());
    let ghost fo = turn_total(ss, output_tokens_of());
    let mut turns: usize = 0;
    let mut tot = Totals { requests: 0, tool_uses: 0, input_tokens: 0, output_tokens: 0 };
    let mut first_day: Option<i32> = None;
    let mut last_day: Option<i32> = None;
    let mut p: usize = 0;
    while p < inc.len()
        invariant
            ss == sessions@,
            fr == turn_total(ss, requests_of()),
            ft == turn_total(ss, tool_uses_of()),
            fi == turn_total(ss, input_tokens_of()),
            fo == turn_total(ss, output_tokens_of()),
            forall|k: int| 0 <= k < inc.len() ==> inc[k] < sessions.len(),
            totals_fit(ss, inc@),
            p <= inc.len(),
            turns == sum_of(inc@.take(p as int), turns_of(ss)),
            tot.requests == sum_of(inc@.take(p as int), fr),
            tot.tool_uses == sum_of(inc@.take(p as int), ft),
            tot.input_tokens == sum_of(inc@.take(p as int), fi),
            tot.output_tokens == sum_of(inc@.take(p as int), fo),
            first_day == first_day_of(ss, inc@.take(p as int)),
            last_day == last_day_of(ss, inc@.take(p as int)),
            first_day matches Some(d) ==> day_in_range(d),
            last_day matches Some(d) ==> day_in_range(d),
        decreases inc.len() - p,
    {
        let i = inc[p];
        let session = &sessions[i];
        let ts = session.turns();
        proof {
            lemma_sum_step(inc@, turns_of(ss), p as int);
            lemma_sum_prefix(inc@, turns_of(ss), p + 1);
            lemma_sum_step(inc@, fr, p as int);
            lemma_sum_prefix(inc@, fr, p + 1);
            lemma_sum_step(inc@, ft, p as int);
            lemma_sum_prefix(inc@, ft, p + 1);
            lemma_sum_step(inc@, fi, p as int);
            lemma_sum_prefix(inc@, fi, p + 1);
            lemma_sum_step(inc@, fo, p as int);
            lemma_sum_prefix(inc@, fo, p + 1);
        }
        turns = turns + ts.len();
        let ghost base = tot;
        let mut t: usize = 0;
        while t < ts.len()
            invariant
                ts@ == ss[i as int].turns_spec(),
                fr(i) == sum_of(ts@, requests_of()),
                ft(i) == sum_of(ts@, tool_uses_of()),
                fi(i) == sum_of(ts@, input_tokens_of()),
                fo(i) == sum_of(ts@, output_tokens_of()),
                base.requests + fr(i) <= u64::MAX,
                base.tool_uses + ft(i) <= u64::MAX,
                base.input_tokens + fi(i) <= u64::MAX,
                base.output_tokens + fo(i) <= u64::MAX,
                t <= ts.len(),
                tot.requests == base.requests + sum_of(ts@.take(t as int), requests_of()),
                tot.tool_uses == base.tool_uses + sum_of(ts@.take(t as int), tool_uses_of()),
                tot.input_tokens == base.input_tokens + sum_of(ts@.take(t as int), input_tokens_of()),
                tot.output_tokens == base.output_tokens + sum_of(
                    ts@.take(t as int),
                    output_tokens_of(),
                ),
            decreases ts.len() - t,
        {
            let turn = &ts[t];
            proof {
                lemma_sum_step(ts@, requests_of(), t as int);
                lemma_sum_prefix(ts@, requests_of(), t + 1);
                lemma_sum_step(ts@, tool_uses_of(), t as int);
                lemma_sum_prefix(ts@, tool_uses_of(), t + 1);
                lemma_sum_step(ts@, input_tokens_of(), t as int);
                lemma_sum_prefix(ts@, input_tokens_of(), t + 1);
                lemma_sum_step(ts@, output_tokens_of(), t as int);
                lemma_sum_prefix(ts@, output_tokens_of(), t + 1);
            }
            tot.requests = tot.requests + match turn.total_request_count {
                Some(v) => v,
                None => 0,
            };
            tot.tool_uses = tot.tool_uses + match turn.builtin_tool_uses {
                Some(v) => v,
                None => 0,
            };
            tot.input_tokens = tot.input_tokens + match turn.input_token_count {
                Some(v) => v,
                None => 0,
            };
            tot.output_tokens = tot.output_tokens + match turn.output_token_count {
                Some(v) => v,
                None => 0,
            };
            t = t + 1;
        }
        proof {
            assert(ts@.take(ts@.len() as int) =~= ts@);
        }
        match session_time(session) {
            Some(st) => {
                let day = st.julian_day;
                first_day = Some(
                    match first_day {
                        Some(d) => if day < d {
                            day
                        } else {
                            d
                        },
                        None => day,
                    },
                );
                last_day = Some(
                    match last_day {
                        Some(d) => if day > d {
                            day
                        } else {
                            d
                        },
                        None => day,
                    },
                );
            },
            None => {},
        }
        proof {
            assert(inc@.take(p + 1).drop_last() =~= inc@.take(p as int));
        }
        p = p + 1;
    }
    proof {
        assert(inc@.take(p as int) =~= inc@);
    }
    Summary {
        sessions: inc.len(),
        turns,
        requests: tot.requests,
        tool_uses: tot.tool_uses,
        input_tokens: tot.input_tokens,
        output_tokens: tot.output_tokens,
        first_day,
        last_day,
    }
}

/// The turn counter selected by `which`: requests (0), tool uses (1),
/// input tokens (2) or output tokens (3).
pub open spec fn counter_of(which: u8) -> spec_fn(UserTurnMetadata) -> nat {
    if which == 0 {
        requests_of()
    } else if which == 1 {
        tool_uses_of()
    } else if which == 2 {
        input_tokens_of()
    } else {
        output_tokens_of()
    }
}

fn counter(t: &UserTurnMetadata, which: u8) -> (v: u64)
    ensures
        v as nat == counter_of(which)(*t),
{
    let c = if which == 0 {
        t.total_request_count
    } else if which == 1 {
        t.builtin_tool_uses
    } else if which == 2 {
        t.input_token_count
    } else {
        t.output_token_count
    };
    match c {
        Some(v) => v,
        None => 0,
    }
}

/// Whether the sum of a turn counter over the sessions at `inc` fits a `u64`.
fn counter_fits(sessions: &[Session], inc: &Vec<usize>, which: u8) -> (ok: bool)
    requires
        forall|k: int| 0 <= k < inc.len() ==> inc[k] < sessions.len(),
    ensures
        ok == (sum_of(inc@, turn_total(sessions@, counter_of(which))) <= u64::MAX),
{
    let ghost ss = sessions@;
    let ghost f = counter_of(which);
    let ghost g = turn_total(ss, f);
    let mut acc: u64 = 0;
    let mut p: usize = 0;
    while p < inc.len()
        invariant
            ss == sessions@,
            f == counter_of(which),
            g == turn_total(ss, f),
            forall|k: int| 0 <= k < inc.len() ==> inc[k] < sessions.len(),
            p <= inc.len(),
            acc == sum_of(inc@.take(p as int), g),
        decreases inc.len() - p,
    {
        let i = inc[p];
        let ts = sessions[i].turns();
        proof {
            lemma_sum_step(inc@, g, p as int);
            lemma_sum_prefix(inc@, g, p + 1);
        }
        let ghost base = acc;
        let mut t: usize = 0;
        while t < ts.len()
            invariant
                ss == sessions@,
                f == counter_of(which),
                g == turn_total(ss, f),
                i < ss.len(),
                ts@ == ss[i as int].turns_spec(),
                g(i) == sum_of(ts@, f),
                base == sum_of(inc@.take(p as int), g),
                sum_of(inc@.take(p as int), g) + g(i) <= sum_of(inc@, g),
                t <= ts.len(),
                acc == base + sum_of(ts@.take(t as int), f),
            decreases ts.len() - t,
        {
            proof {
                lemma_sum_step(ts@, f, t as int);
                lemma_sum_prefix(ts@, f, t + 1);
            }
            let v = counter(&ts[t], which);
            match acc.checked_add(v) {
                Some(next) => {
                    acc = next;
                },
                None => {
                    return false;
                },
            }
            t = t + 1;
        }
        proof {
            assert(ts@.take(ts@.len() as int) =~= ts@);
        }
        p = p + 1;
    }
    proof {
        assert(inc@.take(p as int) =~= inc@);
    }
    true
}

/// Whether the number of turns of the sessions at `inc` fits a `usize`.
fn turns_fit(sessions: &[Session], inc: &Vec<usize>) -> (ok: bool)
    requires
        forall|k: int| 0 <= k < inc.len() ==> inc[k] < sessions.len(),
    ensures
        ok == (sum_of(inc@, turns_of(sessions@)) <= usize::MAX),
{
    let ghost f = turns_of(sessions@);
    let mut acc: usize = 0;
    let mut p: usize = 0;
    while p < inc.len()
        invariant
            f == turns_of(sessions@),
            forall|k: int| 0 <= k < inc.len() ==> inc[k] < sessions.len(),
            p <= inc.len(),
            acc == sum_of(inc@.take(p as int), f),
        decreases inc.len() - p,
    {
        proof {
            lemma_sum_step(inc@, f, p as int);
            lemma_sum_prefix(inc@, f, p + 1);
        }
        match acc.checked_add(sessions[inc[p]].turns().len()) {
            Some(next) => {
                acc = next;
            },
            None => {
                return false;
            },
        }
        p = p + 1;
    }
    proof {
        assert(inc@.take(p as int) =~= inc@);
    }
    true
}

/// Whether the counters of the sessions at `inc` fit the integer types that
/// hold their totals.
pub fn check_totals_fit(sessions: &[Session], inc: &Vec<usize>) -> (ok: bool)
    requires
        forall|k: int| 0 <= k < inc.len() ==> inc[k] < sessions.len(),
    ensures
        ok == totals_fit(sessions@, inc@),
{
    turns_fit(sessions, inc) && counter_fits(sessions, inc, 0) && counter_fits(sessions, inc, 1)
        && counter_fits(sessions, inc, 2) && counter_fits(sessions, inc, 3)
}

} // verus!
