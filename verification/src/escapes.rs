//! Plain output carries no escape codes: the proofs behind the plain-mode
//! clause of [`crate::render::render`].

use vstd::prelude::*;
use crate::aggregate::{Status, glyph_spec};
use crate::render::{
    Dashboard, HeaderView, GroupLine, DayLine, RecentLine, WIDTH, BAR_WIDTH, FILLED, EMPTY,
    range_dates_printed, banner_spec, rule_spec, section_spec, bar_spec, metric_spec,
    metric_row_spec, range_spec, tokens_spec, title_spec, credits_line_spec, latest_line_spec,
    header_spec, no_data_spec, row_number_spec, group_line_spec, group_lines, group_section_spec,
    day_line_spec, day_lines, day_section_spec, delta_spec, recent_line_spec, recent_lines,
    recent_section_spec, render_spec,
};
use crate::style::{ColorMode, Color, no_escape};
use crate::text::{
    repeat_spec, pad_left_spec, pad_right_spec, decimal_spec, digit_spec, truncate_spec,
    flatten_line_breaks,
};
use crate::timestamp::{date_text, is_date_text, is_date_char};

verus! {

/// Joining two texts free of escapes gives a text free of escapes.
pub broadcast proof fn lemma_no_escape_add(a: Seq<char>, b: Seq<char>)
    ensures
        no_escape(a) && no_escape(b) ==> #[trigger] no_escape(a + b),
{
    if no_escape(a) && no_escape(b) {
        assert forall|i: int| 0 <= i < (a + b).len() implies (a + b)[i] != '\x1b' by {
            if i >= a.len() {
                assert((a + b)[i] == b[i - a.len()]);
            }
        }
    }
}

/// Appending a character other than the escape keeps a text free of escapes.
pub broadcast proof fn lemma_no_escape_push(a: Seq<char>, c: char)
    ensures
        no_escape(a) && c != '\x1b' ==> #[trigger] no_escape(a.push(c)),
{
    if no_escape(a) && c != '\x1b' {
        assert forall|i: int| 0 <= i < a.push(c).len() implies a.push(c)[i] != '\x1b' by {
            if i < a.len() {
                assert(a.push(c)[i] == a[i]);
            }
        }
    }
}

proof fn lemma_empty()
    ensures
        no_escape(Seq::<char>::empty()),
{
}

proof fn lemma_repeat(c: char, n: nat)
    requires
        c != '\x1b',
    ensures
        no_escape(repeat_spec(c, n)),
{
}

proof fn lemma_pads(s: Seq<char>, w: nat)
    requires
        no_escape(s),
    ensures
        no_escape(pad_left_spec(s, w)),
        no_escape(pad_right_spec(s, w)),
{
    broadcast use lemma_no_escape_add;

    if s.len() < w {
        lemma_repeat(' ', (w - s.len()) as nat);
    }
}

proof fn lemma_decimal(n: nat)
    ensures
        no_escape(decimal_spec(n)),
    decreases n,
{
    broadcast use lemma_no_escape_push;

    lemma_empty();
    assert(digit_spec(n % 10) != '\x1b');
    if n >= 10 {
        lemma_decimal(n / 10);
    } else {
        assert(digit_spec(n) != '\x1b');
    }
}

proof fn lemma_truncate(s: Seq<char>, max: nat)
    requires
        no_escape(s),
    ensures
        no_escape(truncate_spec(s, max)),
{
    broadcast use lemma_no_escape_push;

    let t = flatten_line_breaks(s);
    assert forall|i: int| 0 <= i < t.len() implies t[i] != '\x1b' by {
        assert(s[i] != '\x1b');
    }
    if t.len() > max {
        let k: int = if max >= 1 { max - 1 } else { 0 };
        assert forall|i: int| 0 <= i < t.take(k).len() implies t.take(k)[i] != '\x1b' by {
            assert(t.take(k)[i] == t[i]);
        }
    }
}

proof fn lemma_date(t: Seq<char>)
    requires
        is_date_text(t),
    ensures
        no_escape(t),
{
    assert forall|i: int| 0 <= i < t.len() implies t[i] != '\x1b' by {
        assert(is_date_char(t[i]));
    }
}

proof fn lemma_header_literals()
    ensures
        no_escape("kusage  Kiro CLI usage\n"@),
        no_escape("  →  "@),
        no_escape("  "@),
        no_escape("    "@),
        no_escape(" "@),
        no_escape("Sessions"@),
        no_escape("Turns"@),
        no_escape("Requests"@),
        no_escape("Tool uses"@),
        no_escape("Credits"@),
        no_escape("Latest"@),
        no_escape(" of peak day"@),
{
    reveal_strlit("kusage  Kiro CLI usage\n");
    reveal_strlit("  →  ");
    reveal_strlit("  ");
    reveal_strlit("    ");
    reveal_strlit(" ");
    reveal_strlit("Sessions");
    reveal_strlit("Turns");
    reveal_strlit("Requests");
    reveal_strlit("Tool uses");
    reveal_strlit("Credits");
    reveal_strlit("Latest");
    reveal_strlit(" of peak day");
}

proof fn lemma_token_literals()
    ensures
        no_escape("  Tokens     n/a (not reported by Kiro)"@),
        no_escape("Tokens"@),
        no_escape(" in / "@),
        no_escape(" out"@),
        no_escape("  "@),
{
    reveal_strlit("  Tokens     n/a (not reported by Kiro)");
    reveal_strlit("Tokens");
    reveal_strlit(" in / ");
    reveal_strlit(" out");
    reveal_strlit("  ");
}

proof fn lemma_section_literals()
    ensures
        no_escape("── "@),
        no_escape(" "@),
        no_escape("  (no data)\n\n"@),
        no_escape("  "@),
        no_escape(". "@),
        no_escape(" sess"@),
        no_escape("  ·"@),
        no_escape("By Model"@),
        no_escape("By Project"@),
        no_escape("By Day"@),
        no_escape("Recent Sessions"@),
{
    reveal_strlit("── ");
    reveal_strlit(" ");
    reveal_strlit("  (no data)\n\n");
    reveal_strlit("  ");
    reveal_strlit(". ");
    reveal_strlit(" sess");
    reveal_strlit("  ·");
    reveal_strlit("By Model");
    reveal_strlit("By Project");
    reveal_strlit("By Day");
    reveal_strlit("Recent Sessions");
}

proof fn lemma_bar(filled: nat, width: nat, color: Color)
    ensures
        no_escape(bar_spec(filled, width, color, ColorMode::Plain)),
{
    broadcast use lemma_no_escape_add;

    let f: nat = if filled < width { filled } else { width };
    lemma_repeat(FILLED, f);
    lemma_repeat(EMPTY, (width - f) as nat);
}

proof fn lemma_metric(label: Seq<char>, n: nat)
    requires
        no_escape(label),
    ensures
        no_escape(metric_spec(label, n)),
{
    broadcast use lemma_no_escape_add;

    lemma_pads(label, 10);
    lemma_decimal(n);
    lemma_pads(decimal_spec(n), 8);
}

proof fn lemma_header(h: HeaderView)
    requires
        h.texts_have_no_escape(),
        range_dates_printed(h.summary),
    ensures
        no_escape(header_spec(h, ColorMode::Plain)),
{
    broadcast use lemma_no_escape_add, lemma_no_escape_push;

    let mode = ColorMode::Plain;
    let s = h.summary;
    lemma_empty();
    lemma_header_literals();
    lemma_token_literals();
    reveal(title_spec);
    reveal(range_spec);
    reveal(metric_row_spec);
    reveal(credits_line_spec);
    reveal(latest_line_spec);
    reveal(tokens_spec);
    assert(no_escape(title_spec(mode)));
    match (s.first_day, s.last_day) {
        (Some(first), Some(last)) => {
            lemma_date(date_text(first));
            lemma_date(date_text(last));
        },
        _ => {},
    }
    assert(no_escape(range_spec(s, mode)));
    lemma_metric("Sessions"@, s.sessions as nat);
    lemma_metric("Turns"@, s.turns as nat);
    lemma_metric("Requests"@, s.requests as nat);
    lemma_metric("Tool uses"@, s.tool_uses as nat);
    assert(no_escape(metric_row_spec("Sessions"@, s.sessions as nat, "Turns"@, s.turns as nat)));
    assert(no_escape(
        metric_row_spec("Requests"@, s.requests as nat, "Tool uses"@, s.tool_uses as nat),
    ));
    lemma_pads("Credits"@, 10);
    lemma_pads(h.credits_text@, 8);
    assert(no_escape(credits_line_spec(h, mode)));
    lemma_pads("Latest"@, 10);
    lemma_bar(h.latest_filled as nat, BAR_WIDTH as nat, crate::style::Palette::cyan_spec());
    assert(no_escape(latest_line_spec(h, mode)));
    lemma_pads("Tokens"@, 10);
    lemma_decimal(s.input_tokens as nat);
    lemma_decimal(s.output_tokens as nat);
    assert(no_escape(tokens_spec(s, mode)));
}

proof fn lemma_section(title: Seq<char>)
    requires
        no_escape(title),
    ensures
        no_escape(section_spec(title, ColorMode::Plain)),
{
    broadcast use lemma_no_escape_add, lemma_no_escape_push;

    lemma_empty();
    lemma_section_literals();
    let label = "── "@ + title + " "@;
    let pad: nat = if label.len() < WIDTH { (WIDTH - label.len()) as nat } else { 0 };
    lemma_repeat('─', pad);
}

proof fn lemma_row_number(i: nat)
    ensures
        no_escape(row_number_spec(i)),
{
    broadcast use lemma_no_escape_add;

    lemma_section_literals();
    lemma_decimal(i + 1);
    lemma_pads(decimal_spec(i + 1), 2);
}

proof fn lemma_group_lines(rows: Seq<GroupLine>, n: nat)
    requires
        n <= rows.len(),
        forall|a: int| 0 <= a < rows.len() ==> (#[trigger] rows[a]).texts_have_no_escape(),
    ensures
        no_escape(group_lines(rows, ColorMode::Plain, n)),
    decreases n,
{
    broadcast use lemma_no_escape_add, lemma_no_escape_push;

    lemma_empty();
    if n > 0 {
        lemma_group_lines(rows, (n - 1) as nat);
        let row = rows[n - 1];
        assert(row.texts_have_no_escape());
        reveal(group_line_spec);
        lemma_section_literals();
        lemma_row_number((n - 1) as nat);
        lemma_truncate(row.label@, 22);
        lemma_pads(truncate_spec(row.label@, 22), 22);
        lemma_pads(row.credits_text@, 7);
        lemma_bar(row.filled as nat, BAR_WIDTH as nat, crate::style::Palette::blue_spec());
        assert(no_escape(group_line_spec((n - 1) as nat, row, ColorMode::Plain)));
    }
}

proof fn lemma_group_section(title: Seq<char>, rows: Seq<GroupLine>)
    requires
        no_escape(title),
        forall|a: int| 0 <= a < rows.len() ==> (#[trigger] rows[a]).texts_have_no_escape(),
    ensures
        no_escape(group_section_spec(title, rows, ColorMode::Plain)),
{
    broadcast use lemma_no_escape_add, lemma_no_escape_push;

    lemma_empty();
    lemma_section_literals();
    lemma_section(title);
    lemma_group_lines(rows, rows.len());
}

proof fn lemma_day_lines(rows: Seq<DayLine>, n: nat)
    requires
        n <= rows.len(),
        forall|a: int| 0 <= a < rows.len() ==> (#[trigger] rows[a]).texts_have_no_escape(),
        forall|a: int| 0 <= a < rows.len() ==> is_date_text(date_text(#[trigger] rows[a].day)),
    ensures
        no_escape(day_lines(rows, ColorMode::Plain, n)),
    decreases n,
{
    broadcast use lemma_no_escape_add, lemma_no_escape_push;

    lemma_empty();
    if n > 0 {
        lemma_day_lines(rows, (n - 1) as nat);
        let row = rows[n - 1];
        assert(row.texts_have_no_escape());
        assert(is_date_text(date_text(rows[n - 1].day)));
        reveal(day_line_spec);
        lemma_section_literals();
        lemma_date(date_text(row.day));
        lemma_bar(row.filled as nat, BAR_WIDTH as nat, crate::style::Palette::green_spec());
        lemma_pads(row.credits_text@, 7);
        lemma_decimal(row.sessions as nat);
        assert(no_escape(day_line_spec(row, ColorMode::Plain)));
    }
}

proof fn lemma_day_section(rows: Seq<DayLine>)
    requires
        forall|a: int| 0 <= a < rows.len() ==> (#[trigger] rows[a]).texts_have_no_escape(),
        forall|a: int| 0 <= a < rows.len() ==> is_date_text(date_text(#[trigger] rows[a].day)),
    ensures
        no_escape(day_section_spec(rows, ColorMode::Plain)),
{
    broadcast use lemma_no_escape_add, lemma_no_escape_push;

    lemma_empty();
    lemma_section_literals();
    lemma_section("By Day"@);
    lemma_day_lines(rows, rows.len());
}

proof fn lemma_rule()
    ensures
        no_escape(rule_spec(ColorMode::Plain)),
{
    broadcast use lemma_no_escape_push;

    lemma_repeat('─', WIDTH as nat);
}

proof fn lemma_recent_lines(rows: Seq<RecentLine>, n: nat)
    requires
        n <= rows.len(),
        forall|a: int| 0 <= a < rows.len() ==> (#[trigger] rows[a]).texts_have_no_escape(),
    ensures
        no_escape(recent_lines(rows, ColorMode::Plain, n)),
    decreases n,
{
    broadcast use lemma_no_escape_add, lemma_no_escape_push;

    lemma_empty();
    if n > 0 {
        lemma_recent_lines(rows, (n - 1) as nat);
        let row = rows[n - 1];
        assert(row.texts_have_no_escape());
        reveal(recent_line_spec);
        lemma_section_literals();
        lemma_row_number((n - 1) as nat);
        assert(glyph_spec(row.status) != '\x1b') by {
            match row.status {
                Status::Completed => {},
                Status::Cancelled => {},
                Status::Error => {},
            }
        }
        lemma_truncate(row.title@, 38);
        lemma_pads(truncate_spec(row.title@, 38), 38);
        lemma_pads(row.credits_text@, 7);
        assert(no_escape(delta_spec(row, ColorMode::Plain)));
        lemma_pads(delta_spec(row, ColorMode::Plain), 6);
        assert(no_escape(recent_line_spec((n - 1) as nat, row, ColorMode::Plain)));
    }
}

proof fn lemma_recent_section(rows: Seq<RecentLine>)
    requires
        forall|a: int| 0 <= a < rows.len() ==> (#[trigger] rows[a]).texts_have_no_escape(),
    ensures
        no_escape(recent_section_spec(rows, ColorMode::Plain)),
{
    broadcast use lemma_no_escape_add;

    lemma_section_literals();
    lemma_section("Recent Sessions"@);
    lemma_recent_lines(rows, rows.len());
    lemma_rule();
}

/// In plain mode the dashboard adds no escape codes of its own.
pub(crate) proof fn lemma_plain_render(d: Dashboard)
    requires
        d.texts_have_no_escape(),
        range_dates_printed(d.header.summary),
        forall|a: int| 0 <= a < d.by_day@.len() ==> is_date_text(date_text(#[trigger] d.by_day@[a].day)),
    ensures
        no_escape(render_spec(d, ColorMode::Plain)),
{
    broadcast use lemma_no_escape_add;

    lemma_empty();
    lemma_section_literals();
    assert(banner_spec(ColorMode::Plain) == Seq::<char>::empty());
    lemma_header(d.header);
    lemma_group_section("By Model"@, d.by_model@);
    lemma_group_section("By Project"@, d.by_project@);
    lemma_day_section(d.by_day@);
    lemma_recent_section(d.recent@);
}

} // verus!
