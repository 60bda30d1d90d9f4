//! Print-once dashboard renderer.
//!
//! Lays out a report as a compact, rtk-inspired dashboard: an aligned
//! summary header with a utilization bar, numbered "By X" tables with
//! color-coded percentages and right-aligned impact bars, a per-day mini-bar
//! column, and a reverse-chronological recent feed with status glyphs and
//! signed deltas. Section rules separate the blocks.
//!
//! The fractional figures of a report (credits, percentages, the fill of a
//! bar, the change between sessions) arrive already written out, in the
//! [`Dashboard`] the caller builds; everything else is laid out here.

use vstd::prelude::*;
use crate::aggregate::{Status, glyph_spec};
use crate::style::{
    ColorMode, Color, Palette, paint, dim, bold, paint_spec, dim_spec, bold_spec, no_escape,
};
use crate::escapes::lemma_plain_render;
use crate::summary::Summary;
use crate::text::{
    push_char, push_str, push_repeat, push_padded_left, push_padded_right, push_decimal, decimal,
    truncate, repeat_spec, pad_left_spec, pad_right_spec, decimal_spec, truncate_spec,
};
use crate::timestamp::{format_day, date_text, is_date_text, day_in_range};

verus! {

/// Total inner width of the dashboard content.
pub const WIDTH: usize = 72;

/// Width of the impact/utilization bars.
pub const BAR_WIDTH: usize = 16;

pub const FILLED: char = '█';

pub const EMPTY: char = '░';

/// The header block: the summary counters and the credit headline.
#[derive(Debug, Clone)]
pub struct HeaderView {
    pub summary: Summary,
    /// The total credits, written out.
    pub credits_text: String,
    /// Filled cells of the utilization bar (latest day against the peak day).
    pub latest_filled: usize,
    /// The credits of the latest day, written out.
    pub latest_text: String,
}

/// One row of a "By X" table.
#[derive(Debug, Clone)]
pub struct GroupLine {
    pub label: String,
    pub credits_text: String,
    /// The share of total credits, written out (e.g. ` 98.1%`).
    pub pct_text: String,
    pub pct_color: Color,
    /// Filled cells of the impact bar.
    pub filled: usize,
}

/// One row of the "By Day" table.
#[derive(Debug, Clone)]
pub struct DayLine {
    /// The Julian day number of the day.
    pub day: i32,
    /// Filled cells of the day's bar.
    pub filled: usize,
    pub credits_text: String,
    pub sessions: usize,
}

/// One row of the recent feed.
#[derive(Debug, Clone)]
pub struct RecentLine {
    pub status: Status,
    pub title: String,
    pub credits_text: String,
    /// The signed change against the next-older session, written out with
    /// its color; absent when there is nothing to compare with.
    pub delta: Option<(String, Color)>,
}

/// Everything the dashboard shows.
#[derive(Debug, Clone)]
pub struct Dashboard {
    pub header: HeaderView,
    pub by_model: Vec<GroupLine>,
    pub by_project: Vec<GroupLine>,
    pub by_day: Vec<DayLine>,
    pub recent: Vec<RecentLine>,
}

impl HeaderView {
    /// The texts of the header hold no escape character.
    pub open spec fn texts_have_no_escape(self) -> bool {
        no_escape(self.credits_text@) && no_escape(self.latest_text@)
    }
}

impl GroupLine {
    /// The texts of the row hold no escape character.
    pub open spec fn texts_have_no_escape(self) -> bool {
        no_escape(self.label@) && no_escape(self.credits_text@) && no_escape(self.pct_text@)
    }
}

impl DayLine {
    /// The texts of the row hold no escape character.
    pub open spec fn texts_have_no_escape(self) -> bool {
        no_escape(self.credits_text@)
    }
}

impl RecentLine {
    /// The texts of the row hold no escape character.
    pub open spec fn texts_have_no_escape(self) -> bool {
        &&& no_escape(self.title@)
        &&& no_escape(self.credits_text@)
        &&& (self.delta matches Some((t, _)) ==> no_escape(t@))
    }
}

impl Dashboard {
    /// Every text handed to the dashboard holds no escape character.
    pub open spec fn texts_have_no_escape(self) -> bool {
        &&& self.header.texts_have_no_escape()
        &&& forall|a: int| 0 <= a < self.by_model@.len() ==> (#[trigger] self.by_model@[a]).texts_have_no_escape()
        &&& forall|a: int| 0 <= a < self.by_project@.len() ==> (#[trigger] self.by_project@[a]).texts_have_no_escape()
        &&& forall|a: int| 0 <= a < self.by_day@.len() ==> (#[trigger] self.by_day@[a]).texts_have_no_escape()
        &&& forall|a: int| 0 <= a < self.recent@.len() ==> (#[trigger] self.recent@[a]).texts_have_no_escape()
    }
}

/// The dates of the header's range line, when it has one, are printed with
/// the characters of a date.
pub open spec fn range_dates_printed(s: Summary) -> bool {
    s.first_day matches Some(f) ==> (s.last_day matches Some(l) ==> is_date_text(date_text(f))
        && is_date_text(date_text(l)))
}


impl Dashboard {
    /// Every day the dashboard prints lies in the range `time` can print.
    pub open spec fn days_printable_spec(self) -> bool {
        &&& (self.header.summary.first_day matches Some(d) ==> day_in_range(d))
        &&& (self.header.summary.last_day matches Some(d) ==> day_in_range(d))
        &&& forall|a: int| 0 <= a < self.by_day@.len() ==> day_in_range(#[trigger] self.by_day@[a].day)
    }

    /// Whether every day the dashboard prints lies in the range `time` can print.
    pub fn days_printable(&self) -> (res: bool)
        ensures
            res == self.days_printable_spec(),
    {
        let ok_first = match self.header.summary.first_day {
            Some(d) => -1930999 <= d && d <= 5373484,
            None => true,
        };
        let ok_last = match self.header.summary.last_day {
            Some(d) => -1930999 <= d && d <= 5373484,
            None => true,
        };
        if !ok_first || !ok_last {
            return false;
        }
        let mut a: usize = 0;
        while a < self.by_day.len()
            invariant
                a <= self.by_day.len(),
                forall|b: int| 0 <= b < a ==> day_in_range(#[trigger] self.by_day@[b].day),
            decreases self.by_day.len() - a,
        {
            let d = self.by_day[a].day;
            if !(-1930999 <= d && d <= 5373484) {
                return false;
            }
            a = a + 1;
        }
        true
    }
}

/// The text of the wordmark, line by line.
pub open spec fn banner_line(k: int) -> Seq<char> {
    if k == 0 {
        r" _"@
    } else if k == 1 {
        r"| |___  _ ___ __ _ __ _ ___"@
    } else if k == 2 {
        r"| / / || (_-</ _` / _` / -_)"@
    } else if k == 3 {
        r"|_\_\\_,_/__/\__,_\__, \___|"@
    } else {
        r"                  |___/"@
    }
}

fn banner_line_exec(k: usize) -> (s: &'static str)
    requires
        k < 5,
    ensures
        s@ == banner_line(k as int),
{
    if k == 0 {
        r" _"
    } else if k == 1 {
        r"| |___  _ ___ __ _ __ _ ___"
    } else if k == 2 {
        r"| / / || (_-</ _` / _` / -_)"
    } else if k == 3 {
        r"|_\_\\_,_/__/\__,_\__, \___|"
    } else {
        r"                  |___/"
    }
}

/// The first `n` lines of the wordmark, painted.
pub open spec fn banner_lines(mode: ColorMode, n: nat) -> Seq<char>
    decreases n,
{
    if n == 0 {
        Seq::empty()
    } else {
        banner_lines(mode, (n - 1) as nat) + paint_spec(mode, Palette::cyan_spec(), banner_line(n - 1))
            + seq!['\n']
    }
}

/// The ASCII wordmark, suppressed in plain mode.
pub open spec fn banner_spec(mode: ColorMode) -> Seq<char> {
    if mode == ColorMode::Plain {
        Seq::empty()
    } else {
        banner_lines(mode, 5) + seq!['\n']
    }
}

/// A horizontal rule spanning the dashboard width.
pub open spec fn rule_spec(mode: ColorMode) -> Seq<char> {
    dim_spec(mode, repeat_spec('─', WIDTH as nat)) + seq!['\n']
}

/// A section title line, e.g. `── By Model ──────────`.
pub open spec fn section_spec(title: Seq<char>, mode: ColorMode) -> Seq<char> {
    let label = "── "@ + title + " "@;
    let pad: nat = if label.len() < WIDTH { (WIDTH - label.len()) as nat } else { 0 };
    dim_spec(mode, label + repeat_spec('─', pad)) + seq!['\n']
}

/// A block bar of `width` cells with `filled` of them filled.
pub open spec fn bar_spec(filled: nat, width: nat, color: Color, mode: ColorMode) -> Seq<char> {
    let f: nat = if filled < width { filled } else { width };
    paint_spec(mode, color, repeat_spec(FILLED, f) + repeat_spec(EMPTY, (width - f) as nat))
}

/// Appends the wordmark. Skipped in plain mode so piped or `--plain` output
/// stays clean and machine-friendly.
pub fn render_banner(out: &mut String, mode: ColorMode)
    ensures
        final(out)@ == old(out)@ + banner_spec(mode),
{
    if mode == ColorMode::Plain {
        assert(old(out)@ + banner_spec(mode) =~= old(out)@);
        return;
    }
    let ghost start = out@;
    let cyan = Palette::cyan();
    let mut k: usize = 0;
    while k < 5
        invariant
            k <= 5,
            cyan == Palette::cyan_spec(),
            out@ == start + banner_lines(mode, k as nat),
        decreases 5 - k,
    {
        let line = paint(mode, cyan, banner_line_exec(k));
        push_str(out, line.as_str());
        push_char(out, '\n');
        k = k + 1;
        assert(out@ =~= start + banner_lines(mode, k as nat));
    }
    push_char(out, '\n');
    assert(out@ =~= start + banner_spec(mode));
}

/// Appends a horizontal rule spanning the dashboard width.
pub fn rule(out: &mut String, mode: ColorMode)
    ensures
        final(out)@ == old(out)@ + rule_spec(mode),
{
    let mut line = String::new();
    push_repeat(&mut line, '─', WIDTH);
    let d = dim(mode, line.as_str());
    push_str(out, d.as_str());
    push_char(out, '\n');
    assert(out@ =~= old(out)@ + rule_spec(mode));
}

/// Appends a section title line, e.g. `── By Model ──────────`.
pub fn section(out: &mut String, title: &str, mode: ColorMode)
    ensures
        final(out)@ == old(out)@ + section_spec(title@, mode),
{
    let mut line = String::new();
    push_str(&mut line, "── ");
    push_str(&mut line, title);
    push_str(&mut line, " ");
    let n = line.as_str().unicode_len();
    let pad: usize = if n < WIDTH { WIDTH - n } else { 0 };
    push_repeat(&mut line, '─', pad);
    let d = dim(mode, line.as_str());
    push_str(out, d.as_str());
    push_char(out, '\n');
    assert(out@ =~= old(out)@ + section_spec(title@, mode));
}

/// Builds a block bar of `width` cells, `filled` of them filled.
pub fn bar(filled: usize, width: usize, color: Color, mode: ColorMode) -> (res: String)
    ensures
        res@ == bar_spec(filled as nat, width as nat, color, mode),
{
    let f: usize = if filled < width { filled } else { width };
    let mut cells = String::new();
    push_repeat(&mut cells, FILLED, f);
    push_repeat(&mut cells, EMPTY, width - f);
    assert(cells@ =~= repeat_spec(FILLED, f as nat) + repeat_spec(EMPTY, (width - f) as nat));
    paint(mode, color, cells.as_str())
}

/// `  Label     ` then a right-aligned counter, as `{:<10}{:>8}` lays it out.
pub open spec fn metric_spec(label: Seq<char>, n: nat) -> Seq<char> {
    pad_right_spec(label, 10) + pad_left_spec(decimal_spec(n), 8)
}

/// A row of two metrics: `  {:<10}{:>8}    {:<10}{:>8}`.
#[verifier::opaque]
pub open spec fn metric_row_spec(a: Seq<char>, x: nat, b: Seq<char>, y: nat) -> Seq<char> {
    "  "@ + metric_spec(a, x) + "    "@ + metric_spec(b, y) + seq!['\n']
}

/// The date range line of the header, when both ends are known.
#[verifier::opaque]
pub open spec fn range_spec(s: Summary, mode: ColorMode) -> Seq<char> {
    match (s.first_day, s.last_day) {
        (Some(first), Some(last)) => dim_spec(mode, date_text(first) + "  →  "@ + date_text(last))
            + seq!['\n'],
        _ => Seq::empty(),
    }
}

/// The tokens line of the header, flagged when Kiro does not report tokens.
#[verifier::opaque]
pub open spec fn tokens_spec(s: Summary, mode: ColorMode) -> Seq<char> {
    if s.input_tokens == 0 && s.output_tokens == 0 {
        dim_spec(mode, "  Tokens     n/a (not reported by Kiro)"@)
    } else {
        "  "@ + pad_right_spec("Tokens"@, 10) + decimal_spec(s.input_tokens as nat) + " in / "@
            + decimal_spec(s.output_tokens as nat) + " out"@
    }
}

/// The title line of the header.
#[verifier::opaque]
pub open spec fn title_spec(mode: ColorMode) -> Seq<char> {
    if mode == ColorMode::Plain {
        "kusage  Kiro CLI usage\n"@
    } else {
        dim_spec(mode, "Kiro CLI usage"@) + seq!['\n']
    }
}

/// The credits headline of the header.
#[verifier::opaque]
pub open spec fn credits_line_spec(h: HeaderView, mode: ColorMode) -> Seq<char> {
    bold_spec(mode, "  "@ + pad_right_spec("Credits"@, 10) + pad_left_spec(h.credits_text@, 8)) + seq![
        '\n',
    ]
}

/// The utilization line of the header: the latest day against the peak day.
#[verifier::opaque]
pub open spec fn latest_line_spec(h: HeaderView, mode: ColorMode) -> Seq<char> {
    "  "@ + pad_right_spec("Latest"@, 10) + bar_spec(
        h.latest_filled as nat,
        BAR_WIDTH as nat,
        Palette::cyan_spec(),
        mode,
    ) + " "@ + dim_spec(mode, h.latest_text@ + " of peak day"@) + seq!['\n']
}

/// The header block.
pub open spec fn header_spec(h: HeaderView, mode: ColorMode) -> Seq<char> {
    let s = h.summary;
    title_spec(mode) + range_spec(s, mode) + seq!['\n'] + metric_row_spec(
        "Sessions"@,
        s.sessions as nat,
        "Turns"@,
        s.turns as nat,
    ) + metric_row_spec("Requests"@, s.requests as nat, "Tool uses"@, s.tool_uses as nat)
        + credits_line_spec(h, mode) + latest_line_spec(h, mode) + tokens_spec(s, mode) + seq![
        '\n',
        '\n',
    ]
}

fn push_title(out: &mut String, mode: ColorMode)
    ensures
        final(out)@ == old(out)@ + title_spec(mode),
{
    // When the banner is suppressed (plain mode) fall back to a text title so
    // the output is still self-identifying.
    if mode == ColorMode::Plain {
        push_str(out, "kusage  Kiro CLI usage\n");
    } else {
        let t = dim(mode, "Kiro CLI usage");
        push_str(out, t.as_str());
        push_char(out, '\n');
    }
    reveal(title_spec);
    assert(out@ =~= old(out)@ + title_spec(mode));
}

fn push_range(out: &mut String, s: &Summary, mode: ColorMode)
    requires
        s.first_day matches Some(d) ==> day_in_range(d),
        s.last_day matches Some(d) ==> day_in_range(d),
    ensures
        final(out)@ == old(out)@ + range_spec(*s, mode),
        range_dates_printed(*s),
{
    match (s.first_day, s.last_day) {
        (Some(first), Some(last)) => {
            let mut range = format_day(first);
            push_str(&mut range, "  →  ");
            let l = format_day(last);
            push_str(&mut range, l.as_str());
            let r = dim(mode, range.as_str());
            push_str(out, r.as_str());
            push_char(out, '\n');
        },
        _ => {},
    }
    reveal(range_spec);
    assert(out@ =~= old(out)@ + range_spec(*s, mode));
}

fn push_credits_line(out: &mut String, h: &HeaderView, mode: ColorMode)
    ensures
        final(out)@ == old(out)@ + credits_line_spec(*h, mode),
{
    let mut credits = String::new();
    push_str(&mut credits, "  ");
    push_padded_right(&mut credits, "Credits", 10);
    push_padded_left(&mut credits, h.credits_text.as_str(), 8);
    let c = bold(mode, credits.as_str());
    push_str(out, c.as_str());
    push_char(out, '\n');
    reveal(credits_line_spec);
    assert(out@ =~= old(out)@ + credits_line_spec(*h, mode));
}

fn push_latest_line(out: &mut String, h: &HeaderView, mode: ColorMode)
    ensures
        final(out)@ == old(out)@ + latest_line_spec(*h, mode),
{
    push_str(out, "  ");
    push_padded_right(out, "Latest", 10);
    let b = bar(h.latest_filled, BAR_WIDTH, Palette::cyan(), mode);
    push_str(out, b.as_str());
    push_str(out, " ");
    let mut latest = String::new();
    push_str(&mut latest, h.latest_text.as_str());
    push_str(&mut latest, " of peak day");
    let l = dim(mode, latest.as_str());
    push_str(out, l.as_str());
    push_char(out, '\n');
    reveal(latest_line_spec);
    assert(out@ =~= old(out)@ + latest_line_spec(*h, mode));
}

fn push_tokens(out: &mut String, s: &Summary, mode: ColorMode)
    ensures
        final(out)@ == old(out)@ + tokens_spec(*s, mode),
{
    // Tokens line, flagged when Kiro is not populating them.
    if s.input_tokens == 0 && s.output_tokens == 0 {
        let t = dim(mode, "  Tokens     n/a (not reported by Kiro)");
        push_str(out, t.as_str());
    } else {
        push_str(out, "  ");
        push_padded_right(out, "Tokens", 10);
        push_decimal(out, s.input_tokens);
        push_str(out, " in / ");
        push_decimal(out, s.output_tokens);
        push_str(out, " out");
    }
    reveal(tokens_spec);
    assert(out@ =~= old(out)@ + tokens_spec(*s, mode));
}

fn push_metric_row(out: &mut String, a: &str, x: u64, b: &str, y: u64)
    ensures
        final(out)@ == old(out)@ + metric_row_spec(a@, x as nat, b@, y as nat),
{
    push_str(out, "  ");
    push_padded_right(out, a, 10);
    let xs = decimal(x);
    push_padded_left(out, xs.as_str(), 8);
    push_str(out, "    ");
    push_padded_right(out, b, 10);
    let ys = decimal(y);
    push_padded_left(out, ys.as_str(), 8);
    push_char(out, '\n');
    reveal(metric_row_spec);
    assert(out@ =~= old(out)@ + metric_row_spec(a@, x as nat, b@, y as nat));
}

/// Appends the header block.
pub fn render_header(out: &mut String, h: &HeaderView, mode: ColorMode)
    requires
        h.summary.first_day matches Some(d) ==> day_in_range(d),
        h.summary.last_day matches Some(d) ==> day_in_range(d),
    ensures
        final(out)@ == old(out)@ + header_spec(*h, mode),
        range_dates_printed(h.summary),
{
    let s = &h.summary;
    let ghost o0 = out@;
    push_title(out, mode);
    let ghost o1 = out@;
    push_range(out, s, mode);
    let ghost o2 = out@;
    push_char(out, '\n');
    let ghost o3 = out@;
    push_metric_row(out, "Sessions", s.sessions as u64, "Turns", s.turns as u64);
    let ghost o4 = out@;
    push_metric_row(out, "Requests", s.requests, "Tool uses", s.tool_uses);
    let ghost o5 = out@;
    push_credits_line(out, h, mode);
    let ghost o6 = out@;
    push_latest_line(out, h, mode);
    let ghost o7 = out@;
    push_tokens(out, s, mode);
    let ghost o8 = out@;
    push_char(out, '\n');
    push_char(out, '\n');
    assert(out@ =~= o0 + title_spec(mode) + range_spec(*s, mode) + seq!['\n'] + metric_row_spec(
        "Sessions"@,
        s.sessions as nat,
        "Turns"@,
        s.turns as nat,
    ) + metric_row_spec("Requests"@, s.requests as nat, "Tool uses"@, s.tool_uses as nat)
        + credits_line_spec(*h, mode) + latest_line_spec(*h, mode) + tokens_spec(*s, mode) + seq![
        '\n',
        '\n',
    ]);
}

/// The "no data" placeholder of an empty section.
pub open spec fn no_data_spec(mode: ColorMode) -> Seq<char> {
    dim_spec(mode, "  (no data)\n\n"@)
}

/// Row number `i + 1`, right-aligned in two columns, then `. `.
pub open spec fn row_number_spec(i: nat) -> Seq<char> {
    "  "@ + pad_left_spec(decimal_spec(i + 1), 2) + ". "@
}

/// Row `i` of a "By X" table: `  {:>2}. {:<22} {:>7} {} {}`.
#[verifier::opaque]
pub open spec fn group_line_spec(i: nat, row: GroupLine, mode: ColorMode) -> Seq<char> {
    row_number_spec(i) + pad_right_spec(truncate_spec(row.label@, 22), 22) + " "@ + pad_left_spec(
        row.credits_text@,
        7,
    ) + " "@ + paint_spec(mode, row.pct_color, row.pct_text@) + " "@ + bar_spec(
        row.filled as nat,
        BAR_WIDTH as nat,
        Palette::blue_spec(),
        mode,
    ) + seq!['\n']
}

/// The first `n` rows of a "By X" table.
pub open spec fn group_lines(rows: Seq<GroupLine>, mode: ColorMode, n: nat) -> Seq<char>
    decreases n,
{
    if n == 0 {
        Seq::empty()
    } else {
        group_lines(rows, mode, (n - 1) as nat) + group_line_spec((n - 1) as nat, rows[n - 1], mode)
    }
}

/// A "By X" section: its title, then its rows or a placeholder.
pub open spec fn group_section_spec(title: Seq<char>, rows: Seq<GroupLine>, mode: ColorMode) -> Seq<
    char,
> {
    section_spec(title, mode) + if rows.len() == 0 {
        no_data_spec(mode)
    } else {
        group_lines(rows, mode, rows.len()) + seq!['\n']
    }
}

/// Row of the "By Day" table: `  {}  {} {:>7}  {}`.
#[verifier::opaque]
pub open spec fn day_line_spec(row: DayLine, mode: ColorMode) -> Seq<char> {
    "  "@ + date_text(row.day) + "  "@ + bar_spec(
        row.filled as nat,
        BAR_WIDTH as nat,
        Palette::green_spec(),
        mode,
    ) + " "@ + pad_left_spec(row.credits_text@, 7) + "  "@ + dim_spec(
        mode,
        decimal_spec(row.sessions as nat) + " sess"@,
    ) + seq!['\n']
}

/// The first `n` rows of the "By Day" table.
pub open spec fn day_lines(rows: Seq<DayLine>, mode: ColorMode, n: nat) -> Seq<char>
    decreases n,
{
    if n == 0 {
        Seq::empty()
    } else {
        day_lines(rows, mode, (n - 1) as nat) + day_line_spec(rows[n - 1], mode)
    }
}

/// The "By Day" section.
pub open spec fn day_section_spec(rows: Seq<DayLine>, mode: ColorMode) -> Seq<char> {
    section_spec("By Day"@, mode) + if rows.len() == 0 {
        no_data_spec(mode)
    } else {
        day_lines(rows, mode, rows.len()) + seq!['\n']
    }
}

/// The color of a status glyph.
pub open spec fn status_color_spec(s: Status) -> Color {
    match s {
        Status::Completed => Palette::green_spec(),
        Status::Cancelled => Palette::yellow_spec(),
        Status::Error => Palette::red_spec(),
    }
}

/// The change column of a recent row.
pub open spec fn delta_spec(row: RecentLine, mode: ColorMode) -> Seq<char> {
    match row.delta {
        Some((text, color)) => paint_spec(mode, color, text@),
        None => dim_spec(mode, "  ·"@),
    }
}

/// Row `i` of the recent feed: `  {:>2}. {} {:<38} {} {:>6}`.
#[verifier::opaque]
pub open spec fn recent_line_spec(i: nat, row: RecentLine, mode: ColorMode) -> Seq<char> {
    row_number_spec(i) + paint_spec(mode, status_color_spec(row.status), seq![glyph_spec(row.status)])
        + " "@ + pad_right_spec(truncate_spec(row.title@, 38), 38) + " "@ + pad_left_spec(
        row.credits_text@,
        7,
    ) + " "@ + pad_left_spec(delta_spec(row, mode), 6) + seq!['\n']
}

/// The first `n` rows of the recent feed.
pub open spec fn recent_lines(rows: Seq<RecentLine>, mode: ColorMode, n: nat) -> Seq<char>
    decreases n,
{
    if n == 0 {
        Seq::empty()
    } else {
        recent_lines(rows, mode, (n - 1) as nat) + recent_line_spec((n - 1) as nat, rows[n - 1], mode)
    }
}

/// The recent feed section, closed by a rule when it has rows.
pub open spec fn recent_section_spec(rows: Seq<RecentLine>, mode: ColorMode) -> Seq<char> {
    section_spec("Recent Sessions"@, mode) + if rows.len() == 0 {
        no_data_spec(mode)
    } else {
        recent_lines(rows, mode, rows.len()) + rule_spec(mode)
    }
}

/// The whole dashboard.
pub open spec fn render_spec(d: Dashboard, mode: ColorMode) -> Seq<char> {
    banner_spec(mode) + header_spec(d.header, mode) + group_section_spec(
        "By Model"@,
        d.by_model@,
        mode,
    ) + group_section_spec("By Project"@, d.by_project@, mode) + day_section_spec(d.by_day@, mode)
        + recent_section_spec(d.recent@, mode)
}

fn push_no_data(out: &mut String, mode: ColorMode)
    ensures
        final(out)@ == old(out)@ + no_data_spec(mode),
{
    let t = dim(mode, "  (no data)\n\n");
    push_str(out, t.as_str());
}

fn push_row_number(out: &mut String, i: usize)
    requires
        i < usize::MAX,
    ensures
        final(out)@ == old(out)@ + row_number_spec(i as nat),
{
    push_str(out, "  ");
    let n = decimal((i + 1) as u64);
    push_padded_left(out, n.as_str(), 2);
    push_str(out, ". ");
    assert(out@ =~= old(out)@ + row_number_spec(i as nat));
}

fn push_group_line(out: &mut String, i: usize, row: &GroupLine, mode: ColorMode)
    requires
        i < usize::MAX,
    ensures
        final(out)@ == old(out)@ + group_line_spec(i as nat, *row, mode),
{
    let ghost o0 = out@;
    push_row_number(out, i);
    let label = truncate(row.label.as_str(), 22);
    push_padded_right(out, label.as_str(), 22);
    push_str(out, " ");
    push_padded_left(out, row.credits_text.as_str(), 7);
    push_str(out, " ");
    let pct = paint(mode, row.pct_color, row.pct_text.as_str());
    push_str(out, pct.as_str());
    push_str(out, " ");
    let impact = bar(row.filled, BAR_WIDTH, Palette::blue(), mode);
    push_str(out, impact.as_str());
    push_char(out, '\n');
    reveal(group_line_spec);
    assert(out@ =~= o0 + group_line_spec(i as nat, *row, mode));
}

/// Appends a "By X" section.
pub fn render_by_group(out: &mut String, title: &str, rows: &Vec<GroupLine>, mode: ColorMode)
    ensures
        final(out)@ == old(out)@ + group_section_spec(title@, rows@, mode),
{
    section(out, title, mode);
    let ghost o1 = out@;
    if rows.len() == 0 {
        push_no_data(out, mode);
        assert(out@ =~= old(out)@ + group_section_spec(title@, rows@, mode));
        return;
    }
    let mut i: usize = 0;
    while i < rows.len()
        invariant
            i <= rows.len(),
            out@ == o1 + group_lines(rows@, mode, i as nat),
        decreases rows.len() - i,
    {
        push_group_line(out, i, &rows[i], mode);
        i = i + 1;
        assert(out@ =~= o1 + group_lines(rows@, mode, i as nat));
    }
    push_char(out, '\n');
    assert(out@ =~= old(out)@ + group_section_spec(title@, rows@, mode));
}

fn push_day_line(out: &mut String, row: &DayLine, mode: ColorMode)
    requires
        day_in_range(row.day),
    ensures
        final(out)@ == old(out)@ + day_line_spec(*row, mode),
        is_date_text(date_text(row.day)),
{
    let ghost o0 = out@;
    push_str(out, "  ");
    let date = format_day(row.day);
    push_str(out, date.as_str());
    push_str(out, "  ");
    let impact = bar(row.filled, BAR_WIDTH, Palette::green(), mode);
    push_str(out, impact.as_str());
    push_str(out, " ");
    push_padded_left(out, row.credits_text.as_str(), 7);
    push_str(out, "  ");
    let mut sess = decimal(row.sessions as u64);
    push_str(&mut sess, " sess");
    let d = dim(mode, sess.as_str());
    push_str(out, d.as_str());
    push_char(out, '\n');
    reveal(day_line_spec);
    assert(out@ =~= o0 + day_line_spec(*row, mode));
}

/// Appends the "By Day" section.
pub fn render_by_day(out: &mut String, rows: &Vec<DayLine>, mode: ColorMode)
    requires
        forall|a: int| 0 <= a < rows@.len() ==> day_in_range(#[trigger] rows@[a].day),
    ensures
        final(out)@ == old(out)@ + day_section_spec(rows@, mode),
        forall|a: int| 0 <= a < rows@.len() ==> is_date_text(date_text(#[trigger] rows@[a].day)),
{
    section(out, "By Day", mode);
    let ghost o1 = out@;
    if rows.len() == 0 {
        push_no_data(out, mode);
        assert(out@ =~= old(out)@ + day_section_spec(rows@, mode));
        return;
    }
    let mut i: usize = 0;
    while i < rows.len()
        invariant
            i <= rows.len(),
            forall|a: int| 0 <= a < rows@.len() ==> day_in_range(#[trigger] rows@[a].day),
            forall|a: int| 0 <= a < i ==> is_date_text(date_text(#[trigger] rows@[a].day)),
            out@ == o1 + day_lines(rows@, mode, i as nat),
        decreases rows.len() - i,
    {
        push_day_line(out, &rows[i], mode);
        i = i + 1;
        assert(out@ =~= o1 + day_lines(rows@, mode, i as nat));
    }
    push_char(out, '\n');
    assert(out@ =~= old(out)@ + day_section_spec(rows@, mode));
}

fn status_color(s: Status) -> (c: Color)
    ensures
        c == status_color_spec(s),
{
    match s {
        Status::Completed => Palette::green(),
        Status::Cancelled => Palette::yellow(),
        Status::Error => Palette::red(),
    }
}

#[verifier::rlimit(40)]
fn push_recent_line(out: &mut String, i: usize, row: &RecentLine, mode: ColorMode)
    requires
        i < usize::MAX,
    ensures
        final(out)@ == old(out)@ + recent_line_spec(i as nat, *row, mode),
{
    let ghost o0 = out@;
    push_row_number(out, i);
    let mut g = String::new();
    push_char(&mut g, row.status.glyph());
    let glyph = paint(mode, status_color(row.status), g.as_str());
    push_str(out, glyph.as_str());
    push_str(out, " ");
    let title = truncate(row.title.as_str(), 38);
    push_padded_right(out, title.as_str(), 38);
    push_str(out, " ");
    push_padded_left(out, row.credits_text.as_str(), 7);
    push_str(out, " ");
    let delta = match &row.delta {
        Some((text, color)) => paint(mode, *color, text.as_str()),
        None => dim(mode, "  ·"),
    };
    assert(delta@ == delta_spec(*row, mode));
    push_padded_left(out, delta.as_str(), 6);
    push_char(out, '\n');
    reveal(recent_line_spec);
    assert(out@ =~= o0 + recent_line_spec(i as nat, *row, mode));
}

/// Appends the recent feed section.
pub fn render_recent(out: &mut String, rows: &Vec<RecentLine>, mode: ColorMode)
    ensures
        final(out)@ == old(out)@ + recent_section_spec(rows@, mode),
{
    section(out, "Recent Sessions", mode);
    let ghost o1 = out@;
    if rows.len() == 0 {
        push_no_data(out, mode);
        assert(out@ =~= old(out)@ + recent_section_spec(rows@, mode));
        return;
    }
    let mut i: usize = 0;
    while i < rows.len()
        invariant
            i <= rows.len(),
            out@ == o1 + recent_lines(rows@, mode, i as nat),
        decreases rows.len() - i,
    {
        push_recent_line(out, i, &rows[i], mode);
        i = i + 1;
        assert(out@ =~= o1 + recent_lines(rows@, mode, i as nat));
    }
    rule(out, mode);
    assert(out@ =~= old(out)@ + recent_section_spec(rows@, mode));
}

/// Render the full dashboard to a `String`.
///
/// In plain mode the dashboard adds no escape codes of its own: an escape
/// character in plain output can only come from a text handed in.
pub fn render(d: &Dashboard, mode: ColorMode) -> (out: String)
    requires
        d.days_printable_spec(),
    ensures
        out@ == render_spec(*d, mode),
        mode == ColorMode::Plain && d.texts_have_no_escape() ==> no_escape(out@),
{
    let mut out = String::new();
    render_banner(&mut out, mode);
    let ghost o1 = out@;
    render_header(&mut out, &d.header, mode);
    let ghost o2 = out@;
    render_by_group(&mut out, "By Model", &d.by_model, mode);
    let ghost o3 = out@;
    render_by_group(&mut out, "By Project", &d.by_project, mode);
    let ghost o4 = out@;
    render_by_day(&mut out, &d.by_day, mode);
    let ghost o5 = out@;
    render_recent(&mut out, &d.recent, mode);
    assert(out@ =~= render_spec(*d, mode));
    proof {
        if mode == ColorMode::Plain && d.texts_have_no_escape() {
            lemma_plain_render(*d);
        }
    }
    out
}

} // verus!
