//! Character-level text helpers shared by the dashboard layout: padding to a
//! column width, decimal rendering of counters, repetition and truncation.

use vstd::prelude::*;
use vstd::string::*;

verus! {

/// Appends one character to a string.
#[verifier::external_body]
pub fn push_char(s: &mut String, c: char)
    ensures
        final(s)@ == old(s)@.push(c),
{
    s.push(c);
}

/// Appends the characters of `t` to `s`.
pub fn push_str(s: &mut String, t: &str)
    ensures
        final(s)@ == old(s)@ + t@,
{
    s.append(t);
}

/// `n` copies of `c`.
pub open spec fn repeat_spec(c: char, n: nat) -> Seq<char> {
    Seq::new(n, |_i: int| c)
}

/// Appends `n` copies of `c` to `s`.
pub fn push_repeat(s: &mut String, c: char, n: usize)
    ensures
        final(s)@ == old(s)@ + repeat_spec(c, n as nat),
{
    let ghost start = s@;
    let mut i: usize = 0;
    while i < n
        invariant
            i <= n,
            s@ == start + repeat_spec(c, i as nat),
        decreases n - i,
    {
        push_char(s, c);
        i = i + 1;
        assert(s@ =~= start + repeat_spec(c, i as nat));
    }
}

/// `s` right-aligned in a field of `width` characters (as `{:>width}` does).
pub open spec fn pad_left_spec(s: Seq<char>, width: nat) -> Seq<char> {
    if s.len() >= width {
        s
    } else {
        repeat_spec(' ', (width - s.len()) as nat) + s
    }
}

/// `s` left-aligned in a field of `width` characters (as `{:<width}` does).
pub open spec fn pad_right_spec(s: Seq<char>, width: nat) -> Seq<char> {
    if s.len() >= width {
        s
    } else {
        s + repeat_spec(' ', (width - s.len()) as nat)
    }
}

/// Appends `t` right-aligned in a field of `width` characters.
pub fn push_padded_left(s: &mut String, t: &str, width: usize)
    ensures
        final(s)@ == old(s)@ + pad_left_spec(t@, width as nat),
{
    let n = t.unicode_len();
    if n < width {
        push_repeat(s, ' ', width - n);
    }
    push_str(s, t);
    assert(s@ =~= old(s)@ + pad_left_spec(t@, width as nat));
}

/// Appends `t` left-aligned in a field of `width` characters.
pub fn push_padded_right(s: &mut String, t: &str, width: usize)
    ensures
        final(s)@ == old(s)@ + pad_right_spec(t@, width as nat),
{
    let n = t.unicode_len();
    push_str(s, t);
    if n < width {
        push_repeat(s, ' ', width - n);
    }
    assert(s@ =~= old(s)@ + pad_right_spec(t@, width as nat));
}

/// The ASCII digit for `d` (with `d < 10`).
pub open spec fn digit_spec(d: nat) -> char {
    (48 + d) as char
}

/// The decimal representation of `n`, without leading zeros.
pub open spec fn decimal_spec(n: nat) -> Seq<char>
    decreases n,
{
    if n < 10 {
        seq![digit_spec(n)]
    } else {
        decimal_spec(n / 10).push(digit_spec(n % 10))
    }
}

fn digit(d: u64) -> (c: char)
    requires
        d < 10,
    ensures
        c == digit_spec(d as nat),
{
    let b: u8 = 48u8 + (d as u8);
    b as char
}

/// Appends the decimal representation of `n` to `s`.
pub fn push_decimal(s: &mut String, n: u64)
    ensures
        final(s)@ == old(s)@ + decimal_spec(n as nat),
    decreases n,
{
    if n >= 10 {
        push_decimal(s, n / 10);
    }
    push_char(s, digit(n % 10));
    assert(s@ =~= old(s)@ + decimal_spec(n as nat));
}

/// The decimal representation of `n` as a string.
pub fn decimal(n: u64) -> (res: String)
    ensures
        res@ == decimal_spec(n as nat),
{
    let mut s = String::new();
    push_decimal(&mut s, n);
    assert(s@ =~= decimal_spec(n as nat));
    s
}

/// `s` with every line feed and carriage return replaced by a space.
pub open spec fn flatten_line_breaks(s: Seq<char>) -> Seq<char> {
    s.map_values(|c: char| if c == '\n' || c == '\r' { ' ' } else { c })
}

/// `s` on one line, cut to at most `max` characters: when it is longer, its
/// first `max - 1` characters followed by an ellipsis, or nothing at all when
/// there is no room (`max == 0`).
pub open spec fn truncate_spec(s: Seq<char>, max: nat) -> Seq<char> {
    let t = flatten_line_breaks(s);
    if t.len() <= max {
        t
    } else if max == 0 {
        Seq::empty()
    } else {
        t.take(max - 1).push('…')
    }
}

/// Truncates a string to `max` display characters, adding an ellipsis when
/// it is cut; line breaks become spaces.
pub fn truncate(s: &str, max: usize) -> (res: String)
    ensures
        res@ == truncate_spec(s@, max as nat),
{
    let n = s.unicode_len();
    let keep: usize = if n <= max {
        n
    } else if max >= 1 {
        max - 1
    } else {
        0
    };
    let mut out = String::new();
    let mut i: usize = 0;
    while i < keep
        invariant
            i <= keep <= n,
            n == s@.len(),
            out@ == flatten_line_breaks(s@).take(i as int),
        decreases keep - i,
    {
        let c = s.get_char(i);
        let d = if c == '\n' || c == '\r' { ' ' } else { c };
        push_char(&mut out, d);
        i = i + 1;
        assert(out@ =~= flatten_line_breaks(s@).take(i as int));
    }
    if n > max {
        if max >= 1 {
            push_char(&mut out, '…');
        } else {
            assert(out@ =~= Seq::<char>::empty());
        }
    } else {
        assert(flatten_line_breaks(s@).take(n as int) =~= flatten_line_breaks(s@));
    }
    out
}

/// Whether two strings hold the same characters.
pub fn str_eq(a: &str, b: &str) -> (res: bool)
    ensures
        res == (a@ == b@),
{
    let n = a.unicode_len();
    let m = b.unicode_len();
    if n != m {
        return false;
    }
    let mut i: usize = 0;
    while i < n
        invariant
            i <= n,
            n == a@.len(),
            m == b@.len(),
            n == m,
            a@.take(i as int) == b@.take(i as int),
        decreases n - i,
    {
        if a.get_char(i) != b.get_char(i) {
            assert(a@[i as int] != b@[i as int]);
            return false;
        }
        assert(a@.take(i + 1) =~= a@.take(i as int).push(a@[i as int]));
        assert(b@.take(i + 1) =~= b@.take(i as int).push(b@[i as int]));
        i = i + 1;
    }
    assert(a@ =~= a@.take(n as int));
    assert(b@ =~= b@.take(n as int));
    true
}

} // verus!
