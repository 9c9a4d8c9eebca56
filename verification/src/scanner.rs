//! The fuse grammar and the scanning of text for fuses.
//!
//! A fuse is `TAG[YYYY-MM-DD]: message` or `TAG[YYYY-MM-DD][owner]: message`
//! anywhere on a line, the tag one of the configured triggers compared
//! ignoring ASCII case. Where several could start on a line, the leftmost
//! start wins, and at one start the first trigger in configuration order;
//! the message runs to the end of the line, so a line holds at most one fuse.

use crate::annotation::{status_for, Fuse, Status};
use crate::config::{excluded_by, extension_allowed_by, Config, ExcludeSet};
use crate::date::{parsed_ymd, Date};
use crate::order::{is_permutation, key_lt, stable_order, SortKey};
use crate::text::{
    lemma_same_case_not, chars_of, decimal_digit, decimal_digit_char, fold_matches,
    fold_matches_at, fold_eq, is_ascii_char, lemma_fold_not, std_to_uppercase, uppercased, eq_ignore_ascii_case,
    eq_ignore_ascii_case_at, is_digit, line_bounds, lines, string_of_range, trim, trim_bounds,
    views,
};
use crate::git::lists_path;
use crate::path::{paths_equal, same_path};
use vstd::prelude::*;

verus! {

// ───────────────────────── the grammar ─────────────────────────

/// `[` four digits `-` two digits `-` two digits `]` starts at `q`, the
/// digits those of `\d` (Unicode decimal digits).
pub open spec fn date_bracket_at(l: Seq<char>, q: int) -> bool {
    &&& 0 <= q && q + 12 <= l.len()
    &&& l[q] == '['
    &&& decimal_digit(l[q + 1]) && decimal_digit(l[q + 2]) && decimal_digit(l[q + 3])
        && decimal_digit(l[q + 4])
    &&& l[q + 5] == '-'
    &&& decimal_digit(l[q + 6]) && decimal_digit(l[q + 7])
    &&& l[q + 8] == '-'
    &&& decimal_digit(l[q + 9]) && decimal_digit(l[q + 10])
    &&& l[q + 11] == ']'
}

/// Index of the first `c` at or after `a` (or `l.len()`).
pub open spec fn first_from(l: Seq<char>, a: int, c: char) -> int
    decreases l.len() - a,
{
    if a < 0 || a >= l.len() {
        l.len() as int
    } else if l[a] == c {
        a
    } else {
        first_from(l, a + 1, c)
    }
}

/// What follows a tag ending at `q`: the date bracket, an optional
/// `[owner]`, a colon and at least one character. Gives the owner's bounds
/// and where the message starts.
pub open spec fn tail_at(l: Seq<char>, q: int) -> Option<(Option<(int, int)>, int)> {
    if !date_bracket_at(l, q) {
        None
    } else {
        let r = q + 12;
        if r < l.len() && l[r] == ':' {
            if r + 1 < l.len() {
                Some((None, r + 1))
            } else {
                None
            }
        } else if r < l.len() && l[r] == '[' {
            let e = first_from(l, r + 1, ']');
            if e > r + 1 && e + 2 < l.len() && l[e + 1] == ':' {
                Some((Some((r + 1, e)), e + 2))
            } else {
                None
            }
        } else {
            None
        }
    }
}

/// Trigger `t` occurs at `p` as a literal word, ignoring case as the fuse
/// pattern's `(?i)` does: no character of a trigger has a pattern meaning.
pub open spec fn tag_at(l: Seq<char>, p: int, t: Seq<char>) -> bool {
    0 <= p && p + t.len() <= l.len() && fold_matches(l.subrange(p, p + t.len()), t)
}

/// The first trigger from index `i` on that starts a whole fuse at `p`:
/// its index, the owner's bounds and where the message starts.
pub open spec fn trigger_from(l: Seq<char>, p: int, ts: Seq<Seq<char>>, i: int) -> Option<
    (int, Option<(int, int)>, int),
>
    decreases ts.len() - i,
{
    if i < 0 || i >= ts.len() {
        None
    } else if tag_at(l, p, ts[i]) && tail_at(l, p + ts[i].len()) is Some {
        let t = tail_at(l, p + ts[i].len())->0;
        Some((i, t.0, t.1))
    } else {
        trigger_from(l, p, ts, i + 1)
    }
}

/// The leftmost fuse at or after `p`: its start, trigger index, owner bounds
/// and message start.
pub open spec fn match_from(l: Seq<char>, ts: Seq<Seq<char>>, p: int) -> Option<
    (int, int, Option<(int, int)>, int),
>
    decreases l.len() + 1 - p,
{
    if p < 0 || p > l.len() {
        None
    } else {
        match trigger_from(l, p, ts, 0) {
            Some(m) => Some((p, m.0, m.1, m.2)),
            None => match_from(l, ts, p + 1),
        }
    }
}

/// The fuse on line `l`, if any.
pub open spec fn line_match(l: Seq<char>, ts: Seq<Seq<char>>) -> Option<
    (int, int, Option<(int, int)>, int),
> {
    match_from(l, ts, 0)
}

/// The date text of a match.
pub open spec fn match_date_text(
    l: Seq<char>,
    ts: Seq<Seq<char>>,
    m: (int, int, Option<(int, int)>, int),
) -> Seq<char> {
    let q = m.0 + ts[m.1].len();
    l.subrange(q + 1, q + 11)
}

/// The line holds a fuse whose date chrono accepts.
pub open spec fn line_has_fuse(l: Seq<char>, ts: Seq<Seq<char>>) -> bool {
    line_match(l, ts) matches Some(m) && parsed_ymd(match_date_text(l, ts, m)) is Some
}

/// The line holds the fuse grammar but chrono rejects its date.
pub open spec fn line_has_bad_date(l: Seq<char>, ts: Seq<Seq<char>>) -> bool {
    line_match(l, ts) matches Some(m) && parsed_ymd(match_date_text(l, ts, m)) is None
}

/// Indices of the lines that hold a fuse with a valid date, in order.
pub open spec fn fuse_lines(ls: Seq<Seq<char>>, ts: Seq<Seq<char>>) -> Seq<int>
    decreases ls.len(),
{
    if ls.len() == 0 {
        Seq::empty()
    } else {
        fuse_lines(ls.drop_last(), ts) + if line_has_fuse(ls.last(), ts) {
            seq![ls.len() - 1]
        } else {
            Seq::empty()
        }
    }
}

/// Indices of the lines that hold the grammar with an invalid date, in order.
pub open spec fn bad_date_lines(ls: Seq<Seq<char>>, ts: Seq<Seq<char>>) -> Seq<int>
    decreases ls.len(),
{
    if ls.len() == 0 {
        Seq::empty()
    } else {
        bad_date_lines(ls.drop_last(), ts) + if line_has_bad_date(ls.last(), ts) {
            seq![ls.len() - 1]
        } else {
            Seq::empty()
        }
    }
}

/// `f` is the fuse that line `l` (number `n`, 1-based) of `file` holds,
/// classified from `today` with a window of `fuse_days`.
pub open spec fn fuse_of_line(
    f: Fuse,
    l: Seq<char>,
    n: int,
    ts: Seq<Seq<char>>,
    file: Seq<char>,
    today: int,
    fuse_days: int,
) -> bool {
    line_match(l, ts) matches Some(m) && {
        let d = parsed_ymd(match_date_text(l, ts, m));
        &&& d matches Some(day) && f.date@ == day
        &&& f.file@ == file
        &&& f.line == n
        &&& f.tag@ == uppercased(l.subrange(m.0, m.0 + ts[m.1].len()))
        &&& match m.2 {
            Some(b) => f.owner matches Some(o) && o@ == trim(l.subrange(b.0, b.1)),
            None => f.owner is None,
        }
        &&& f.message@ == trim(l.subrange(m.3, l.len() as int))
        &&& f.status == status_for(f.date@, today, fuse_days)
        &&& f.blamed_owner is None
    }
}

// ───────────────────────── facts of the grammar ─────────────────────────

/// `first_from` stops at the first `c` from `a` on.
pub proof fn lemma_first_from_at(l: Seq<char>, a: int, e: int, c: char)
    requires
        0 <= a <= e < l.len(),
        l[e] == c,
        forall|i: int| a <= i < e ==> l[i] != c,
    ensures
        first_from(l, a, c) == e,
    decreases e - a,
{
    if a < e {
        lemma_first_from_at(l, a + 1, e, c);
    }
}

/// When trigger `j` starts a whole fuse at `p`, `trigger_from` from `i <= j`
/// finds one, no later than `j`, that does too.
pub proof fn lemma_trigger_from_found(l: Seq<char>, p: int, ts: Seq<Seq<char>>, i: int, j: int)
    requires
        0 <= i <= j < ts.len(),
        tag_at(l, p, ts[j]),
        tail_at(l, p + ts[j].len()) is Some,
    ensures
        trigger_from(l, p, ts, i) matches Some(r) && i <= r.0 <= j && tag_at(l, p, ts[r.0])
            && tail_at(l, p + ts[r.0].len()) == Some((r.1, r.2)),
    decreases j - i,
{
    if !(tag_at(l, p, ts[i]) && tail_at(l, p + ts[i].len()) is Some) {
        lemma_trigger_from_found(l, p, ts, i + 1, j);
    }
}

/// No trigger from `i` on occurring at `p`, `trigger_from` finds nothing.
pub proof fn lemma_trigger_from_none(l: Seq<char>, p: int, ts: Seq<Seq<char>>, i: int)
    requires
        0 <= i,
        forall|j: int| i <= j < ts.len() ==> !tag_at(l, p, #[trigger] ts[j]),
    ensures
        trigger_from(l, p, ts, i) is None,
    decreases ts.len() - i,
{
    if i < ts.len() {
        lemma_trigger_from_none(l, p, ts, i + 1);
    }
}

/// Where no trigger occurs from `a` to before `p`, the search from `a`
/// gives what the search from `p` gives.
pub proof fn lemma_match_from_skips(l: Seq<char>, ts: Seq<Seq<char>>, a: int, p: int)
    requires
        0 <= a <= p <= l.len(),
        forall|x: int, j: int| a <= x < p && 0 <= j < ts.len() ==> !#[trigger] tag_at(l, x, ts[j]),
    ensures
        match_from(l, ts, a) == match_from(l, ts, p),
    decreases p - a,
{
    if a < p {
        assert forall|j: int| 0 <= j < ts.len() implies !tag_at(l, a, #[trigger] ts[j]) by {}
        lemma_trigger_from_none(l, a, ts, 0);
        lemma_match_from_skips(l, ts, a + 1, p);
    }
}

/// A line that holds a fuse is among the fuse lines.
pub proof fn lemma_fuse_lines_has(ls: Seq<Seq<char>>, ts: Seq<Seq<char>>, i: int)
    requires
        0 <= i < ls.len(),
        line_has_fuse(ls[i], ts),
    ensures
        fuse_lines(ls, ts).contains(i),
    decreases ls.len(),
{
    let f = fuse_lines(ls, ts);
    if i == ls.len() - 1 {
        assert(f[f.len() - 1] == i);
    } else {
        let g = fuse_lines(ls.drop_last(), ts);
        assert(ls.drop_last()[i] == ls[i]);
        lemma_fuse_lines_has(ls.drop_last(), ts, i);
        let k = choose|k: int| 0 <= k < g.len() && g[k] == i;
        assert(f[k] == g[k]);
    }
}

/// The scanner reads at most one fuse per line, and reports them in line
/// order: the fuse lines of a text are distinct line indices, increasing.
pub proof fn law_one_fuse_per_line(ls: Seq<Seq<char>>, ts: Seq<Seq<char>>)
    ensures
        forall|i: int| 0 <= i < fuse_lines(ls, ts).len() ==> 0 <= #[trigger] fuse_lines(ls, ts)[i] < ls.len(),
        forall|i: int, j: int|
            0 <= i < j < fuse_lines(ls, ts).len() ==> #[trigger] fuse_lines(ls, ts)[i] < #[trigger] fuse_lines(
                ls,
                ts,
            )[j],
    decreases ls.len(),
{
    if ls.len() > 0 {
        law_one_fuse_per_line(ls.drop_last(), ts);
        let f = fuse_lines(ls.drop_last(), ts);
        let g = fuse_lines(ls, ts);
        assert forall|i: int| 0 <= i < g.len() implies 0 <= #[trigger] g[i] < ls.len() by {
            if i < f.len() {
                assert(g[i] == f[i]);
            }
        }
        assert forall|i: int, j: int| 0 <= i < j < g.len() implies #[trigger] g[i] < #[trigger] g[j] by {
            assert(g[i] == f[i]);
            if j < f.len() {
                assert(g[j] == f[j]);
            }
        }
    }
}

/// Every trigger is ASCII text without a `[`.
pub open spec fn bracket_free(ts: Seq<Seq<char>>) -> bool {
    forall|j: int, i: int|
        0 <= j < ts.len() && 0 <= i < ts[j].len() ==> #[trigger] ts[j][i] != '[' && is_ascii_char(
            ts[j][i],
        )
}

/// What the search from `p` finds is a whole fuse: a trigger at its start,
/// followed by the date bracket, the owner and the message start found.
pub proof fn lemma_match_from_result(l: Seq<char>, ts: Seq<Seq<char>>, p: int)
    requires
        match_from(l, ts, p) is Some,
    ensures
        match_from(l, ts, p) matches Some(m) && p <= m.0 && 0 <= m.1 < ts.len() && tag_at(
            l,
            m.0,
            ts[m.1],
        ) && tail_at(l, m.0 + ts[m.1].len()) == Some((m.2, m.3)),
    decreases l.len() + 1 - p,
{
    if trigger_from(l, p, ts, 0) is Some {
        lemma_trigger_from_result(l, p, ts, 0);
    } else {
        lemma_match_from_result(l, ts, p + 1);
    }
}

proof fn lemma_trigger_from_result(l: Seq<char>, p: int, ts: Seq<Seq<char>>, i: int)
    requires
        trigger_from(l, p, ts, i) is Some,
    ensures
        trigger_from(l, p, ts, i) matches Some(r) && 0 <= r.0 < ts.len() && tag_at(l, p, ts[r.0])
            && tail_at(l, p + ts[r.0].len()) == Some((r.1, r.2)),
    decreases ts.len() - i,
{
    if !(tag_at(l, p, ts[i]) && tail_at(l, p + ts[i].len()) is Some) {
        lemma_trigger_from_result(l, p, ts, i + 1);
    }
}

/// `l2` is `l` with the digits of the date bracket at `q` changed, at least
/// up to `k`, the start of the message of the fuse whose date that is.
pub open spec fn same_but_date(l: Seq<char>, l2: Seq<char>, q: int, k: int) -> bool {
    &&& 0 <= q
    &&& k < l.len()
    &&& k < l2.len()
    &&& date_bracket_at(l, q)
    &&& date_bracket_at(l2, q)
    &&& tail_at(l, q) matches Some(t) && t.1 == k
    &&& forall|i: int| 0 <= i < k && !(q < i < q + 11) ==> #[trigger] l2[i] == l[i]
}

proof fn lemma_first_from_bounds(l: Seq<char>, a: int, c: char)
    requires
        0 <= a,
    ensures
        a <= first_from(l, a, c) <= l.len() || (a > l.len() && first_from(l, a, c) == l.len()),
        first_from(l, a, c) < l.len() ==> l[first_from(l, a, c)] == c,
    decreases l.len() - a,
{
    if a < l.len() && l[a] != c {
        lemma_first_from_bounds(l, a + 1, c);
    }
}

proof fn lemma_first_from_agree(l: Seq<char>, l2: Seq<char>, a: int, e: int, c: char)
    requires
        0 <= a <= e < l.len(),
        e < l2.len(),
        l[e] == c,
        l2[e] == c,
        forall|i: int| a <= i < e ==> (l[i] == c) == (l2[i] == c),
    ensures
        first_from(l2, a, c) == first_from(l, a, c),
        first_from(l, a, c) <= e,
    decreases e - a,
{
    if a < e {
        lemma_first_from_agree(l, l2, a + 1, e, c);
    }
}

proof fn lemma_tail_agree(l: Seq<char>, l2: Seq<char>, q: int, k: int, x: int)
    requires
        same_but_date(l, l2, q, k),
        0 <= x <= q,
    ensures
        tail_at(l2, x) == tail_at(l, x),
{
    reveal(decimal_digit);
    let t = tail_at(l, q)->0;
    assert(q + 13 <= k);
    assert forall|i: int| q < i < q + 11 implies l[i] != ']' && l2[i] != ']' && l[i] != ':'
        && l2[i] != ':' && l[i] != '[' && l2[i] != '[' by {
        assert(date_bracket_at(l, q) && date_bracket_at(l2, q));
    }
    if x < q {
        if x + 11 < q {
            assert(l2[x] == l[x] && l2[x + 5] == l[x + 5] && l2[x + 8] == l[x + 8]);
            assert(l2[x + 1] == l[x + 1] && l2[x + 2] == l[x + 2] && l2[x + 3] == l[x + 3]);
            assert(l2[x + 4] == l[x + 4] && l2[x + 6] == l[x + 6] && l2[x + 7] == l[x + 7]);
            assert(l2[x + 9] == l[x + 9] && l2[x + 10] == l[x + 10] && l2[x + 11] == l[x + 11]);
            assert(date_bracket_at(l2, x) == date_bracket_at(l, x));
        } else {
            assert(l[q] == '[' && l2[q] == '[');
            assert(!date_bracket_at(l, x) && !date_bracket_at(l2, x));
        }
    }
    if date_bracket_at(l, x) {
        let r = x + 12;
        assert(r <= q + 12);
        assert(l2[r] == l[r]);
        if l[r] == '[' {
            let e = first_from(l, r + 1, ']');
            lemma_first_from_bounds(l, r + 1, ']');
            if x == q {
                if t.0 is Some {
                    assert(e == k - 2);
                    assert(l[k - 2] == ']');
                    assert(l2[k - 2] == l[k - 2]);
                    assert forall|i: int| r + 1 <= i < k - 2 implies (l[i] == ']') == (l2[i] == ']')
                        by {
                        assert(l2[i] == l[i]);
                    }
                    lemma_first_from_agree(l, l2, r + 1, k - 2, ']');
                    assert(l2[e + 1] == l[e + 1]);
                } else {
                    assert(false);
                }
            } else {
                assert(l[q + 11] == ']' && l2[q + 11] == ']');
                assert forall|i: int| r + 1 <= i < q + 11 implies (l[i] == ']') == (l2[i] == ']')
                    by {
                    if !(q < i < q + 11) {
                        assert(l2[i] == l[i]);
                    }
                }
                lemma_first_from_agree(l, l2, r + 1, q + 11, ']');
                if !(q < e + 1 < q + 11) {
                    assert(l2[e + 1] == l[e + 1]);
                }
            }
        }
    }
}

proof fn lemma_tag_agree(l: Seq<char>, l2: Seq<char>, q: int, k: int, p: int, t: Seq<char>)
    requires
        same_but_date(l, l2, q, k),
        0 <= p <= q,
        forall|i: int| 0 <= i < t.len() ==> t[i] != '[' && is_ascii_char(t[i]),
    ensures
        tag_at(l2, p, t) == tag_at(l, p, t),
        tag_at(l, p, t) ==> p + t.len() <= q,
{
    reveal(fold_matches);
    assert(l[q] == '[' && l2[q] == '[');
    if p + t.len() <= q {
        assert forall|i: int| 0 <= i < t.len() implies #[trigger] l2.subrange(p, p + t.len())[i]
            == l.subrange(p, p + t.len())[i] by {
            assert(l2[p + i] == l[p + i]);
        }
        assert(l2.subrange(p, p + t.len()) =~= l.subrange(p, p + t.len()));
    } else {
        let i = q - p;
        if tag_at(l, p, t) {
            assert(l.subrange(p, p + t.len())[i] == l[q]);
            lemma_fold_not(t[i], l[q], '[');
        }
        if tag_at(l2, p, t) {
            assert(l2.subrange(p, p + t.len())[i] == l2[q]);
            lemma_fold_not(t[i], l2[q], '[');
        }
    }
}

proof fn lemma_trigger_from_agree(
    l: Seq<char>,
    l2: Seq<char>,
    q: int,
    k: int,
    p: int,
    ts: Seq<Seq<char>>,
    i: int,
)
    requires
        same_but_date(l, l2, q, k),
        0 <= p <= q,
        bracket_free(ts),
        0 <= i,
    ensures
        trigger_from(l2, p, ts, i) == trigger_from(l, p, ts, i),
    decreases ts.len() - i,
{
    if i < ts.len() {
        let t = ts[i];
        assert forall|c: int| 0 <= c < t.len() implies t[c] != '[' && is_ascii_char(t[c]) by {
            assert(ts[i][c] != '[' && is_ascii_char(ts[i][c]));
        }
        lemma_tag_agree(l, l2, q, k, p, t);
        if tag_at(l, p, t) {
            lemma_tail_agree(l, l2, q, k, p + t.len());
        }
        lemma_trigger_from_agree(l, l2, q, k, p, ts, i + 1);
    }
}

/// Changing the date digits of a fuse's own bracket, with the text up to its
/// message kept, leaves the scanner's match where it was.
pub proof fn lemma_match_same_but_date(l: Seq<char>, l2: Seq<char>, q: int, k: int, ts: Seq<Seq<char>>, p: int)
    requires
        same_but_date(l, l2, q, k),
        bracket_free(ts),
        0 <= p,
        match_from(l, ts, p) matches Some(m) && m.0 <= q,
    ensures
        match_from(l2, ts, p) == match_from(l, ts, p),
    decreases q - p,
{
    lemma_match_from_result(l, ts, p);
    lemma_trigger_from_agree(l, l2, q, k, p, ts, 0);
    if trigger_from(l, p, ts, 0) is None {
        lemma_match_from_result(l, ts, p + 1);
        lemma_match_same_but_date(l, l2, q, k, ts, p + 1);
    }
}

// ───────────────────────── matching ─────────────────────────

/// Whether a date bracket starts at `q` of `l`.
pub(crate) fn date_bracket_at_exec(l: &Vec<char>, q: usize) -> (r: bool)
    ensures
        r == date_bracket_at(l@, q as int),
{
    if q > l.len() || l.len() - q < 12 {
        return false;
    }
    l[q] == '[' && l[q + 5] == '-' && l[q + 8] == '-' && l[q + 11] == ']' && decimal_digit_char(
        l[q + 1],
    ) && decimal_digit_char(l[q + 2]) && decimal_digit_char(l[q + 3]) && decimal_digit_char(
        l[q + 4],
    ) && decimal_digit_char(l[q + 6]) && decimal_digit_char(l[q + 7]) && decimal_digit_char(
        l[q + 9],
    ) && decimal_digit_char(l[q + 10])
}

fn first_from_exec(l: &Vec<char>, a: usize, c: char) -> (r: usize)
    requires
        a <= l.len(),
    ensures
        r as int == first_from(l@, a as int, c),
        a <= r <= l.len(),
{
    let mut i = a;
    while i < l.len() && l[i] != c
        invariant
            a <= i <= l.len(),
            first_from(l@, a as int, c) == first_from(l@, i as int, c),
        decreases l.len() - i,
    {
        i = i + 1;
    }
    i
}

fn tail_at_exec(l: &Vec<char>, q: usize) -> (r: Option<(Option<(usize, usize)>, usize)>)
    ensures
        match (r, tail_at(l@, q as int)) {
            (None, None) => true,
            (Some(x), Some(y)) => x.1 as int == y.1 && match (x.0, y.0) {
                (None, None) => true,
                (Some(a), Some(b)) => a.0 as int == b.0 && a.1 as int == b.1,
                _ => false,
            },
            _ => false,
        },
        r matches Some(x) ==> x.1 < l.len() && (x.0 matches Some(b) ==> b.0 <= b.1 <= l.len())
            && q + 12 <= l.len(),
{
    if !date_bracket_at_exec(l, q) {
        return None;
    }
    assert(q + 12 <= l.len());
    let r = q + 12;
    if r < l.len() && l[r] == ':' {
        if r + 1 < l.len() {
            Some((None, r + 1))
        } else {
            None
        }
    } else if r < l.len() && l[r] == '[' {
        let e = first_from_exec(l, r + 1, ']');
        if e > r + 1 && e < l.len() && l.len() - e > 2 && l[e + 1] == ':' {
            Some((Some((r + 1, e)), e + 2))
        } else {
            None
        }
    } else {
        None
    }
}

fn trigger_from_exec(l: &Vec<char>, p: usize, ts: &Vec<Vec<char>>) -> (r: Option<
    (usize, Option<(usize, usize)>, usize),
>)
    requires
        p <= l.len(),
    ensures
        match (r, trigger_from(l@, p as int, ts@.map_values(|t: Vec<char>| t@), 0)) {
            (None, None) => true,
            (Some(x), Some(y)) => x.0 as int == y.0 && x.2 as int == y.2 && match (x.1, y.1) {
                (None, None) => true,
                (Some(a), Some(b)) => a.0 as int == b.0 && a.1 as int == b.1,
                _ => false,
            },
            _ => false,
        },
        r matches Some(x) ==> x.0 < ts.len() && x.2 < l.len() && (x.1 matches Some(b) ==> b.0
            <= b.1 <= l.len()) && p + ts@[x.0 as int].len() + 12 <= l.len(),
{
    let ghost tv = ts@.map_values(|t: Vec<char>| t@);
    let mut i: usize = 0;
    while i < ts.len()
        invariant
            i <= ts.len(),
            p <= l.len(),
            tv == ts@.map_values(|t: Vec<char>| t@),
            trigger_from(l@, p as int, tv, 0) == trigger_from(l@, p as int, tv, i as int),
        decreases ts.len() - i,
    {
        let t = &ts[i];
        assert(tv[i as int] == t@);
        if t.len() <= l.len() - p {
            let tail = tail_at_exec(l, p + t.len());
            match tail {
                Some(x) => {
                    if fold_matches_at(l, p, t) {
                        return Some((i, x.0, x.1));
                    }
                },
                None => {},
            }
        }
        i = i + 1;
    }
    None
}

/// The leftmost fuse on a line: start, trigger index, owner bounds and
/// message start.
fn line_match_exec(l: &Vec<char>, ts: &Vec<Vec<char>>) -> (r: Option<
    (usize, usize, Option<(usize, usize)>, usize),
>)
    ensures
        match (r, line_match(l@, ts@.map_values(|t: Vec<char>| t@))) {
            (None, None) => true,
            (Some(x), Some(y)) => x.0 as int == y.0 && x.1 as int == y.1 && x.3 as int == y.3
                && match (x.2, y.2) {
                (None, None) => true,
                (Some(a), Some(b)) => a.0 as int == b.0 && a.1 as int == b.1,
                _ => false,
            },
            _ => false,
        },
        r matches Some(x) ==> x.1 < ts.len() && x.0 + ts@[x.1 as int].len() + 12 <= l.len()
            && x.3 < l.len() && (x.2 matches Some(b) ==> b.0 <= b.1 <= l.len()),
{
    let ghost tv = ts@.map_values(|t: Vec<char>| t@);
    let mut p: usize = 0;
    loop
        invariant
            p <= l.len(),
            tv == ts@.map_values(|t: Vec<char>| t@),
            match_from(l@, tv, 0) == match_from(l@, tv, p as int),
        decreases l.len() - p,
    {
        match trigger_from_exec(l, p, ts) {
            Some(m) => {
                return Some((p, m.0, m.1, m.2));
            },
            None => {},
        }
        if p == l.len() {
            assert(match_from(l@, tv, p + 1) is None);
            return None;
        }
        p = p + 1;
    }
}

// ───────────────────────── scanning ─────────────────────────

/// The triggers as character vectors.
fn trigger_chars(triggers: &Vec<String>) -> (r: Vec<Vec<char>>)
    ensures
        r@.map_values(|t: Vec<char>| t@) == views(triggers@),
{
    let mut r: Vec<Vec<char>> = Vec::new();
    let mut i: usize = 0;
    while i < triggers.len()
        invariant
            i <= triggers.len(),
            r@.map_values(|t: Vec<char>| t@) == views(triggers@.take(i as int)),
        decreases triggers.len() - i,
    {
        r.push(chars_of(triggers[i].as_str()));
        proof {
            assert(views(triggers@.take(i + 1)) =~= views(triggers@.take(i as int)).push(
                triggers@[i as int]@,
            ));
            assert(r@.map_values(|t: Vec<char>| t@) =~= r@.drop_last().map_values(
                |t: Vec<char>| t@,
            ).push(r@.last()@));
        }
        i = i + 1;
    }
    assert(triggers@.take(triggers.len() as int) =~= triggers@);
    r
}

fn copy_range(v: &Vec<char>, from: usize, to: usize) -> (r: Vec<char>)
    requires
        from <= to <= v.len(),
    ensures
        r@ == v@.subrange(from as int, to as int),
{
    let mut r: Vec<char> = Vec::new();
    let mut i = from;
    while i < to
        invariant
            from <= i <= to <= v.len(),
            r@ == v@.subrange(from as int, i as int),
        decreases to - i,
    {
        r.push(v[i]);
        i = i + 1;
    }
    r
}

/// Fuses found in `content` (the file at `rel_path`) and the lines whose
/// fuse carries a date that does not exist, with that date's text.
#[derive(Debug)]
pub struct ContentScan {
    pub fuses: Vec<Fuse>,
    pub invalid_dates: Vec<(usize, String)>,
}

/// `bad` reports the lines `nb` of `ls` whose fuse date is refused: each
/// line's number and the date text found on it.
spec fn reports_bad(bad: Seq<(usize, String)>, ls: Seq<Seq<char>>, tv: Seq<Seq<char>>, nb: Seq<int>) -> bool {
    &&& bad.len() == nb.len()
    &&& forall|k: int|
        0 <= k < bad.len() ==> {
            &&& (#[trigger] bad[k]).0 == nb[k] + 1
            &&& line_match(ls[nb[k]], tv) matches Some(m) && bad[k].1@ == match_date_text(
                ls[nb[k]],
                tv,
                m,
            )
        }
}

/// `r` is the scan of the lines `ls` of the file at `rel_path` with the
/// triggers `ts`: one fuse for each line that holds one, with a date that
/// chrono accepts, in order; and one entry, line number and date text, for
/// each line whose fuse date is refused, in order.
pub open spec fn scan_reported(
    r: ContentScan,
    ls: Seq<Seq<char>>,
    ts: Seq<Seq<char>>,
    rel_path: Seq<char>,
    today: int,
    fuse_days: int,
) -> bool {
    let hits = fuse_lines(ls, ts);
    let bad = bad_date_lines(ls, ts);
    &&& r.fuses@.len() == hits.len()
    &&& forall|k: int|
        0 <= k < hits.len() ==> fuse_of_line(
            #[trigger] r.fuses@[k],
            ls[hits[k]],
            hits[k] + 1,
            ts,
            rel_path,
            today,
            fuse_days,
        )
    &&& r.invalid_dates@.len() == bad.len()
    &&& forall|k: int|
        0 <= k < bad.len() ==> {
            &&& (#[trigger] r.invalid_dates@[k]).0 == bad[k] + 1
            &&& line_match(ls[bad[k]], ts) matches Some(m) && r.invalid_dates@[k].1@
                == match_date_text(ls[bad[k]], ts, m)
        }
}

/// Scans `content` for fuses. Line numbers are 1-based; a fuse whose date
/// chrono rejects is left out and reported in `invalid_dates`.
#[verifier::spinoff_prover]
#[verifier::rlimit(60)]
pub fn scan_content_report(
    content: &str,
    rel_path: &str,
    triggers: &Vec<String>,
    today: &Date,
    fuse_days: u32,
) -> (r: ContentScan)
    ensures
        scan_reported(r, lines(content@), views(triggers@), rel_path@, today@, fuse_days as int),
{
    let v = chars_of(content);
    let bounds = line_bounds(&v);
    let ts = trigger_chars(triggers);
    let ghost tv = views(triggers@);
    let ghost ls = lines(content@);
    let mut fuses: Vec<Fuse> = Vec::new();
    let mut bad: Vec<(usize, String)> = Vec::new();
    let mut i: usize = 0;
    while i < bounds.len()
        invariant
            i <= bounds.len(),
            v@ == content@,
            ls == lines(content@),
            bounds@.len() == ls.len(),
            forall|j: int|
                0 <= j < bounds@.len() ==> {
                    &&& (#[trigger] bounds@[j]).0 <= bounds@[j].1 <= v@.len()
                    &&& v@.subrange(bounds@[j].0 as int, bounds@[j].1 as int) == ls[j]
                },
            ts@.map_values(|t: Vec<char>| t@) == tv,
            tv == views(triggers@),
            fuses@.len() == fuse_lines(ls.take(i as int), tv).len(),
            forall|k: int|
                0 <= k < fuses@.len() ==> fuse_of_line(
                    #[trigger] fuses@[k],
                    ls[fuse_lines(ls.take(i as int), tv)[k]],
                    fuse_lines(ls.take(i as int), tv)[k] + 1,
                    tv,
                    rel_path@,
                    today@,
                    fuse_days as int,
                ),
            forall|k: int|
                0 <= k < fuse_lines(ls.take(i as int), tv).len() ==> 0 <= #[trigger] fuse_lines(
                    ls.take(i as int),
                    tv,
                )[k] < i,
            reports_bad(bad@, ls, tv, bad_date_lines(ls.take(i as int), tv)),
            forall|k: int|
                0 <= k < bad_date_lines(ls.take(i as int), tv).len() ==> 0
                    <= #[trigger] bad_date_lines(ls.take(i as int), tv)[k] < i,
        decreases bounds.len() - i,
    {
        let (start, end) = bounds[i];
        let line = copy_range(&v, start, end);
        let ghost l = ls[i as int];
        assert(line@ == l);
        let ghost prev_hits = fuse_lines(ls.take(i as int), tv);
        let ghost prev_bad = bad_date_lines(ls.take(i as int), tv);
        proof {
            assert(ls.take(i + 1).drop_last() =~= ls.take(i as int));
            assert(ls.take(i + 1).last() == l);
        }
        match line_match_exec(&line, &ts) {
            Some((p, ti, owner, mstart)) => {
                let q = p + ts[ti].len();
                let date_text = string_of_range(&line, q + 1, q + 11);
                let ghost m = line_match(l, tv)->0;
                proof {
                    assert(m.0 == p && m.1 == ti && m.3 == mstart);
                    match owner {
                        Some(b) => {
                            assert(m.2 matches Some(c) && c.0 == b.0 && c.1 == b.1);
                        },
                        None => {
                            assert(m.2 is None);
                        },
                    }
                    assert(tv[ti as int] == ts@[ti as int]@);
                    assert(date_text@ == match_date_text(l, tv, m));
                }
                match Date::parse(date_text.as_str()) {
                    Some(date) => {
                        let tag_text = string_of_range(&line, p, q);
                        let tag = std_to_uppercase(tag_text.as_str());
                        let owner_text = match owner {
                            Some((a, b)) => {
                                let (ta, tb) = trim_bounds(&line, a, b);
                                Some(string_of_range(&line, ta, tb))
                            },
                            None => None,
                        };
                        let (ma, mb) = trim_bounds(&line, mstart, line.len());
                        let message = string_of_range(&line, ma, mb);
                        let status = Fuse::compute_status(&date, today, fuse_days);
                        let f = Fuse {
                            file: crate::text::to_owned(rel_path),
                            line: i + 1,
                            tag,
                            date,
                            owner: owner_text,
                            message,
                            status,
                            blamed_owner: None,
                        };
                        proof {
                            assert(line_has_fuse(l, tv));
                            assert(!line_has_bad_date(l, tv));
                            assert(fuse_of_line(f, l, i + 1, tv, rel_path@, today@, fuse_days as int));
                            assert(fuse_lines(ls.take(i + 1), tv) == prev_hits.push(i as int));
                            assert(bad_date_lines(ls.take(i + 1), tv) =~= prev_bad);
                        }
                        fuses.push(f);
                    },
                    None => {
                        proof {
                            assert(!line_has_fuse(l, tv));
                            assert(line_has_bad_date(l, tv));
                            assert(fuse_lines(ls.take(i + 1), tv) =~= prev_hits);
                            assert(bad_date_lines(ls.take(i + 1), tv) == prev_bad.push(i as int));
                        }
                        let ghost old_bad = bad@;
                        bad.push((i + 1, date_text));
                        proof {
                            let nb = bad_date_lines(ls.take(i + 1), tv);
                            assert forall|k: int| 0 <= k < bad@.len() implies {
                                &&& (#[trigger] bad@[k]).0 == nb[k] + 1
                                &&& line_match(ls[nb[k]], tv) matches Some(m) && bad@[k].1@
                                    == match_date_text(ls[nb[k]], tv, m)
                            } by {
                                if k < old_bad.len() {
                                    assert(bad@[k] == old_bad[k]);
                                    assert(nb[k] == prev_bad[k]);
                                } else {
                                    assert(nb[k] == i);
                                }
                            }
                            assert(reports_bad(bad@, ls, tv, nb));
                        }
                    },
                }
            },
            None => {
                proof {
                    assert(!line_has_fuse(l, tv));
                    assert(!line_has_bad_date(l, tv));
                    assert(fuse_lines(ls.take(i + 1), tv) =~= prev_hits);
                    assert(bad_date_lines(ls.take(i + 1), tv) =~= prev_bad);
                }
            },
        }
        i = i + 1;
    }
    assert(ls.take(bounds.len() as int) =~= ls);
    let r = ContentScan { fuses, invalid_dates: bad };
    proof {
        let hits = fuse_lines(ls, tv);
        let bl = bad_date_lines(ls, tv);
        assert(r.fuses@.len() == hits.len());
        assert(forall|k: int|
            0 <= k < hits.len() ==> fuse_of_line(
                #[trigger] r.fuses@[k],
                ls[hits[k]],
                hits[k] + 1,
                tv,
                rel_path@,
                today@,
                fuse_days as int,
            ));
        assert(r.invalid_dates@.len() == bl.len());
        assert(forall|k: int|
            0 <= k < bl.len() ==> {
                &&& (#[trigger] r.invalid_dates@[k]).0 == bl[k] + 1
                &&& line_match(ls[bl[k]], tv) matches Some(m) && r.invalid_dates@[k].1@
                    == match_date_text(ls[bl[k]], tv, m)
            });
        assert(scan_reported(r, ls, tv, rel_path@, today@, fuse_days as int));
    }
    r
}

/// Scans `content` (the file at `rel_path`) for fuses with the configured
/// triggers (literal words, matched ignoring case) and warning window,
/// classifying them from `today`.
pub fn scan_content(content: &str, rel_path: &str, config: &Config, today: &Date) -> (r: Vec<Fuse>)
    ensures
        ({
            let ls = lines(content@);
            let ts = views(config.triggers@);
            let hits = fuse_lines(ls, ts);
            &&& r@.len() == hits.len()
            &&& forall|k: int|
                0 <= k < hits.len() ==> fuse_of_line(
                    #[trigger] r@[k],
                    ls[hits[k]],
                    hits[k] + 1,
                    ts,
                    rel_path@,
                    today@,
                    config.fuse_days as int,
                )
        }),
{
    scan_content_report(content, rel_path, &config.triggers, today, config.fuse_days).fuses
}

// ───────────────────────── scan results ─────────────────────────

/// The fuses of `fs` with status `st`, in order.
pub open spec fn with_status(fs: Seq<Fuse>, st: Status) -> Seq<Fuse>
    decreases fs.len(),
{
    if fs.len() == 0 {
        Seq::empty()
    } else {
        with_status(fs.drop_last(), st) + if fs.last().status == st {
            seq![fs.last()]
        } else {
            Seq::empty()
        }
    }
}

/// The fuses that a `Vec<&Fuse>` refers to.
pub open spec fn referenced(v: Seq<&Fuse>) -> Seq<Fuse> {
    v.map_values(|f: &Fuse| *f)
}

/// The outcome of sweeping a directory tree.
#[derive(Debug)]
pub struct ScanResult {
    /// The fuses found, ordered by date.
    pub fuses: Vec<Fuse>,
    /// How many files were read.
    pub swept_files: usize,
    /// How many files were skipped as binary or unreadable.
    pub skipped_files: usize,
}

fn fuses_with_status<'a>(fuses: &'a Vec<Fuse>, st: Status) -> (r: Vec<&'a Fuse>)
    ensures
        referenced(r@) == with_status(fuses@, st),
{
    let mut r: Vec<&Fuse> = Vec::new();
    let mut i: usize = 0;
    while i < fuses.len()
        invariant
            i <= fuses.len(),
            referenced(r@) == with_status(fuses@.take(i as int), st),
        decreases fuses.len() - i,
    {
        proof {
            assert(fuses@.take(i + 1).drop_last() =~= fuses@.take(i as int));
        }
        let ghost before = r@;
        if fuses[i].status == st {
            r.push(&fuses[i]);
            assert(referenced(r@) =~= referenced(before).push(fuses@[i as int]));
        } else {
            assert(with_status(fuses@.take(i as int), st) + Seq::<Fuse>::empty() =~= with_status(
                fuses@.take(i as int),
                st,
            ));
        }
        i = i + 1;
    }
    assert(fuses@.take(fuses.len() as int) =~= fuses@);
    r
}

fn any_with_status(fuses: &Vec<Fuse>, st: Status) -> (r: bool)
    ensures
        r == (with_status(fuses@, st).len() > 0),
{
    fuses_with_status(fuses, st).len() > 0
}

impl ScanResult {
    /// The detonated fuses, in order.
    pub fn expired(&self) -> (r: Vec<&Fuse>)
        ensures
            referenced(r@) == with_status(self.fuses@, Status::Detonated),
    {
        fuses_with_status(&self.fuses, Status::Detonated)
    }

    /// The ticking fuses, in order.
    pub fn expiring_soon(&self) -> (r: Vec<&Fuse>)
        ensures
            referenced(r@) == with_status(self.fuses@, Status::Ticking),
    {
        fuses_with_status(&self.fuses, Status::Ticking)
    }

    /// The inert fuses, in order.
    pub fn ok(&self) -> (r: Vec<&Fuse>)
        ensures
            referenced(r@) == with_status(self.fuses@, Status::Inert),
    {
        fuses_with_status(&self.fuses, Status::Inert)
    }

    /// Whether some fuse is detonated.
    pub fn has_expired(&self) -> (r: bool)
        ensures
            r == (with_status(self.fuses@, Status::Detonated).len() > 0),
    {
        any_with_status(&self.fuses, Status::Detonated)
    }

    /// Whether some fuse is ticking.
    pub fn has_expiring_soon(&self) -> (r: bool)
        ensures
            r == (with_status(self.fuses@, Status::Ticking).len() > 0),
    {
        any_with_status(&self.fuses, Status::Ticking)
    }

    /// How many fuses were found.
    pub fn total(&self) -> (r: usize)
        ensures
            r == self.fuses@.len(),
    {
        self.fuses.len()
    }
}

/// `r` holds the fuses of `fs` in the order `p`.
pub open spec fn arranged(r: Seq<Fuse>, fs: Seq<Fuse>, p: Seq<usize>) -> bool {
    &&& r.len() == p.len()
    &&& forall|i: int| 0 <= i < p.len() ==> r[i] == fs[p[i] as int]
}

/// The fuses of `fs` in the order `p` (indices into `fs`).
pub fn arrange(fs: &Vec<Fuse>, p: &Vec<usize>) -> (r: Vec<Fuse>)
    requires
        forall|i: int| 0 <= i < p@.len() ==> p@[i] < fs@.len(),
    ensures
        arranged(r@, fs@, p@),
{
    let mut r: Vec<Fuse> = Vec::new();
    let mut i: usize = 0;
    while i < p.len()
        invariant
            i <= p.len(),
            forall|j: int| 0 <= j < p@.len() ==> p@[j] < fs@.len(),
            r@.len() == i,
            forall|j: int| 0 <= j < i ==> r@[j] == fs@[p@[j] as int],
        decreases p.len() - i,
    {
        r.push(fs[p[i]].duplicate());
        i = i + 1;
    }
    r
}

/// The fuses ordered by date, fuses of one date in their original order.
pub fn sort_by_date(fuses: &Vec<Fuse>) -> (r: Vec<Fuse>)
    ensures
        exists|p: Seq<usize>|
            {
                &&& is_permutation(p, fuses@.len())
                &&& arranged(r@, fuses@, p)
                &&& forall|i: int, j: int|
                    0 <= i < j < p.len() && fuses@[p[i] as int].date@ == fuses@[p[j] as int].date@
                        ==> p[i] < p[j]
            },
        forall|i: int, j: int| 0 <= i < j < r@.len() ==> r@[i].date@ <= r@[j].date@,
{
    let mut keys: Vec<SortKey> = Vec::new();
    let mut i: usize = 0;
    while i < fuses.len()
        invariant
            i <= fuses.len(),
            keys@.len() == i,
            forall|j: int|
                0 <= j < i ==> keys@[j].first == 0 && keys@[j].second == 0
                    && keys@[j].text@.len() == 0 && keys@[j].third == 0 && keys@[j].fourth
                    == fuses@[j].date@,
        decreases fuses.len() - i,
    {
        keys.push(
            SortKey {
                first: 0,
                second: 0,
                text: String::new(),
                third: 0,
                fourth: fuses[i].date.epoch_days() as i64,
            },
        );
        i = i + 1;
    }
    let p = stable_order(&keys);
    let r = arrange(fuses, &p);
    proof {
        assert forall|i: int, j: int| 0 <= i < j < r@.len() implies r@[i].date@ <= r@[j].date@ by {
            let a = keys@[p@[i] as int];
            let b = keys@[p@[j] as int];
            assert(!key_lt(b, a));
            assert(a.text@ =~= b.text@);
        }
        assert forall|i: int, j: int|
            0 <= i < j < p@.len() && fuses@[p@[i] as int].date@ == fuses@[p@[j] as int].date@
                implies p@[i] < p@[j] by {
            let a = keys@[p@[i] as int];
            let b = keys@[p@[j] as int];
            assert(a.text@ =~= b.text@);
            assert(crate::order::key_eq(a, b));
        }
    }
    r
}

// ───────────────────────── sweeping a tree ─────────────────────────

/// How many leading bytes of a file the binary check reads.
pub const BINARY_CHECK_LEN: usize = 8192;

/// Whether the first 8 KB of `bytes` hold a null byte: the mark of a binary
/// file, which a sweep skips.
pub fn is_binary(bytes: &[u8]) -> (r: bool)
    ensures
        r == bytes@.take(
            if bytes@.len() < BINARY_CHECK_LEN {
                bytes@.len() as int
            } else {
                BINARY_CHECK_LEN as int
            },
        ).contains(0u8),
{
    let n: usize = if bytes.len() < BINARY_CHECK_LEN {
        bytes.len()
    } else {
        BINARY_CHECK_LEN
    };
    let ghost head = bytes@.take(n as int);
    let mut i: usize = 0;
    while i < n
        invariant
            i <= n <= bytes@.len(),
            n as int == (if bytes@.len() < BINARY_CHECK_LEN {
                bytes@.len() as int
            } else {
                BINARY_CHECK_LEN as int
            }),
            head == bytes@.take(n as int),
            forall|k: int| 0 <= k < i ==> bytes@[k] != 0u8,
        decreases n - i,
    {
        if bytes[i] == 0u8 {
            assert(head[i as int] == 0u8);
            assert(head.contains(0u8));
            return true;
        }
        i = i + 1;
    }
    assert forall|k: int| 0 <= k < head.len() implies head[k] != 0u8 by {
        assert(head[k] == bytes@[k]);
    }
    false
}

/// What a sweep does with a file it meets in the tree.
#[derive(Clone, Copy, Debug, PartialEq, Eq, Structural)]
pub enum FileVerdict {
    /// An exclude pattern matches it: it counts as skipped.
    Excluded,
    /// Its extension is not scanned, or it is not among the changed files.
    PassedOver,
    /// It is read and scanned.
    Candidate,
}

/// The verdict on the file at `p` (relative to the sweep's root) under
/// `config`, whose exclude patterns are `set`.
pub open spec fn verdict_for(config: Config, set: Seq<Seq<char>>, p: Seq<char>) -> FileVerdict {
    if excluded_by(set, p) {
        FileVerdict::Excluded
    } else if !extension_allowed_by(views(config.extensions@), p) {
        FileVerdict::PassedOver
    } else if config.diff_files matches Some(d) && !lists_path(d@, p) {
        FileVerdict::PassedOver
    } else {
        FileVerdict::Candidate
    }
}

/// Decides what a sweep does with the file at `rel_path`: excluded files
/// are counted as skipped, files whose extension is not scanned or that
/// lie outside the changed files (when a diff limits the sweep) are passed
/// over, the rest are scanned.
pub fn file_verdict(config: &Config, set: &ExcludeSet, rel_path: &str) -> (r: FileVerdict)
    ensures
        r == verdict_for(*config, set@, rel_path@),
{
    if config.is_excluded(rel_path, set) {
        return FileVerdict::Excluded;
    }
    if !config.extension_allowed(rel_path) {
        return FileVerdict::PassedOver;
    }
    match &config.diff_files {
        Some(d) => {
            let mut i: usize = 0;
            while i < d.len()
                invariant
                    config.diff_files == Some(*d),
                    !excluded_by(set@, rel_path@),
                    extension_allowed_by(views(config.extensions@), rel_path@),
                    i <= d@.len(),
                    forall|k: int| 0 <= k < i ==> !same_path(#[trigger] d@[k]@, rel_path@),
                decreases d.len() - i,
            {
                if paths_equal(d[i].as_str(), rel_path) {
                    assert(same_path(d@[i as int]@, rel_path@));
                    return FileVerdict::Candidate;
                }
                i = i + 1;
            }
            FileVerdict::PassedOver
        },
        None => FileVerdict::Candidate,
    }
}

/// The fuses of all the files, file after file.
pub open spec fn flattened(v: Seq<Vec<Fuse>>) -> Seq<Fuse>
    decreases v.len(),
{
    if v.len() == 0 {
        Seq::empty()
    } else {
        flattened(v.drop_last()) + v.last()@
    }
}

/// The result of a sweep: the fuses found in the files read (`found`, file
/// after file) ordered by date, fuses of one date in the order found; the
/// files read are the candidates but for the binary ones; those skipped are
/// the excluded ones and the binary ones.
pub fn sweep_result(found: &Vec<Vec<Fuse>>, candidates: usize, binary: usize, excluded: usize) -> (r:
    ScanResult)
    requires
        binary <= candidates,
        excluded + binary <= usize::MAX,
    ensures
        r.swept_files == candidates - binary,
        r.skipped_files == excluded + binary,
        exists|p: Seq<usize>|
            {
                &&& is_permutation(p, flattened(found@).len())
                &&& arranged(r.fuses@, flattened(found@), p)
                &&& forall|i: int, j: int|
                    0 <= i < j < p.len() && flattened(found@)[p[i] as int].date@ == flattened(
                        found@,
                    )[p[j] as int].date@ ==> p[i] < p[j]
            },
        forall|i: int, j: int| 0 <= i < j < r.fuses@.len() ==> r.fuses@[i].date@ <= r.fuses@[j].date@,
{
    let mut all: Vec<Fuse> = Vec::new();
    let mut i: usize = 0;
    while i < found.len()
        invariant
            i <= found@.len(),
            all@ == flattened(found@.take(i as int)),
        decreases found.len() - i,
    {
        let part = &found[i];
        let ghost before = all@;
        let mut j: usize = 0;
        while j < part.len()
            invariant
                j <= part@.len(),
                part == found@[i as int],
                all@ == before + part@.take(j as int),
            decreases part.len() - j,
        {
            all.push(part[j].duplicate());
            proof {
                assert(part@.take(j + 1) =~= part@.take(j as int).push(part@[j as int]));
            }
            j = j + 1;
        }
        proof {
            assert(part@.take(part@.len() as int) =~= part@);
            assert(found@.take(i + 1).drop_last() =~= found@.take(i as int));
        }
        i = i + 1;
    }
    assert(found@.take(found@.len() as int) =~= found@);
    ScanResult { fuses: sort_by_date(&all), swept_files: candidates - binary, skipped_files: excluded + binary }
}

} // verus!
