//! Changed line ranges from unified diff text (`git diff --unified=0`).

use crate::text::{chars_of, decimal_digit, decimal_digit_char, lines, lines_of, parse_bounded, parse_bounded_range, str_eq, string_of_range, views};
use crate::path::{paths_equal, same_path};
use vstd::prelude::*;

verus! {

/// The changed lines of one file: inclusive `(first, last)` ranges, in the
/// order in which the diff gives them.
#[derive(Debug)]
pub struct FileRanges {
    pub file: String,
    pub ranges: Vec<(usize, usize)>,
}

/// The entries of `v` as plain values.
pub open spec fn entries(v: Seq<FileRanges>) -> Seq<(Seq<char>, Seq<(usize, usize)>)> {
    v.map_values(|e: FileRanges| (e.file@, e.ranges@))
}

/// Index of the first entry of `es` at or after `i` whose file is the same
/// path as `f`, or -1.
pub open spec fn find_file_from(es: Seq<(Seq<char>, Seq<(usize, usize)>)>, f: Seq<char>, i: int) -> int
    decreases es.len() - i,
{
    if i < 0 || i >= es.len() {
        -1
    } else if same_path(es[i].0, f) {
        i
    } else {
        find_file_from(es, f, i + 1)
    }
}

/// `es` with the ranges `rs` added to the file `f`: after the ranges of the
/// entry that names the same path (which keeps its own spelling), or as a
/// new entry at the end.
pub open spec fn add_ranges(
    es: Seq<(Seq<char>, Seq<(usize, usize)>)>,
    f: Seq<char>,
    rs: Seq<(usize, usize)>,
) -> Seq<(Seq<char>, Seq<(usize, usize)>)> {
    let k = find_file_from(es, f, 0);
    if k >= 0 {
        es.update(k, (es[k].0, es[k].1 + rs))
    } else {
        es.push((f, rs))
    }
}

proof fn lemma_find_file_found(es: Seq<(Seq<char>, Seq<(usize, usize)>)>, f: Seq<char>, i: int)
    requires
        find_file_from(es, f, i) >= 0,
    ensures
        i <= find_file_from(es, f, i) < es.len(),
        same_path(es[find_file_from(es, f, i)].0, f),
    decreases es.len() - i,
{
    if i >= 0 && i < es.len() && !same_path(es[i].0, f) {
        lemma_find_file_found(es, f, i + 1);
    }
}

/// The index of the first entry of `v` for the file `f`, if any.
fn find_file(v: &Vec<FileRanges>, f: &str) -> (r: Option<usize>)
    ensures
        match r {
            Some(k) => k == find_file_from(entries(v@), f@, 0) && k < v@.len(),
            None => find_file_from(entries(v@), f@, 0) == -1,
        },
{
    let ghost es = entries(v@);
    let mut g: usize = 0;
    while g < v.len()
        invariant
            g <= v.len(),
            es == entries(v@),
            find_file_from(es, f@, 0) == find_file_from(es, f@, g as int),
        decreases v.len() - g,
    {
        if paths_equal(v[g].file.as_str(), f) {
            return Some(g);
        }
        g = g + 1;
    }
    None
}

/// Adds the ranges `rs` to the file `f` in `v`.
fn add_file_ranges(v: &mut Vec<FileRanges>, f: &str, rs: &Vec<(usize, usize)>)
    ensures
        entries(final(v)@) == add_ranges(entries(old(v)@), f@, rs@),
{
    match find_file(v, f) {
        Some(k) => {
            let mut e = FileRanges { file: String::new(), ranges: Vec::new() };
            std::mem::swap(&mut e, &mut v[k]);
            let ghost before = e.ranges@;
            let ghost file = e.file@;
            proof {
                lemma_find_file_found(entries(old(v)@), f@, 0);
            }
            let mut j: usize = 0;
            while j < rs.len()
                invariant
                    j <= rs.len(),
                    e.ranges@ == before + rs@.take(j as int),
                    e.file@ == file,
                decreases rs.len() - j,
            {
                e.ranges.push(rs[j]);
                assert(rs@.take(j + 1) =~= rs@.take(j as int).push(rs@[j as int]));
                j = j + 1;
            }
            assert(rs@.take(rs.len() as int) =~= rs@);
            std::mem::swap(&mut e, &mut v[k]);
            proof {
                lemma_find_file_found(entries(old(v)@), f@, 0);
                assert(entries(v@) =~= add_ranges(entries(old(v)@), f@, rs@));
            }
        },
        None => {
            let mut copy: Vec<(usize, usize)> = Vec::new();
            let mut j: usize = 0;
            while j < rs.len()
                invariant
                    j <= rs.len(),
                    copy@ == rs@.take(j as int),
                decreases rs.len() - j,
            {
                copy.push(rs[j]);
                assert(rs@.take(j + 1) =~= rs@.take(j as int).push(rs@[j as int]));
                j = j + 1;
            }
            assert(rs@.take(rs.len() as int) =~= rs@);
            let ghost before = v@;
            v.push(FileRanges { file: crate::text::to_owned(f), ranges: copy });
            assert(entries(v@) =~= entries(before).push((f@, rs@)));
        },
    }
}

// ───────────────────────── hunk headers ─────────────────────────

/// The first index at or after `i` that is not a digit of `\d` (Unicode
/// decimal digits), or `l.len()`.
pub open spec fn digits_end(l: Seq<char>, i: int) -> int
    decreases l.len() - i,
{
    if i < 0 || i >= l.len() {
        l.len() as int
    } else if decimal_digit(l[i]) {
        digits_end(l, i + 1)
    } else {
        i
    }
}

/// Where an optional `,DIGITS` starting at `p` ends (`p` when there is none).
pub open spec fn count_end(l: Seq<char>, p: int) -> int {
    if 0 <= p < l.len() && l[p] == ',' && digits_end(l, p + 1) > p + 1 {
        digits_end(l, p + 1)
    } else {
        p
    }
}

/// The captured texts of a hunk header `@@ -A[,B] +C[,D] @@...`: `C`, and
/// `D` when present.
pub open spec fn hunk_captures(l: Seq<char>) -> Option<(Seq<char>, Option<Seq<char>>)> {
    if !(l.len() >= 4 && l[0] == '@' && l[1] == '@' && l[2] == ' ' && l[3] == '-') {
        None
    } else {
        let e1 = digits_end(l, 4);
        let p = count_end(l, e1);
        if e1 == 4 || !(p + 2 <= l.len() && l[p] == ' ' && l[p + 1] == '+') {
            None
        } else {
            let s = p + 2;
            let e2 = digits_end(l, s);
            let q = count_end(l, e2);
            if e2 == s || !(q + 3 <= l.len() && l[q] == ' ' && l[q + 1] == '@' && l[q + 2] == '@') {
                None
            } else {
                Some((l.subrange(s, e2), if q > e2 { Some(l.subrange(e2 + 1, q)) } else { None }))
            }
        }
    }
}

/// The new start and new count of a hunk header: a start too large for
/// `usize` reads as 0, an absent or too large count as 1.
pub open spec fn hunk_values(l: Seq<char>) -> Option<(nat, nat)> {
    match hunk_captures(l) {
        None => None,
        Some((c1, c2)) => {
            let start = match parse_bounded(c1, usize::MAX as nat) {
                Some(v) => v,
                None => 0,
            };
            let count = match c2 {
                Some(t) => match parse_bounded(t, usize::MAX as nat) {
                    Some(v) => v,
                    None => 1,
                },
                None => 1,
            };
            Some((start, count))
        },
    }
}

fn digits_end_exec(v: &Vec<char>, from: usize) -> (r: usize)
    requires
        from <= v.len(),
    ensures
        r == digits_end(v@, from as int),
        from <= r <= v.len(),
{
    let mut i = from;
    while i < v.len()
        invariant
            from <= i <= v.len(),
            digits_end(v@, from as int) == digits_end(v@, i as int),
        decreases v.len() - i,
    {
        if !decimal_digit_char(v[i]) {
            return i;
        }
        i = i + 1;
    }
    i
}

fn count_end_exec(v: &Vec<char>, p: usize) -> (r: usize)
    requires
        p <= v.len(),
    ensures
        r == count_end(v@, p as int),
        p <= r <= v.len(),
{
    if p < v.len() && v[p] == ',' {
        let e = digits_end_exec(v, p + 1);
        if e > p + 1 {
            return e;
        }
    }
    p
}

/// The new start and new count of a hunk header line, if `line` is one.
pub fn parse_hunk_header(line: &str) -> (r: Option<(usize, usize)>)
    ensures
        r == match hunk_values(line@) {
            Some((s, c)) => Some((s as usize, c as usize)),
            None => None,
        },
{
    let l = chars_of(line);
    if !(l.len() >= 4 && l[0] == '@' && l[1] == '@' && l[2] == ' ' && l[3] == '-') {
        return None;
    }
    let e1 = digits_end_exec(&l, 4);
    let p = count_end_exec(&l, e1);
    if e1 == 4 || !(l.len() - p >= 2 && l[p] == ' ' && l[p + 1] == '+') {
        return None;
    }
    let s = p + 2;
    let e2 = digits_end_exec(&l, s);
    let q = count_end_exec(&l, e2);
    if e2 == s || !(l.len() - q >= 3 && l[q] == ' ' && l[q + 1] == '@' && l[q + 2] == '@') {
        return None;
    }
    let start = match parse_bounded_range(&l, s, e2, usize::MAX as u64) {
        Some(v) => v as usize,
        None => 0,
    };
    let count = if q > e2 {
        match parse_bounded_range(&l, e2 + 1, q, usize::MAX as u64) {
            Some(v) => v as usize,
            None => 1,
        }
    } else {
        1
    };
    Some((start, count))
}

// ───────────────────────── the diff ─────────────────────────

/// The file named by a `+++ ` line's rest: a `b/` path, or none for
/// `/dev/null` and anything else.
pub open spec fn target_file(rest: Seq<char>) -> Option<Seq<char>> {
    if rest == "/dev/null"@ {
        None
    } else if rest.len() >= 2 && rest[0] == 'b' && rest[1] == '/' {
        Some(rest.skip(2))
    } else {
        None
    }
}

/// `l` starts with `+++ `.
pub open spec fn is_target_line(l: Seq<char>) -> bool {
    l.len() >= 4 && l[0] == '+' && l[1] == '+' && l[2] == '+' && l[3] == ' '
}

/// After the diff lines `ls`: the changed ranges of each file, and the file
/// whose hunks are being read, if any.
pub open spec fn diff_state(ls: Seq<Seq<char>>) -> (Seq<(Seq<char>, Seq<(usize, usize)>)>, Option<
    Seq<char>,
>)
    decreases ls.len(),
{
    if ls.len() == 0 {
        (Seq::empty(), None)
    } else {
        let (es, cur) = diff_state(ls.drop_last());
        let l = ls.last();
        if is_target_line(l) {
            (es, target_file(l.skip(4)))
        } else {
            match (cur, hunk_values(l)) {
                (Some(f), Some((s, c))) => if c == 0 {
                    (es, cur)
                } else {
                    (add_ranges(es, f, seq![(s as usize, (s + c - 1) as usize)]), cur)
                },
                _ => (es, cur),
            }
        }
    }
}

/// No hunk of the diff `ls` read for a file ends past `usize::MAX`.
pub open spec fn ranges_fit(ls: Seq<Seq<char>>) -> bool {
    forall|i: int|
        0 <= i < ls.len() && !is_target_line(ls[i]) && diff_state(ls.take(i)).1 is Some
            ==> match #[trigger] hunk_values(ls[i]) {
            Some((s, c)) => c == 0 || s + c - 1 <= usize::MAX,
            None => true,
        }
}

/// The changed line ranges of each file in unified diff text: a `+++ b/PATH`
/// line starts a file (`+++ /dev/null` and other targets are skipped), and
/// each hunk header `@@ -A[,B] +C[,D] @@` after it adds the lines `C` to
/// `C + D - 1`; `D` is 1 when absent, and a hunk with `D` 0 adds nothing.
/// Files come in the order in which they first gain a range.
pub fn parse_unified_diff(output: &str) -> (r: Vec<FileRanges>)
    requires
        ranges_fit(lines(output@)),
    ensures
        entries(r@) == diff_state(lines(output@)).0,
{
    let ls = lines_of(output);
    let ghost lv = lines(output@);
    let mut r: Vec<FileRanges> = Vec::new();
    let mut cur: Option<String> = None;
    let mut i: usize = 0;
    while i < ls.len()
        invariant
            i <= ls.len(),
            views(ls@) == lv,
            ranges_fit(lv),
            entries(r@) == diff_state(lv.take(i as int)).0,
            match (cur, diff_state(lv.take(i as int)).1) {
                (Some(a), Some(b)) => a@ == b,
                (None, None) => true,
                _ => false,
            },
        decreases ls.len() - i,
    {
        proof {
            assert(lv.take(i + 1).drop_last() =~= lv.take(i as int));
            assert(lv.take(i + 1).last() == ls@[i as int]@);
        }
        let l = chars_of(ls[i].as_str());
        if l.len() >= 4 && l[0] == '+' && l[1] == '+' && l[2] == '+' && l[3] == ' ' {
            let rest = string_of_range(&l, 4, l.len());
            let rv = chars_of(rest.as_str());
            assert(rv@ =~= ls@[i as int]@.skip(4));
            proof {
                reveal_strlit("/dev/null");
            }
            if str_eq(rest.as_str(), "/dev/null") {
                cur = None;
            } else if rv.len() >= 2 && rv[0] == 'b' && rv[1] == '/' {
                let f = string_of_range(&rv, 2, rv.len());
                assert(f@ =~= rv@.skip(2));
                cur = Some(f);
            } else {
                cur = None;
            }
        } else {
            match cur {
                Some(ref f) => {
                    match parse_hunk_header(ls[i].as_str()) {
                        Some((s, c)) => {
                            if c != 0 {
                                proof {
                                    assert(hunk_values(lv[i as int]) == Some((s as nat, c as nat)));
                                }
                                let mut one: Vec<(usize, usize)> = Vec::new();
                                one.push((s, s + (c - 1)));
                                add_file_ranges(&mut r, f.as_str(), &one);
                                assert(one@ =~= seq![(s, (s + c - 1) as usize)]);
                            }
                        },
                        None => {},
                    }
                },
                None => {},
            }
        }
        i = i + 1;
    }
    assert(lv.take(ls.len() as int) =~= lv);
    r
}

/// `base` with each entry of `more` added in turn: a file's ranges from
/// `more` follow its ranges from `base`.
pub open spec fn merged(
    base: Seq<(Seq<char>, Seq<(usize, usize)>)>,
    more: Seq<(Seq<char>, Seq<(usize, usize)>)>,
) -> Seq<(Seq<char>, Seq<(usize, usize)>)>
    decreases more.len(),
{
    if more.len() == 0 {
        base
    } else {
        add_ranges(merged(base, more.drop_last()), more.last().0, more.last().1)
    }
}

/// The changed line ranges of the working tree and of the index: the
/// unified diffs `unstaged` (`git diff --unified=0 BASE`) and `staged`
/// (`git diff --unified=0 --cached BASE`) read and merged, a file's staged
/// ranges after its unstaged ones.
pub fn git_changed_line_ranges(unstaged: &str, staged: &str) -> (r: Vec<FileRanges>)
    requires
        ranges_fit(lines(unstaged@)),
        ranges_fit(lines(staged@)),
    ensures
        entries(r@) == merged(diff_state(lines(unstaged@)).0, diff_state(lines(staged@)).0),
{
    let mut r = parse_unified_diff(unstaged);
    let more = parse_unified_diff(staged);
    let ghost base = entries(r@);
    let mut k: usize = 0;
    while k < more.len()
        invariant
            k <= more.len(),
            entries(r@) == merged(base, entries(more@).take(k as int)),
        decreases more.len() - k,
    {
        proof {
            assert(entries(more@).take(k + 1).drop_last() =~= entries(more@).take(k as int));
        }
        add_file_ranges(&mut r, more[k].file.as_str(), &more[k].ranges);
        k = k + 1;
    }
    assert(entries(more@).take(more.len() as int) =~= entries(more@));
    r
}

/// Some range of an entry of `es` naming the same path as `f` holds the
/// line `n`.
pub open spec fn line_changed(es: Seq<(Seq<char>, Seq<(usize, usize)>)>, f: Seq<char>, n: usize) -> bool {
    exists|i: int, j: int|
        #![trigger es[i].1[j]]
        0 <= i < es.len() && same_path(es[i].0, f) && 0 <= j < es[i].1.len() && es[i].1[j].0 <= n
            <= es[i].1[j].1
}

/// Whether some range of the file `file` (compared as a path) in `ranges`
/// holds the line `line`.
pub fn is_line_changed(ranges: &Vec<FileRanges>, file: &str, line: usize) -> (r: bool)
    ensures
        r == line_changed(entries(ranges@), file@, line),
{
    let ghost es = entries(ranges@);
    let mut i: usize = 0;
    while i < ranges.len()
        invariant
            i <= ranges.len(),
            es == entries(ranges@),
            forall|a: int, b: int|
                #![trigger es[a].1[b]]
                0 <= a < i && same_path(es[a].0, file@) && 0 <= b < es[a].1.len() ==> !(es[a].1[b].0 <= line
                    <= es[a].1[b].1),
        decreases ranges.len() - i,
    {
        if paths_equal(ranges[i].file.as_str(), file) {
            let rs = &ranges[i].ranges;
            assert(es[i as int] == (ranges@[i as int].file@, ranges@[i as int].ranges@));
            let mut j: usize = 0;
            while j < rs.len()
                invariant
                    j <= rs.len(),
                    i < ranges.len(),
                    es == entries(ranges@),
                    rs@ == es[i as int].1,
                    same_path(es[i as int].0, file@),
                    forall|b: int| 0 <= b < j ==> !(#[trigger] rs@[b].0 <= line <= rs@[b].1),
                decreases rs.len() - j,
            {
                if rs[j].0 <= line && line <= rs[j].1 {
                    assert(es[i as int].1[j as int] == rs@[j as int]);
                    return true;
                }
                j = j + 1;
            }
        }
        i = i + 1;
    }
    assert(!line_changed(es, file@, line));
    false
}

} // verus!
