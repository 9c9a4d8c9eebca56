//! Disarming fuses: taking annotation lines out of a file.

use crate::add::{ends_with_newline, inserted, planted};
use crate::annotation::Fuse;
use crate::error::{Error, Result};
use crate::text::{
    lemma_join_last, lemma_lines_of_joined, lemma_lines_of_terminated, lemma_lines_shape,
    no_carriage_return, single_line,
    append, chars_of, decimal, is_digit, join, join_strings, lines, lines_of, push_char,
    push_decimal, to_owned, views,
};
use crate::path::{paths_equal, same_path};
use vstd::prelude::*;

verus! {

/// `s` reads `YYYY-MM-DD`: ten characters, ASCII digits around two dashes.
pub open spec fn date_like(s: Seq<char>) -> bool {
    &&& s.len() == 10
    &&& is_digit(s[0]) && is_digit(s[1]) && is_digit(s[2]) && is_digit(s[3])
    &&& s[4] == '-'
    &&& is_digit(s[5]) && is_digit(s[6])
    &&& s[7] == '-'
    &&& is_digit(s[8]) && is_digit(s[9])
}

/// Whether `s` has the shape of a `YYYY-MM-DD` date (the calendar is not
/// consulted).
pub fn looks_like_date(s: &str) -> (r: bool)
    ensures
        r == date_like(s@),
{
    let v = chars_of(s);
    if v.len() != 10 {
        return false;
    }
    let mut i: usize = 0;
    while i < 10
        invariant
            v@ == s@,
            v.len() == 10,
            i <= 10,
            forall|j: int| 0 <= j < i ==> if j == 4 || j == 7 {
                v@[j] == '-'
            } else {
                is_digit(v@[j])
            },
        decreases 10 - i,
    {
        let c = v[i];
        let ok = if i == 4 || i == 7 {
            c == '-'
        } else {
            '0' <= c && c <= '9'
        };
        if !ok {
            return false;
        }
        i = i + 1;
    }
    assert(is_digit(v@[0]) && is_digit(v@[3]) && v@[4] == '-' && v@[7] == '-' && is_digit(v@[9]));
    true
}

/// `[`, an ASCII `YYYY-MM-DD` and `]` start at `q`.
pub open spec fn ascii_date_bracket_at(l: Seq<char>, q: int) -> bool {
    0 <= q && q + 12 <= l.len() && l[q] == '[' && date_like(l.subrange(q + 1, q + 11)) && l[q + 11]
        == ']'
}

/// `l` holds a date bracket `[YYYY-MM-DD]`, of ASCII digits, somewhere.
pub open spec fn has_date_bracket(l: Seq<char>) -> bool {
    exists|q: int| ascii_date_bracket_at(l, q)
}

fn ascii_date_bracket_at_chars(l: &Vec<char>, q: usize) -> (r: bool)
    ensures
        r == ascii_date_bracket_at(l@, q as int),
{
    if q > l.len() || l.len() - q < 12 {
        return false;
    }
    let r = l[q] == '[' && '0' <= l[q + 1] && l[q + 1] <= '9' && '0' <= l[q + 2] && l[q + 2] <= '9'
        && '0' <= l[q + 3] && l[q + 3] <= '9' && '0' <= l[q + 4] && l[q + 4] <= '9' && l[q + 5]
        == '-' && '0' <= l[q + 6] && l[q + 6] <= '9' && '0' <= l[q + 7] && l[q + 7] <= '9'
        && l[q + 8] == '-' && '0' <= l[q + 9] && l[q + 9] <= '9' && '0' <= l[q + 10] && l[q + 10]
        <= '9' && l[q + 11] == ']';
    let ghost d = l@.subrange(q + 1, q + 11);
    assert(d[0] == l@[q + 1] && d[1] == l@[q + 2] && d[2] == l@[q + 3] && d[3] == l@[q + 4]);
    assert(d[4] == l@[q + 5] && d[5] == l@[q + 6] && d[6] == l@[q + 7] && d[7] == l@[q + 8]);
    assert(d[8] == l@[q + 9] && d[9] == l@[q + 10]);
    r
}

/// Whether `line` holds a fuse's date bracket `[YYYY-MM-DD]`.
pub fn is_timebomb_line(line: &str) -> (r: bool)
    ensures
        r == has_date_bracket(line@),
{
    let l = chars_of(line);
    let mut p: usize = 0;
    while p < l.len()
        invariant
            p <= l.len(),
            l@ == line@,
            forall|q: int| q < p ==> !ascii_date_bracket_at(l@, q),
        decreases l.len() - p,
    {
        if ascii_date_bracket_at_chars(&l, p) {
            return true;
        }
        p = p + 1;
    }
    assert forall|q: int| !ascii_date_bracket_at(l@, q) by {
        if q >= p {
            assert(!(q + 12 <= l@.len()));
        }
    }
    false
}

/// `content` without its 0-based line `i`. The final newline is kept when
/// there was one and something is left.
pub open spec fn without_line(content: Seq<char>, i: int) -> Seq<char> {
    let body = join(lines(content).remove(i), seq!['\n']);
    if content.len() > 0 && content.last() == '\n' && body.len() > 0 {
        body + seq!['\n']
    } else {
        body
    }
}

pub open spec fn remove_range_message(file: Seq<char>, n: nat, count: nat) -> Seq<char> {
    "line "@ + decimal(n) + " is out of range for '"@ + file + "' ("@ + decimal(count)
        + " lines)"@
}

/// A line taken out of a file: the new content and the line removed.
#[derive(Debug)]
pub struct LineRemoval {
    pub content: String,
    pub removed: String,
}

/// Takes line `line_number` (1-based) out of `content`, the file at `file`.
pub fn remove_line(content: &str, file: &str, line_number: usize) -> (r: Result<LineRemoval>)
    ensures
        ({
            let ls = lines(content@);
            let count = ls.len();
            match r {
                Ok(x) => 1 <= line_number <= count && x.removed@ == ls[line_number - 1]
                    && x.content@ == without_line(content@, line_number - 1),
                Err(e) => !(1 <= line_number <= count) && e.detail() == remove_range_message(
                    file@,
                    line_number as nat,
                    count,
                ),
            }
        }),
{
    let ls = lines_of(content);
    let count = ls.len();
    if line_number < 1 || line_number > count {
        let mut m = to_owned("line ");
        push_decimal(&mut m, line_number as u128);
        append(&mut m, " is out of range for '");
        append(&mut m, file);
        append(&mut m, "' (");
        push_decimal(&mut m, count as u128);
        append(&mut m, " lines)");
        return Err(Error::InvalidArgument(m));
    }
    let i = line_number - 1;
    let ghost lv = lines(content@);
    let mut kept: Vec<String> = Vec::new();
    let mut j: usize = 0;
    while j < count
        invariant
            j <= count,
            count == ls.len(),
            i < count,
            views(ls@) == lv,
            views(kept@) == if j <= i {
                lv.take(j as int)
            } else {
                lv.take(i as int) + lv.subrange(i + 1, j as int)
            },
        decreases count - j,
    {
        if j != i {
            kept.push(ls[j].clone());
            proof {
                assert(views(kept@) =~= views(kept@.drop_last()).push(kept@.last()@));
                if j < i {
                    assert(lv.take(j + 1) =~= lv.take(j as int).push(lv[j as int]));
                } else {
                    assert(lv.take(i as int) + lv.subrange(i + 1, j + 1) =~= (lv.take(i as int)
                        + lv.subrange(i + 1, j as int)).push(lv[j as int]));
                }
            }
        } else {
            assert(lv.take(i as int) + lv.subrange(i + 1, i + 1) =~= lv.take(i as int));
        }
        j = j + 1;
    }
    assert(views(kept@) =~= lv.remove(i as int));
    let mut body = join_strings(&kept, "\n");
    proof {
        crate::text::reveal_newline();
    }
    if ends_with_newline(content) && !body.as_str().is_empty() {
        push_char(&mut body, '\n');
    }
    Ok(LineRemoval { content: body, removed: ls[i].clone() })
}

pub open spec fn missing_line_message(n: nat, file: Seq<char>, count: nat) -> Seq<char> {
    "line "@ + decimal(n) + " does not exist in '"@ + file + "' ("@ + decimal(count) + " lines)"@
}

pub open spec fn not_a_fuse_message(n: nat, file: Seq<char>) -> Seq<char> {
    "line "@ + decimal(n) + " of "@ + file + " does not appear to be a timebomb annotation"@
}

/// The line `line_number` (1-based) of `content`, the file at `file`, when
/// it exists and holds a fuse's date bracket, so that it may be removed.
pub fn removable_line(content: &str, file: &str, line_number: usize) -> (r: Result<String>)
    ensures
        ({
            let ls = lines(content@);
            let count = ls.len();
            if !(1 <= line_number <= count) {
                r matches Err(e) && e.detail() == missing_line_message(
                    line_number as nat,
                    file@,
                    count,
                )
            } else if !has_date_bracket(ls[line_number - 1]) {
                r matches Err(e) && e.detail() == not_a_fuse_message(line_number as nat, file@)
            } else {
                r matches Ok(l) && l@ == ls[line_number - 1]
            }
        }),
{
    let ls = lines_of(content);
    let count = ls.len();
    if line_number < 1 || line_number > count {
        let mut m = to_owned("line ");
        push_decimal(&mut m, line_number as u128);
        append(&mut m, " does not exist in '");
        append(&mut m, file);
        append(&mut m, "' (");
        push_decimal(&mut m, count as u128);
        append(&mut m, " lines)");
        return Err(Error::InvalidArgument(m));
    }
    let l = ls[line_number - 1].clone();
    if !is_timebomb_line(l.as_str()) {
        let mut m = to_owned("line ");
        push_decimal(&mut m, line_number as u128);
        append(&mut m, " of ");
        append(&mut m, file);
        append(&mut m, " does not appear to be a timebomb annotation");
        return Err(Error::InvalidArgument(m));
    }
    Ok(l)
}

/// What removing the 1-based lines `ns` of `content` one after another
/// gives: the final content, or the message of the first refusal.
pub open spec fn removed_in_turn(content: Seq<char>, file: Seq<char>, ns: Seq<usize>) -> std::result::Result<
    Seq<char>,
    Seq<char>,
>
    decreases ns.len(),
{
    if ns.len() == 0 {
        Ok(content)
    } else {
        match removed_in_turn(content, file, ns.drop_last()) {
            Err(m) => Err(m),
            Ok(c) => {
                let n = ns.last();
                let count = lines(c).len();
                if 1 <= n <= count {
                    Ok(without_line(c, n - 1))
                } else {
                    Err(remove_range_message(file, n as nat, count))
                }
            },
        }
    }
}

/// Removes the 1-based lines `ns` of `content` one after another, in the
/// order given; stops at the first that does not exist.
pub fn remove_lines(content: &str, file: &str, ns: &Vec<usize>) -> (r: Result<String>)
    ensures
        match (r, removed_in_turn(content@, file@, ns@)) {
            (Ok(x), Ok(y)) => x@ == y,
            (Err(e), Err(m)) => e.detail() == m,
            _ => false,
        },
{
    let mut cur = to_owned(content);
    let mut k: usize = 0;
    while k < ns.len()
        invariant
            k <= ns.len(),
            removed_in_turn(content@, file@, ns@.take(k as int)) == Ok::<Seq<char>, Seq<char>>(
                cur@,
            ),
        decreases ns.len() - k,
    {
        proof {
            assert(ns@.take(k + 1).drop_last() =~= ns@.take(k as int));
        }
        match remove_line(cur.as_str(), file, ns[k]) {
            Ok(x) => {
                cur = x.content;
            },
            Err(e) => {
                proof {
                    lemma_removed_in_turn_err(content@, file@, ns@, k as int);
                }
                return Err(e);
            },
        }
        k = k + 1;
    }
    assert(ns@.take(ns.len() as int) =~= ns@);
    Ok(cur)
}

proof fn lemma_removed_in_turn_err(content: Seq<char>, file: Seq<char>, ns: Seq<usize>, k: int)
    requires
        0 <= k < ns.len(),
        removed_in_turn(content, file, ns.take(k + 1)) is Err,
    ensures
        removed_in_turn(content, file, ns) == removed_in_turn(content, file, ns.take(k + 1)),
    decreases ns.len(),
{
    if k + 1 < ns.len() {
        assert(ns.drop_last().take(k + 1) =~= ns.take(k + 1));
        lemma_removed_in_turn_err(content, file, ns.drop_last(), k);
    } else {
        assert(ns.take(k + 1) =~= ns);
    }
}

/// Where the fuses in one file are to be removed: its path and the 1-based
/// lines, from the bottom of the file up.
#[derive(Debug)]
pub struct FileRemovals {
    pub file: String,
    pub lines: Vec<usize>,
}

/// `ns` runs strictly downwards.
pub open spec fn strictly_descending(ns: Seq<usize>) -> bool {
    forall|i: int, j: int| 0 <= i < j < ns.len() ==> ns[i] > ns[j]
}

/// `ns`, strictly descending, with `x` added in its place.
fn insert_descending(ns: &mut Vec<usize>, x: usize)
    requires
        strictly_descending(old(ns)@),
    ensures
        strictly_descending(final(ns)@),
        final(ns)@.to_set() == old(ns)@.to_set().insert(x),
{
    let mut p: usize = 0;
    while p < ns.len() && ns[p] > x
        invariant
            p <= ns.len(),
            forall|i: int| 0 <= i < p ==> ns@[i] > x,
        decreases ns.len() - p,
    {
        p = p + 1;
    }
    if p < ns.len() && ns[p] == x {
        assert(ns@.to_set().insert(x) =~= ns@.to_set());
        return;
    }
    let ghost before = ns@;
    ns.insert(p, x);
    proof {
        assert forall|i: int, j: int| 0 <= i < j < ns@.len() implies ns@[i] > ns@[j] by {
            if j < p {
            } else if j == p {
            } else if i < p {
                assert(ns@[j] == before[j - 1]);
                assert(before[p as int] < x || p == before.len());
            } else if i == p {
                assert(ns@[j] == before[j - 1]);
                if j - 1 > p {
                    assert(before[p as int] > before[j - 1]);
                }
            } else {
                assert(ns@[i] == before[i - 1] && ns@[j] == before[j - 1]);
            }
        }
        assert forall|y: usize| ns@.to_set().contains(y) <==> before.to_set().insert(x).contains(y) by {
            if ns@.contains(y) {
                let i = choose|i: int| 0 <= i < ns@.len() && ns@[i] == y;
                if i > p {
                    assert(before[i - 1] == y);
                } else if i < p {
                    assert(before[i] == y);
                }
            }
            if before.contains(y) {
                let i = choose|i: int| 0 <= i < before.len() && before[i] == y;
                if i >= p {
                    assert(ns@[i + 1] == y);
                } else {
                    assert(ns@[i] == y);
                }
            }
            if y == x {
                assert(ns@[p as int] == x);
            }
        }
        assert(ns@.to_set() =~= before.to_set().insert(x));
    }
}

/// Some entry of `r` is for the same path as `f`.
pub open spec fn file_listed(r: Seq<FileRemovals>, f: Seq<char>) -> bool {
    exists|g: int| 0 <= g < r.len() && same_path(r[g].file@, f)
}

/// The removals that disarm the fuses `fuses`: one entry per file (files
/// compared as paths), in the order in which files first occur, each with
/// the fuses' lines from the bottom up and without repeats, so that
/// removing them in turn never shifts a line still to be removed.
pub fn removal_plan(fuses: &Vec<Fuse>) -> (r: Vec<FileRemovals>)
    ensures
        forall|g: int, h: int| 0 <= g < h < r@.len() ==> !same_path(r@[g].file@, r@[h].file@),
        forall|g: int| 0 <= g < r@.len() ==> strictly_descending(#[trigger] r@[g].lines@),
        forall|g: int, n: usize|
            0 <= g < r@.len() ==> (#[trigger] r@[g].lines@.contains(n) <==> exists|k: int|
                0 <= k < fuses@.len() && same_path(fuses@[k].file@, r@[g].file@) && fuses@[k].line == n),
        forall|k: int| 0 <= k < fuses@.len() ==> file_listed(r@, #[trigger] fuses@[k].file@),
{
    let mut r: Vec<FileRemovals> = Vec::new();
    let mut k: usize = 0;
    while k < fuses.len()
        invariant
            k <= fuses.len(),
            forall|g: int, h: int| 0 <= g < h < r@.len() ==> !same_path(r@[g].file@, r@[h].file@),
            forall|g: int| 0 <= g < r@.len() ==> strictly_descending(#[trigger] r@[g].lines@),
            forall|g: int, n: usize|
                0 <= g < r@.len() ==> (#[trigger] r@[g].lines@.contains(n) <==> exists|j: int|
                    0 <= j < k && same_path(fuses@[j].file@, r@[g].file@) && fuses@[j].line == n),
            forall|j: int| 0 <= j < k ==> file_listed(r@, #[trigger] fuses@[j].file@),
        decreases fuses.len() - k,
    {
        let f = &fuses[k];
        let mut g: usize = 0;
        while g < r.len() && !paths_equal(r[g].file.as_str(), f.file.as_str())
            invariant
                g <= r@.len(),
                forall|h: int| 0 <= h < g ==> !same_path(r@[h].file@, f.file@),
            decreases r.len() - g,
        {
            g = g + 1;
        }
        let ghost old_r = r@;
        if g == r.len() {
            let mut ns: Vec<usize> = Vec::new();
            ns.push(f.line);
            r.push(FileRemovals { file: f.file.clone(), lines: ns });
            proof {
                assert forall|h: int, n: usize|
                    0 <= h < r@.len() implies (#[trigger] r@[h].lines@.contains(n) <==> exists|j: int|
                    0 <= j < k + 1 && same_path(fuses@[j].file@, r@[h].file@) && fuses@[j].line == n) by {
                    if h < old_r.len() {
                        assert(r@[h] == old_r[h]);
                        if r@[h].lines@.contains(n) {
                            let j = choose|j: int|
                                0 <= j < k && same_path(fuses@[j].file@, old_r[h].file@) && fuses@[j].line == n;
                            assert(0 <= j < k + 1);
                        }
                    } else {
                        if r@[h].lines@.contains(n) {
                            assert(r@[h].lines@ == seq![f.line]);
                            assert(r@[h].lines@[0] == n);
                            assert(same_path(fuses@[k as int].file@, r@[h].file@));
                        }
                        if exists|j: int|
                            0 <= j < k + 1 && same_path(fuses@[j].file@, r@[h].file@) && fuses@[j].line == n {
                            let j = choose|j: int|
                                0 <= j < k + 1 && same_path(fuses@[j].file@, r@[h].file@) && fuses@[j].line
                                    == n;
                            if j < k {
                                assert(file_listed(old_r, fuses@[j].file@));
                                let gg = choose|gg: int|
                                    0 <= gg < old_r.len() && same_path(old_r[gg].file@, fuses@[j].file@);
                                assert(false);
                            }
                            assert(r@[h].lines@[0] == n);
                        }
                    }
                }
                assert forall|j: int| 0 <= j < k + 1 implies file_listed(
                    r@,
                    #[trigger] fuses@[j].file@,
                ) by {
                    if j < k {
                        let gg = choose|gg: int|
                            0 <= gg < old_r.len() && same_path(old_r[gg].file@, fuses@[j].file@);
                        assert(r@[gg] == old_r[gg]);
                    } else {
                        assert(same_path(r@[old_r.len() as int].file@, fuses@[j].file@));
                    }
                }
            }
        } else {
            let mut entry = FileRemovals { file: String::new(), lines: Vec::new() };
            std::mem::swap(&mut entry, &mut r[g]);
            let ghost old_lines = entry.lines@;
            insert_descending(&mut entry.lines, f.line);
            std::mem::swap(&mut entry, &mut r[g]);
            proof {
                assert(same_path(r@[g as int].file@, f.file@));
                assert forall|h: int, n: usize|
                    0 <= h < r@.len() implies (#[trigger] r@[h].lines@.contains(n) <==> exists|j: int|
                    0 <= j < k + 1 && same_path(fuses@[j].file@, r@[h].file@) && fuses@[j].line == n) by {
                    if h != g {
                        assert(r@[h] == old_r[h]);
                        if r@[h].lines@.contains(n) {
                            let j = choose|j: int|
                                0 <= j < k && same_path(fuses@[j].file@, old_r[h].file@) && fuses@[j].line == n;
                            assert(0 <= j < k + 1);
                        }
                        if exists|j: int|
                            0 <= j < k + 1 && same_path(fuses@[j].file@, r@[h].file@) && fuses@[j].line == n {
                            let j = choose|j: int|
                                0 <= j < k + 1 && same_path(fuses@[j].file@, r@[h].file@) && fuses@[j].line
                                    == n;
                            if j == k {
                                if h < g {
                                    assert(!same_path(old_r[h].file@, old_r[g as int].file@));
                                } else {
                                    assert(!same_path(old_r[g as int].file@, old_r[h].file@));
                                }
                                assert(false);
                            }
                        }
                    } else {
                        assert(r@[h].lines@.to_set() == old_lines.to_set().insert(f.line));
                        assert(r@[h].lines@.contains(n) == r@[h].lines@.to_set().contains(n));
                        assert(old_lines.contains(n) == old_lines.to_set().contains(n));
                        assert(old_lines == old_r[h].lines@);
                        if old_lines.contains(n) {
                            let j = choose|j: int|
                                0 <= j < k && same_path(fuses@[j].file@, old_r[h].file@) && fuses@[j].line == n;
                            assert(0 <= j < k + 1);
                        }
                        if n == f.line {
                            assert(same_path(fuses@[k as int].file@, r@[h].file@));
                        }
                        if exists|j: int|
                            0 <= j < k + 1 && same_path(fuses@[j].file@, r@[h].file@) && fuses@[j].line == n {
                            let j = choose|j: int|
                                0 <= j < k + 1 && same_path(fuses@[j].file@, r@[h].file@) && fuses@[j].line
                                    == n;
                            if j < k {
                                assert(old_r[h].lines@.contains(n));
                            }
                        }
                    }
                }
                assert forall|j: int| 0 <= j < k + 1 implies file_listed(
                    r@,
                    #[trigger] fuses@[j].file@,
                ) by {
                    if j < k {
                        let gg = choose|gg: int|
                            0 <= gg < old_r.len() && same_path(old_r[gg].file@, fuses@[j].file@);
                        assert(same_path(r@[gg].file@, old_r[gg].file@));
                    } else {
                        assert(same_path(r@[g as int].file@, fuses@[j].file@));
                    }
                }
                assert forall|a: int, b: int| 0 <= a < b < r@.len() implies r@[a].file@
                    != r@[b].file@ by {
                    assert(same_path(r@[a].file@, old_r[a].file@) && same_path(r@[b].file@, old_r[b].file@));
                }
            }
        }
        k = k + 1;
    }
    r
}

/// Planting a fuse before a line of a file and then removing that line
/// gives the file back as it was; the line removed is the fuse. The file
/// uses `\n` line ends and is not a lone newline; the fuse is one
/// nonempty line.
pub proof fn law_remove_undoes_plant(content: Seq<char>, line_number: int, annotation: Seq<char>)
    requires
        no_carriage_return(content),
        content != seq!['\n'],
        single_line(annotation),
        annotation.len() > 0,
        1 <= line_number <= lines(content).len() + 1,
    ensures
        line_number <= lines(planted(content, line_number, annotation)).len(),
        lines(planted(content, line_number, annotation))[line_number - 1] == annotation,
        without_line(planted(content, line_number, annotation), line_number - 1) == content,
{
    let ls = lines(content);
    let i = line_number - 1;
    let ext = inserted(ls, i, annotation);
    let p = planted(content, line_number, annotation);
    lemma_lines_shape(content);
    assert forall|j: int| 0 <= j < ext.len() implies single_line(#[trigger] ext[j]) by {
        if j < i {
            assert(ext[j] == ls[j]);
        } else if j > i {
            assert(ext[j] == ls[j - 1]);
        }
    }
    let ends = content.len() > 0 && content.last() == '\n';
    if ends {
        lemma_lines_of_terminated(ext);
        assert(lines(p) == ext);
    } else {
        if ls.len() > 0 {
            if i < ls.len() {
                assert(ext.last() == ls.last());
            }
        }
        assert(ext.last().len() > 0);
        lemma_lines_of_joined(ext);
        assert(lines(p) == ext);
        lemma_join_last(ext, seq!['\n']);
        assert(ext.last().last() != '\n');
    }
    assert(ext.remove(i) =~= ls);
    if ends {
        if join(ls, seq!['\n']).len() == 0 {
            assert(content =~= seq!['\n']);
        }
        assert(p.len() > 0 && p.last() == '\n');
    }
}

// ───────────────────────── removing bottom-up ─────────────────────────

/// Some entry of `ns` is `n`.
pub open spec fn listed(ns: Seq<usize>, n: int) -> bool {
    exists|k: int| 0 <= k < ns.len() && ns[k] == n
}

/// The lines of `ls` whose 1-based numbers `ns` does not list, in order.
pub open spec fn lines_not_listed(ls: Seq<Seq<char>>, ns: Seq<usize>) -> Seq<Seq<char>>
    decreases ls.len(),
{
    if ls.len() == 0 {
        Seq::empty()
    } else {
        lines_not_listed(ls.drop_last(), ns) + if listed(ns, ls.len() as int) {
            Seq::<Seq<char>>::empty()
        } else {
            seq![ls.last()]
        }
    }
}

proof fn lemma_not_listed_len(ls: Seq<Seq<char>>, ns: Seq<usize>)
    ensures
        lines_not_listed(ls, ns).len() <= ls.len(),
        forall|i: int|
            0 <= i < lines_not_listed(ls, ns).len() ==> exists|j: int|
                0 <= j < ls.len() && ls[j] == #[trigger] lines_not_listed(ls, ns)[i],
    decreases ls.len(),
{
    if ls.len() > 0 {
        let x = lines_not_listed(ls.drop_last(), ns);
        lemma_not_listed_len(ls.drop_last(), ns);
        let y = lines_not_listed(ls, ns);
        assert forall|i: int| 0 <= i < y.len() implies exists|j: int|
            0 <= j < ls.len() && ls[j] == #[trigger] y[i] by {
            if i < x.len() {
                assert(y[i] == x[i]);
                let j = choose|j: int| 0 <= j < ls.drop_last().len() && ls.drop_last()[j] == x[i];
                assert(ls[j] == ls.drop_last()[j]);
            } else {
                assert(y[i] == ls[ls.len() - 1]);
            }
        }
    }
}

/// Where `ns` lists only numbers above `m`, the first `m` lines all stay.
proof fn lemma_not_listed_prefix(ls: Seq<Seq<char>>, ns: Seq<usize>, m: int)
    requires
        0 <= m <= ls.len(),
        forall|k: int| 0 <= k < ns.len() ==> ns[k] > m,
    ensures
        lines_not_listed(ls, ns).len() >= m,
        lines_not_listed(ls, ns).take(m) == ls.take(m),
    decreases ls.len(),
{
    if ls.len() > 0 {
        let x = lines_not_listed(ls.drop_last(), ns);
        let y = lines_not_listed(ls, ns);
        if ls.len() > m {
            lemma_not_listed_prefix(ls.drop_last(), ns, m);
            assert(y.take(m) =~= x.take(m));
            assert(ls.drop_last().take(m) =~= ls.take(m));
        } else {
            lemma_not_listed_prefix(ls.drop_last(), ns, m - 1);
            lemma_not_listed_len(ls.drop_last(), ns);
            assert(x.take(m - 1) =~= x);
            assert(ls.drop_last().take(m - 1) =~= ls.drop_last());
            assert(!listed(ns, ls.len() as int));
            assert(y =~= ls);
            assert(y.take(m) =~= ls.take(m));
        }
    }
}

/// Listing a number beyond the last line changes nothing.
proof fn lemma_not_listed_beyond(ls: Seq<Seq<char>>, ns: Seq<usize>, v: usize)
    requires
        v > ls.len(),
    ensures
        lines_not_listed(ls, ns.push(v)) == lines_not_listed(ls, ns),
    decreases ls.len(),
{
    if ls.len() > 0 {
        lemma_not_listed_beyond(ls.drop_last(), ns, v);
        let n = ls.len() as int;
        if listed(ns.push(v), n) {
            let k = choose|k: int| 0 <= k < ns.push(v).len() && ns.push(v)[k] == n;
            assert(k < ns.len() && ns[k] == n);
        }
        if listed(ns, n) {
            let k = choose|k: int| 0 <= k < ns.len() && ns[k] == n;
            assert(ns.push(v)[k] == n);
        }
    }
}

/// Listing a number below all listed ones takes out that line of what is
/// left.
#[verifier::spinoff_prover]
#[verifier::rlimit(50)]
proof fn lemma_not_listed_push(ls: Seq<Seq<char>>, ns: Seq<usize>, n: usize)
    requires
        1 <= n <= ls.len(),
        forall|k: int| 0 <= k < ns.len() ==> ns[k] > n,
    ensures
        lines_not_listed(ls, ns).len() >= n,
        lines_not_listed(ls, ns.push(n)) == lines_not_listed(ls, ns).remove(n - 1),
    decreases ls.len(),
{
    let x = lines_not_listed(ls.drop_last(), ns);
    let xn = lines_not_listed(ls.drop_last(), ns.push(n));
    lemma_not_listed_prefix(ls, ns, n as int);
    let len = ls.len() as int;
    if ls.len() == n {
        assert(listed(ns.push(n), len) ) by {
            assert(ns.push(n)[ns.len() as int] == n);
        }
        assert(!listed(ns, len));
        lemma_not_listed_beyond(ls.drop_last(), ns, n);
        lemma_not_listed_prefix(ls.drop_last(), ns, n - 1);
        lemma_not_listed_len(ls.drop_last(), ns);
        assert(x.take(n - 1) =~= x);
        assert(ls.drop_last().take(n - 1) =~= ls.drop_last());
        assert(lines_not_listed(ls, ns) =~= ls);
        assert(ls.remove(n - 1) =~= ls.drop_last());
    } else {
        lemma_not_listed_push(ls.drop_last(), ns, n);
        if listed(ns.push(n), len) {
            let k = choose|k: int| 0 <= k < ns.push(n).len() && ns.push(n)[k] == len;
            assert(k < ns.len() && ns[k] == len);
        }
        if listed(ns, len) {
            let k = choose|k: int| 0 <= k < ns.len() && ns[k] == len;
            assert(ns.push(n)[k] == len);
        }
        let t = if listed(ns, len) {
            Seq::<Seq<char>>::empty()
        } else {
            seq![ls.last()]
        };
        assert(lines_not_listed(ls, ns) == x + t);
        assert(lines_not_listed(ls, ns.push(n)) == xn + t);
        assert((x + t).remove(n - 1) =~= x.remove(n - 1) + t);
    }
}

pub(crate) proof fn lemma_join_has_no_carriage_return(ls: Seq<Seq<char>>)
    requires
        forall|i: int| 0 <= i < ls.len() ==> single_line(#[trigger] ls[i]),
    ensures
        no_carriage_return(join(ls, seq!['\n'])),
    decreases ls.len(),
{
    if ls.len() > 1 {
        assert forall|i: int| 0 <= i < ls.drop_last().len() implies single_line(
            #[trigger] ls.drop_last()[i],
        ) by {
            assert(ls.drop_last()[i] == ls[i]);
        }
        lemma_join_has_no_carriage_return(ls.drop_last());
        assert(single_line(ls.last()));
    } else if ls.len() == 1 {
        assert(single_line(ls[0]));
    }
}

/// `s` ends with a newline.
pub open spec fn ends_in_newline(s: Seq<char>) -> bool {
    s.len() > 0 && s.last() == '\n'
}

/// Taking out one line leaves the other lines, where what is left is not a
/// lone empty line and, in a file without a final newline, does not end
/// with an empty line.
pub(crate) proof fn lemma_without_line_lines(c: Seq<char>, i: int)
    requires
        no_carriage_return(c),
        0 <= i < lines(c).len(),
        lines(c).remove(i) != seq![Seq::<char>::empty()],
        !ends_in_newline(c) && lines(c).remove(i).len() > 0 ==> lines(c).remove(i).last().len()
            > 0,
    ensures
        lines(without_line(c, i)) == lines(c).remove(i),
        no_carriage_return(without_line(c, i)),
        ends_in_newline(without_line(c, i)) ==> ends_in_newline(c),
        ends_in_newline(c) ==> without_line(c, i).len() == 0 || ends_in_newline(
            without_line(c, i),
        ),
{
    lemma_lines_shape(c);
    let ls = lines(c);
    let rest = ls.remove(i);
    let body = join(rest, seq!['\n']);
    assert forall|k: int| 0 <= k < rest.len() implies single_line(#[trigger] rest[k]) by {
        if k < i {
            assert(rest[k] == ls[k]);
        } else {
            assert(rest[k] == ls[k + 1]);
        }
    }
    lemma_join_has_no_carriage_return(rest);
    if rest.len() == 0 {
        assert(body =~= Seq::<char>::empty());
        assert(lines(body) =~= Seq::<Seq<char>>::empty());
    } else if ends_in_newline(c) {
        if rest.len() == 1 {
            assert(rest[0].len() > 0) by {
                if rest[0].len() == 0 {
                    assert(rest[0] =~= Seq::<char>::empty());
                    assert(rest =~= seq![Seq::<char>::empty()]);
                }
            }
            assert(body == rest[0]);
        } else {
            assert(body == join(rest.drop_last(), seq!['\n']) + seq!['\n'] + rest.last());
        }
        assert(body.len() > 0);
        lemma_lines_of_terminated(rest);
    } else {
        lemma_lines_of_joined(rest);
        lemma_join_last(rest, seq!['\n']);
        assert(single_line(rest.last()));
        assert(rest.last().last() == rest.last()[rest.last().len() - 1]);
    }
}

/// The content after the first `k` removals: what stays are the lines not
/// listed so far; the file still ends with a newline or is empty, as before.
proof fn lemma_bottom_up_steps(content: Seq<char>, file: Seq<char>, ns: Seq<usize>)
    requires
        no_carriage_return(content),
        strictly_descending(ns),
        forall|k: int| 0 <= k < ns.len() ==> 1 <= #[trigger] ns[k] <= lines(content).len(),
        (forall|i: int| 0 <= i < lines(content).len() ==> (#[trigger] lines(content)[i]).len() > 0)
            || (ends_in_newline(content) && lines(content).len() >= ns.len() + 2),
    ensures
        removed_in_turn(content, file, ns) matches Ok(c) && {
            &&& lines(c) == lines_not_listed(lines(content), ns)
            &&& lines(c).len() == lines(content).len() - ns.len()
            &&& no_carriage_return(c)
            &&& ends_in_newline(c) ==> ends_in_newline(content)
            &&& ends_in_newline(content) ==> c.len() == 0 || ends_in_newline(c)
        },
    decreases ns.len(),
{
    let ls = lines(content);
    if ns.len() == 0 {
        lemma_not_listed_prefix(ls, ns, ls.len() as int);
        lemma_not_listed_len(ls, ns);
        assert(ls.take(ls.len() as int) =~= ls);
        assert(lines_not_listed(ls, ns).take(ls.len() as int) =~= lines_not_listed(ls, ns));
    } else {
        let front = ns.drop_last();
        let n = ns.last();
        assert(strictly_descending(front));
        assert forall|k: int| 0 <= k < front.len() implies 1 <= #[trigger] front[k] <= ls.len() by {
            assert(front[k] == ns[k]);
        }
        lemma_bottom_up_steps(content, file, front);
        let c = removed_in_turn(content, file, front)->Ok_0;
        assert(ns[ns.len() - 1] == n);
        assert(1 <= n <= ls.len());
        assert forall|k: int| 0 <= k < front.len() implies front[k] > n by {
            assert(front[k] == ns[k]);
        }
        lemma_not_listed_push(ls, front, n);
        assert(front.push(n) =~= ns);
        let rest = lines(c).remove(n - 1);
        assert(rest == lines_not_listed(ls, ns));
        lemma_not_listed_len(ls, ns);
        if forall|i: int| 0 <= i < ls.len() ==> (#[trigger] ls[i]).len() > 0 {
            if rest.len() > 0 {
                let j = choose|j: int| 0 <= j < ls.len() && ls[j] == rest[rest.len() - 1];
                assert(ls[j].len() > 0);
                assert(rest.last().len() > 0);
                if rest.len() == 1 {
                    assert(rest[0] != Seq::<char>::empty());
                }
            }
        } else {
            assert(rest.len() >= 2);
        }
        lemma_without_line_lines(c, n - 1);
    }
}

/// Removing lines from the bottom of a file up takes out exactly the lines
/// listed, by their numbers in the file as it was, and every other line
/// stays in order; this is why fuses are removed bottom-up. It holds for a
/// file without `'\r'` whose lines are all nonempty, or which ends with a
/// newline and keeps at least two lines.
pub proof fn law_bottom_up_removal(content: Seq<char>, file: Seq<char>, ns: Seq<usize>)
    requires
        no_carriage_return(content),
        strictly_descending(ns),
        forall|k: int| 0 <= k < ns.len() ==> 1 <= #[trigger] ns[k] <= lines(content).len(),
        (forall|i: int| 0 <= i < lines(content).len() ==> (#[trigger] lines(content)[i]).len() > 0)
            || (content.len() > 0 && content.last() == '\n' && lines(content).len() >= ns.len()
            + 2),
    ensures
        removed_in_turn(content, file, ns) matches Ok(c) && lines(c) == lines_not_listed(
            lines(content),
            ns,
        ),
{
    lemma_bottom_up_steps(content, file, ns);
}

} // verus!
