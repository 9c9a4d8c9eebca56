//! Defusing detonated fuses one by one: what each answer means, and the
//! edits that carry the chosen actions out.

use crate::date::{formatted_ymd, parsed_ymd, Date};
use crate::error::{Error, Result};
use crate::remove::{
    ends_in_newline, lemma_join_has_no_carriage_return, lemma_without_line_lines, without_line,
};
use crate::snooze::{
    law_delay_changes_only_its_line, replace_line, replaced_line, snoozed_line, snooze_line,
};
use crate::order::{is_permutation, stable_order, SortKey};
use crate::text::{
    append, decimal, lemma_join_last, lemma_lines_shape, lines, lines_of, no_carriage_return,
    push_decimal, single_line, str_eq, to_owned, trim, trim_str,
};
use crate::path::{lemma_components_key, path_components, path_key, path_key_of, path_lt, same_path};
use vstd::prelude::*;

verus! {

/// What to do with one detonated fuse.
#[derive(Clone, Copy, Debug, PartialEq, Eq, Structural)]
pub enum FixAction {
    /// Move its date to this one.
    Extend(Date),
    /// Remove its line.
    Delete,
    /// Leave it.
    Skip,
}

/// How many fuses each action was applied to.
#[derive(Debug)]
pub struct FixSummary {
    pub extended: usize,
    pub deleted: usize,
    pub skipped: usize,
}

/// What an answer to the action prompt asks for.
#[derive(Clone, Copy, Debug, PartialEq, Eq, Structural)]
pub enum Answer {
    /// `e` or `E`: extend, then ask for the new date.
    Extend,
    /// `d` or `D`.
    Delete,
    /// `s`, `S` or an empty answer (also the end of input).
    Skip,
    /// `?`: show the help and ask again.
    Help,
    /// Anything else: say so and ask again.
    Unknown,
}

/// The meaning of the trimmed answer `t`.
pub open spec fn answer_of(t: Seq<char>) -> Answer {
    if t == "e"@ || t == "E"@ {
        Answer::Extend
    } else if t == "d"@ || t == "D"@ {
        Answer::Delete
    } else if t == "s"@ || t == "S"@ || t.len() == 0 {
        Answer::Skip
    } else if t == "?"@ {
        Answer::Help
    } else {
        Answer::Unknown
    }
}

/// The letters of the action prompt, in either case and once trimmed:
/// `e` extends, `d` deletes, `s` or nothing skips, `?` asks for help, and
/// any other answer is unknown.
pub proof fn law_answer_letters(input: Seq<char>)
    ensures
        trim(input) == seq!['e'] || trim(input) == seq!['E'] ==> answer_of(trim(input)) == Answer::Extend,
        trim(input) == seq!['d'] || trim(input) == seq!['D'] ==> answer_of(trim(input)) == Answer::Delete,
        trim(input) == seq!['s'] || trim(input) == seq!['S'] || trim(input).len() == 0 ==> answer_of(trim(input))
            == Answer::Skip,
        trim(input) == seq!['?'] ==> answer_of(trim(input)) == Answer::Help,
        trim(input) != seq!['e'] && trim(input) != seq!['E'] && trim(input) != seq!['d'] && trim(input)
            != seq!['D'] && trim(input) != seq!['s'] && trim(input) != seq!['S'] && trim(input).len() != 0
            && trim(input) != seq!['?'] ==> answer_of(trim(input)) == Answer::Unknown,
{
    reveal_strlit("e");
    reveal_strlit("E");
    reveal_strlit("d");
    reveal_strlit("D");
    reveal_strlit("s");
    reveal_strlit("S");
    reveal_strlit("?");
    let t = trim(input);
    assert("e"@ =~= seq!['e']);
    assert("E"@ =~= seq!['E']);
    assert("d"@ =~= seq!['d']);
    assert("D"@ =~= seq!['D']);
    assert("s"@ =~= seq!['s']);
    assert("S"@ =~= seq!['S']);
    assert("?"@ =~= seq!['?']);
    if t.len() == 1 {
        let c = t[0];
        assert(t =~= seq![c]);
        assert(seq![c][0] == c);
        assert(seq!['e'][0] == 'e' && seq!['E'][0] == 'E' && seq!['d'][0] == 'd' && seq!['D'][0] == 'D');
        assert(seq!['s'][0] == 's' && seq!['S'][0] == 'S' && seq!['?'][0] == '?');
    }
}

/// What the answer `input` to the action prompt asks for, once trimmed:
/// `e`/`E` extend, `d`/`D` delete, `s`/`S` or nothing skip, `?` help.
pub fn read_answer(input: &str) -> (r: Answer)
    ensures
        r == answer_of(trim(input@)),
        trim(input@) == seq!['e'] || trim(input@) == seq!['E'] ==> r == Answer::Extend,
        trim(input@) == seq!['d'] || trim(input@) == seq!['D'] ==> r == Answer::Delete,
        trim(input@) == seq!['s'] || trim(input@) == seq!['S'] || trim(input@).len() == 0 ==> r == Answer::Skip,
        trim(input@) == seq!['?'] ==> r == Answer::Help,
{
    proof {
        law_answer_letters(input@);
    }
    let t = trim_str(input);
    let s = t.as_str();
    if str_eq(s, "e") || str_eq(s, "E") {
        Answer::Extend
    } else if str_eq(s, "d") || str_eq(s, "D") {
        Answer::Delete
    } else if str_eq(s, "s") || str_eq(s, "S") || s.is_empty() {
        Answer::Skip
    } else if str_eq(s, "?") {
        Answer::Help
    } else {
        Answer::Unknown
    }
}

/// The three help lines shown for `?`.
pub fn help_lines() -> (r: Vec<String>)
    ensures
        r@.len() == 3,
        r@[0]@ == "  e  — extend: enter a new expiry date (must be after today)"@,
        r@[1]@ == "  d  — delete: remove the fuse line from the file"@,
        r@[2]@ == "  s  — skip:   leave the fuse unchanged and continue"@,
{
    let mut r: Vec<String> = Vec::new();
    r.push(to_owned("  e  — extend: enter a new expiry date (must be after today)"));
    r.push(to_owned("  d  — delete: remove the fuse line from the file"));
    r.push(to_owned("  s  — skip:   leave the fuse unchanged and continue"));
    r
}

/// The line shown for an answer that means nothing.
pub fn unknown_answer_line(t: &str) -> (r: String)
    ensures
        r@ == "  Unknown option '"@ + t@ + "'. Enter e, d, s, or ?."@,
{
    let mut r = to_owned("  Unknown option '");
    append(&mut r, t);
    append(&mut r, "'. Enter e, d, s, or ?.");
    r
}

/// The new date typed at the date prompt: a `YYYY-MM-DD` date after
/// `today`, else the line that asks again.
pub fn read_new_date(input: &str, today: &Date) -> (r: std::result::Result<Date, String>)
    ensures
        match parsed_ymd(trim(input@)) {
            Some(d) => if d > today@ {
                r matches Ok(x) && x@ == d
            } else {
                r matches Err(m) && m@ == "  Date must be after today ("@ + formatted_ymd(today@ as i32) + "). Try again."@
            },
            None => r matches Err(m) && m@ == "  '"@ + trim(input@) + "' is not a valid date. Expected YYYY-MM-DD."@,
        },
{
    let t = trim_str(input);
    match Date::parse(t.as_str()) {
        Some(d) => {
            if today.before(&d) {
                Ok(d)
            } else {
                let mut m = to_owned("  Date must be after today (");
                let ds = today.format();
                append(&mut m, ds.as_str());
                append(&mut m, "). Try again.");
                Err(m)
            }
        },
        None => {
            let mut m = to_owned("  '");
            append(&mut m, t.as_str());
            append(&mut m, "' is not a valid date. Expected YYYY-MM-DD.");
            Err(m)
        },
    }
}

pub open spec fn extend_range_message(n: nat, file: Seq<char>, count: nat) -> Seq<char> {
    "line "@ + decimal(n) + " is out of range for '"@ + file + "' ("@ + decimal(count) + " lines)"@
}

pub open spec fn extend_no_bracket_message(n: nat, file: Seq<char>) -> Seq<char> {
    "no timebomb date bracket found on line "@ + decimal(n) + " of '"@ + file + "'"@
}

/// `content`, the file at `file`, with the date bracket on line
/// `line_number` (1-based) moved to `new_date`.
pub fn apply_extend(content: &str, file: &str, line_number: usize, new_date: &Date) -> (r: Result<String>)
    ensures
        ({
            let ls = lines(content@);
            let count = ls.len();
            if !(1 <= line_number <= count) {
                r matches Err(e) && e.detail() == extend_range_message(line_number as nat, file@, count)
            } else {
                match snoozed_line(ls[line_number - 1], new_date@) {
                    None => r matches Err(e) && e.detail() == extend_no_bracket_message(line_number as nat, file@),
                    Some(s) => r matches Ok(c) && c@ == replaced_line(content@, line_number - 1, s),
                }
            }
        }),
{
    let ls = lines_of(content);
    let count = ls.len();
    if line_number < 1 || line_number > count {
        let mut m = to_owned("line ");
        push_decimal(&mut m, line_number as u128);
        append(&mut m, " is out of range for '");
        append(&mut m, file);
        append(&mut m, "' (");
        push_decimal(&mut m, count as u128);
        append(&mut m, " lines)");
        return Err(Error::InvalidArgument(m));
    }
    assert(ls@[line_number - 1]@ == lines(content@)[line_number - 1]);
    match snooze_line(ls[line_number - 1].as_str(), new_date) {
        Some(s) => Ok(replace_line(content, &ls, line_number - 1, s.as_str())),
        None => {
            let mut m = to_owned("no timebomb date bracket found on line ");
            push_decimal(&mut m, line_number as u128);
            append(&mut m, " of '");
            append(&mut m, file);
            append(&mut m, "'");
            Err(Error::InvalidArgument(m))
        },
    }
}

/// The summary that counts `actions`: how many extend, delete and skip.
pub open spec fn tallied(actions: Seq<FixAction>) -> (nat, nat, nat)
    decreases actions.len(),
{
    if actions.len() == 0 {
        (0, 0, 0)
    } else {
        let (e, d, s) = tallied(actions.drop_last());
        match actions.last() {
            FixAction::Extend(_) => (e + 1, d, s),
            FixAction::Delete => (e, d + 1, s),
            FixAction::Skip => (e, d, s + 1),
        }
    }
}

/// Counts the actions applied: extended, deleted and skipped fuses.
pub fn summarize(actions: &Vec<FixAction>) -> (r: FixSummary)
    ensures
        (r.extended as nat, r.deleted as nat, r.skipped as nat) == tallied(actions@),
{
    let mut e: usize = 0;
    let mut d: usize = 0;
    let mut s: usize = 0;
    let mut i: usize = 0;
    while i < actions.len()
        invariant
            i <= actions.len(),
            (e as nat, d as nat, s as nat) == tallied(actions@.take(i as int)),
            e + d + s == i,
        decreases actions.len() - i,
    {
        proof {
            assert(actions@.take(i + 1).drop_last() =~= actions@.take(i as int));
            assert(actions@.take(i + 1).last() == actions@[i as int]);
        }
        match &actions[i] {
            FixAction::Extend(_) => {
                e = e + 1;
            },
            FixAction::Delete => {
                d = d + 1;
            },
            FixAction::Skip => {
                s = s + 1;
            },
        }
        i = i + 1;
    }
    assert(actions@.take(actions.len() as int) =~= actions@);
    FixSummary { extended: e, deleted: d, skipped: s }
}

/// The action chosen for the fuse at `file:line`.
#[derive(Debug)]
pub struct FixDecision {
    pub file: String,
    pub line: usize,
    pub action: FixAction,
}

/// `a` is carried out before `b`: files in path order (component by
/// component), and within a file from the bottom line up.
pub open spec fn applied_before(a: FixDecision, b: FixDecision) -> bool {
    path_lt(a.file@, b.file@) || (same_path(a.file@, b.file@) && a.line > b.line)
}

/// The decisions in the order they are carried out: grouped by file, and
/// within each file from the bottom up, so that deleting a line never
/// shifts a line whose edit is still to come.
pub fn fix_order(ds: &Vec<FixDecision>) -> (r: Vec<FixDecision>)
    ensures
        exists|p: Seq<usize>|
            {
                &&& is_permutation(p, ds@.len())
                &&& r@.len() == p.len()
                &&& forall|i: int| 0 <= i < p.len() ==> #[trigger] r@[i] == ds@[p[i] as int]
                &&& forall|i: int, j: int|
                    0 <= i < j < p.len() ==> !applied_before(ds@[p[j] as int], ds@[p[i] as int])
            },
{
    let mut keys: Vec<SortKey> = Vec::new();
    let mut i: usize = 0;
    while i < ds.len()
        invariant
            i <= ds.len(),
            keys@.len() == i,
            forall|j: int|
                0 <= j < i ==> (#[trigger] keys@[j]).first == 0 && keys@[j].second == 0
                    && keys@[j].text@ == path_key(ds@[j].file@) && keys@[j].third == u64::MAX - ds@[j].line
                    && keys@[j].fourth == 0,
        decreases ds.len() - i,
    {
        keys.push(
            SortKey {
                first: 0,
                second: 0,
                text: path_key_of(ds[i].file.as_str()),
                third: u64::MAX - ds[i].line as u64,
                fourth: 0,
            },
        );
        i = i + 1;
    }
    let p = stable_order(&keys);
    let mut r: Vec<FixDecision> = Vec::new();
    let mut k: usize = 0;
    while k < p.len()
        invariant
            k <= p.len(),
            p@.len() == ds@.len(),
            forall|j: int| 0 <= j < p@.len() ==> p@[j] < ds@.len(),
            r@.len() == k,
            forall|j: int| 0 <= j < k ==> #[trigger] r@[j] == ds@[p@[j] as int],
        decreases p.len() - k,
    {
        let d = &ds[p[k]];
        r.push(FixDecision { file: d.file.clone(), line: d.line, action: d.action });
        k = k + 1;
    }
    proof {
        assert forall|a: int, b: int|
            0 <= a < b < p@.len() implies !applied_before(ds@[p@[b] as int], ds@[p@[a] as int]) by {
            let ka = keys@[p@[a] as int];
            let kb = keys@[p@[b] as int];
            lemma_components_key(path_components(ds@[p@[b] as int].file@), path_components(ds@[p@[a] as int].file@));
            assert(!crate::order::key_lt(kb, ka));
        }
    }
    r
}

// ───────────────────────── edits bottom-up ─────────────────────────

/// The edit that `eds` gives line `n` (1-based): `Some(Some(t))` to rewrite
/// it as `t`, `Some(None)` to delete it; the last one listed counts.
pub open spec fn edit_of(eds: Seq<(usize, Option<Seq<char>>)>, n: int) -> Option<Option<Seq<char>>>
    decreases eds.len(),
{
    if eds.len() == 0 {
        None
    } else if eds.last().0 == n {
        Some(eds.last().1)
    } else {
        edit_of(eds.drop_last(), n)
    }
}

/// The lines of `ls` with the edits `eds` made, each to the line that has
/// its number in `ls`.
pub open spec fn lines_edited(ls: Seq<Seq<char>>, eds: Seq<(usize, Option<Seq<char>>)>) -> Seq<
    Seq<char>,
>
    decreases ls.len(),
{
    if ls.len() == 0 {
        Seq::empty()
    } else {
        lines_edited(ls.drop_last(), eds) + match edit_of(eds, ls.len() as int) {
            None => seq![ls.last()],
            Some(None) => Seq::empty(),
            Some(Some(t)) => seq![t],
        }
    }
}

/// What making the edits `eds` one after another gives: each rewrites
/// (`apply_extend`) or deletes (`remove_line`) a line of the content as it
/// is at that point; `None` when a line does not exist.
pub open spec fn edited_in_turn(content: Seq<char>, eds: Seq<(usize, Option<Seq<char>>)>) -> Option<
    Seq<char>,
>
    decreases eds.len(),
{
    if eds.len() == 0 {
        Some(content)
    } else {
        match edited_in_turn(content, eds.drop_last()) {
            None => None,
            Some(c) => {
                let n = eds.last().0;
                if 1 <= n <= lines(c).len() {
                    match eds.last().1 {
                        Some(t) => Some(replaced_line(c, n - 1, t)),
                        None => Some(without_line(c, n - 1)),
                    }
                } else {
                    None
                }
            },
        }
    }
}

/// How many of the edits delete a line.
pub open spec fn deletions(eds: Seq<(usize, Option<Seq<char>>)>) -> nat
    decreases eds.len(),
{
    if eds.len() == 0 {
        0
    } else {
        deletions(eds.drop_last()) + if eds.last().1 is None {
            1nat
        } else {
            0nat
        }
    }
}

/// Every rewrite is a nonempty single line.
pub open spec fn rewrites_single_lines(eds: Seq<(usize, Option<Seq<char>>)>) -> bool {
    forall|k: int|
        0 <= k < eds.len() ==> match (#[trigger] eds[k]).1 {
            Some(t) => single_line(t) && t.len() > 0,
            None => true,
        }
}

proof fn lemma_edit_of_push(eds: Seq<(usize, Option<Seq<char>>)>, v: usize, e: Option<Seq<char>>, n: int)
    ensures
        edit_of(eds.push((v, e)), n) == if v == n {
            Some(e)
        } else {
            edit_of(eds, n)
        },
{
    assert(eds.push((v, e)).drop_last() =~= eds);
}

proof fn lemma_edit_of_above(eds: Seq<(usize, Option<Seq<char>>)>, m: int, n: int)
    requires
        forall|k: int| 0 <= k < eds.len() ==> eds[k].0 > m,
        n <= m,
    ensures
        edit_of(eds, n) is None,
    decreases eds.len(),
{
    if eds.len() > 0 {
        lemma_edit_of_above(eds.drop_last(), m, n);
    }
}

proof fn lemma_edited_len(ls: Seq<Seq<char>>, eds: Seq<(usize, Option<Seq<char>>)>)
    ensures
        lines_edited(ls, eds).len() <= ls.len(),
    decreases ls.len(),
{
    if ls.len() > 0 {
        lemma_edited_len(ls.drop_last(), eds);
    }
}

/// Lines below every edit stay as they are.
proof fn lemma_edited_prefix(ls: Seq<Seq<char>>, eds: Seq<(usize, Option<Seq<char>>)>, m: int)
    requires
        0 <= m <= ls.len(),
        forall|k: int| 0 <= k < eds.len() ==> eds[k].0 > m,
    ensures
        lines_edited(ls, eds).len() >= m,
        lines_edited(ls, eds).take(m) == ls.take(m),
    decreases ls.len(),
{
    if ls.len() > 0 {
        let x = lines_edited(ls.drop_last(), eds);
        let y = lines_edited(ls, eds);
        if ls.len() > m {
            lemma_edited_prefix(ls.drop_last(), eds, m);
            assert(y.take(m) =~= x.take(m));
            assert(ls.drop_last().take(m) =~= ls.take(m));
        } else {
            lemma_edited_prefix(ls.drop_last(), eds, m - 1);
            lemma_edited_len(ls.drop_last(), eds);
            lemma_edit_of_above(eds, m, m);
            assert(x.take(m - 1) =~= x);
            assert(ls.drop_last().take(m - 1) =~= ls.drop_last());
            assert(y =~= ls);
            assert(y.take(m) =~= ls.take(m));
        }
    }
}

/// An edit beyond the last line changes nothing.
proof fn lemma_edited_beyond(
    ls: Seq<Seq<char>>,
    eds: Seq<(usize, Option<Seq<char>>)>,
    v: usize,
    e: Option<Seq<char>>,
)
    requires
        v > ls.len(),
    ensures
        lines_edited(ls, eds.push((v, e))) == lines_edited(ls, eds),
    decreases ls.len(),
{
    if ls.len() > 0 {
        lemma_edited_beyond(ls.drop_last(), eds, v, e);
        lemma_edit_of_push(eds, v, e, ls.len() as int);
    }
}

/// An edit below all listed ones acts on that line of what the others
/// leave.
proof fn lemma_edited_push(
    ls: Seq<Seq<char>>,
    eds: Seq<(usize, Option<Seq<char>>)>,
    n: usize,
    e: Option<Seq<char>>,
)
    requires
        1 <= n <= ls.len(),
        forall|k: int| 0 <= k < eds.len() ==> eds[k].0 > n,
    ensures
        lines_edited(ls, eds).len() >= n,
        lines_edited(ls, eds.push((n, e))) == match e {
            Some(t) => lines_edited(ls, eds).update(n - 1, t),
            None => lines_edited(ls, eds).remove(n - 1),
        },
    decreases ls.len(),
{
    let x = lines_edited(ls.drop_last(), eds);
    let xn = lines_edited(ls.drop_last(), eds.push((n, e)));
    lemma_edited_prefix(ls, eds, n as int);
    let len = ls.len() as int;
    lemma_edit_of_push(eds, n, e, len);
    if ls.len() == n {
        lemma_edit_of_above(eds, n as int, n as int);
        lemma_edited_beyond(ls.drop_last(), eds, n, e);
        lemma_edited_prefix(ls.drop_last(), eds, n - 1);
        lemma_edited_len(ls.drop_last(), eds);
        assert(x.take(n - 1) =~= x);
        assert(ls.drop_last().take(n - 1) =~= ls.drop_last());
        assert(lines_edited(ls, eds) =~= ls);
        match e {
            Some(t) => {
                assert(ls.update(n - 1, t) =~= ls.drop_last().push(t));
            },
            None => {
                assert(ls.remove(n - 1) =~= ls.drop_last());
            },
        }
    } else {
        lemma_edited_push(ls.drop_last(), eds, n, e);
        let t = match edit_of(eds, len) {
            None => seq![ls.last()],
            Some(None) => Seq::empty(),
            Some(Some(w)) => seq![w],
        };
        assert(lines_edited(ls, eds) == x + t);
        assert(lines_edited(ls, eds.push((n, e))) == xn + t);
        match e {
            Some(w) => {
                assert((x + t).update(n - 1, w) =~= x.update(n - 1, w) + t);
            },
            None => {
                assert((x + t).remove(n - 1) =~= x.remove(n - 1) + t);
            },
        }
    }
}

proof fn lemma_replaced_line_shape(c: Seq<char>, i: int, t: Seq<char>)
    requires
        no_carriage_return(c),
        0 <= i < lines(c).len(),
        single_line(t),
        t.len() > 0,
        forall|j: int| 0 <= j < lines(c).len() ==> (#[trigger] lines(c)[j]).len() > 0 || ends_in_newline(c),
    ensures
        no_carriage_return(replaced_line(c, i, t)),
        ends_in_newline(replaced_line(c, i, t)) ==> ends_in_newline(c),
        ends_in_newline(c) ==> ends_in_newline(replaced_line(c, i, t)),
{
    lemma_lines_shape(c);
    let up = lines(c).update(i, t);
    assert forall|k: int| 0 <= k < up.len() implies single_line(#[trigger] up[k]) by {
        if k != i {
            assert(up[k] == lines(c)[k]);
        }
    }
    lemma_join_has_no_carriage_return(up);
    if !ends_in_newline(c) {
        assert(up.last().len() > 0) by {
            if up.len() - 1 != i {
                assert(up.last() == lines(c)[up.len() - 1]);
            }
        }
        lemma_join_last(up, seq!['\n']);
        assert(single_line(up.last()));
        assert(up.last().last() == up.last()[up.last().len() - 1]);
    }
}

proof fn lemma_edits_in_turn(content: Seq<char>, eds: Seq<(usize, Option<Seq<char>>)>)
    requires
        no_carriage_return(content),
        forall|i: int, j: int| 0 <= i < j < eds.len() ==> eds[i].0 > eds[j].0,
        forall|k: int| 0 <= k < eds.len() ==> 1 <= (#[trigger] eds[k]).0 <= lines(content).len(),
        rewrites_single_lines(eds),
        (forall|i: int| 0 <= i < lines(content).len() ==> (#[trigger] lines(content)[i]).len() > 0)
            || (ends_in_newline(content) && lines(content).len() >= deletions(eds) + 2),
    ensures
        edited_in_turn(content, eds) matches Some(c) && {
            &&& lines(c) == lines_edited(lines(content), eds)
            &&& lines(c).len() == lines(content).len() - deletions(eds)
            &&& no_carriage_return(c)
            &&& ends_in_newline(c) ==> ends_in_newline(content)
            &&& ends_in_newline(content) ==> c.len() == 0 || ends_in_newline(c)
            &&& (forall|i: int| 0 <= i < lines(content).len() ==> (#[trigger] lines(content)[i]).len()
                > 0) ==> forall|i: int| 0 <= i < lines(c).len() ==> (#[trigger] lines(c)[i]).len() > 0
        },
    decreases eds.len(),
{
    let ls = lines(content);
    if eds.len() == 0 {
        lemma_edited_prefix(ls, eds, ls.len() as int);
        lemma_edited_len(ls, eds);
        assert(ls.take(ls.len() as int) =~= ls);
        assert(lines_edited(ls, eds).take(ls.len() as int) =~= lines_edited(ls, eds));
    } else {
        let front = eds.drop_last();
        let (n, e) = eds.last();
        assert forall|k: int| 0 <= k < front.len() implies 1 <= (#[trigger] front[k]).0 <= ls.len()
            by {
            assert(front[k] == eds[k]);
        }
        assert forall|k: int| 0 <= k < front.len() implies match (#[trigger] front[k]).1 {
            Some(t) => single_line(t) && t.len() > 0,
            None => true,
        } by {
            assert(front[k] == eds[k]);
        }
        assert(deletions(front) <= deletions(eds));
        lemma_edits_in_turn(content, front);
        let c = edited_in_turn(content, front)->0;
        assert(eds[eds.len() - 1] == eds.last());
        assert(1 <= n <= ls.len());
        assert forall|k: int| 0 <= k < front.len() implies front[k].0 > n by {
            assert(front[k] == eds[k]);
        }
        lemma_edited_push(ls, front, n, e);
        assert(front.push((n, e)) =~= eds);
        let all_nonempty = forall|i: int| 0 <= i < ls.len() ==> (#[trigger] ls[i]).len() > 0;
        match e {
            Some(t) => {
                assert(single_line(t) && t.len() > 0);
                law_delay_changes_only_its_line(c, n - 1, t);
                lemma_replaced_line_shape(c, n - 1, t);
                let up = lines(c).update(n - 1, t);
                if all_nonempty {
                    assert forall|i: int| 0 <= i < up.len() implies (#[trigger] up[i]).len() > 0 by {
                        if i != n - 1 {
                            assert(up[i] == lines(c)[i]);
                        }
                    }
                }
            },
            None => {
                let rest = lines(c).remove(n - 1);
                if all_nonempty {
                    assert forall|i: int| 0 <= i < rest.len() implies (#[trigger] rest[i]).len() > 0 by {
                        if i < n - 1 {
                            assert(rest[i] == lines(c)[i]);
                        } else {
                            assert(rest[i] == lines(c)[i + 1]);
                        }
                    }
                    if rest.len() == 1 {
                        assert(rest[0].len() > 0);
                        assert(rest[0] != Seq::<char>::empty());
                    }
                    if rest.len() > 0 {
                        assert(rest.last() == rest[rest.len() - 1]);
                    }
                } else {
                    assert(rest.len() >= 2);
                }
                lemma_without_line_lines(c, n - 1);
            },
        }
    }
}

/// Carrying out fuse edits from the bottom of a file up, as `defuse` does,
/// makes each edit to the line that had its number in the file as it was:
/// rewritten lines read their new text, deleted ones are gone, and the
/// others stay in order. It holds for a file without `'\r'`, edits to
/// existing lines in strictly descending order, rewrites that are single
/// nonempty lines, and a file whose lines are all nonempty or which ends
/// with a newline and keeps at least two lines.
pub proof fn law_bottom_up_edits(content: Seq<char>, eds: Seq<(usize, Option<Seq<char>>)>)
    requires
        no_carriage_return(content),
        forall|i: int, j: int| 0 <= i < j < eds.len() ==> eds[i].0 > eds[j].0,
        forall|k: int| 0 <= k < eds.len() ==> 1 <= (#[trigger] eds[k]).0 <= lines(content).len(),
        rewrites_single_lines(eds),
        (forall|i: int| 0 <= i < lines(content).len() ==> (#[trigger] lines(content)[i]).len() > 0)
            || (content.len() > 0 && content.last() == '\n' && lines(content).len() >= deletions(
            eds,
        ) + 2),
    ensures
        edited_in_turn(content, eds) matches Some(c) && lines(c) == lines_edited(
            lines(content),
            eds,
        ),
{
    lemma_edits_in_turn(content, eds);
}

} // verus!
