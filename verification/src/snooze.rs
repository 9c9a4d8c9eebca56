//! Delaying a fuse: moving its date bracket to a new date in place.

use crate::add::{
    bad_line_message, empty_file_message, form_message, invalid_date_message, line_value,
    zero_line_message,
};
use crate::annotation::Fuse;
use crate::date::{date_in_range, formatted_ymd, parsed_ymd, reads_back, Date};
use crate::error::{Error, Result};
use crate::scanner::{
    bracket_free, date_bracket_at, fuse_of_line, lemma_match_from_result,
    lemma_match_same_but_date, line_has_fuse, line_match, match_date_text, same_but_date, tail_at,
};
use crate::text::{
    decimal_digit, lemma_trim_end_after, trim, uppercased,
    append, chars_of, decimal, is_digit, join, join_strings, last_index_in, last_index_of,
    lemma_lines_of_joined, lemma_lines_of_terminated, lemma_lines_shape, lines, lines_of,
    no_carriage_return, parse_bounded_range, push_char, push_decimal, single_line,
    string_of_range, to_owned, trim_end, trim_end_str, views,
};
use vstd::prelude::*;

verus! {

/// What the strict `file:LINE` parser gives for `t`: everything after the
/// last colon must be the line number.
pub open spec fn strict_target_parse(t: Seq<char>) -> std::result::Result<
    (Seq<char>, nat),
    Seq<char>,
> {
    match last_index_of(t, ':') {
        None => Err(form_message(t)),
        Some(c) => {
            let file = t.take(c);
            let lp = t.skip(c + 1);
            if file.len() == 0 {
                Err(empty_file_message(t))
            } else {
                match line_value(lp) {
                    None => Err(bad_line_message(t, lp)),
                    Some(n) => if n == 0 {
                        Err(zero_line_message(t))
                    } else {
                        Ok((file, n))
                    },
                }
            }
        },
    }
}

fn message_with(t: &str, rest: &str) -> (r: String)
    ensures
        r@ == "target '"@ + t@ + rest@,
{
    let mut m = to_owned("target '");
    append(&mut m, t);
    append(&mut m, rest);
    m
}

/// Parses `"path/to/file.rs:42"` into the path and the 1-based line,
/// splitting at the last colon.
pub fn parse_target(target: &str) -> (r: Result<(String, usize)>)
    ensures
        match (r, strict_target_parse(target@)) {
            (Ok(x), Ok(y)) => x.0@ == y.0 && x.1 == y.1,
            (Err(e), Err(m)) => e.detail() == m,
            _ => false,
        },
{
    let v = chars_of(target);
    let n = v.len();
    assert(v@.take(n as int) =~= v@);
    let c = match last_index_in(&v, n, ':') {
        Some(c) => c,
        None => {
            return Err(
                Error::InvalidArgument(
                    message_with(
                        target,
                        "' must be in the form 'file:LINE' (e.g. src/main.rs:42)",
                    ),
                ),
            );
        },
    };
    proof {
        crate::text::lemma_last_index_of(v@, ':');
        assert(v@.skip(c + 1) =~= v@.subrange(c + 1, n as int));
        assert(v@.take(c as int) =~= v@.subrange(0, c as int));
    }
    if c == 0 {
        return Err(Error::InvalidArgument(message_with(target, "': file path is empty")));
    }
    match parse_bounded_range(&v, c + 1, n, usize::MAX as u64) {
        None => {
            let lp = string_of_range(&v, c + 1, n);
            let mut m = message_with(target, "': '");
            append(&mut m, lp.as_str());
            append(&mut m, "' is not a valid line number");
            Err(Error::InvalidArgument(m))
        },
        Some(k) => {
            if k == 0 {
                Err(Error::InvalidArgument(message_with(target, "': line number must be >= 1")))
            } else {
                Ok((string_of_range(&v, 0, c), k as usize))
            }
        },
    }
}

pub open spec fn date_required_message() -> Seq<char> {
    "either --date or --in-days is required"@
}

/// The new expiry date: `date_str` when given (it must parse), else
/// `in_days` days after `today`. One of them is required.
pub fn resolve_new_date(date_str: Option<&str>, in_days: Option<u32>, today: &Date) -> (r: Result<
    Date,
>)
    requires
        date_str is None ==> (in_days matches Some(k) ==> date_in_range(today@ + k)),
    ensures
        match date_str {
            Some(s) => match r {
                Ok(d) => parsed_ymd(s@) matches Some(x) && d@ == x,
                Err(e) => parsed_ymd(s@) is None && e.detail() == invalid_date_message(s@),
            },
            None => match in_days {
                Some(k) => r matches Ok(d) && d@ == today@ + k,
                None => r matches Err(e) && e.detail() == date_required_message(),
            },
        },
{
    match date_str {
        Some(s) => match Date::parse(s) {
            Some(d) => Ok(d),
            None => {
                let mut m = to_owned("'");
                append(&mut m, s);
                append(&mut m, "' is not a valid date — expected YYYY-MM-DD");
                Err(Error::InvalidArgument(m))
            },
        },
        None => match in_days {
            Some(k) => match today.add_days(k) {
                Some(d) => Ok(d),
                None => {
                    assert(false);
                    Err(Error::InvalidArgument(String::new()))
                },
            },
            None => Err(Error::InvalidArgument(to_owned("either --date or --in-days is required"))),
        },
    }
}

/// Index of the first date bracket `[YYYY-MM-DD]` at or after `p`.
pub open spec fn first_date_bracket_from(l: Seq<char>, p: int) -> Option<int>
    decreases l.len() + 1 - p,
{
    if p < 0 || p > l.len() {
        None
    } else if date_bracket_at(l, p) {
        Some(p)
    } else {
        first_date_bracket_from(l, p + 1)
    }
}

/// `l` with its first date bracket replaced by one holding `new_date`.
pub open spec fn snoozed_line(l: Seq<char>, new_date: int) -> Option<Seq<char>> {
    match first_date_bracket_from(l, 0) {
        Some(p) => Some(
            l.take(p) + seq!['['] + formatted_ymd(new_date as i32) + seq![']'] + l.skip(p + 12),
        ),
        None => None,
    }
}

pub(crate) fn date_bracket_at_chars(l: &Vec<char>, q: usize) -> (r: bool)
    ensures
        r == date_bracket_at(l@, q as int),
{
    crate::scanner::date_bracket_at_exec(l, q)
}

/// Replaces the first date bracket `[YYYY-MM-DD]` of `line` with one
/// holding `new_date`; `None` when the line has no date bracket. Later
/// brackets, such as an owner, are left as they are.
pub fn snooze_line(line: &str, new_date: &Date) -> (r: Option<String>)
    ensures
        match (r, snoozed_line(line@, new_date@)) {
            (Some(x), Some(y)) => x@ == y,
            (None, None) => true,
            _ => false,
        },
{
    let l = chars_of(line);
    let mut p: usize = 0;
    loop
        invariant
            p <= l.len(),
            l@ == line@,
            first_date_bracket_from(l@, 0) == first_date_bracket_from(l@, p as int),
        decreases l.len() - p,
    {
        if date_bracket_at_chars(&l, p) {
            let mut r = string_of_range(&l, 0, p);
            push_char(&mut r, '[');
            let d = new_date.format();
            append(&mut r, d.as_str());
            push_char(&mut r, ']');
            let rest = string_of_range(&l, p + 12, l.len());
            append(&mut r, rest.as_str());
            proof {
                assert(l@.subrange(0, p as int) =~= l@.take(p as int));
                assert(l@.subrange(p + 12, l@.len() as int) =~= l@.skip(p + 12));
                assert(r@ =~= l@.take(p as int) + seq!['['] + formatted_ymd(new_date@ as i32)
                    + seq![']'] + l@.skip(p + 12));
            }
            return Some(r);
        }
        if p == l.len() {
            assert(first_date_bracket_from(l@, p + 1) is None);
            return None;
        }
        p = p + 1;
    }
}

/// `line` without trailing whitespace, followed by ` [snoozed: reason]`.
pub open spec fn with_reason(line: Seq<char>, reason: Seq<char>) -> Seq<char> {
    trim_end(line) + " [snoozed: "@ + reason + seq![']']
}

/// Appends ` [snoozed: {reason}]` to `line` after trimming its trailing
/// whitespace.
pub fn append_reason(line: &str, reason: &str) -> (r: String)
    ensures
        r@ == with_reason(line@, reason@),
{
    let mut r = trim_end_str(line);
    append(&mut r, " [snoozed: ");
    append(&mut r, reason);
    push_char(&mut r, ']');
    r
}

/// A line rewritten in a file: the new content, and the line before and
/// after.
#[derive(Debug)]
pub struct LineEdit {
    pub content: String,
    pub old_line: String,
    pub new_line: String,
}

pub open spec fn missing_line_message(n: nat, count: nat) -> Seq<char> {
    "line "@ + decimal(n) + " does not exist in file (file has "@ + decimal(count) + " lines)"@
}

pub open spec fn no_bracket_message(n: nat, file: Seq<char>) -> Seq<char> {
    "no timebomb date bracket found on line "@ + decimal(n) + " of "@ + file
}

/// `content` with its 0-based line `i` replaced by `new_line`, the final
/// newline kept when there was one.
pub open spec fn replaced_line(content: Seq<char>, i: int, new_line: Seq<char>) -> Seq<char> {
    let body = join(lines(content).update(i, new_line), seq!['\n']);
    if content.len() > 0 && content.last() == '\n' {
        body + seq!['\n']
    } else {
        body
    }
}

/// Rewrites line `i` (0-based) of the lines `ls` of `content` to `new_line`.
pub fn replace_line(content: &str, ls: &Vec<String>, i: usize, new_line: &str) -> (r: String)
    requires
        views(ls@) == lines(content@),
        i < ls.len(),
    ensures
        r@ == replaced_line(content@, i as int, new_line@),
{
    let mut updated: Vec<String> = Vec::new();
    let mut j: usize = 0;
    while j < ls.len()
        invariant
            j <= ls.len(),
            i < ls.len(),
            views(ls@) == lines(content@),
            views(updated@) == lines(content@).update(i as int, new_line@).take(j as int),
        decreases ls.len() - j,
    {
        if j == i {
            updated.push(to_owned(new_line));
        } else {
            updated.push(ls[j].clone());
        }
        proof {
            assert(views(updated@) =~= views(updated@.drop_last()).push(updated@.last()@));
            assert(lines(content@).update(i as int, new_line@).take(j + 1) =~= lines(
                content@,
            ).update(i as int, new_line@).take(j as int).push(
                lines(content@).update(i as int, new_line@)[j as int],
            ));
        }
        j = j + 1;
    }
    assert(lines(content@).update(i as int, new_line@).take(ls.len() as int) =~= lines(
        content@,
    ).update(i as int, new_line@));
    let mut r = join_strings(&updated, "\n");
    proof {
        crate::text::reveal_newline();
    }
    if crate::add::ends_with_newline(content) {
        push_char(&mut r, '\n');
    }
    r
}

/// Delays the fuse on line `line_number` (1-based) of `content`, the file
/// at `file`: its date bracket gets `new_date`, and ` [snoozed: reason]` is
/// appended when a reason is given.
pub fn snooze_content(
    content: &str,
    file: &str,
    line_number: usize,
    new_date: &Date,
    reason: Option<&str>,
) -> (r: Result<LineEdit>)
    ensures
        ({
            let ls = lines(content@);
            let count = ls.len();
            if !(1 <= line_number <= count) {
                r matches Err(e) && e.detail() == missing_line_message(line_number as nat, count)
            } else {
                let old = ls[line_number - 1];
                match snoozed_line(old, new_date@) {
                    None => r matches Err(e) && e.detail() == no_bracket_message(
                        line_number as nat,
                        file@,
                    ),
                    Some(s) => {
                        let new_line = match reason {
                            Some(x) => with_reason(s, x@),
                            None => s,
                        };
                        r matches Ok(edit) && edit.old_line@ == old && edit.new_line@ == new_line
                            && edit.content@ == replaced_line(
                            content@,
                            line_number - 1,
                            new_line,
                        )
                    },
                }
            }
        }),
{
    let ls = lines_of(content);
    let count = ls.len();
    if line_number < 1 || line_number > count {
        let mut m = to_owned("line ");
        push_decimal(&mut m, line_number as u128);
        append(&mut m, " does not exist in file (file has ");
        push_decimal(&mut m, count as u128);
        append(&mut m, " lines)");
        return Err(Error::InvalidArgument(m));
    }
    let old_line = ls[line_number - 1].clone();
    assert(old_line@ == lines(content@)[line_number - 1]);
    let snoozed = match snooze_line(old_line.as_str(), new_date) {
        Some(s) => s,
        None => {
            let mut m = to_owned("no timebomb date bracket found on line ");
            push_decimal(&mut m, line_number as u128);
            append(&mut m, " of ");
            append(&mut m, file);
            return Err(Error::InvalidArgument(m));
        },
    };
    let new_line = match reason {
        Some(x) => append_reason(snoozed.as_str(), x),
        None => snoozed,
    };
    let new_content = replace_line(content, &ls, line_number - 1, new_line.as_str());
    Ok(LineEdit { content: new_content, old_line, new_line })
}

/// Delaying a fuse rewrites its line and no other: read back line by line,
/// the new content is the old one with line `i` replaced by the new line.
pub proof fn law_delay_changes_only_its_line(content: Seq<char>, i: int, new_line: Seq<char>)
    requires
        no_carriage_return(content),
        single_line(new_line),
        new_line.len() > 0,
        0 <= i < lines(content).len(),
    ensures
        lines(replaced_line(content, i, new_line)) == lines(content).update(i, new_line),
{
    lemma_lines_shape(content);
    let ls = lines(content);
    let up = ls.update(i, new_line);
    assert forall|k: int| 0 <= k < up.len() implies single_line(#[trigger] up[k]) by {
        if k != i {
            assert(up[k] == ls[k]);
        }
    }
    if content.len() > 0 && content.last() == '\n' {
        lemma_lines_of_terminated(up);
    } else {
        assert(content.len() > 0);
        if i != up.len() - 1 {
            assert(up.last() == ls.last());
        }
        lemma_lines_of_joined(up);
    }
}

/// Delaying a fuse moves it to the new date and keeps the rest. Where the
/// fuse's own date bracket is the first on its line, the scanner reads the
/// delayed line at the same place, with the same trigger, owner bounds and
/// message start; its date is the new one; the text of the tag and the
/// owner is unchanged; and the message is unchanged or, with a reason,
/// keeps its text without trailing whitespace and gains
/// ` [snoozed: reason]`. This holds for ASCII triggers without `[` and a new date
/// whose `YYYY-MM-DD` text reads back as itself (every date of the years 0
/// to 9999, as `Date::format` states).
#[verifier::spinoff_prover]
#[verifier::rlimit(50)]
pub proof fn law_delay_moves_the_date(
    l: Seq<char>,
    ts: Seq<Seq<char>>,
    d: i32,
    reason: Option<Seq<char>>,
)
    requires
        bracket_free(ts),
        line_match(l, ts) matches Some(m) && first_date_bracket_from(l, 0) == Some(
            m.0 + ts[m.1].len(),
        ),
        reads_back(d),
    ensures
        snoozed_line(l, d as int) matches Some(s) && ({
            let nl = match reason {
                Some(x) => with_reason(s, x),
                None => s,
            };
            let m = line_match(l, ts)->0;
            let q = m.0 + ts[m.1].len();
            &&& line_match(nl, ts) == line_match(l, ts)
            &&& match_date_text(nl, ts, m) == formatted_ymd(d)
            &&& line_has_fuse(nl, ts)
            &&& nl.take(q + 1) == l.take(q + 1)
            &&& nl.subrange(q + 11, m.3) == l.subrange(q + 11, m.3)
            &&& nl.skip(m.3) == match reason {
                Some(x) => trim_end(l.skip(m.3)) + " [snoozed: "@ + x + seq![']'],
                None => l.skip(m.3),
            }
            &&& forall|g: Fuse, n: int, file: Seq<char>, today: int, fd: int|
                #[trigger] fuse_of_line(g, nl, n, ts, file, today, fd) ==> {
                    &&& g.date@ == d
                    &&& g.tag@ == uppercased(l.subrange(m.0, q))
                    &&& match m.2 {
                        Some(b) => g.owner matches Some(o) && o@ == trim(l.subrange(b.0, b.1)),
                        None => g.owner is None,
                    }
                    &&& reason is None ==> g.message@ == trim(l.skip(m.3))
                }
        }),
{
    let m = line_match(l, ts)->0;
    lemma_match_from_result(l, ts, 0);
    let q = m.0 + ts[m.1].len();
    let k = m.3;
    let dt = formatted_ymd(d);
    assert((d as int) as i32 == d);
    assert(tail_at(l, q) == Some((m.2, m.3)));
    assert(date_bracket_at(l, q));
    assert(q + 13 <= k < l.len());
    assert(l[k - 1] == ':');
    let s = l.take(q) + seq!['['] + dt + seq![']'] + l.skip(q + 12);
    assert(snoozed_line(l, d as int) == Some(s));
    assert(s.len() == l.len());
    assert forall|i: int| 0 <= i < s.len() && !(q < i < q + 11) implies #[trigger] s[i] == l[i] by {
        if i < q {
            assert(s[i] == l.take(q)[i]);
        } else if i >= q + 12 {
            assert(s[i] == l.skip(q + 12)[i - q - 12]);
        }
    }
    assert forall|i: int| 0 <= i < 10 implies s[q + 1 + i] == dt[i] by {}
    assert(is_digit(dt[0]) && is_digit(dt[1]) && is_digit(dt[2]) && is_digit(dt[3]));
    assert(is_digit(dt[5]) && is_digit(dt[6]) && is_digit(dt[8]) && is_digit(dt[9]));
    assert(date_bracket_at(s, q)) by {
        reveal(decimal_digit);
    }
    assert(s.subrange(q + 1, q + 11) =~= dt);
    let nl = match reason {
        Some(x) => with_reason(s, x),
        None => s,
    };
    assert(s =~= s.take(k) + s.skip(k));
    assert(s.skip(k) =~= l.skip(k));
    match reason {
        Some(x) => {
            assert(s.take(k).last() == ':');
            lemma_trim_end_after(s.take(k), s.skip(k));
            assert(nl =~= s.take(k) + (trim_end(l.skip(k)) + " [snoozed: "@ + x + seq![']']));
            assert(nl.skip(k) =~= trim_end(l.skip(k)) + " [snoozed: "@ + x + seq![']']);
        },
        None => {},
    }
    assert forall|i: int| 0 <= i < k implies #[trigger] nl[i] == s[i] by {
        match reason {
            Some(x) => {
                assert(nl[i] == s.take(k)[i]);
            },
            None => {},
        }
    }
    assert(nl.len() > k) by {
        match reason {
            Some(x) => {
                reveal_strlit(" [snoozed: ");
            },
            None => {},
        }
    }
    assert forall|i: int| q <= i < q + 12 implies nl[i] == s[i] by {}
    assert(date_bracket_at(nl, q));
    assert forall|i: int| 0 <= i < k && !(q < i < q + 11) implies #[trigger] nl[i] == l[i] by {
        assert(nl[i] == s[i]);
        assert(s[i] == l[i]);
    }
    assert(same_but_date(l, nl, q, k));
    lemma_match_same_but_date(l, nl, q, k, ts, 0);
    assert(nl.subrange(q + 1, q + 11) =~= dt);
    assert(match_date_text(nl, ts, m) == formatted_ymd(d));
    assert(nl.take(q + 1) =~= l.take(q + 1));
    assert(nl.subrange(q + 11, k) =~= l.subrange(q + 11, k));
    assert(nl.subrange(m.0, q) =~= l.subrange(m.0, q));
    match m.2 {
        Some(b) => {
            assert(q + 13 <= b.0 <= b.1 < k);
            assert(nl.subrange(b.0, b.1) =~= l.subrange(b.0, b.1));
        },
        None => {},
    }
    if reason is None {
        assert(nl.subrange(k, nl.len() as int) =~= l.subrange(k, l.len() as int));
    }
}

} // verus!
