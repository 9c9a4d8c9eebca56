//! Planting a fuse: reading a `file:LINE` target, choosing the comment
//! prefix, building the fuse text and inserting it into a file's content.

use crate::annotation::Fuse;
use crate::config::{path_extension, std_path_extension};
use crate::date::{formatted_ymd, parsed_ymd, reads_back, ymd_shaped, Date};
use crate::error::{Error, Result};
use crate::scanner::{
    date_bracket_at, fuse_lines, fuse_of_line, lemma_first_from_at, lemma_fuse_lines_has,
    lemma_match_from_skips, lemma_trigger_from_found, line_has_fuse, line_match, match_date_text,
    match_from, tag_at, tail_at, trigger_from,
};
use crate::text::{
    decimal_digit, fold_eq, fold_matches, is_ascii_char, lemma_fold_not,
    ascii_letter, ascii_lower, eq_ignore_ascii_case, lemma_letter_case, lemma_lines_of_joined,
    lemma_lines_of_terminated, lemma_lines_shape, lemma_same_case_not, lemma_trim_leading_space,
    no_carriage_return, single_line,
    all_digits, parse_unsigned, append, chars_of, lowercased, std_to_lowercase, std_to_uppercase, uppercased, contains, contains_str, decimal, is_digit, join,
    last_index_in, last_index_of, lines, lines_of, parse_bounded, parse_bounded_range, push_char,
    push_decimal, str_eq, string_of_range, to_owned, trim, trim_bounds, trim_end, trim_end_str,
    views, ascii_lowercase, ascii_text,
};
use vstd::prelude::*;

verus! {

// ───────────────────────── targets ─────────────────────────

pub open spec fn form_message(t: Seq<char>) -> Seq<char> {
    "target '"@ + t + "' must be in the form 'file:LINE' (e.g. src/main.rs:42)"@
}

pub open spec fn empty_file_message(t: Seq<char>) -> Seq<char> {
    "target '"@ + t + "': file path is empty"@
}

pub open spec fn bad_line_message(t: Seq<char>, lp: Seq<char>) -> Seq<char> {
    "target '"@ + t + "': '"@ + lp + "' is not a valid line number"@
}

pub open spec fn zero_line_message(t: Seq<char>) -> Seq<char> {
    "target '"@ + t + "': line number must be >= 1"@
}

/// A segment that is, once trimmed, a non-empty run of ASCII digits.
pub open spec fn num_seg(s: Seq<char>) -> bool {
    trim(s).len() > 0 && all_digits(trim(s))
}

/// The value of a line-number text as `usize` parsing reads it.
pub open spec fn line_value(lp: Seq<char>) -> Option<nat> {
    parse_bounded(lp, usize::MAX as nat)
}

/// `file` with line text `lp`, each refused as the target parser refuses it.
pub open spec fn checked_target(t: Seq<char>, file: Seq<char>, lp: Seq<char>) -> std::result::Result<
    (Seq<char>, nat),
    Seq<char>,
> {
    if file.len() == 0 {
        Err(empty_file_message(t))
    } else {
        match line_value(lp) {
            None => Err(bad_line_message(t, lp)),
            Some(n) => if n == 0 {
                Err(zero_line_message(t))
            } else {
                Ok((file, n))
            },
        }
    }
}

/// `file:LINE:COL`: the segment before the last colon is the line.
pub open spec fn column_form(t: Seq<char>, c: int) -> Option<
    std::result::Result<(Seq<char>, nat), Seq<char>>,
> {
    let before = t.take(c);
    match last_index_of(before, ':') {
        Some(pc) => if num_seg(before.skip(pc + 1)) {
            Some(checked_target(t, before.take(pc), trim(before.skip(pc + 1))))
        } else {
            None
        },
        None => None,
    }
}

/// A line reading that settles the target only when it names a file and a
/// line above zero (an unparsable line is an error).
pub open spec fn settled(t: Seq<char>, file: Seq<char>, lp: Seq<char>) -> Option<
    std::result::Result<(Seq<char>, nat), Seq<char>>,
> {
    if file.len() > 0 {
        match line_value(lp) {
            None => Some(Err(bad_line_message(t, lp))),
            Some(n) => if n > 0 {
                Some(Ok((file, n)))
            } else {
                None
            },
        }
    } else {
        None
    }
}

/// `file:LINE:COL: text` or `file:LINE: text`: trailing editor context.
pub open spec fn context_form(t: Seq<char>, c: int) -> Option<
    std::result::Result<(Seq<char>, nat), Seq<char>>,
> {
    let before = t.take(c);
    match last_index_of(before, ':') {
        Some(pc) => if num_seg(before.skip(pc + 1)) {
            let bp = before.take(pc);
            let inner = match last_index_of(bp, ':') {
                Some(ppc) => if num_seg(bp.skip(ppc + 1)) {
                    settled(t, bp.take(ppc), trim(bp.skip(ppc + 1)))
                } else {
                    None
                },
                None => None,
            };
            match inner {
                Some(r) => Some(r),
                None => settled(t, bp, trim(before.skip(pc + 1))),
            }
        } else {
            None
        },
        None => None,
    }
}

/// What `parse_target` gives for `t`: the file and 1-based line, or the
/// error message.
pub open spec fn target_parse(t: Seq<char>) -> std::result::Result<(Seq<char>, nat), Seq<char>> {
    match last_index_of(t, ':') {
        None => Err(form_message(t)),
        Some(c) => {
            let last = t.skip(c + 1);
            let early = if num_seg(last) {
                column_form(t, c)
            } else if trim(last).len() > 0 {
                context_form(t, c)
            } else {
                None
            };
            match early {
                Some(r) => r,
                None => checked_target(t, t.take(c), trim(last)),
            }
        },
    }
}

/// A target `f:n`, for a nonempty path without colons and a line from 1
/// on, names the file `f` and the line `n`.
pub proof fn law_file_line_target(f: Seq<char>, n: nat)
    requires
        f.len() > 0,
        forall|i: int| 0 <= i < f.len() ==> f[i] != ':',
        1 <= n <= usize::MAX,
    ensures
        target_parse(f + seq![':'] + decimal(n)) == Ok::<(Seq<char>, nat), Seq<char>>((f, n)),
{
    let d = decimal(n);
    let t = f + seq![':'] + d;
    crate::text::lemma_decimal_digits(n);
    assert forall|i: int| 0 <= i < d.len() implies d[i] != ':' by {
        assert(is_digit(d[i]));
    }
    crate::text::lemma_last_colon_after(f, d);
    crate::text::lemma_digits_trimmed(d);
    assert(t.skip(f.len() as int + 1) =~= d);
    assert(t.take(f.len() as int) =~= f);
    crate::text::lemma_no_last_index(f, ':');
    assert(column_form(t, f.len() as int) is None);
    assert(is_digit(d[0]));
    assert(parse_unsigned(d) == Some(n));
    assert(line_value(d) == Some(n));
}

/// `target '<t>` followed by `rest`.
fn target_message(t: &str, rest: &str) -> (r: String)
    ensures
        r@ == "target '"@ + t@ + rest@,
{
    let mut m = to_owned("target '");
    append(&mut m, t);
    append(&mut m, rest);
    m
}

/// The message for a line text that does not parse.
fn bad_line_text(t: &str, lp: &str) -> (r: String)
    ensures
        r@ == bad_line_message(t@, lp@),
{
    let mut m = target_message(t, "': '");
    append(&mut m, lp);
    append(&mut m, "' is not a valid line number");
    m
}

fn num_seg_exec(v: &Vec<char>, a: usize, b: usize) -> (r: bool)
    requires
        a <= b <= v.len(),
    ensures
        r == num_seg(v@.subrange(a as int, b as int)),
{
    let (ta, tb) = trim_bounds(v, a, b);
    if ta == tb {
        return false;
    }
    let ghost s = v@.subrange(ta as int, tb as int);
    let mut i = ta;
    while i < tb
        invariant
            ta <= i <= tb <= v.len(),
            s == v@.subrange(ta as int, tb as int),
            a <= b <= v.len(),
            trim(v@.subrange(a as int, b as int)) == s,
            forall|j: int| 0 <= j < i - ta ==> is_digit(#[trigger] s[j]),
        decreases tb - i,
    {
        if v[i] < '0' || v[i] > '9' {
            assert(s[i - ta] == v@[i as int]);
            return false;
        }
        assert(s[i - ta] == v@[i as int]);
        i = i + 1;
    }
    true
}

/// Resolves `file = v[0..fe]` with the line text `v[la..lb]` trimmed.
fn checked_target_exec(t: &str, v: &Vec<char>, fe: usize, la: usize, lb: usize) -> (r: Result<
    (String, usize),
>)
    requires
        v@ == t@,
        fe <= v.len(),
        la <= lb <= v.len(),
    ensures
        match (r, checked_target(t@, v@.take(fe as int), trim(v@.subrange(la as int, lb as int)))) {
            (Ok(x), Ok(y)) => x.0@ == y.0 && x.1 == y.1,
            (Err(e), Err(m)) => e.detail() == m,
            _ => false,
        },
{
    let (ta, tb) = trim_bounds(v, la, lb);
    let lp = string_of_range(v, ta, tb);
    if fe == 0 {
        assert(v@.take(0).len() == 0);
        return Err(Error::InvalidArgument(target_message(t, "': file path is empty")));
    }
    match parse_bounded_range(v, ta, tb, usize::MAX as u64) {
        None => Err(
            Error::InvalidArgument(
                bad_line_text(t, lp.as_str()),
            ),
        ),
        Some(n) => {
            if n == 0 {
                Err(
                    Error::InvalidArgument(
                        target_message(t, "': line number must be >= 1"),
                    ),
                )
            } else {
                let file = string_of_range(v, 0, fe);
                assert(v@.subrange(0, fe as int) =~= v@.take(fe as int));
                Ok((file, n as usize))
            }
        },
    }
}

/// The settling reading of `file = v[0..fe]` and line text `v[la..lb]`.
fn settled_exec(t: &str, v: &Vec<char>, fe: usize, la: usize, lb: usize) -> (r: Option<
    Result<(String, usize)>,
>)
    requires
        v@ == t@,
        fe <= v.len(),
        la <= lb <= v.len(),
    ensures
        match (r, settled(t@, v@.take(fe as int), trim(v@.subrange(la as int, lb as int)))) {
            (None, None) => true,
            (Some(Ok(x)), Some(Ok(y))) => x.0@ == y.0 && x.1 == y.1,
            (Some(Err(e)), Some(Err(m))) => e.detail() == m,
            _ => false,
        },
{
    if fe == 0 {
        assert(v@.take(0).len() == 0);
        return None;
    }
    let (ta, tb) = trim_bounds(v, la, lb);
    match parse_bounded_range(v, ta, tb, usize::MAX as u64) {
        None => {
            let lp = string_of_range(v, ta, tb);
            Some(
                Err(
                    Error::InvalidArgument(
                        bad_line_text(t, lp.as_str()),
                    ),
                ),
            )
        },
        Some(n) => {
            if n > 0 {
                let file = string_of_range(v, 0, fe);
                assert(v@.subrange(0, fe as int) =~= v@.take(fe as int));
                Some(Ok((file, n as usize)))
            } else {
                None
            }
        },
    }
}

/// Parses `"path/to/file.rs:42"` into the path and the 1-based line.
///
/// A column and trailing editor context may follow the line number:
/// `src/foo.rs:42`, `src/foo.rs:42:7` and `src/foo.rs:42:7: context` all
/// name line 42. The split is made at the last colons, so a path may itself
/// hold colons.
pub fn parse_target(target: &str) -> (r: Result<(String, usize)>)
    ensures
        match (r, target_parse(target@)) {
            (Ok(x), Ok(y)) => x.0@ == y.0 && x.1 == y.1,
            (Err(e), Err(m)) => e.detail() == m,
            _ => false,
        },
{
    let v = chars_of(target);
    let n = v.len();
    assert(v@.take(n as int) =~= v@);
    let c = match last_index_in(&v, n, ':') {
        Some(c) => c,
        None => {
            return Err(
                Error::InvalidArgument(
                    target_message(
                        target,
                        "' must be in the form 'file:LINE' (e.g. src/main.rs:42)",
                    ),
                ),
            );
        },
    };
    proof {
        lemma_index_bound(v@, ':', c as int);
    }
    let ghost t = v@;
    let ghost before = t.take(c as int);
    assert(t.skip(c + 1) =~= v@.subrange(c + 1, n as int));
    let last_num = num_seg_exec(&v, c + 1, n);
    let (la, lb) = trim_bounds(&v, c + 1, n);
    let early: Option<Result<(String, usize)>> = if last_num {
        // file:LINE:COL
        match last_index_in(&v, c, ':') {
            Some(pc) => {
                proof {
                    lemma_index_bound(before, ':', pc as int);
                    assert(before.skip(pc + 1) =~= v@.subrange(pc + 1, c as int));
                    assert(before.take(pc as int) =~= v@.take(pc as int));
                }
                if num_seg_exec(&v, pc + 1, c) {
                    Some(checked_target_exec(target, &v, pc, pc + 1, c))
                } else {
                    None
                }
            },
            None => None,
        }
    } else if la < lb {
        // trailing editor context
        match last_index_in(&v, c, ':') {
            Some(pc) => {
                proof {
                    lemma_index_bound(before, ':', pc as int);
                    assert(before.skip(pc + 1) =~= v@.subrange(pc + 1, c as int));
                    assert(before.take(pc as int) =~= v@.take(pc as int));
                }
                if num_seg_exec(&v, pc + 1, c) {
                    let ghost bp = before.take(pc as int);
                    let inner = match last_index_in(&v, pc, ':') {
                        Some(ppc) => {
                            proof {
                                assert(v@.take(pc as int) == bp);
                                lemma_index_bound(bp, ':', ppc as int);
                                assert(bp.skip(ppc + 1) =~= v@.subrange(ppc + 1, pc as int));
                                assert(bp.take(ppc as int) =~= v@.take(ppc as int));
                            }
                            if num_seg_exec(&v, ppc + 1, pc) {
                                settled_exec(target, &v, ppc, ppc + 1, pc)
                            } else {
                                None
                            }
                        },
                        None => None,
                    };
                    match inner {
                        Some(r) => Some(r),
                        None => settled_exec(target, &v, pc, pc + 1, c),
                    }
                } else {
                    None
                }
            },
            None => None,
        }
    } else {
        None
    };
    match early {
        Some(r) => r,
        None => checked_target_exec(target, &v, c, c + 1, n),
    }
}

// ───────────────────────── fuse text ─────────────────────────

/// The comment prefix for a lower-cased file extension.
pub open spec fn comment_prefix_for(ext: Seq<char>) -> Seq<char> {
    if ext == "rs"@ || ext == "go"@ || ext == "ts"@ || ext == "js"@ || ext == "jsx"@ || ext
        == "tsx"@ || ext == "java"@ || ext == "swift"@ || ext == "c"@ || ext == "cpp"@ || ext
        == "cc"@ || ext == "cs"@ || ext == "kt"@ {
        "//"@
    } else if ext == "py"@ || ext == "rb"@ || ext == "sh"@ || ext == "bash"@ || ext == "zsh"@
        || ext == "yaml"@ || ext == "yml"@ || ext == "tf"@ || ext == "toml"@ || ext == "r"@ {
        "#"@
    } else if ext == "sql"@ || ext == "lua"@ || ext == "hs"@ {
        "--"@
    } else {
        "//"@
    }
}

/// C-like languages are commented with `//`, scripting and configuration
/// languages with `#`, SQL, Lua and Haskell with `--`, and every other
/// extension with `//`: the three groups are told apart by the lower-cased
/// extension alone.
pub proof fn law_comment_prefix_groups(e: Seq<char>)
    ensures
        e == "rs"@ || e == "go"@ || e == "ts"@ || e == "js"@ || e == "jsx"@ || e == "tsx"@ || e == "java"@ || e == "swift"@ || e == "c"@ || e == "cpp"@ || e == "cc"@ || e == "cs"@ || e == "kt"@ ==> comment_prefix_for(e) == seq!['/', '/'],
        e == "py"@ || e == "rb"@ || e == "sh"@ || e == "bash"@ || e == "zsh"@ || e == "yaml"@ || e == "yml"@ || e == "tf"@ || e == "toml"@ || e == "r"@ ==> comment_prefix_for(e) == seq!['#'],
        e == "sql"@ || e == "lua"@ || e == "hs"@ ==> comment_prefix_for(e) == seq!['-', '-'],
        !(e == "py"@ || e == "rb"@ || e == "sh"@ || e == "bash"@ || e == "zsh"@ || e == "yaml"@ || e == "yml"@ || e == "tf"@ || e == "toml"@ || e == "r"@) && !(e == "sql"@ || e == "lua"@ || e == "hs"@) ==> comment_prefix_for(e) == seq!['/', '/'],
{
    reveal_strlit("rs");
    reveal_strlit("go");
    reveal_strlit("ts");
    reveal_strlit("js");
    reveal_strlit("jsx");
    reveal_strlit("tsx");
    reveal_strlit("java");
    reveal_strlit("swift");
    reveal_strlit("c");
    reveal_strlit("cpp");
    reveal_strlit("cc");
    reveal_strlit("cs");
    reveal_strlit("kt");
    reveal_strlit("py");
    reveal_strlit("rb");
    reveal_strlit("sh");
    reveal_strlit("bash");
    reveal_strlit("zsh");
    reveal_strlit("yaml");
    reveal_strlit("yml");
    reveal_strlit("tf");
    reveal_strlit("toml");
    reveal_strlit("r");
    reveal_strlit("sql");
    reveal_strlit("lua");
    reveal_strlit("hs");
    reveal_strlit("//");
    reveal_strlit("#");
    reveal_strlit("--");
    assert("//"@ =~= seq!['/', '/']);
    assert("rs"@ =~= seq!['r', 's']);
    assert("go"@ =~= seq!['g', 'o']);
    assert("ts"@ =~= seq!['t', 's']);
    assert("js"@ =~= seq!['j', 's']);
    assert("jsx"@ =~= seq!['j', 's', 'x']);
    assert("tsx"@ =~= seq!['t', 's', 'x']);
    assert("java"@ =~= seq!['j', 'a', 'v', 'a']);
    assert("swift"@ =~= seq!['s', 'w', 'i', 'f', 't']);
    assert("c"@ =~= seq!['c']);
    assert("cpp"@ =~= seq!['c', 'p', 'p']);
    assert("cc"@ =~= seq!['c', 'c']);
    assert("cs"@ =~= seq!['c', 's']);
    assert("kt"@ =~= seq!['k', 't']);
    assert("py"@ =~= seq!['p', 'y']);
    assert("rb"@ =~= seq!['r', 'b']);
    assert("sh"@ =~= seq!['s', 'h']);
    assert("bash"@ =~= seq!['b', 'a', 's', 'h']);
    assert("zsh"@ =~= seq!['z', 's', 'h']);
    assert("yaml"@ =~= seq!['y', 'a', 'm', 'l']);
    assert("yml"@ =~= seq!['y', 'm', 'l']);
    assert("tf"@ =~= seq!['t', 'f']);
    assert("toml"@ =~= seq!['t', 'o', 'm', 'l']);
    assert("r"@ =~= seq!['r']);
    assert("sql"@ =~= seq!['s', 'q', 'l']);
    assert("lua"@ =~= seq!['l', 'u', 'a']);
    assert("hs"@ =~= seq!['h', 's']);
    if e == "py"@ {
        assert(e.len() == 2);
        assert(e[0] == 'p');
        assert(e[1] == 'y');
    }
    if e == "rb"@ {
        assert(e.len() == 2);
        assert(e[0] == 'r');
        assert(e[1] == 'b');
    }
    if e == "sh"@ {
        assert(e.len() == 2);
        assert(e[0] == 's');
        assert(e[1] == 'h');
    }
    if e == "bash"@ {
        assert(e.len() == 4);
        assert(e[0] == 'b');
        assert(e[1] == 'a');
        assert(e[2] == 's');
        assert(e[3] == 'h');
    }
    if e == "zsh"@ {
        assert(e.len() == 3);
        assert(e[0] == 'z');
        assert(e[1] == 's');
        assert(e[2] == 'h');
    }
    if e == "yaml"@ {
        assert(e.len() == 4);
        assert(e[0] == 'y');
        assert(e[1] == 'a');
        assert(e[2] == 'm');
        assert(e[3] == 'l');
    }
    if e == "yml"@ {
        assert(e.len() == 3);
        assert(e[0] == 'y');
        assert(e[1] == 'm');
        assert(e[2] == 'l');
    }
    if e == "tf"@ {
        assert(e.len() == 2);
        assert(e[0] == 't');
        assert(e[1] == 'f');
    }
    if e == "toml"@ {
        assert(e.len() == 4);
        assert(e[0] == 't');
        assert(e[1] == 'o');
        assert(e[2] == 'm');
        assert(e[3] == 'l');
    }
    if e == "r"@ {
        assert(e.len() == 1);
        assert(e[0] == 'r');
    }
    if e == "sql"@ {
        assert(e.len() == 3);
        assert(e[0] == 's');
        assert(e[1] == 'q');
        assert(e[2] == 'l');
    }
    if e == "lua"@ {
        assert(e.len() == 3);
        assert(e[0] == 'l');
        assert(e[1] == 'u');
        assert(e[2] == 'a');
    }
    if e == "hs"@ {
        assert(e.len() == 2);
        assert(e[0] == 'h');
        assert(e[1] == 's');
    }
    assert("#"@ =~= seq!['#']);
    assert("--"@ =~= seq!['-', '-']);
}

/// A file is commented by the language its extension names, compared in
/// lower case: `//`, `#` or `--` by the groups of
/// `law_comment_prefix_groups`, and `//` without an extension.
pub proof fn law_comment_prefix_of_path(p: Seq<char>)
    ensures
        match path_extension(p) {
            Some(x) => {
                let e = lowercased(x);
                &&& e == "py"@ || e == "rb"@ || e == "sh"@ || e == "bash"@ || e == "zsh"@ || e == "yaml"@ || e == "yml"@ || e == "tf"@ || e == "toml"@ || e == "r"@ ==> comment_prefix(p) == seq!['#']
                &&& e == "sql"@ || e == "lua"@ || e == "hs"@ ==> comment_prefix(p) == seq!['-', '-']
                &&& !(e == "py"@ || e == "rb"@ || e == "sh"@ || e == "bash"@ || e == "zsh"@ || e == "yaml"@ || e == "yml"@ || e == "tf"@ || e == "toml"@ || e == "r"@) && !(e == "sql"@ || e == "lua"@ || e == "hs"@) ==> comment_prefix(p) == seq!['/', '/']
            },
            None => comment_prefix(p) == seq!['/', '/'],
        },
{
    reveal_strlit("//");
    assert("//"@ =~= seq!['/', '/']);
    match path_extension(p) {
        Some(x) => law_comment_prefix_groups(lowercased(x)),
        None => {},
    }
}

/// The comment prefix for the file at `p`, chosen by its lower-cased
/// extension; `//` for a file without one.
pub open spec fn comment_prefix(p: Seq<char>) -> Seq<char> {
    match path_extension(p) {
        Some(e) => comment_prefix_for(lowercased(e)),
        None => "//"@,
    }
}

/// The comment prefix for the lower-cased extension `e`.
fn prefix_for_ext(e: &str) -> (r: &'static str)
    ensures
        r@ == comment_prefix_for(e@),
{
    if str_eq(e, "rs") || str_eq(e, "go") || str_eq(e, "ts") || str_eq(e, "js") || str_eq(e, "jsx")
        || str_eq(e, "tsx") || str_eq(e, "java") || str_eq(e, "swift") || str_eq(e, "c") || str_eq(
        e,
        "cpp",
    ) || str_eq(e, "cc") || str_eq(e, "cs") || str_eq(e, "kt") {
        "//"
    } else if str_eq(e, "py") || str_eq(e, "rb") || str_eq(e, "sh") || str_eq(e, "bash") || str_eq(
        e,
        "zsh",
    ) || str_eq(e, "yaml") || str_eq(e, "yml") || str_eq(e, "tf") || str_eq(e, "toml") || str_eq(
        e,
        "r",
    ) {
        "#"
    } else if str_eq(e, "sql") || str_eq(e, "lua") || str_eq(e, "hs") {
        "--"
    } else {
        "//"
    }
}

/// The line-comment prefix for a file: `//` for C-like languages, `#` for
/// scripting and configuration languages, `--` for SQL, Lua and Haskell,
/// and `//` for anything else, the extension compared in lower case.
/// For an ASCII extension the lower case is ASCII lower case.
pub fn detect_comment_style(path: &str) -> (r: &'static str)
    ensures
        r@ == comment_prefix(path@),
        match path_extension(path@) {
            Some(e) => ascii_text(e) ==> r@ == comment_prefix_for(ascii_lowercase(e)),
            None => r@ == "//"@,
        },
        path_extension(path@) is Some ==> ({
            let e = lowercased(path_extension(path@)->0);
            &&& e == "py"@ || e == "rb"@ || e == "sh"@ || e == "bash"@ || e == "zsh"@ || e == "yaml"@ || e == "yml"@ || e == "tf"@ || e == "toml"@ || e == "r"@ ==> r@ == seq!['#']
            &&& e == "sql"@ || e == "lua"@ || e == "hs"@ ==> r@ == seq!['-', '-']
            &&& !(e == "py"@ || e == "rb"@ || e == "sh"@ || e == "bash"@ || e == "zsh"@ || e == "yaml"@ || e == "yml"@ || e == "tf"@ || e == "toml"@ || e == "r"@) && !(e == "sql"@ || e == "lua"@ || e == "hs"@) ==> r@ == seq!['/', '/']
        }),
{
    proof {
        law_comment_prefix_of_path(path@);
    }
    match std_path_extension(path) {
        Some(e) => {
            let l = std_to_lowercase(e.as_str());
            prefix_for_ext(l.as_str())
        },
        None => "//",
    }
}

/// The fuse text: `{prefix} {TAG}[{YYYY-MM-DD}]: {message}`, with
/// `[{owner}]` after the date when an owner is given.
pub open spec fn annotation_text(
    prefix: Seq<char>,
    tag: Seq<char>,
    date: int,
    owner: Option<Seq<char>>,
    message: Seq<char>,
) -> Seq<char> {
    prefix + seq![' '] + uppercased(tag) + seq!['['] + formatted_ymd(date as i32) + seq![']']
        + match owner {
        Some(o) => seq!['['] + o + seq![']'],
        None => Seq::empty(),
    } + seq![':', ' '] + message
}

/// Builds the fuse text for `plant`. The tag is upper-cased.
pub fn build_annotation(
    prefix: &str,
    tag: &str,
    expiry: &Date,
    owner: Option<&str>,
    message: &str,
) -> (r: String)
    ensures
        r@ == annotation_text(
            prefix@,
            tag@,
            expiry@,
            match owner {
                Some(o) => Some(o@),
                None => None,
            },
            message@,
        ),
{
    let mut r = to_owned(prefix);
    push_char(&mut r, ' ');
    let upper = std_to_uppercase(tag);
    append(&mut r, upper.as_str());
    push_char(&mut r, '[');
    let d = expiry.format();
    append(&mut r, d.as_str());
    push_char(&mut r, ']');
    match owner {
        Some(o) => {
            push_char(&mut r, '[');
            append(&mut r, o);
            push_char(&mut r, ']');
        },
        None => {},
    }
    push_char(&mut r, ':');
    push_char(&mut r, ' ');
    append(&mut r, message);
    proof {
        let ov = match owner {
            Some(o) => Some(o@),
            None => None,
        };
        assert(r@ =~= annotation_text(prefix@, tag@, expiry@, ov, message@));
    }
    r
}

// ───────────────────────── file content ─────────────────────────

/// `lines` with `new_line` inserted at 0-based index `at`.
pub open spec fn inserted(lines: Seq<Seq<char>>, at: int, new_line: Seq<char>) -> Seq<Seq<char>> {
    lines.insert(at, new_line)
}

/// Inserts `new_line` before the 1-based `line_number` of `lines` (after
/// the last line when `line_number` is one past it) and returns the whole
/// text, each line ended by a newline.
pub fn insert_line(lines: &[&str], line_number: usize, new_line: &str) -> (r: String)
    requires
        1 <= line_number <= lines@.len() + 1,
    ensures
        r@ == join(
            inserted(lines@.map_values(|l: &str| l@), line_number - 1, new_line@),
            seq!['\n'],
        ) + seq!['\n'],
{
    let ghost all = inserted(lines@.map_values(|l: &str| l@), line_number - 1, new_line@);
    let mut owned: Vec<String> = Vec::new();
    let mut i: usize = 0;
    while i < lines.len()
        invariant
            i <= lines@.len(),
            views(owned@) == lines@.take(i as int).map_values(|l: &str| l@),
        decreases lines.len() - i,
    {
        owned.push(to_owned(lines[i]));
        proof {
            assert(views(owned@) =~= views(owned@.drop_last()).push(owned@.last()@));
            assert(lines@.take(i + 1).map_values(|l: &str| l@) =~= lines@.take(i as int).map_values(
                |l: &str| l@,
            ).push(lines@[i as int]@));
        }
        i = i + 1;
    }
    assert(lines@.take(lines@.len() as int) =~= lines@);
    let ghost before = owned@;
    owned.insert(line_number - 1, to_owned(new_line));
    assert(views(owned@) =~= all);
    let mut result = crate::text::join_strings(&owned, "\n");
    push_char(&mut result, '\n');
    proof {
        crate::text::reveal_newline();
    }
    result
}

/// Indices of the lines of `ls` that contain `p`, in order.
pub open spec fn matching_lines(ls: Seq<Seq<char>>, p: Seq<char>) -> Seq<int>
    decreases ls.len(),
{
    if ls.len() == 0 {
        Seq::empty()
    } else {
        matching_lines(ls.drop_last(), p) + if contains(ls.last(), p) {
            seq![ls.len() - 1]
        } else {
            Seq::empty()
        }
    }
}

/// The lines of `content` that contain `pattern` (case-sensitive), each
/// with its 1-based line number.
pub fn find_matching_lines(content: &str, pattern: &str) -> (r: Vec<(usize, String)>)
    ensures
        ({
            let ls = lines(content@);
            let ix = matching_lines(ls, pattern@);
            &&& r@.len() == ix.len()
            &&& forall|k: int|
                0 <= k < ix.len() ==> (#[trigger] r@[k]).0 == ix[k] + 1 && r@[k].1@ == ls[ix[k]]
        }),
{
    let ls = lines_of(content);
    let ghost lv = lines(content@);
    let mut r: Vec<(usize, String)> = Vec::new();
    let mut i: usize = 0;
    while i < ls.len()
        invariant
            i <= ls.len(),
            views(ls@) == lv,
            r@.len() == matching_lines(lv.take(i as int), pattern@).len(),
            forall|k: int|
                0 <= k < r@.len() ==> (#[trigger] r@[k]).0 == matching_lines(
                    lv.take(i as int),
                    pattern@,
                )[k] + 1 && r@[k].1@ == lv[matching_lines(lv.take(i as int), pattern@)[k]],
        decreases ls.len() - i,
    {
        let ghost prev = matching_lines(lv.take(i as int), pattern@);
        proof {
            assert(lv.take(i + 1).drop_last() =~= lv.take(i as int));
            assert(lv.take(i + 1).last() == ls@[i as int]@);
        }
        if contains_str(ls[i].as_str(), pattern) {
            let ghost old_r = r@;
            r.push((i + 1, ls[i].clone()));
            proof {
                let now = matching_lines(lv.take(i + 1), pattern@);
                assert(now == prev.push(i as int));
                assert forall|k: int| 0 <= k < r@.len() implies (#[trigger] r@[k]).0 == now[k] + 1
                    && r@[k].1@ == lv[now[k]] by {
                    if k < old_r.len() {
                        assert(r@[k] == old_r[k]);
                    }
                }
            }
        } else {
            assert(matching_lines(lv.take(i + 1), pattern@) =~= prev);
        }
        i = i + 1;
    }
    assert(lv.take(ls.len() as int) =~= lv);
    r
}

pub open spec fn no_match_message(pattern: Seq<char>, target: Seq<char>) -> Seq<char> {
    "no lines matching '"@ + pattern + "' found in "@ + target
}

/// The lines `\n  line N: text` listing the matches `ix` of `ls`.
pub open spec fn match_listing(ls: Seq<Seq<char>>, ix: Seq<int>) -> Seq<char>
    decreases ix.len(),
{
    if ix.len() == 0 {
        Seq::empty()
    } else {
        match_listing(ls, ix.drop_last()) + "\n  line "@ + decimal((ix.last() + 1) as nat) + ": "@
            + trim_end(ls[ix.last()])
    }
}

pub open spec fn ambiguous_message(
    pattern: Seq<char>,
    target: Seq<char>,
    ls: Seq<Seq<char>>,
    ix: Seq<int>,
) -> Seq<char> {
    "pattern '"@ + pattern + "' matched "@ + decimal(ix.len()) + " lines in "@ + target + ":"@
        + match_listing(ls, ix) + "\nuse FILE:LINE to be specific"@
}

/// The 1-based line of `content` (the file at `target`) that holds
/// `pattern`; refused when no line or more than one line holds it.
pub fn search_line(target: &str, pattern: &str, content: &str) -> (r: Result<usize>)
    ensures
        ({
            let ls = lines(content@);
            let ix = matching_lines(ls, pattern@);
            if ix.len() == 0 {
                r matches Err(e) && e.detail() == no_match_message(pattern@, target@)
            } else if ix.len() == 1 {
                r matches Ok(n) && n == ix[0] + 1
            } else {
                r matches Err(e) && e.detail() == ambiguous_message(pattern@, target@, ls, ix)
            }
        }),
{
    let ms = find_matching_lines(content, pattern);
    let ghost ls = lines(content@);
    let ghost ix = matching_lines(ls, pattern@);
    if ms.len() == 0 {
        let mut m = to_owned("no lines matching '");
        append(&mut m, pattern);
        append(&mut m, "' found in ");
        append(&mut m, target);
        return Err(Error::InvalidArgument(m));
    }
    if ms.len() == 1 {
        assert(ms@[0].0 == ix[0] + 1);
        return Ok(ms[0].0);
    }
    let mut m = to_owned("pattern '");
    append(&mut m, pattern);
    append(&mut m, "' matched ");
    push_decimal(&mut m, ms.len() as u128);
    append(&mut m, " lines in ");
    append(&mut m, target);
    append(&mut m, ":");
    let ghost head = m@;
    let mut k: usize = 0;
    while k < ms.len()
        invariant
            k <= ms.len(),
            ms@.len() == ix.len(),
            forall|j: int|
                0 <= j < ix.len() ==> (#[trigger] ms@[j]).0 == ix[j] + 1 && ms@[j].1@ == ls[ix[j]],
            m@ == head + match_listing(ls, ix.take(k as int)),
        decreases ms.len() - k,
    {
        append(&mut m, "\n  line ");
        push_decimal(&mut m, ms[k].0 as u128);
        append(&mut m, ": ");
        let t = trim_end_str(ms[k].1.as_str());
        append(&mut m, t.as_str());
        proof {
            assert(ix.take(k + 1).drop_last() =~= ix.take(k as int));
            assert(ms@[k as int].0 == ix[k as int] + 1);
        }
        k = k + 1;
    }
    assert(ix.take(ms.len() as int) =~= ix);
    append(&mut m, "\nuse FILE:LINE to be specific");
    Err(Error::InvalidArgument(m))
}

pub open spec fn invalid_date_message(s: Seq<char>) -> Seq<char> {
    "'"@ + s + "' is not a valid date — expected YYYY-MM-DD"@
}

pub open spec fn in_days_overflow_message(days: nat) -> Seq<char> {
    "--in-days "@ + decimal(days) + " overflows the calendar"@
}

pub open spec fn default_overflow_message() -> Seq<char> {
    "90-day default overflows the calendar"@
}

pub open spec fn days_answer_message(t: Seq<char>) -> Seq<char> {
    "'"@ + t + "' is not a valid number of days"@
}

/// The answer to "Expire in how many days? [90]", trimmed: nothing means
/// 90, else a `u32` as `str::parse` reads it.
pub fn days_answer(input: &str) -> (r: Result<u32>)
    ensures
        ({
            let t = trim(input@);
            if t.len() == 0 {
                r == Ok::<u32, Error>(90)
            } else {
                match parse_bounded(t, u32::MAX as nat) {
                    Some(n) => r == Ok::<u32, Error>(n as u32),
                    None => r matches Err(e) && e.detail() == days_answer_message(t),
                }
            }
        }),
{
    let t = crate::text::trim_str(input);
    if chars_of(t.as_str()).len() == 0 {
        return Ok(90);
    }
    match crate::text::parse_bounded_str(t.as_str(), u32::MAX as u64) {
        Some(n) => Ok(n as u32),
        None => {
            let mut m = to_owned("'");
            append(&mut m, t.as_str());
            append(&mut m, "' is not a valid number of days");
            Err(Error::InvalidArgument(m))
        },
    }
}

/// The expiry date of a new fuse: `date_str` when given (which must parse),
/// else `in_days` days after `today`, else 90 days after `today`.
pub fn resolve_date(date_str: Option<&str>, in_days: Option<u32>, today: &Date) -> (r: Result<Date>)
    ensures
        match date_str {
            Some(s) => match r {
                Ok(d) => parsed_ymd(s@) matches Some(x) && d@ == x,
                Err(e) => parsed_ymd(s@) is None && e.detail() == invalid_date_message(s@),
            },
            None => {
                let n: nat = match in_days {
                    Some(k) => k as nat,
                    None => 90,
                };
                match r {
                    Ok(d) => d@ == today@ + n,
                    Err(e) => !crate::date::date_in_range(today@ + n) && e.detail() == match in_days {
                        Some(k) => in_days_overflow_message(k as nat),
                        None => default_overflow_message(),
                    },
                }
            },
        },
{
    match date_str {
        Some(s) => match Date::parse(s) {
            Some(d) => Ok(d),
            None => {
                let mut m = to_owned("'");
                append(&mut m, s);
                append(&mut m, "' is not a valid date — expected YYYY-MM-DD");
                Err(Error::InvalidArgument(m))
            },
        },
        None => {
            let n: u32 = match in_days {
                Some(k) => k,
                None => 90,
            };
            match today.add_days(n) {
                Some(d) => Ok(d),
                None => {
                    let m = match in_days {
                        Some(k) => {
                            let mut m = to_owned("--in-days ");
                            push_decimal(&mut m, k as u128);
                            append(&mut m, " overflows the calendar");
                            m
                        },
                        None => to_owned("90-day default overflows the calendar"),
                    };
                    Err(Error::InvalidArgument(m))
                },
            }
        },
    }
}

/// Whether `s` ends with a newline.
pub fn ends_with_newline(s: &str) -> (r: bool)
    ensures
        r == (s@.len() > 0 && s@.last() == '\n'),
{
    let v = chars_of(s);
    v.len() > 0 && v[v.len() - 1] == '\n'
}

pub open spec fn plant_range_message(file: Seq<char>, n: nat, count: nat) -> Seq<char> {
    "line number "@ + decimal(n) + " is out of range for '"@ + file + "' ("@ + decimal(count)
        + " lines); must be between 1 and "@ + decimal(count + 1)
}

/// The content of a file after planting `annotation` before its 1-based
/// line `line_number` (one past the last line appends). The file's final
/// newline, or its absence, is kept.
pub open spec fn planted(content: Seq<char>, line_number: int, annotation: Seq<char>) -> Seq<char> {
    let body = join(inserted(lines(content), line_number - 1, annotation), seq!['\n']);
    if content.len() > 0 && content.last() == '\n' {
        body + seq!['\n']
    } else {
        body
    }
}

/// Plants `annotation` before line `line_number` of `content` (the file at
/// `file`). Line numbers run from 1 to one past the last line.
pub fn plant_into_content(content: &str, file: &str, line_number: usize, annotation: &str) -> (r:
    Result<String>)
    ensures
        ({
            let count = lines(content@).len();
            match r {
                Ok(s) => 1 <= line_number <= count + 1 && s@ == planted(
                    content@,
                    line_number as int,
                    annotation@,
                ),
                Err(e) => !(1 <= line_number <= count + 1) && e.detail() == plant_range_message(
                    file@,
                    line_number as nat,
                    count,
                ),
            }
        }),
{
    let ls = lines_of(content);
    let count = ls.len();
    if line_number < 1 || line_number - 1 > count {
        let mut m = to_owned("line number ");
        push_decimal(&mut m, line_number as u128);
        append(&mut m, " is out of range for '");
        append(&mut m, file);
        append(&mut m, "' (");
        push_decimal(&mut m, count as u128);
        append(&mut m, " lines); must be between 1 and ");
        push_decimal(&mut m, count as u128 + 1);
        return Err(Error::InvalidArgument(m));
    }
    let mut refs: Vec<&str> = Vec::new();
    let mut i: usize = 0;
    while i < ls.len()
        invariant
            i <= ls.len(),
            refs@.map_values(|l: &str| l@) == views(ls@).take(i as int),
        decreases ls.len() - i,
    {
        refs.push(ls[i].as_str());
        proof {
            assert(refs@.map_values(|l: &str| l@) =~= refs@.drop_last().map_values(|l: &str| l@).push(
                refs@.last()@,
            ));
            assert(views(ls@).take(i + 1) =~= views(ls@).take(i as int).push(ls@[i as int]@));
        }
        i = i + 1;
    }
    assert(views(ls@).take(ls.len() as int) =~= views(ls@));
    let mut s = insert_line(refs.as_slice(), line_number, annotation);
    if !ends_with_newline(content) {
        let v = chars_of(s.as_str());
        proof {
            let body = join(inserted(lines(content@), line_number - 1, annotation@), seq!['\n']);
            assert(v@ == body + seq!['\n']);
            assert(v@.subrange(0, v@.len() - 1) =~= body);
        }
        s = string_of_range(&v, 0, v.len() - 1);
    }
    Ok(s)
}

proof fn lemma_index_bound(s: Seq<char>, c: char, i: int)
    requires
        last_index_of(s, c) == Some(i),
    ensures
        0 <= i < s.len(),
{
    crate::text::lemma_last_index_of(s, c);
}


// ───────────────────────── planting, then sweeping ─────────────────────────

/// A trigger of ASCII characters that begins with a letter, stands on one
/// line and holds no `[`.
pub open spec fn plain_trigger(t: Seq<char>) -> bool {
    &&& t.len() > 0
    &&& ascii_letter(t[0])
    &&& single_line(t)
    &&& forall|i: int| 0 <= i < t.len() ==> t[i] != '[' && is_ascii_char(t[i])
}

pub open spec fn plain_triggers(ts: Seq<Seq<char>>) -> bool {
    forall|j: int| 0 <= j < ts.len() ==> plain_trigger(#[trigger] ts[j])
}

/// An owner that can stand in its bracket: nonempty, on one line, no `]`.
pub open spec fn plain_owner(o: Seq<char>) -> bool {
    &&& o.len() > 0
    &&& single_line(o)
    &&& forall|i: int| 0 <= i < o.len() ==> o[i] != ']'
}

/// `f` carries what was planted: the date, the tag as written (upper-cased
/// again by the scanner), the owner and the message, both trimmed.
pub open spec fn read_as_planted(
    f: Fuse,
    tag: Seq<char>,
    d: i32,
    owner: Option<Seq<char>>,
    message: Seq<char>,
) -> bool {
    &&& f.date@ == d
    &&& f.tag@ == uppercased(uppercased(tag))
    &&& f.message@ == trim(message)
    &&& match owner {
        Some(o) => f.owner matches Some(x) && x@ == trim(o),
        None => f.owner is None,
    }
}

proof fn lemma_planted_lines(content: Seq<char>, n: int, a: Seq<char>)
    requires
        no_carriage_return(content),
        1 <= n <= lines(content).len() + 1,
        single_line(a),
        a.len() > 0,
    ensures
        lines(planted(content, n, a)) == inserted(lines(content), n - 1, a),
{
    lemma_lines_shape(content);
    let ls = lines(content);
    let ins = ls.insert(n - 1, a);
    assert forall|k: int| 0 <= k < ins.len() implies single_line(#[trigger] ins[k]) by {
        if k < n - 1 {
            assert(ins[k] == ls[k]);
        } else if k > n - 1 {
            assert(ins[k] == ls[k - 1]);
        }
    }
    if content.len() > 0 && content.last() == '\n' {
        lemma_lines_of_terminated(ins);
    } else {
        if n - 1 < ls.len() {
            assert(content.len() > 0);
            assert(ins.last() == ls.last());
        }
        lemma_lines_of_joined(ins);
    }
}

/// Where the parts of a fuse text lie: whatever comes before `p` is no
/// letter and no line break, then the tag `u`, the date `dt` in brackets,
/// the owner in brackets if there is one, a colon, a space and the message.
spec fn fuse_layout(
    a: Seq<char>,
    p: int,
    u: Seq<char>,
    dt: Seq<char>,
    owner: Option<Seq<char>>,
    message: Seq<char>,
) -> bool {
    let q = p + u.len();
    let r = q + 12;
    let c = match owner {
        Some(o) => r + o.len() + 2,
        None => r,
    };
    &&& 0 < p
    &&& forall|i: int|
        0 <= i < p ==> !ascii_letter(#[trigger] a[i]) && is_ascii_char(a[i]) && a[i] != '\n'
            && a[i] != '\r'
    &&& a.len() == c + 2 + message.len()
    &&& a.subrange(p, q) == u
    &&& a[q] == '['
    &&& a.subrange(q + 1, q + 11) == dt
    &&& a[q + 11] == ']'
    &&& match owner {
        Some(o) => a[r] == '[' && a.subrange(r + 1, r + 1 + o.len()) == o && a[r + 1 + o.len()]
            == ']',
        None => true,
    }
    &&& a[c] == ':'
    &&& a.subrange(c + 1, a.len() as int) == seq![' '] + message
}

proof fn lemma_annotation_layout(
    prefix: Seq<char>,
    tag: Seq<char>,
    d: i32,
    owner: Option<Seq<char>>,
    message: Seq<char>,
)
    requires
        prefix == "//"@ || prefix == "#"@ || prefix == "--"@,
        formatted_ymd(d).len() == 10,
    ensures
        fuse_layout(
            annotation_text(prefix, tag, d as int, owner, message),
            prefix.len() as int + 1,
            uppercased(tag),
            formatted_ymd(d),
            owner,
            message,
        ),
{
    reveal_strlit("//");
    reveal_strlit("#");
    reveal_strlit("--");
    let u = uppercased(tag);
    let dt = formatted_ymd(d);
    assert((d as int) as i32 == d);
    let ob: Seq<char> = match owner {
        Some(o) => seq!['['] + o + seq![']'],
        None => Seq::empty(),
    };
    let head = prefix + seq![' '];
    let a1 = head + u;
    let a2 = a1 + (seq!['['] + dt + seq![']']);
    let a3 = a2 + ob;
    let a = a3 + (seq![':', ' '] + message);
    assert(annotation_text(prefix, tag, d as int, owner, message) =~= a);
    let p: int = head.len() as int;
    let q: int = a1.len() as int;
    let r: int = a2.len() as int;
    let c: int = a3.len() as int;
    assert forall|i: int| 0 <= i < p implies !ascii_letter(#[trigger] a[i]) && is_ascii_char(a[i])
        && a[i] != '\n' && a[i] != '\r' by {
        assert(a[i] == head[i]);
    }
    assert(a.subrange(p, q) =~= u);
    assert(a[q] == '[');
    assert(a.subrange(q + 1, q + 11) =~= dt);
    assert(a[q + 11] == ']');
    match owner {
        Some(o) => {
            assert(a[r] == '[');
            assert(a.subrange(r + 1, r + 1 + o.len()) =~= o);
            assert(a[r + 1 + o.len()] == ']');
        },
        None => {},
    }
    assert(a[c] == ':');
    assert(a.subrange(c + 1, a.len() as int) =~= seq![' '] + message);
}

/// What follows the tag in a fuse text: the date bracket, the owner and the
/// message start.
proof fn lemma_layout_tail(
    a: Seq<char>,
    p: int,
    u: Seq<char>,
    dt: Seq<char>,
    owner: Option<Seq<char>>,
    message: Seq<char>,
)
    requires
        fuse_layout(a, p, u, dt, owner, message),
        ymd_shaped(dt),
        owner matches Some(o) ==> plain_owner(o),
    ensures
        ({
            let r = p + u.len() + 12;
            tail_at(a, p + u.len()) == Some(
                match owner {
                    Some(o) => (Some((r + 1, r + 1 + o.len())), r + 1 + o.len() + 2),
                    None => (None::<(int, int)>, r + 1),
                },
            )
        }),
{
    let q = p + u.len();
    let r = q + 12;
    assert forall|i: int| 0 <= i < 10 implies a[q + 1 + i] == dt[i] by {
        assert(a.subrange(q + 1, q + 11)[i] == a[q + 1 + i]);
    }
    assert(is_digit(dt[0]) && is_digit(dt[1]) && is_digit(dt[2]) && is_digit(dt[3]));
    assert(is_digit(dt[5]) && is_digit(dt[6]) && is_digit(dt[8]) && is_digit(dt[9]));
    reveal(decimal_digit);
    assert(date_bracket_at(a, q));
    match owner {
        Some(o) => {
            assert forall|i: int| r + 1 <= i < r + 1 + o.len() implies a[i] != ']' by {
                assert(a.subrange(r + 1, r + 1 + o.len())[i - r - 1] == a[i]);
            }
            lemma_first_from_at(a, r + 1, r + 1 + o.len(), ']');
        },
        None => {},
    }
}

/// The scanner's match on a fuse text: it starts at the tag and ends its
/// tag where the date bracket begins.
proof fn lemma_layout_match(
    a: Seq<char>,
    p: int,
    u: Seq<char>,
    dt: Seq<char>,
    owner: Option<Seq<char>>,
    message: Seq<char>,
    ts: Seq<Seq<char>>,
    j: int,
)
    requires
        fuse_layout(a, p, u, dt, owner, message),
        ymd_shaped(dt),
        owner matches Some(o) ==> plain_owner(o),
        plain_triggers(ts),
        0 <= j < ts.len(),
        fold_matches(u, ts[j]),
    ensures
        line_match(a, ts) matches Some(m) && m.0 == p && ts[m.1].len() == u.len() && tail_at(
            a,
            p + u.len(),
        ) == Some((m.2, m.3)),
{
    reveal(fold_matches);
    let k = u.len() as int;
    let q = p + k;
    let t = ts[j];
    assert(plain_trigger(t));
    assert forall|x: int, jj: int| 0 <= x < p && 0 <= jj < ts.len() implies !#[trigger] tag_at(
        a,
        x,
        ts[jj],
    ) by {
        if tag_at(a, x, ts[jj]) {
            assert(plain_trigger(ts[jj]));
            assert(a.subrange(x, x + ts[jj].len())[0] == a[x]);
            assert(fold_eq(ts[jj][0], a[x]));
            assert(is_ascii_char(ts[jj][0]) && is_ascii_char(a[x]));
            lemma_letter_case(a[x], ts[jj][0]);
        }
    }
    lemma_match_from_skips(a, ts, 0, p);
    lemma_layout_tail(a, p, u, dt, owner, message);
    assert(tag_at(a, p, t));
    lemma_trigger_from_found(a, p, ts, 0, j);
    let found = trigger_from(a, p, ts, 0)->0;
    let tf = ts[found.0];
    assert(plain_trigger(tf));
    if tf.len() > k {
        assert(a.subrange(p, p + tf.len())[k] == a[q]);
        assert(fold_eq(tf[k], a[q]));
        lemma_fold_not(tf[k], a[q], '[');
    }
    if tf.len() < k {
        let x = tf.len() as int;
        assert(date_bracket_at(a, p + x));
        assert(a[p + x] == u[x]);
        assert(fold_eq(t[x], u[x]));
        lemma_fold_not(t[x], u[x], '[');
    }
    assert(tf.len() == k);
}

/// The fuse text that `plant` builds is read by the scanner as the fuse
/// that was planted.
proof fn lemma_fuse_text_read(
    prefix: Seq<char>,
    tag: Seq<char>,
    d: i32,
    owner: Option<Seq<char>>,
    message: Seq<char>,
    ts: Seq<Seq<char>>,
    j: int,
)
    requires
        prefix == "//"@ || prefix == "#"@ || prefix == "--"@,
        reads_back(d),
        plain_triggers(ts),
        0 <= j < ts.len(),
        fold_matches(uppercased(tag), ts[j]),
        owner matches Some(o) ==> plain_owner(o),
        single_line(message),
    ensures
        ({
            let a = annotation_text(prefix, tag, d as int, owner, message);
            &&& single_line(a)
            &&& a.len() > 0
            &&& line_has_fuse(a, ts)
            &&& forall|f: Fuse, n: int, file: Seq<char>, today: int, fd: int|
                #[trigger] fuse_of_line(f, a, n, ts, file, today, fd) ==> read_as_planted(
                    f,
                    tag,
                    d,
                    owner,
                    message,
                )
        }),
{
    let a = annotation_text(prefix, tag, d as int, owner, message);
    let u = uppercased(tag);
    let t = ts[j];
    let dt = formatted_ymd(d);
    let p: int = prefix.len() as int + 1;
    lemma_annotation_layout(prefix, tag, d, owner, message);
    lemma_layout_match(a, p, u, dt, owner, message, ts, j);
    lemma_layout_tail(a, p, u, dt, owner, message);
    let m = line_match(a, ts)->0;
    let k = u.len() as int;
    let q = p + k;
    let r = q + 12;
    let c = match owner {
        Some(o) => r + o.len() + 2,
        None => r,
    };
    assert(match_date_text(a, ts, m) == a.subrange(q + 1, q + 11));
    assert(line_has_fuse(a, ts));
    assert(m.3 == c + 1);
    lemma_trim_leading_space(message);
    assert(plain_trigger(t));
    assert forall|i: int| 0 <= i < k implies u[i] != '\n' && u[i] != '\r' by {
        reveal(fold_matches);
        assert(fold_eq(t[i], u[i]));
        lemma_fold_not(t[i], u[i], '\n');
        lemma_fold_not(t[i], u[i], '\r');
    }
    assert forall|i: int| 0 <= i < a.len() implies a[i] != '\n' && a[i] != '\r' by {
        if i < p {
            assert(!ascii_letter(a[i]));
        } else if i < q {
            assert(a.subrange(p, q)[i - p] == a[i]);
        } else if q < i < q + 11 {
            assert(a.subrange(q + 1, q + 11)[i - q - 1] == a[i]);
            if i - q - 1 != 4 && i - q - 1 != 7 {
                assert(is_digit(dt[i - q - 1]));
            }
        } else if i > c {
            assert(a.subrange(c + 1, a.len() as int)[i - c - 1] == a[i]);
            if i > c + 1 {
                assert((seq![' '] + message)[i - c - 1] == message[i - c - 2]);
            }
        } else if r < i < c - 1 {
            match owner {
                Some(o) => {
                    assert(a.subrange(r + 1, r + 1 + o.len())[i - r - 1] == a[i]);
                },
                None => {},
            }
        }
    }
    assert forall|f: Fuse, n: int, file: Seq<char>, today: int, fd: int|
        #[trigger] fuse_of_line(f, a, n, ts, file, today, fd) implies read_as_planted(
        f,
        tag,
        d,
        owner,
        message,
    ) by {}
}

/// Planting a fuse and sweeping the file finds it. After `plant` writes the
/// fuse text for the file at `path` before line `n` of `content`, the lines
/// of the new content are the old ones with that text inserted as line `n`;
/// the scanner reads a fuse there, counts the line among its fuse lines, and
/// reads the planted date, the tag as written, and the owner and message,
/// trimmed. This holds where the tag is one of the triggers (ignoring case
/// as the scanner does), each trigger is ASCII text that begins with a
/// letter, stands on one line and holds no `[`, an owner is nonempty, on one line and without `]`, the
/// message stands on one line, the content holds no `'\r'`, and the date's
/// `YYYY-MM-DD` text reads back as that date (every date of the years 0 to
/// 9999, as `Date::format` states).
pub proof fn law_planted_fuse_is_swept(
    content: Seq<char>,
    n: int,
    path: Seq<char>,
    tag: Seq<char>,
    d: i32,
    owner: Option<Seq<char>>,
    message: Seq<char>,
    ts: Seq<Seq<char>>,
)
    requires
        no_carriage_return(content),
        1 <= n <= lines(content).len() + 1,
        reads_back(d),
        plain_triggers(ts),
        exists|j: int| 0 <= j < ts.len() && fold_matches(uppercased(tag), #[trigger] ts[j]),
        owner matches Some(o) ==> plain_owner(o),
        single_line(message),
    ensures
        ({
            let a = annotation_text(comment_prefix(path), tag, d as int, owner, message);
            let ls = lines(planted(content, n, a));
            &&& ls == inserted(lines(content), n - 1, a)
            &&& line_has_fuse(a, ts)
            &&& fuse_lines(ls, ts).contains(n - 1)
            &&& forall|f: Fuse, file: Seq<char>, today: int, fd: int|
                #[trigger] fuse_of_line(f, a, n, ts, file, today, fd) ==> f.line == n
                    && read_as_planted(f, tag, d, owner, message)
        }),
{
    reveal_strlit("//");
    reveal_strlit("#");
    reveal_strlit("--");
    let prefix = comment_prefix(path);
    assert(prefix == "//"@ || prefix == "#"@ || prefix == "--"@);
    let j = choose|j: int| 0 <= j < ts.len() && fold_matches(uppercased(tag), #[trigger] ts[j]);
    lemma_fuse_text_read(prefix, tag, d, owner, message, ts, j);
    let a = annotation_text(prefix, tag, d as int, owner, message);
    lemma_planted_lines(content, n, a);
    let ls = lines(planted(content, n, a));
    assert(ls[n - 1] == a);
    lemma_fuse_lines_has(ls, ts, n - 1);
}

} // verus!
