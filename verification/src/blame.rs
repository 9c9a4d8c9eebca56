//! Authors from `git blame --porcelain` output, and the fuses they own.

use crate::annotation::{opt_text, Fuse};
use crate::text::{
    chars_of, is_ws, lines, lines_of, parse_bounded, parse_bounded_range, push_char, str_eq,
    string_of, string_of_range, trim, trim_str, views,
};
use std::collections::HashMap;
use crate::git::lists_path;
use crate::path::{paths_equal, same_path};
use vstd::prelude::*;

verus! {

broadcast use vstd::std_specs::hash::group_hash_axioms;

/// Blame facts about one line of a file.
#[derive(Debug)]
pub struct BlameInfo {
    pub author: String,
}

/// Where a name's escape sequences stand after some prefix of it.
#[derive(Clone, Copy, PartialEq, Eq, Structural)]
pub enum EscapeState {
    /// Outside any escape sequence.
    Plain,
    /// Just after an `ESC`.
    AfterEscape,
    /// Inside a CSI sequence `ESC [ ...`, before its final byte.
    InCsi,
}

/// `char::is_control`: the Unicode general category `Cc`.
pub open spec fn is_control(c: char) -> bool {
    (c as u32) <= 0x1f || (0x7f <= (c as u32) && (c as u32) <= 0x9f)
}

/// What `c` does outside any escape sequence.
pub open spec fn plain_step(c: char) -> (EscapeState, Option<char>) {
    if c == '\x1b' {
        (EscapeState::AfterEscape, None)
    } else if is_control(c) {
        (EscapeState::Plain, None)
    } else {
        (EscapeState::Plain, Some(c))
    }
}

/// The next state after `c` in state `st`, and the character kept, if any.
pub open spec fn escape_step(st: EscapeState, c: char) -> (EscapeState, Option<char>) {
    match st {
        EscapeState::InCsi => if 0x40 <= (c as u32) && (c as u32) <= 0x7e {
            (EscapeState::Plain, None)
        } else {
            (EscapeState::InCsi, None)
        },
        EscapeState::AfterEscape => if c == '[' {
            (EscapeState::InCsi, None)
        } else {
            plain_step(c)
        },
        EscapeState::Plain => plain_step(c),
    }
}

/// The state after reading all of `s`.
pub open spec fn state_after(s: Seq<char>) -> EscapeState
    decreases s.len(),
{
    if s.len() == 0 {
        EscapeState::Plain
    } else {
        escape_step(state_after(s.drop_last()), s.last()).0
    }
}

/// `s` without CSI sequences, other escapes and control characters.
pub open spec fn stripped(s: Seq<char>) -> Seq<char>
    decreases s.len(),
{
    if s.len() == 0 {
        Seq::empty()
    } else {
        stripped(s.drop_last()) + match escape_step(state_after(s.drop_last()), s.last()).1 {
            Some(c) => seq![c],
            None => Seq::empty(),
        }
    }
}

/// An author name made safe to print: CSI sequences (`ESC [` up to a final
/// byte in `0x40..=0x7e`), other `ESC`s and control characters removed,
/// then surrounding whitespace trimmed.
pub open spec fn sanitized(name: Seq<char>) -> Seq<char> {
    trim(stripped(name))
}

/// Removes terminal escape sequences and control characters from an author
/// name and trims it.
pub fn sanitize_author(name: &str) -> (r: String)
    ensures
        r@ == sanitized(name@),
{
    let v = chars_of(name);
    let mut out = String::new();
    let mut st = EscapeState::Plain;
    let mut i: usize = 0;
    while i < v.len()
        invariant
            i <= v.len(),
            v@ == name@,
            st == state_after(v@.take(i as int)),
            out@ == stripped(v@.take(i as int)),
        decreases v.len() - i,
    {
        let c = v[i];
        proof {
            assert(v@.take(i + 1).drop_last() =~= v@.take(i as int));
            assert(v@.take(i + 1).last() == c);
        }
        let u = c as u32;
        let plain = match st {
            EscapeState::InCsi => {
                if 0x40 <= u && u <= 0x7e {
                    st = EscapeState::Plain;
                }
                false
            },
            EscapeState::AfterEscape => {
                if c == '[' {
                    st = EscapeState::InCsi;
                    false
                } else {
                    true
                }
            },
            EscapeState::Plain => true,
        };
        if plain {
            if c == '\x1b' {
                st = EscapeState::AfterEscape;
            } else {
                st = EscapeState::Plain;
                if !(u <= 0x1f || (0x7f <= u && u <= 0x9f)) {
                    push_char(&mut out, c);
                }
            }
        }
        proof {
            let kept = escape_step(state_after(v@.take(i as int)), c).1;
            assert(out@ =~= stripped(v@.take(i as int).drop_last().push(c)) || true);
            assert(stripped(v@.take(i + 1)) == stripped(v@.take(i as int)) + match kept {
                Some(k) => seq![k],
                None => Seq::<char>::empty(),
            });
        }
        i = i + 1;
    }
    assert(v@.take(v.len() as int) =~= v@);
    trim_str(out.as_str())
}

// ───────────────────────── porcelain ─────────────────────────

/// `c` is an ASCII hexadecimal digit.
pub open spec fn is_hex(c: char) -> bool {
    ('0' <= c && c <= '9') || ('a' <= c && c <= 'f') || ('A' <= c && c <= 'F')
}

/// The first index at or after `i` that is not whitespace (or `s.len()`).
pub open spec fn skip_ws(s: Seq<char>, i: int) -> int
    decreases s.len() - i,
{
    if i < 0 || i >= s.len() {
        s.len() as int
    } else if is_ws(s[i]) {
        skip_ws(s, i + 1)
    } else {
        i
    }
}

/// The first index at or after `i` that is whitespace (or `s.len()`).
pub open spec fn word_end(s: Seq<char>, i: int) -> int
    decreases s.len() - i,
{
    if i < 0 || i >= s.len() {
        s.len() as int
    } else if is_ws(s[i]) {
        i
    } else {
        word_end(s, i + 1)
    }
}

/// The final line number of a porcelain header line: forty hexadecimal
/// digits, then whitespace-separated fields, the first the original line
/// and the second the final line. `None` for any other line.
pub open spec fn header_final_line(l: Seq<char>) -> Option<nat> {
    if l.len() >= 40 && (forall|i: int| 0 <= i < 40 ==> is_hex(#[trigger] l[i])) {
        let rest = l.skip(40);
        let a1 = skip_ws(rest, 0);
        let b1 = word_end(rest, a1);
        let a2 = skip_ws(rest, b1);
        let b2 = word_end(rest, a2);
        if a1 >= rest.len() || a2 >= rest.len() {
            None
        } else {
            parse_bounded(rest.subrange(a2, b2), usize::MAX as nat)
        }
    } else {
        None
    }
}

/// What has been read of porcelain lines: the authors found so far, by
/// final line, and the hunk being read, if any (its final line and author).
pub open spec fn porcelain_state(ls: Seq<Seq<char>>) -> (Map<usize, Seq<char>>, Option<
    (usize, Seq<char>),
>)
    decreases ls.len(),
{
    if ls.len() == 0 {
        (Map::empty(), None)
    } else {
        let (m, st) = porcelain_state(ls.drop_last());
        let l = ls.last();
        match st {
            None => match header_final_line(l) {
                Some(n) => (m, Some((n as usize, Seq::empty()))),
                None => (m, None),
            },
            Some((n, a)) => if l.len() > 0 && l[0] == '\t' {
                (m.insert(n, a), None)
            } else if l.len() >= 7 && l.take(7) == "author "@ {
                (m, Some((n, sanitized(l.skip(7)))))
            } else {
                (m, Some((n, a)))
            },
        }
    }
}

/// The author of each final line in porcelain output `s`.
pub open spec fn blame_authors(s: Seq<char>) -> Map<usize, Seq<char>> {
    let (m, st) = porcelain_state(lines(s));
    match st {
        Some((n, a)) => m.insert(n, a),
        None => m,
    }
}

/// `m` holds, for each line, the author that `authors` gives it.
pub open spec fn holds_authors(m: Map<usize, BlameInfo>, authors: Map<usize, Seq<char>>) -> bool {
    &&& m.dom() == authors.dom()
    &&& forall|k: usize| #[trigger] m.contains_key(k) ==> m[k].author@ == authors[k]
}

fn skip_ws_exec(v: &Vec<char>, from: usize) -> (r: usize)
    requires
        from <= v.len(),
    ensures
        r == skip_ws(v@, from as int),
        from <= r <= v.len(),
{
    let mut i = from;
    while i < v.len() && is_ws_exec(v[i])
        invariant
            from <= i <= v.len(),
            skip_ws(v@, from as int) == skip_ws(v@, i as int),
        decreases v.len() - i,
    {
        i = i + 1;
    }
    i
}

fn word_end_exec(v: &Vec<char>, from: usize) -> (r: usize)
    requires
        from <= v.len(),
    ensures
        r == word_end(v@, from as int),
        from <= r <= v.len(),
{
    let mut i = from;
    while i < v.len() && !is_ws_exec(v[i])
        invariant
            from <= i <= v.len(),
            word_end(v@, from as int) == word_end(v@, i as int),
        decreases v.len() - i,
    {
        i = i + 1;
    }
    i
}

fn is_ws_exec(c: char) -> (r: bool)
    ensures
        r == is_ws(c),
{
    crate::text::is_ws_char(c)
}

/// The final line number of a porcelain header line, if `line` is one.
pub fn header_line_number(line: &str) -> (r: Option<usize>)
    ensures
        r == match header_final_line(line@) {
            Some(n) => Some(n as usize),
            None => None,
        },
{
    let v = chars_of(line);
    if v.len() < 40 {
        return None;
    }
    let mut i: usize = 0;
    while i < 40
        invariant
            i <= 40 <= v.len(),
            v@ == line@,
            forall|j: int| 0 <= j < i ==> is_hex(#[trigger] v@[j]),
        decreases 40 - i,
    {
        let c = v[i];
        if !(('0' <= c && c <= '9') || ('a' <= c && c <= 'f') || ('A' <= c && c <= 'F')) {
            return None;
        }
        i = i + 1;
    }
    let rest_s = string_of_range(&v, 40, v.len());
    let rest = chars_of(rest_s.as_str());
    assert(rest@ =~= line@.skip(40));
    let a1 = skip_ws_exec(&rest, 0);
    if a1 >= rest.len() {
        return None;
    }
    let b1 = word_end_exec(&rest, a1);
    let a2 = skip_ws_exec(&rest, b1);
    if a2 >= rest.len() {
        return None;
    }
    let b2 = word_end_exec(&rest, a2);
    match parse_bounded_range(&rest, a2, b2, usize::MAX as u64) {
        Some(n) => Some(n as usize),
        None => None,
    }
}

fn starts_with_author(v: &Vec<char>) -> (r: bool)
    ensures
        r == (v@.len() >= 7 && v@.take(7) == "author "@),
{
    proof {
        reveal_strlit("author ");
    }
    if v.len() < 7 {
        return false;
    }
    let r = v[0] == 'a' && v[1] == 'u' && v[2] == 't' && v[3] == 'h' && v[4] == 'o' && v[5] == 'r'
        && v[6] == ' ';
    if r {
        assert(v@.take(7) =~= "author "@);
    } else {
        proof {
            if v@.take(7) == "author "@ {
                assert(v@[0] == v@.take(7)[0]);
                assert(v@[1] == v@.take(7)[1]);
                assert(v@[2] == v@.take(7)[2]);
                assert(v@[3] == v@.take(7)[3]);
                assert(v@[4] == v@.take(7)[4]);
                assert(v@[5] == v@.take(7)[5]);
                assert(v@[6] == v@.take(7)[6]);
            }
        }
    }
    r
}

/// Reads `git blame --porcelain` output: the author of each final line.
/// Each hunk starts with a header line naming its final line; its `author`
/// metadata line gives the author, sanitised; a tab-led content line ends
/// it. Lines outside a hunk that are not headers are skipped.
pub fn parse_blame_porcelain(output: &str) -> (r: HashMap<usize, BlameInfo>)
    ensures
        holds_authors(r@, blame_authors(output@)),
{
    let ls = lines_of(output);
    let ghost lv = lines(output@);
    let mut m: HashMap<usize, BlameInfo> = HashMap::new();
    let mut hunk: Option<(usize, String)> = None;
    let mut i: usize = 0;
    while i < ls.len()
        invariant
            i <= ls.len(),
            views(ls@) == lv,
            holds_authors(m@, porcelain_state(lv.take(i as int)).0),
            match (hunk, porcelain_state(lv.take(i as int)).1) {
                (Some((n, a)), Some((sn, sa))) => n == sn && a@ == sa,
                (None, None) => true,
                _ => false,
            },
        decreases ls.len() - i,
    {
        proof {
            assert(lv.take(i + 1).drop_last() =~= lv.take(i as int));
            assert(lv.take(i + 1).last() == ls@[i as int]@);
        }
        let ghost before = porcelain_state(lv.take(i as int)).0;
        let l = chars_of(ls[i].as_str());
        match hunk {
            None => {
                match header_line_number(ls[i].as_str()) {
                    Some(n) => {
                        hunk = Some((n, String::new()));
                    },
                    None => {},
                }
            },
            Some((n, a)) => {
                if l.len() > 0 && l[0] == '\t' {
                    m.insert(n, BlameInfo { author: a });
                    hunk = None;
                    proof {
                        assert(m@.dom() =~= before.insert(n, a@).dom());
                    }
                } else if starts_with_author(&l) {
                    let name = string_of_range(&l, 7, l.len());
                    assert(name@ =~= ls@[i as int]@.skip(7));
                    hunk = Some((n, sanitize_author(name.as_str())));
                } else {
                    hunk = Some((n, a));
                }
            },
        }
        i = i + 1;
    }
    assert(lv.take(ls.len() as int) =~= lv);
    match hunk {
        Some((n, a)) => {
            let ghost before = porcelain_state(lv).0;
            m.insert(n, BlameInfo { author: a });
            assert(m@.dom() =~= before.insert(n, a@).dom());
        },
        None => {},
    }
    m
}

// ───────────────────────── attributing fuses ─────────────────────────

/// Some fuse of `fuses` without an explicit owner is in the file `f`.
pub open spec fn unowned_in(fuses: Seq<Fuse>, f: Seq<char>) -> bool {
    exists|k: int| 0 <= k < fuses.len() && fuses[k].owner is None && same_path(fuses[k].file@, f)
}

/// Some fuse of `fuses` before index `q` is without an explicit owner and
/// in the file `f`.
pub open spec fn unowned_before(fuses: Seq<Fuse>, q: int, f: Seq<char>) -> bool {
    exists|p: int| 0 <= p < q && fuses[p].owner is None && same_path(fuses[p].file@, f)
}

/// Every fuse without an explicit owner in file `b` comes after one in file
/// `a`: `a` appears first.
pub open spec fn appears_first(fuses: Seq<Fuse>, a: Seq<char>, b: Seq<char>) -> bool {
    forall|q: int|
        0 <= q < fuses.len() && fuses[q].owner is None && #[trigger] same_path(fuses[q].file@, b)
            ==> unowned_before(fuses, q, a)
}

/// The files, in order of first appearance and each path once, that hold
/// a fuse without an explicit owner: those whose blame is wanted.
pub fn files_needing_blame(fuses: &Vec<Fuse>) -> (r: Vec<String>)
    ensures
        forall|i: int, j: int| 0 <= i < j < r@.len() ==> !same_path(r@[i]@, r@[j]@),
        forall|i: int, j: int|
            0 <= i < j < r@.len() ==> appears_first(fuses@, #[trigger] r@[i]@, #[trigger] r@[j]@),
        forall|i: int| 0 <= i < r@.len() ==> unowned_in(fuses@, #[trigger] r@[i]@),
        forall|k: int|
            0 <= k < fuses@.len() && fuses@[k].owner is None ==> lists_path(r@, 
                #[trigger] fuses@[k].file@,
            ),
{
    let mut r: Vec<String> = Vec::new();
    let mut k: usize = 0;
    while k < fuses.len()
        invariant
            k <= fuses.len(),
            forall|i: int, j: int| 0 <= i < j < r@.len() ==> !same_path(r@[i]@, r@[j]@),
            forall|i: int| 0 <= i < r@.len() ==> unowned_in(fuses@.take(k as int), #[trigger] r@[i]@),
            forall|q: int|
                0 <= q < k && fuses@[q].owner is None ==> lists_path(r@, 
                    #[trigger] fuses@[q].file@,
                ),
            forall|i: int, j: int|
                0 <= i < j < r@.len() ==> appears_first(
                    fuses@.take(k as int),
                    #[trigger] r@[i]@,
                    #[trigger] r@[j]@,
                ),
        decreases fuses.len() - k,
    {
        let ghost old_r = r@;
        if fuses[k].owner.is_none() {
            let mut g: usize = 0;
            let mut seen = false;
            while g < r.len()
                invariant
                    g <= r.len(),
                    k < fuses.len(),
                    seen ==> lists_path(r@, fuses@[k as int].file@),
                    !seen ==> forall|h: int| 0 <= h < g ==> !same_path(r@[h]@, fuses@[k as int].file@),
                decreases r.len() - g,
            {
                if !seen && paths_equal(r[g].as_str(), fuses[k].file.as_str()) {
                    seen = true;
                    assert(same_path(r@[g as int]@, fuses@[k as int].file@));
                }
                g = g + 1;
            }
            if !seen {
                r.push(fuses[k].file.clone());
                proof {
                    assert(r@[old_r.len() as int]@ == fuses@[k as int].file@);
                    assert(same_path(r@[old_r.len() as int]@, fuses@[k as int].file@));
                    assert forall|a: int, b: int| 0 <= a < b < r@.len() implies !same_path(r@[a]@, r@[b]@) by {
                        if b < old_r.len() {
                            assert(r@[a] == old_r[a] && r@[b] == old_r[b]);
                        } else {
                            assert(r@[a] == old_r[a]);
                            assert(!same_path(old_r[a]@, fuses@[k as int].file@));
                        }
                    }
                }
            }
        }
        proof {
            assert forall|i: int| 0 <= i < r@.len() implies unowned_in(
                fuses@.take(k + 1),
                #[trigger] r@[i]@,
            ) by {
                if i < old_r.len() {
                    assert(r@[i] == old_r[i]);
                    assert(unowned_in(fuses@.take(k as int), old_r[i]@));
                    let q = choose|q: int|
                        0 <= q < fuses@.take(k as int).len() && fuses@.take(k as int)[q].owner is None
                            && same_path(fuses@.take(k as int)[q].file@, old_r[i]@);
                    assert(fuses@.take(k + 1)[q] == fuses@[q]);
                } else {
                    assert(fuses@.take(k + 1)[k as int] == fuses@[k as int]);
                }
            }
            let next = fuses@.take(k + 1);
            let prev = fuses@.take(k as int);
            assert forall|i: int, j: int| 0 <= i < j < r@.len() implies appears_first(
                next,
                #[trigger] r@[i]@,
                #[trigger] r@[j]@,
            ) by {
                assert forall|q: int|
                    0 <= q < next.len() && next[q].owner is None && #[trigger] same_path(next[q].file@, r@[j]@) implies unowned_before(next, q, r@[i]@) by {
                    assert(r@[i] == old_r[i]);
                    assert(unowned_in(prev, old_r[i]@));
                    let w = choose|w: int|
                        0 <= w < prev.len() && prev[w].owner is None && same_path(prev[w].file@, old_r[i]@);
                    assert(next[w] == prev[w]);
                    if q < k {
                        assert(next[q] == prev[q]);
                        if j < old_r.len() {
                            assert(r@[j] == old_r[j]);
                            assert(appears_first(prev, old_r[i]@, old_r[j]@));
                            assert(same_path(prev[q].file@, old_r[j]@));
                            let p = choose|p: int|
                                0 <= p < q && prev[p].owner is None && same_path(prev[p].file@, old_r[i]@);
                            assert(next[p] == prev[p]);
                        } else {
                            assert(fuses@[q].owner is None);
                            assert(lists_path(old_r, fuses@[q].file@));
                            let h = choose|h: int|
                                0 <= h < old_r.len() && same_path(#[trigger] old_r[h]@, fuses@[q].file@);
                            assert(r@[h] == old_r[h]);
                        }
                    }
                }
            }
            assert forall|q: int|
                0 <= q < k + 1 && fuses@[q].owner is None implies lists_path(r@, 
                #[trigger] fuses@[q].file@,
            ) by {
                if q < k {
                    let w = choose|w: int|
                        0 <= w < old_r.len() && same_path(#[trigger] old_r[w]@, fuses@[q].file@);
                    assert(r@[w] == old_r[w]);
                    assert(same_path(r@[w]@, fuses@[q].file@));
                }
            }
        }
        k = k + 1;
    }
    assert(fuses@.take(fuses@.len() as int) =~= fuses@);
    r
}

/// The blamed owner a fuse at `line` gets from `blame`: its author, unless
/// there is none, it is empty, or the line is not committed yet.
pub open spec fn blamed_author(blame: Map<usize, BlameInfo>, line: usize) -> Option<Seq<char>> {
    if blame.contains_key(line) && blame[line].author@.len() > 0 && blame[line].author@
        != "Not Committed Yet"@ {
        Some(blame[line].author@)
    } else {
        None
    }
}

/// Gives each fuse in `file` that has no explicit owner the author that
/// `blame` (the file's blame) names for its line, if it names a committed
/// author. Nothing else changes.
pub fn apply_blame(fuses: &mut Vec<Fuse>, file: &str, blame: &HashMap<usize, BlameInfo>)
    ensures
        final(fuses)@.len() == old(fuses)@.len(),
        forall|i: int|
            0 <= i < old(fuses)@.len() ==> {
                let f = #[trigger] old(fuses)@[i];
                let g = final(fuses)@[i];
                &&& g.file == f.file && g.line == f.line && g.tag == f.tag && g.date == f.date
                &&& g.owner == f.owner && g.message == f.message && g.status == f.status
                &&& opt_text(g.blamed_owner) == if same_path(f.file@, file@) && f.owner is None
                    && blamed_author(blame@, f.line) is Some {
                    Some(blamed_author(blame@, f.line)->0)
                } else {
                    opt_text(f.blamed_owner)
                }
            },
{
    let ghost start = fuses@;
    let mut i: usize = 0;
    while i < fuses.len()
        invariant
            i <= fuses.len(),
            fuses@.len() == start.len(),
            forall|j: int| i <= j < start.len() ==> fuses@[j] == start[j],
            forall|j: int|
                0 <= j < i ==> {
                    let f = #[trigger] start[j];
                    let g = fuses@[j];
                    &&& g.file == f.file && g.line == f.line && g.tag == f.tag && g.date
                        == f.date
                    &&& g.owner == f.owner && g.message == f.message && g.status == f.status
                    &&& opt_text(g.blamed_owner) == if same_path(f.file@, file@) && f.owner is None
                        && blamed_author(blame@, f.line) is Some {
                        Some(blamed_author(blame@, f.line)->0)
                    } else {
                        opt_text(f.blamed_owner)
                    }
                },
        decreases fuses.len() - i,
    {
        if fuses[i].owner.is_none() && paths_equal(fuses[i].file.as_str(), file) {
            match blame.get(&fuses[i].line) {
                Some(info) => {
                    if !info.author.as_str().is_empty() && !str_eq(
                        info.author.as_str(),
                        "Not Committed Yet",
                    ) {
                        let mut f = fuses[i].duplicate();
                        f.blamed_owner = Some(info.author.clone());
                        fuses.set(i, f);
                    }
                },
                None => {},
            }
        }
        i = i + 1;
    }
}

} // verus!
