//! The pre-commit hook block: recognising, adding and cutting it out of a
//! hook script.

use crate::text::{append, contains, occurs_at, contains_str, is_ws, join, lemma_join_prepend, lemma_lines_cons, lemma_lines_of_terminated, lemma_lines_shape, lines, lines_of, no_carriage_return, push_char, single_line, str_eq, to_owned, trim, trim_end, trim_end_str, trim_str, views};
use vstd::prelude::*;

verus! {

/// The line that opens the hook block.
pub const MARKER_BEGIN: &'static str = "# BEGIN timebomb";

/// The line that closes the hook block.
pub const MARKER_END: &'static str = "# END timebomb";

/// The block added to a pre-commit hook.
pub const HOOK_BLOCK: &'static str = "# BEGIN timebomb\ntimebomb check --since HEAD .\n# END timebomb\n";

/// A fresh pre-commit hook: a shell script that runs the block.
pub const NEW_HOOK_CONTENT: &'static str =
    "#!/bin/sh\nset -e\n# BEGIN timebomb\ntimebomb check --since HEAD .\n# END timebomb\n";

/// Whether the hook script `content` holds the block's opening marker.
pub fn hook_has_timebomb_block(content: &str) -> (r: bool)
    ensures
        r == contains(content@, MARKER_BEGIN@),
{
    contains_str(content, MARKER_BEGIN)
}

/// `l`, trimmed, is the opening or the closing marker.
pub open spec fn is_marker(l: Seq<char>) -> bool {
    trim(l) == MARKER_BEGIN@ || trim(l) == MARKER_END@
}

/// Whether, after the lines `ls`, one is inside the block: the last marker
/// seen opened it.
pub open spec fn inside_after(ls: Seq<Seq<char>>) -> bool
    decreases ls.len(),
{
    if ls.len() == 0 {
        false
    } else if trim(ls.last()) == MARKER_BEGIN@ {
        true
    } else if trim(ls.last()) == MARKER_END@ {
        false
    } else {
        inside_after(ls.drop_last())
    }
}

/// The lines of `ls` that stay when the block is cut out: neither markers
/// nor lines between an opening marker and the next closing one.
pub open spec fn kept_lines(ls: Seq<Seq<char>>) -> Seq<Seq<char>>
    decreases ls.len(),
{
    if ls.len() == 0 {
        Seq::empty()
    } else {
        let prev = kept_lines(ls.drop_last());
        if is_marker(ls.last()) || inside_after(ls.drop_last()) {
            prev
        } else {
            prev.push(ls.last())
        }
    }
}

/// Each of `ls` followed by a newline.
pub open spec fn terminated(ls: Seq<Seq<char>>) -> Seq<char>
    decreases ls.len(),
{
    if ls.len() == 0 {
        Seq::empty()
    } else {
        terminated(ls.drop_last()) + ls.last() + seq!['\n']
    }
}

/// Cuts the block out of the hook script `content`: every line between an
/// opening and a closing marker goes, with the markers; each line kept is
/// ended by a newline.
pub fn remove_timebomb_block(content: &str) -> (r: String)
    ensures
        r@ == terminated(kept_lines(lines(content@))),
{
    let ls = lines_of(content);
    let ghost lv = lines(content@);
    let mut out = String::new();
    let mut inside = false;
    let mut i: usize = 0;
    while i < ls.len()
        invariant
            i <= ls.len(),
            views(ls@) == lv,
            inside == inside_after(lv.take(i as int)),
            out@ == terminated(kept_lines(lv.take(i as int))),
        decreases ls.len() - i,
    {
        proof {
            assert(lv.take(i + 1).drop_last() =~= lv.take(i as int));
            assert(lv.take(i + 1).last() == ls@[i as int]@);
        }
        let t = trim_str(ls[i].as_str());
        if str_eq(t.as_str(), MARKER_BEGIN) {
            inside = true;
        } else if str_eq(t.as_str(), MARKER_END) {
            inside = false;
        } else if !inside {
            let ghost before = kept_lines(lv.take(i as int));
            append(&mut out, ls[i].as_str());
            push_char(&mut out, '\n');
            proof {
                assert(before.push(ls@[i as int]@).drop_last() =~= before);
            }
        }
        i = i + 1;
    }
    assert(lv.take(ls.len() as int) =~= lv);
    out
}

/// What installing the hook does to the pre-commit hook.
#[derive(Debug)]
pub enum HookInstall {
    /// The hook already holds the block: nothing is written.
    AlreadyInstalled,
    /// The hook exists: it is rewritten with the block appended.
    Append(String),
    /// There is no hook: a new one is written.
    Create(String),
}

/// `existing` without its trailing whitespace, a newline, and the block.
pub open spec fn with_block(existing: Seq<char>) -> Seq<char> {
    trim_end(existing) + seq!['\n'] + HOOK_BLOCK@
}

/// Decides how to install the hook given the current hook script, if any.
pub fn install_plan(existing: Option<&str>) -> (r: HookInstall)
    ensures
        match existing {
            None => r matches HookInstall::Create(c) && c@ == NEW_HOOK_CONTENT@,
            Some(x) => if contains(x@, MARKER_BEGIN@) {
                r is AlreadyInstalled
            } else {
                r matches HookInstall::Append(c) && c@ == with_block(x@)
            },
        },
{
    match existing {
        None => HookInstall::Create(to_owned(NEW_HOOK_CONTENT)),
        Some(x) => {
            if hook_has_timebomb_block(x) {
                HookInstall::AlreadyInstalled
            } else {
                let mut c = trim_end_str(x);
                push_char(&mut c, '\n');
                append(&mut c, HOOK_BLOCK);
                HookInstall::Append(c)
            }
        },
    }
}

/// `l`, trimmed, says something beyond the shebang and `set -e`.
pub open spec fn is_real_line(l: Seq<char>) -> bool {
    trim(l).len() > 0 && trim(l) != "#!/bin/sh"@ && trim(l) != "set -e"@
}

/// Some line of `s` says something beyond the shebang and `set -e`.
pub open spec fn has_real_content(s: Seq<char>) -> bool {
    exists|i: int| 0 <= i < lines(s).len() && is_real_line(#[trigger] lines(s)[i])
}

/// Whether some line of `s` says something beyond the shebang and `set -e`.
pub fn real_content(s: &str) -> (r: bool)
    ensures
        r == has_real_content(s@),
{
    let ls = lines_of(s);
    let mut i: usize = 0;
    while i < ls.len()
        invariant
            i <= ls.len(),
            views(ls@) == lines(s@),
            forall|j: int| 0 <= j < i ==> !is_real_line(#[trigger] lines(s@)[j]),
        decreases ls.len() - i,
    {
        let t = trim_str(ls[i].as_str());
        assert(ls@[i as int]@ == lines(s@)[i as int]);
        if !t.as_str().is_empty() && !str_eq(t.as_str(), "#!/bin/sh") && !str_eq(
            t.as_str(),
            "set -e",
        ) {
            assert(is_real_line(lines(s@)[i as int]));
            return true;
        }
        i = i + 1;
    }
    false
}

/// What uninstalling the hook does to the pre-commit hook.
#[derive(Debug)]
pub enum HookUninstall {
    /// There is no hook: nothing to do.
    NoHook,
    /// The hook does not hold the block: nothing to do.
    NotInstalled,
    /// Nothing but the block, a shebang and `set -e` is left: the hook goes.
    Delete,
    /// The hook is rewritten without the block.
    Write(String),
}

/// Decides how to uninstall the hook given the current hook script, if any.
pub fn uninstall_plan(existing: Option<&str>) -> (r: HookUninstall)
    ensures
        match existing {
            None => r is NoHook,
            Some(x) => if !contains(x@, MARKER_BEGIN@) {
                r is NotInstalled
            } else {
                let cleaned = terminated(kept_lines(lines(x@)));
                if has_real_content(cleaned) {
                    r matches HookUninstall::Write(c) && c@ == cleaned
                } else {
                    r is Delete
                }
            },
        },
{
    match existing {
        None => HookUninstall::NoHook,
        Some(x) => {
            if !hook_has_timebomb_block(x) {
                return HookUninstall::NotInstalled;
            }
            let cleaned = remove_timebomb_block(x);
            if real_content(cleaned.as_str()) {
                HookUninstall::Write(cleaned)
            } else {
                HookUninstall::Delete
            }
        },
    }
}

/// `p` occurs in `s` at exactly one place.
pub open spec fn occurs_once(s: Seq<char>, p: Seq<char>) -> bool {
    exists|i: int| occurs_at(s, p, i) && forall|j: int| #[trigger] occurs_at(s, p, j) ==> j == i
}

/// The begin marker occurs in the hook block only at its start.
proof fn lemma_block_marker_once(b: Seq<char>)
    requires
        b == HOOK_BLOCK@,
    ensures
        forall|k: int| #[trigger] occurs_at(b, MARKER_BEGIN@, k) ==> k == 0,
{
    reveal_strlit("# BEGIN timebomb");
    reveal_strlit("# BEGIN timebomb\ntimebomb check --since HEAD .\n# END timebomb\n");
    let m = MARKER_BEGIN@;
    assert forall|k: int| #[trigger] occurs_at(b, m, k) implies k == 0 by {
        assert(b.subrange(k, k + m.len())[0] == b[k]);
        assert(b.subrange(k, k + m.len())[2] == b[k + 2]);
        assert(b.subrange(k, k + m.len())[1] == b[k + 1]);
        assert(b.subrange(k, k + m.len())[3] == b[k + 3]);
    }
}

/// Installing the hook leaves a hook script that holds the block, whether
/// the block was appended to an existing hook or a new hook was written;
/// so installing again finds it installed and writes nothing. Appended to a
/// hook without the begin marker, or written fresh, the begin marker occurs
/// exactly once.
pub proof fn law_install_is_idempotent(existing: Seq<char>)
    ensures
        contains(with_block(existing), MARKER_BEGIN@),
        contains(NEW_HOOK_CONTENT@, MARKER_BEGIN@),
        !contains(existing, MARKER_BEGIN@) ==> occurs_once(with_block(existing), MARKER_BEGIN@),
        occurs_once(NEW_HOOK_CONTENT@, MARKER_BEGIN@),
{
    reveal_strlit("# BEGIN timebomb");
    reveal_strlit("# BEGIN timebomb\ntimebomb check --since HEAD .\n# END timebomb\n");
    reveal_strlit("#!/bin/sh\nset -e\n# BEGIN timebomb\ntimebomb check --since HEAD .\n# END timebomb\n");
    let m = MARKER_BEGIN@;
    let b = HOOK_BLOCK@;
    let w = with_block(existing);
    let t = trim_end(existing);
    let i: int = t.len() as int + 1;
    assert(w.subrange(i, i + m.len()) =~= m);
    assert(occurs_at(w, m, i));
    assert(NEW_HOOK_CONTENT@.subrange(17int, 17int + m.len()) =~= m);
    assert(occurs_at(NEW_HOOK_CONTENT@, m, 17int));
    lemma_block_marker_once(b);
    lemma_trim_end_prefix(existing);
    if !contains(existing, m) {
        assert forall|j: int| #[trigger] occurs_at(w, m, j) implies j == i by {
            if j + m.len() <= t.len() {
                assert(w.subrange(j, j + m.len()) =~= existing.subrange(j, j + m.len()));
                assert(occurs_at(existing, m, j));
            } else if j < i {
                let k = t.len() - j;
                assert(w[t.len() as int] == '\n');
                assert(w.subrange(j, j + m.len())[k] == w[j + k]);
                assert(m[k] != '\n');
            } else {
                assert(w.subrange(j, j + m.len()) =~= b.subrange(j - i, j - i + m.len()));
                assert(occurs_at(b, m, j - i));
            }
        }
    }
    let n = NEW_HOOK_CONTENT@;
    assert forall|j: int| #[trigger] occurs_at(n, m, j) implies j == 17 by {
        if j < 17 {
            assert(n.subrange(j, j + m.len())[0] == n[j]);
            assert(n.subrange(j, j + m.len())[1] == n[j + 1]);
            assert(n.subrange(j, j + m.len())[2] == n[j + 2]);
        } else {
            assert(n.subrange(17, n.len() as int) =~= b);
            assert(n.subrange(j, j + m.len()) =~= b.subrange(j - 17, j - 17 + m.len()));
            assert(occurs_at(b, m, j - 17));
        }
    }
}

/// The lines of `join(ls) + "\n" + b` are `ls` followed by the lines of `b`.
proof fn lemma_lines_of_joined_then(ls: Seq<Seq<char>>, b: Seq<char>)
    requires
        ls.len() > 0,
        forall|i: int| 0 <= i < ls.len() ==> single_line(#[trigger] ls[i]),
    ensures
        lines(join(ls, seq!['\n']) + seq!['\n'] + b) == ls + lines(b),
    decreases ls.len(),
{
    let a = ls[0];
    let rest = ls.skip(1);
    assert(ls =~= seq![a] + rest);
    assert(single_line(ls[0]));
    if rest.len() == 0 {
        assert(join(ls, seq!['\n']) == a);
        lemma_lines_cons(a, b);
        assert(ls + lines(b) =~= seq![a] + lines(b));
    } else {
        lemma_join_prepend(a, rest, seq!['\n']);
        assert(join(ls, seq!['\n']) + seq!['\n'] + b =~= a + seq!['\n'] + (join(rest, seq!['\n'])
            + seq!['\n'] + b));
        lemma_lines_cons(a, join(rest, seq!['\n']) + seq!['\n'] + b);
        assert forall|i: int| 0 <= i < rest.len() implies single_line(#[trigger] rest[i]) by {
            assert(rest[i] == ls[i + 1]);
        }
        lemma_lines_of_joined_then(rest, b);
        assert(ls + lines(b) =~= seq![a] + (rest + lines(b)));
    }
}

/// Lines that are no marker are all kept, and leave one outside the block.
proof fn lemma_kept_plain(ls: Seq<Seq<char>>)
    requires
        forall|i: int| 0 <= i < ls.len() ==> !is_marker(#[trigger] ls[i]),
    ensures
        kept_lines(ls) == ls,
        !inside_after(ls),
    decreases ls.len(),
{
    if ls.len() > 0 {
        let d = ls.drop_last();
        assert forall|i: int| 0 <= i < d.len() implies !is_marker(#[trigger] d[i]) by {
            assert(d[i] == ls[i]);
        }
        lemma_kept_plain(d);
        assert(!is_marker(ls[ls.len() - 1]));
        assert(d.push(ls.last()) =~= ls);
    }
}

/// `terminated` is the newline join with a final newline.
proof fn lemma_terminated_join(ls: Seq<Seq<char>>)
    requires
        ls.len() > 0,
    ensures
        terminated(ls) == join(ls, seq!['\n']) + seq!['\n'],
    decreases ls.len(),
{
    if ls.len() == 1 {
        assert(terminated(ls.drop_last()) == Seq::<char>::empty());
        assert(terminated(ls) =~= ls[0] + seq!['\n']);
    } else {
        lemma_terminated_join(ls.drop_last());
        assert(terminated(ls) =~= join(ls, seq!['\n']) + seq!['\n']);
    }
}

/// `trim_end(s)` is a prefix of `s` that does not end in whitespace.
proof fn lemma_trim_end_prefix(s: Seq<char>)
    ensures
        trim_end(s).len() <= s.len(),
        trim_end(s) == s.take(trim_end(s).len() as int),
        trim_end(s).len() > 0 ==> !is_ws(trim_end(s).last()),
    decreases s.len(),
{
    if s.len() > 0 && is_ws(s.last()) {
        lemma_trim_end_prefix(s.drop_last());
        assert(s.drop_last().take(trim_end(s).len() as int) =~= s.take(trim_end(s).len() as int));
    } else {
        assert(s.take(s.len() as int) =~= s);
    }
}

/// The lines of the hook block: its two markers around the check command.
proof fn lemma_block_lines()
    ensures
        lines(HOOK_BLOCK@) == seq![MARKER_BEGIN@, "timebomb check --since HEAD ."@, MARKER_END@],
        is_marker(MARKER_BEGIN@),
        is_marker(MARKER_END@),
        !is_marker("timebomb check --since HEAD ."@),
        trim(MARKER_BEGIN@) == MARKER_BEGIN@,
{
    reveal_strlit("# BEGIN timebomb");
    reveal_strlit("# END timebomb");
    reveal_strlit("timebomb check --since HEAD .");
    reveal_strlit("# BEGIN timebomb\ntimebomb check --since HEAD .\n# END timebomb\n");
    let b = MARKER_BEGIN@;
    let c = "timebomb check --since HEAD ."@;
    let e = MARKER_END@;
    let ls = seq![b, c, e];
    assert(single_line(ls[0]) && single_line(ls[1]) && single_line(ls[2]));
    assert(join(seq![b], seq!['\n']) == b);
    assert(seq![b, c].drop_last() =~= seq![b]);
    assert(join(seq![b, c], seq!['\n']) == b + seq!['\n'] + c);
    assert(ls.drop_last() =~= seq![b, c]);
    assert(join(ls, seq!['\n']) == b + seq!['\n'] + c + seq!['\n'] + e);
    assert(HOOK_BLOCK@ =~= join(ls, seq!['\n']) + seq!['\n']);
    lemma_lines_of_terminated(ls);
    assert(trim_end(b) == b);
    assert(trim(b) =~= b);
    assert(trim_end(e) == e);
    assert(trim(e) =~= e);
    assert(trim_end(c) == c);
    assert(trim(c) =~= c);
}

/// Uninstalling the hook right after installing it into an existing hook
/// script, one whose text carries no marker line, cuts out exactly what
/// the install added: the script comes back without its trailing
/// whitespace, ended by a newline (and the hook is deleted when nothing but
/// a shebang and `set -e` is left). A fresh hook written by the install is
/// deleted by the uninstall.
pub proof fn law_uninstall_undoes_install(existing: Seq<char>)
    requires
        no_carriage_return(existing),
        forall|i: int|
            0 <= i < lines(trim_end(existing)).len() ==> !is_marker(
                #[trigger] lines(trim_end(existing))[i],
            ),
    ensures
        contains(with_block(existing), MARKER_BEGIN@),
        terminated(kept_lines(lines(with_block(existing)))) == trim_end(existing) + seq!['\n'],
        contains(NEW_HOOK_CONTENT@, MARKER_BEGIN@),
        !has_real_content(terminated(kept_lines(lines(NEW_HOOK_CONTENT@)))),
{
    law_install_is_idempotent(existing);
    lemma_block_lines();
    let t = trim_end(existing);
    let blk = HOOK_BLOCK@;
    let bl = lines(blk);
    lemma_trim_end_prefix(existing);
    assert(with_block(existing) == t + seq!['\n'] + blk);
    let pre: Seq<Seq<char>> = if t.len() > 0 {
        lines(t)
    } else {
        seq![Seq::<char>::empty()]
    };
    if t.len() > 0 {
        assert(no_carriage_return(t)) by {
            assert forall|i: int| 0 <= i < t.len() implies t[i] != '\r' by {
                assert(t[i] == existing[i]);
            }
        }
        lemma_lines_shape(t);
        assert(t == join(lines(t), seq!['\n']));
        lemma_lines_of_joined_then(lines(t), blk);
    } else {
        assert(single_line(Seq::<char>::empty()));
        lemma_lines_cons(Seq::<char>::empty(), blk);
        assert(t + seq!['\n'] + blk =~= Seq::<char>::empty() + seq!['\n'] + blk);
    }
    assert(lines(with_block(existing)) == pre + bl);
    assert forall|i: int| 0 <= i < pre.len() implies !is_marker(#[trigger] pre[i]) by {
        if t.len() == 0 {
            assert(pre[i] == Seq::<char>::empty());
            assert(trim_end(Seq::<char>::empty()) == Seq::<char>::empty());
            assert(trim(Seq::<char>::empty()) =~= Seq::<char>::empty());
            reveal_strlit("# BEGIN timebomb");
            reveal_strlit("# END timebomb");
        }
    }
    lemma_kept_plain(pre);
    let all = pre + bl;
    let c = "timebomb check --since HEAD ."@;
    assert(all.drop_last() =~= pre + seq![MARKER_BEGIN@, c]);
    assert(all.last() == MARKER_END@);
    assert((pre + seq![MARKER_BEGIN@, c]).drop_last() =~= pre.push(MARKER_BEGIN@));
    assert(inside_after(pre.push(MARKER_BEGIN@)));
    assert(pre.push(MARKER_BEGIN@).drop_last() =~= pre);
    let p2 = pre + seq![MARKER_BEGIN@, c];
    assert(p2.last() == c);
    assert(kept_lines(all) == kept_lines(p2));
    assert(kept_lines(p2) == kept_lines(pre.push(MARKER_BEGIN@)));
    assert(pre.push(MARKER_BEGIN@).last() == MARKER_BEGIN@);
    assert(kept_lines(pre.push(MARKER_BEGIN@)) == kept_lines(pre));
    assert(kept_lines(all) == kept_lines(pre));
    lemma_terminated_join(pre);
    if t.len() == 0 {
        assert(join(pre, seq!['\n']) == Seq::<char>::empty());
        assert(terminated(pre) =~= t + seq!['\n']);
    }
    // A fresh hook.
    reveal_strlit("#!/bin/sh\nset -e\n# BEGIN timebomb\ntimebomb check --since HEAD .\n# END timebomb\n");
    reveal_strlit("#!/bin/sh");
    reveal_strlit("set -e");
    let sh = "#!/bin/sh"@;
    let se = "set -e"@;
    let head = seq![sh, se];
    assert(single_line(head[0]) && single_line(head[1]));
    assert(head.drop_last() =~= seq![sh]);
    assert(join(seq![sh], seq!['\n']) == sh);
    assert(join(head, seq!['\n']) == sh + seq!['\n'] + se);
    reveal_strlit("# BEGIN timebomb\ntimebomb check --since HEAD .\n# END timebomb\n");
    assert(NEW_HOOK_CONTENT@ =~= join(head, seq!['\n']) + seq!['\n'] + blk);
    lemma_lines_of_joined_then(head, blk);
    assert forall|i: int| 0 <= i < head.len() implies !is_marker(#[trigger] head[i]) by {
        reveal_strlit("# BEGIN timebomb");
        reveal_strlit("# END timebomb");
        assert(trim_end(sh) == sh);
        assert(trim(sh) =~= sh);
        assert(trim_end(se) == se);
        assert(trim(se) =~= se);
    }
    lemma_kept_plain(head);
    let fresh = head + bl;
    assert(fresh.drop_last() =~= head + seq![MARKER_BEGIN@, c]);
    assert((head + seq![MARKER_BEGIN@, c]).drop_last() =~= head.push(MARKER_BEGIN@));
    assert(inside_after(head.push(MARKER_BEGIN@)));
    assert(head.push(MARKER_BEGIN@).drop_last() =~= head);
    let h2 = head + seq![MARKER_BEGIN@, c];
    assert(h2.last() == c);
    assert(kept_lines(fresh) == kept_lines(h2));
    assert(kept_lines(h2) == kept_lines(head.push(MARKER_BEGIN@)));
    assert(head.push(MARKER_BEGIN@).last() == MARKER_BEGIN@);
    assert(kept_lines(head.push(MARKER_BEGIN@)) == kept_lines(head));
    assert(kept_lines(fresh) == head);
    lemma_terminated_join(head);
    lemma_lines_of_terminated(head);
    let cleaned = terminated(head);
    assert(lines(cleaned) == head);
    assert(trim_end(sh) == sh);
    assert(trim(sh) =~= sh);
    assert(trim_end(se) == se);
    assert(trim(se) =~= se);
    assert forall|i: int| 0 <= i < lines(cleaned).len() implies !is_real_line(#[trigger] lines(cleaned)[i]) by {
        assert(lines(cleaned)[i] == head[i]);
    }
}

} // verus!
