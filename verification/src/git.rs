//! Changed files from `git diff --name-only` output.

use crate::error::Error;
use crate::path::{paths_equal, same_path};
use crate::text::{append, contains, contains_str, lines, lines_of, lowercased, std_to_lowercase, to_owned, trim, trim_str, views};
use vstd::prelude::*;

verus! {

/// Some line of `output`, trimmed, is the nonempty path `p`.
pub open spec fn names_path(output: Seq<char>, p: Seq<char>) -> bool {
    p.len() > 0 && exists|i: int| 0 <= i < lines(output).len() && trim(#[trigger] lines(output)[i]) == p
}

/// No two entries of `r` name the same path.
pub open spec fn distinct_paths(r: Seq<String>) -> bool {
    forall|i: int, j: int| 0 <= i < j < r.len() ==> !same_path(r[i]@, r[j]@)
}

/// Some entry of `r` names the same path as `p`.
pub open spec fn lists_path(r: Seq<String>, p: Seq<char>) -> bool {
    exists|i: int| 0 <= i < r.len() && same_path(#[trigger] r[i]@, p)
}

fn add_names(r: &mut Vec<String>, output: &str)
    requires
        distinct_paths(old(r)@),
    ensures
        distinct_paths(final(r)@),
        final(r)@.len() >= old(r)@.len(),
        forall|i: int| 0 <= i < old(r)@.len() ==> #[trigger] final(r)@[i] == old(r)@[i],
        forall|i: int| old(r)@.len() <= i < final(r)@.len() ==> names_path(output@, #[trigger] final(r)@[i]@),
        forall|p: Seq<char>| #[trigger] names_path(output@, p) ==> lists_path(final(r)@, p),
{
    let ls = lines_of(output);
    let ghost lv = lines(output@);
    let ghost start = r@;
    let mut i: usize = 0;
    while i < ls.len()
        invariant
            i <= ls.len(),
            views(ls@) == lv,
            lv == lines(output@),
            distinct_paths(r@),
            r@.len() >= start.len(),
            forall|j: int| 0 <= j < start.len() ==> #[trigger] r@[j] == start[j],
            forall|j: int| start.len() <= j < r@.len() ==> names_path(output@, #[trigger] r@[j]@),
            forall|k: int| 0 <= k < i && trim(#[trigger] lv[k]).len() > 0 ==> lists_path(r@, trim(lv[k])),
        decreases ls.len() - i,
    {
        let t = trim_str(ls[i].as_str());
        assert(t@ == trim(lv[i as int]));
        let ghost before = r@;
        if !t.as_str().is_empty() {
            let mut g: usize = 0;
            let mut seen = false;
            while g < r.len()
                invariant
                    g <= r.len(),
                    seen ==> lists_path(r@, t@),
                    !seen ==> forall|h: int| 0 <= h < g ==> !same_path(#[trigger] r@[h]@, t@),
                decreases r.len() - g,
            {
                if !seen && paths_equal(r[g].as_str(), t.as_str()) {
                    seen = true;
                    assert(same_path(r@[g as int]@, t@));
                }
                g = g + 1;
            }
            let ghost tv = t@;
            if !seen {
                r.push(t);
                proof {
                    assert(r@[before.len() as int]@ == tv);
                    assert(names_path(output@, tv)) by {
                        assert(trim(lv[i as int]) == tv);
                    }
                    assert forall|a: int, b: int| 0 <= a < b < r@.len() implies !same_path(r@[a]@, r@[b]@) by {
                        if b < before.len() {
                            assert(r@[a] == before[a] && r@[b] == before[b]);
                        } else {
                            assert(r@[a] == before[a]);
                            assert(!same_path(before[a]@, tv));
                        }
                    }
                    assert(same_path(r@[before.len() as int]@, tv));
                }
            }
            assert(lists_path(r@, tv)) by {
                if seen {
                    let w = choose|w: int| 0 <= w < before.len() && same_path(#[trigger] before[w]@, tv);
                    assert(same_path(r@[w]@, tv));
                }
            }
        }
        proof {
            assert forall|k: int| 0 <= k < i + 1 && trim(#[trigger] lv[k]).len() > 0 implies lists_path(r@, trim(lv[k])) by {
                if k < i {
                    let w = choose|w: int| 0 <= w < before.len() && same_path(#[trigger] before[w]@, trim(lv[k]));
                    assert(same_path(r@[w]@, trim(lv[k])));
                }
            }
        }
        i = i + 1;
    }
    proof {
        assert forall|p: Seq<char>| #[trigger] names_path(output@, p) implies lists_path(r@, p) by {
            let k = choose|k: int| 0 <= k < lv.len() && trim(#[trigger] lv[k]) == p;
            assert(0 <= k < i);
        }
    }
}

/// The changed files named in `git diff --name-only` output for the
/// working tree (`unstaged`) and for the index (`staged`): every nonempty
/// trimmed line of either, each path once, in order of first appearance.
pub fn git_changed_files(unstaged: &str, staged: &str) -> (r: Vec<String>)
    ensures
        distinct_paths(r@),
        forall|i: int| 0 <= i < r@.len() ==> names_path(unstaged@, #[trigger] r@[i]@) || names_path(staged@, r@[i]@),
        forall|p: Seq<char>| names_path(unstaged@, p) || names_path(staged@, p) ==> #[trigger] lists_path(r@, p),
{
    let mut r: Vec<String> = Vec::new();
    add_names(&mut r, unstaged);
    let ghost mid = r@;
    add_names(&mut r, staged);
    proof {
        assert forall|p: Seq<char>| names_path(unstaged@, p) || names_path(staged@, p) implies #[trigger] lists_path(r@, p) by {
            if names_path(unstaged@, p) && !names_path(staged@, p) {
                let w = choose|w: int| 0 <= w < mid.len() && same_path(#[trigger] mid[w]@, p);
                assert(r@[w] == mid[w]);
            }
        }
    }
    r
}

/// The message for a failed `git diff` against `git_ref` that printed
/// `stderr`: a missing repository is named as such, anything else is taken
/// for a bad ref.
pub open spec fn git_failure_text(git_ref: Seq<char>, stderr: Seq<char>) -> Seq<char> {
    if contains(lowercased(trim(stderr)), "not a git repository"@) {
        "git diff failed: not a git repository"@
    } else {
        "invalid git ref '"@ + git_ref + "': "@ + trim(stderr)
    }
}

/// The error for a failed `git diff` against `git_ref` whose standard
/// error was `stderr`.
pub fn git_failure(git_ref: &str, stderr: &str) -> (r: Error)
    ensures
        r.detail() == git_failure_text(git_ref@, stderr@),
{
    let t = trim_str(stderr);
    let l = std_to_lowercase(t.as_str());
    if contains_str(l.as_str(), "not a git repository") {
        Error::InvalidArgument(to_owned("git diff failed: not a git repository"))
    } else {
        let mut m = to_owned("invalid git ref '");
        append(&mut m, git_ref);
        append(&mut m, "': ");
        append(&mut m, t.as_str());
        Error::InvalidArgument(m)
    }
}

} // verus!
